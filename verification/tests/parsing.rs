use game_of_life::board::Board;
use game_of_life::cell::Cell;
use game_of_life::metadata::Metadata;
use game_of_life::parser::{
    find_largest_line, find_significant_lines, get_extenstion, get_metadata, is_significant,
    is_url, pad_cell_lines, parse_header, url_verdict,
};
use game_of_life::text::{char_is_whitespace, chars_of, same_text, split_str, trim_str};

fn cells_of(rows: &[&str]) -> Vec<Vec<Cell>> {
    rows.iter().map(|row| row.chars().map(Cell::from_char).collect()).collect()
}

fn value_of(meta: &Metadata, key: &str) -> Option<String> {
    meta.get(key)
}

#[test]
fn chars_of_keeps_every_character() {
    assert_eq!(chars_of("a\u{e9}z"), vec!['a', '\u{e9}', 'z']);
    assert_eq!(chars_of(""), Vec::<char>::new());
}

#[test]
fn same_text_compares_contents() {
    assert!(same_text("cell", "cell"));
    assert!(!same_text("cell", "cells"));
    assert!(!same_text("cell", "call"));
    assert!(same_text("", ""));
}

#[test]
fn split_str_keeps_empty_pieces() {
    assert_eq!(split_str("a\nb", '\n'), vec!["a", "b"]);
    assert_eq!(split_str("", '\n'), vec![""]);
    assert_eq!(split_str("a\n", '\n'), vec!["a", ""]);
    assert_eq!(split_str("\n\nx", '\n'), vec!["", "", "x"]);
    assert_eq!(split_str("no separator", '\n'), vec!["no separator"]);
}

#[test]
fn trim_str_removes_whitespace_at_both_ends() {
    assert_eq!(trim_str("  a b \t\r\n"), "a b");
    assert_eq!(trim_str("\u{a0}x\u{2003}"), "x");
    assert_eq!(trim_str("   "), "");
    assert_eq!(trim_str(""), "");
    assert_eq!(trim_str("x"), "x");
}

#[test]
fn extension_is_what_follows_the_last_dot() {
    assert_eq!(get_extenstion("glider.txt"), "txt");
    assert_eq!(get_extenstion("a.b.cell"), "cell");
    assert_eq!(get_extenstion("noext"), "noext");
    assert_eq!(get_extenstion("trailing."), "");
    assert_eq!(get_extenstion(""), "");
}

#[test]
fn url_verdict_needs_a_match() {
    assert!(url_verdict(Some(true)));
    assert!(!url_verdict(Some(false)));
    assert!(!url_verdict(None));
}

#[test]
fn is_url_knows_url_shapes() {
    assert!(is_url("https://example.com/x?y=1"));
    assert!(is_url("example.com/x"));
    assert!(is_url("www.conwaylife.com/wiki"));
    assert!(!is_url("A cool pattern"));
    assert!(!is_url(""));
    assert!(is_url("example.com"));
    assert!(!is_url("example.c"));
    assert!(!is_url("a.bc"));
    assert!(is_url("a.bcd"));
    assert!(!is_url("EXAMPLE.COM/X"));
}

#[test]
fn parse_header_splits_at_the_first_separator() {
    assert_eq!(
        parse_header("!Author: Jane", false),
        Some(("Author".to_string(), "Jane".to_string()))
    );
    assert_eq!(
        parse_header("!Time: 12:30 ", true),
        Some(("Time".to_string(), "12:30".to_string()))
    );
    assert_eq!(parse_header("!:", false), Some((String::new(), String::new())));
}

#[test]
fn parse_header_names_lines_without_separator() {
    assert_eq!(
        parse_header("!example.com/x", true),
        Some(("URL".to_string(), "example.com/x".to_string()))
    );
    assert_eq!(
        parse_header("! A cool pattern", false),
        Some(("Description".to_string(), "A cool pattern".to_string()))
    );
    assert_eq!(parse_header("!", false), Some(("Description".to_string(), String::new())));
}

#[test]
fn parse_header_refuses_other_lines() {
    assert_eq!(parse_header("", false), None);
    assert_eq!(parse_header("O.O", true), None);
    assert_eq!(parse_header(" !x", false), None);
}

#[test]
fn metadata_of_a_key_value_line() {
    let meta = get_metadata("!Author: Jane");
    assert_eq!(meta.len(), 1);
    assert_eq!(value_of(&meta, "Author"), Some("Jane".to_string()));
}

#[test]
fn metadata_of_a_url_line() {
    let meta = get_metadata("!example.com/x?y=1");
    assert_eq!(meta.len(), 1);
    assert_eq!(value_of(&meta, "URL"), Some("example.com/x?y=1".to_string()));
    assert_eq!(value_of(&meta, "Description"), None);
}

#[test]
fn metadata_of_a_url_with_a_scheme_is_split_at_the_colon() {
    let meta = get_metadata("!https://example.com/x?y=1");
    assert_eq!(meta.len(), 1);
    assert_eq!(value_of(&meta, "https"), Some("//example.com/x?y=1".to_string()));
    assert_eq!(value_of(&meta, "URL"), None);
}

#[test]
fn metadata_of_a_description_line() {
    let meta = get_metadata("!A cool pattern");
    assert_eq!(meta.len(), 1);
    assert_eq!(value_of(&meta, "Description"), Some("A cool pattern".to_string()));
}

#[test]
fn metadata_keeps_the_last_value_of_a_key() {
    let text = "!Name: Glider\n!first words\n  !second words\nO.O\n!Name: Other\n!a.io/b\n";
    let meta = get_metadata(text);
    assert_eq!(meta.len(), 3);
    assert_eq!(value_of(&meta, "Name"), Some("Other".to_string()));
    assert_eq!(value_of(&meta, "Description"), Some("second words".to_string()));
    assert_eq!(value_of(&meta, "URL"), Some("a.io/b".to_string()));
}

#[test]
fn metadata_of_a_file_without_header_is_empty() {
    let meta = get_metadata(".O.\n..O\nOOO\n");
    assert_eq!(meta.len(), 0);
    assert_eq!(value_of(&meta, "Name"), None);
}

#[test]
fn metadata_insert_replaces_and_adds() {
    let mut meta = Metadata::new();
    meta.insert("a".to_string(), "1".to_string());
    meta.insert("b".to_string(), "2".to_string());
    meta.insert("a".to_string(), "3".to_string());
    assert_eq!(meta.len(), 2);
    assert_eq!(meta.get("a"), Some("3".to_string()));
    assert_eq!(meta.get("b"), Some("2".to_string()));
    assert_eq!(meta.get("c"), None);
}

#[test]
fn significant_lines_hold_markers_and_no_comment() {
    assert!(is_significant("O.O"));
    assert!(is_significant("..."));
    assert!(is_significant("  .O  "));
    assert!(!is_significant(""));
    assert!(!is_significant("   "));
    assert!(!is_significant("!Name: x"));
    assert!(!is_significant("O.O!"));
    assert!(!is_significant("abc"));
}

#[test]
fn lines_of_lower_case_alive_markers_are_significant() {
    assert!(is_significant("oo"));
    assert!(is_significant("o"));
    assert!(is_significant(" oO "));
    assert!(!is_significant("oo!"));
    assert_eq!(find_significant_lines(vec!["oo", "OO"]), vec!["oo", "OO"]);
    assert_eq!(find_significant_lines(vec!["oo"]), vec!["oo"]);
}

#[test]
fn annotated_file_of_lower_case_markers_has_a_row() {
    let board = Board::from_cell_file("oo\n".to_string());
    assert_eq!(board.grid, vec![vec![Cell::Alive, Cell::Alive]]);
    let mixed = Board::from_cell_file("oo\nOOO\n".to_string());
    assert_eq!(mixed.grid, cells_of(&["oo.", "ooo"]));
}

#[test]
fn whitespace_is_what_unicode_says() {
    let mut count = 0;
    for n in 0..=0x10ffff_u32 {
        if let Some(c) = char::from_u32(n) {
            assert_eq!(char_is_whitespace(c), c.is_whitespace(), "U+{:04X}", n);
            if char_is_whitespace(c) {
                count += 1;
            }
        }
    }
    assert_eq!(count, 25);
}

#[test]
fn parse_gives_well_formed_boards() {
    let dense = Board::parse("a.txt", "o.\n.o\n".to_string());
    assert_eq!(dense, Some(Board::from(cells_of(&["o.", ".o"]))));
    let annotated = Board::parse("a.cell", "!Name: x\nO\n.O.\n".to_string());
    assert_eq!(annotated, Some(Board::from(cells_of(&["o..", ".o."]))));
}

#[test]
fn parse_rejects_empty_and_ragged_grids() {
    assert_eq!(Board::parse("a.txt", String::new()), None);
    assert_eq!(Board::parse("a.txt", " \n\n".to_string()), None);
    assert_eq!(Board::parse("a.txt", "o\nooo\n".to_string()), None);
    assert_eq!(Board::parse("a.cell", "!Name: nothing\n".to_string()), None);
    assert_eq!(Board::parse("a.cell", String::new()), None);
}

#[test]
fn find_significant_lines_keeps_order() {
    let lines = vec!["!Name: x", "O.", "", "....", "!.O", "text", "O"];
    assert_eq!(find_significant_lines(lines), vec!["O.", "....", "O"]);
    assert_eq!(find_significant_lines(Vec::new()), Vec::<&str>::new());
}

#[test]
fn largest_line_is_the_longest() {
    assert_eq!(find_largest_line(&vec!["ab", "abcd", "a"]), 4);
    assert_eq!(find_largest_line(&vec![""]), 0);
    assert_eq!(find_largest_line(&Vec::new()), 0);
    assert_eq!(find_largest_line(&vec!["\u{e9}\u{e9}", "abc"]), 3);
}

#[test]
fn shorter_lines_are_padded_with_dead_markers() {
    assert_eq!(pad_cell_lines(vec!["O.", "O..O"]), vec!["O...", "O..O"]);
    assert_eq!(pad_cell_lines(vec!["", "O"]), vec![".", "O"]);
    assert_eq!(pad_cell_lines(Vec::new()), Vec::<String>::new());
    assert_eq!(pad_cell_lines(vec!["OO", ".."]), vec!["OO", ".."]);
}

#[test]
fn annotated_file_is_padded_to_width_four() {
    let board = Board::from_cell_file("OO\n.O.O\n".to_string());
    assert_eq!(board.grid, cells_of(&["oo..", ".o.o"]));
    assert!(board.grid.iter().all(|row| row.len() == 4));
}

#[test]
fn annotated_file_with_header() {
    let text = "!Name: Glider\n!Author: Someone\n.O\n..O\nOOO\n".to_string();
    let board = Board::from_cell_file(text);
    assert_eq!(board.grid, cells_of(&[".o.", "..o", "ooo"]));
    assert!(board.is_well_formed());
}

#[test]
fn annotated_file_takes_both_alive_markers() {
    let board = Board::from_cell_file("Oo.\n".to_string());
    assert_eq!(board.grid, cells_of(&["oo."]));
}

#[test]
fn annotated_file_without_rows_is_empty() {
    let board = Board::from_cell_file("!Name: nothing\n\n".to_string());
    assert!(board.grid.is_empty());
    assert!(!board.is_well_formed());
}

#[test]
fn dense_file_gives_a_row_for_each_line() {
    let board = Board::from_txt_file(".o.\n..o\nooo\n".to_string());
    assert_eq!(board.grid, cells_of(&[".o.", "..o", "ooo"]));
    assert!(board.is_well_formed());
}

#[test]
fn dense_file_trims_lines_and_skips_blank_ones() {
    let board = Board::from_txt_file("\n  o.  \r\n\n.o".to_string());
    assert_eq!(board.grid, cells_of(&["o.", ".o"]));
}

#[test]
fn dense_file_takes_unknown_characters_as_dead() {
    let board = Board::from_txt_file("oxO\n".to_string());
    assert_eq!(board.grid, cells_of(&["o..", ]));
}

#[test]
fn dense_file_is_not_padded() {
    let board = Board::from_txt_file("o\nooo\n".to_string());
    assert_eq!(board.grid, cells_of(&["o", "ooo"]));
    assert!(!board.is_well_formed());
}

#[test]
fn empty_dense_file_has_no_rows() {
    let board = Board::from_txt_file(String::new());
    assert!(board.grid.is_empty());
    assert!(!board.is_well_formed());
}

#[test]
fn from_file_picks_the_format_by_extension() {
    let text = "O\n.O.\n";
    let annotated = Board::from_file("x.cell", text.to_string());
    assert_eq!(annotated.grid, cells_of(&["o..", ".o."]));
    let dense = Board::from_file("x.txt", text.to_string());
    assert_eq!(dense.grid, cells_of(&[".", "..."]));
}

#[test]
fn from_file_falls_back_to_the_dense_format() {
    let text = "o.\n.o\n";
    let unknown = Board::from_file("x.life", text.to_string());
    let none = Board::from_file("board", text.to_string());
    assert_eq!(unknown, Board::from_txt_file(text.to_string()));
    assert_eq!(none.grid, cells_of(&["o.", ".o"]));
}
