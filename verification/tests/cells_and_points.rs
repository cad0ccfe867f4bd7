use game_of_life::cell::{Cell, FILE_BLANK, FILE_CELL};
use game_of_life::point::Point;

#[test]
fn alive_builds_both_states() {
    assert_eq!(Cell::alive(true), Cell::Alive);
    assert_eq!(Cell::alive(false), Cell::Dead);
}

#[test]
fn display_tokens_are_three_wide() {
    assert_eq!(Cell::Alive.to_string(), "(_)");
    assert_eq!(Cell::Dead.to_string(), " . ");
}

#[test]
fn file_tokens_are_the_markers() {
    assert_eq!(Cell::Alive.to_file_token(), "o");
    assert_eq!(Cell::Dead.to_file_token(), ".");
    assert_eq!(FILE_CELL, 'o');
    assert_eq!(FILE_BLANK, '.');
}

#[test]
fn from_str_decodes_markers() {
    assert_eq!(Cell::from_str("o"), Cell::Alive);
    assert_eq!(Cell::from_str("."), Cell::Dead);
}

#[test]
fn from_str_takes_unknown_tokens_as_dead() {
    assert_eq!(Cell::from_str("x"), Cell::Dead);
    assert_eq!(Cell::from_str(""), Cell::Dead);
    assert_eq!(Cell::from_str("oo"), Cell::Dead);
    assert_eq!(Cell::from_str("O"), Cell::Dead);
    assert_eq!(Cell::from_str(" "), Cell::Dead);
}

#[test]
fn from_char_decodes_markers() {
    assert_eq!(Cell::from_char('o'), Cell::Alive);
    assert_eq!(Cell::from_char('.'), Cell::Dead);
    assert_eq!(Cell::from_char('#'), Cell::Dead);
}

#[test]
fn file_token_round_trip() {
    for cell in [Cell::Alive, Cell::Dead] {
        assert_eq!(Cell::from_str(&cell.to_file_token()), cell);
    }
}

#[test]
fn point_from_keeps_coordinates() {
    let p = Point::from(3, -4);
    assert_eq!(p.x, 3);
    assert_eq!(p.y, -4);
}

#[test]
fn point_from_usize_keeps_indices() {
    let p = Point::from_usize(7, 0);
    assert_eq!(p, Point { x: 7, y: 0 });
}

#[test]
fn point_add_is_component_wise() {
    let p = Point::from(2, 5).add(Point::from(-1, 1));
    assert_eq!(p, Point::from(1, 6));
    assert_eq!(Point::from(2, 5).add(Point::from(0, 0)), Point::from(2, 5));
}

#[test]
fn point_eq_compares_both_coordinates() {
    assert!(Point::from(1, 2).eq(Point::from(1, 2)));
    assert!(!Point::from(1, 2).eq(Point::from(2, 1)));
    assert!(!Point::from(1, 2).eq(Point::from(1, 3)));
}
