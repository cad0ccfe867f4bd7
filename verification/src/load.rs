//! Boards from the text of board files, dense or annotated.

use vstd::prelude::*;
use vstd::string::*;
use crate::board::{rectangular, rows_of, well_formed, Board};
use crate::cell::{decode_char, Cell, FILE_CELL};
use crate::parser::{
    extension_of, find_significant_lines, get_extenstion, lemma_padded_widths, pad_cell_lines,
    padded, significant_lines, FILE_CELL_UPPER,
};
use crate::text::{chars_of, same_text, split, split_str, string_views, trim, trim_str, views};

verus! {

/// A character of an annotated file with the upper-case alive marker
/// turned into the lower-case one.
pub open spec fn fold_case(c: char) -> char {
    if c == FILE_CELL_UPPER {
        FILE_CELL
    } else {
        c
    }
}

/// The row of cells that a line of a dense file stands for: one cell for
/// each character.
pub open spec fn decode_row(line: Seq<char>) -> Seq<Cell> {
    Seq::new(line.len(), |i: int| decode_char(line[i]))
}

/// The row of cells that a line of an annotated file stands for: one cell
/// for each character, both alive markers meaning a living cell.
pub open spec fn decode_annotated_row(line: Seq<char>) -> Seq<Cell> {
    Seq::new(line.len(), |i: int| decode_char(fold_case(line[i])))
}

/// The rows of a dense file with the given lines: each line is trimmed,
/// empty ones are left out, and the others are decoded in order.
pub open spec fn dense_rows(lines: Seq<Seq<char>>) -> Seq<Seq<Cell>>
    decreases lines.len(),
{
    if lines.len() == 0 {
        Seq::empty()
    } else {
        let line = trim(lines.last());
        if line.len() > 0 {
            dense_rows(lines.drop_last()).push(decode_row(line))
        } else {
            dense_rows(lines.drop_last())
        }
    }
}

/// The grid of a dense file.
pub open spec fn dense_grid(text: Seq<char>) -> Seq<Seq<Cell>> {
    dense_rows(split(text, '\n'))
}

/// The grid of an annotated file: its significant lines, padded to one
/// length and decoded.
pub open spec fn annotated_grid(text: Seq<char>) -> Seq<Seq<Cell>> {
    let rows = padded(significant_lines(split(text, '\n')));
    Seq::new(rows.len(), |i: int| decode_annotated_row(rows[i]))
}

/// Whether a file name asks for the annotated format.
pub open spec fn is_annotated(filename: Seq<char>) -> bool {
    extension_of(filename) == "cell"@
}

/// The grid of a file with the given name and text: annotated for the
/// extension `cell`, dense for every other.
pub open spec fn grid_of(filename: Seq<char>, text: Seq<char>) -> Seq<Seq<Cell>> {
    if is_annotated(filename) {
        annotated_grid(text)
    } else {
        dense_grid(text)
    }
}

/// Whether the lines that are not blank all have one length once trimmed.
pub open spec fn even_lines(lines: Seq<Seq<char>>) -> bool {
    forall|i: int, j: int|
        0 <= i < lines.len() && 0 <= j < lines.len() && trim(lines[i]).len() > 0 && trim(
            lines[j],
        ).len() > 0 ==> trim(lines[i]).len() == trim(lines[j]).len()
}

/// The grid of an annotated file is rectangular, whatever the file holds.
pub proof fn lemma_annotated_rectangular(text: Seq<char>)
    ensures
        rectangular(annotated_grid(text)),
{
    let lines = significant_lines(split(text, '\n'));
    lemma_padded_widths(lines);
    let g = annotated_grid(text);
    assert forall|i: int, j: int| 0 <= i < g.len() && 0 <= j < g.len() implies g[i].len()
        == g[j].len() by {
        assert(g[i].len() == padded(lines)[i].len());
        assert(g[j].len() == padded(lines)[j].len());
    }
}

/// Each row of a dense file is as long as one of its trimmed lines that is
/// not blank.
pub proof fn lemma_dense_rows_widths(lines: Seq<Seq<char>>)
    ensures
        forall|r: int|
            0 <= r < dense_rows(lines).len() ==> exists|i: int|
                0 <= i < lines.len() && trim(lines[i]).len() > 0 && trim(lines[i]).len() == (
                #[trigger] dense_rows(lines)[r]).len(),
    decreases lines.len(),
{
    if lines.len() > 0 {
        let front = lines.drop_last();
        lemma_dense_rows_widths(front);
        assert forall|r: int| 0 <= r < dense_rows(lines).len() implies exists|i: int|
            0 <= i < lines.len() && trim(lines[i]).len() > 0 && trim(lines[i]).len() == (
            #[trigger] dense_rows(lines)[r]).len() by {
            if r < dense_rows(front).len() {
                assert(dense_rows(lines)[r] == dense_rows(front)[r]);
                let i = choose|i: int|
                    0 <= i < front.len() && trim(front[i]).len() > 0 && trim(front[i]).len()
                        == dense_rows(front)[r].len();
                assert(lines[i] == front[i]);
            } else {
                let i = lines.len() - 1;
                assert(trim(lines[i]).len() == dense_rows(lines)[r].len());
            }
        }
    }
}

/// The grid of a dense file is rectangular where the lines of the file
/// that are not blank all have one length once trimmed.
pub proof fn lemma_dense_rectangular(text: Seq<char>)
    requires
        even_lines(split(text, '\n')),
    ensures
        rectangular(dense_grid(text)),
{
    let lines = split(text, '\n');
    let g = dense_grid(text);
    lemma_dense_rows_widths(lines);
    assert forall|r: int, s: int| 0 <= r < g.len() && 0 <= s < g.len() implies g[r].len()
        == g[s].len() by {
        let i = choose|i: int|
            0 <= i < lines.len() && trim(lines[i]).len() > 0 && trim(lines[i]).len()
                == g[r].len();
        let j = choose|j: int|
            0 <= j < lines.len() && trim(lines[j]).len() > 0 && trim(lines[j]).len()
                == g[s].len();
    }
}

/// The cells of a line of a dense file.
fn row_of(line: &str) -> (row: Vec<Cell>)
    ensures
        row@ == decode_row(line@),
{
    let chars = chars_of(line);
    let mut row: Vec<Cell> = Vec::new();
    let mut i: usize = 0;
    while i < chars.len()
        invariant
            0 <= i <= chars@.len(),
            chars@ == line@,
            row@.len() == i,
            forall|j: int| 0 <= j < i ==> row@[j] == decode_char(chars@[j]),
        decreases chars@.len() - i,
    {
        row.push(Cell::from_char(chars[i]));
        i += 1;
    }
    assert(row@ =~= decode_row(line@));
    row
}

/// The cells of a line of an annotated file.
fn annotated_row_of(line: &str) -> (row: Vec<Cell>)
    ensures
        row@ == decode_annotated_row(line@),
{
    let chars = chars_of(line);
    let mut row: Vec<Cell> = Vec::new();
    let mut i: usize = 0;
    while i < chars.len()
        invariant
            0 <= i <= chars@.len(),
            chars@ == line@,
            row@.len() == i,
            forall|j: int| 0 <= j < i ==> row@[j] == decode_char(fold_case(chars@[j])),
        decreases chars@.len() - i,
    {
        let c = if chars[i] == FILE_CELL_UPPER {
            FILE_CELL
        } else {
            chars[i]
        };
        row.push(Cell::from_char(c));
        i += 1;
    }
    assert(row@ =~= decode_annotated_row(line@));
    row
}

impl Board {
    /// The board of a file with the given name and text, or `None` where
    /// the file does not hold a grid that a board can stand on: one with
    /// no row or no column, with rows that differ in length, or too large
    /// for a `Point`.
    pub fn parse(filename: &str, text: String) -> (board: Option<Board>)
        ensures
            match board {
                Some(b) => b@ == grid_of(filename@, text@) && b.wf(),
                None => !well_formed(grid_of(filename@, text@)),
            },
    {
        let board = Board::from_file(filename, text);
        if board.is_well_formed() {
            Some(board)
        } else {
            None
        }
    }

    /// The board of a file with the given name and text. The extension
    /// `cell` asks for the annotated format; every other extension, known
    /// or not, for the dense one.
    pub fn from_file(filename: &str, text: String) -> (board: Board)
        ensures
            board@ == grid_of(filename@, text@),
    {
        let extension = get_extenstion(filename);
        if same_text(extension.as_str(), "cell") {
            Board::from_cell_file(text)
        } else {
            Board::from_txt_file(text)
        }
    }

    /// The board of a dense file: each line that is not blank, trimmed, is
    /// a row, and each of its characters a cell. Nothing is padded: the
    /// board is rectangular only where those lines have one length.
    pub fn from_txt_file(text: String) -> (board: Board)
        ensures
            board@ == dense_grid(text@),
            even_lines(split(text@, '\n')) ==> rectangular(board@),
    {
        let lines = split_str(text.as_str(), '\n');
        let mut grid: Vec<Vec<Cell>> = Vec::new();
        let mut i: usize = 0;
        while i < lines.len()
            invariant
                0 <= i <= lines@.len(),
                rows_of(grid@) == dense_rows(views(lines@).take(i as int)),
            decreases lines@.len() - i,
        {
            proof {
                assert(views(lines@).take(i + 1).drop_last() =~= views(lines@).take(i as int));
                assert(views(lines@).take(i + 1).last() == lines@[i as int]@);
            }
            let line = trim_str(lines[i]);
            if line.unicode_len() > 0 {
                let ghost earlier = rows_of(grid@);
                let row = row_of(line);
                grid.push(row);
                assert(rows_of(grid@) =~= earlier.push(decode_row(line@)));
            }
            i += 1;
        }
        proof {
            assert(views(lines@).take(i as int) =~= views(lines@));
            if even_lines(split(text@, '\n')) {
                lemma_dense_rectangular(text@);
            }
        }
        Board::from(grid)
    }

    /// The board of an annotated file: its significant lines are the rows,
    /// shorter ones padded on the right with dead cells to the length of
    /// the longest. The board is rectangular, whatever the file holds.
    pub fn from_cell_file(text: String) -> (board: Board)
        ensures
            board@ == annotated_grid(text@),
            rectangular(board@),
    {
        let lines = split_str(text.as_str(), '\n');
        let raw_cell_lines = find_significant_lines(lines);
        let pad_cell_lines = pad_cell_lines(raw_cell_lines);
        let mut grid: Vec<Vec<Cell>> = Vec::new();
        let mut i: usize = 0;
        while i < pad_cell_lines.len()
            invariant
                0 <= i <= pad_cell_lines@.len(),
                grid@.len() == i,
                forall|j: int| 0 <= j < i ==> (#[trigger] grid@[j])@ == decode_annotated_row(pad_cell_lines@[j]@),
            decreases pad_cell_lines@.len() - i,
        {
            let row = annotated_row_of(pad_cell_lines[i].as_str());
            grid.push(row);
            i += 1;
        }
        let board = Board::from(grid);
        proof {
            assert(string_views(pad_cell_lines@) == padded(significant_lines(split(text@, '\n'))));
            assert forall|j: int| 0 <= j < board@.len() implies board@[j] == annotated_grid(
                text@,
            )[j] by {
                assert(string_views(pad_cell_lines@)[j] == pad_cell_lines@[j]@);
            }
            assert(board@ =~= annotated_grid(text@));
            lemma_annotated_rectangular(text@);
        }
        board
    }
}

} // verus!
