//! The two-state cell and its text tokens.

use vstd::prelude::*;
use vstd::string::*;

verus! {

/// The state of one position of the grid.
#[derive(PartialEq, Eq, Structural, Debug, Clone, Copy)]
pub enum Cell {
    Dead,
    Alive,
}

/// The character that marks a living cell in a board file.
pub const FILE_CELL: char = 'o';

/// The character that marks a dead cell in a board file.
pub const FILE_BLANK: char = '.';

/// The display token of a cell: three characters wide, so that rendered
/// boards keep their proportions.
pub open spec fn display_token(cell: Cell) -> Seq<char> {
    match cell {
        Cell::Alive => seq!['(', '_', ')'],
        Cell::Dead => seq![' ', '.', ' '],
    }
}

/// The file token of a cell: the single marker character.
pub open spec fn file_token(cell: Cell) -> Seq<char> {
    match cell {
        Cell::Alive => seq![FILE_CELL],
        Cell::Dead => seq![FILE_BLANK],
    }
}

/// The cell that one character of a board file stands for: the alive
/// marker is a living cell, every other character a dead one.
pub open spec fn decode_char(c: char) -> Cell {
    if c == FILE_CELL {
        Cell::Alive
    } else {
        Cell::Dead
    }
}

/// The cell that a token stands for: exactly the alive marker is a living
/// cell, every other token (the empty one and longer ones too) a dead one.
pub open spec fn decode(token: Seq<char>) -> Cell {
    if token.len() == 1 && token[0] == FILE_CELL {
        Cell::Alive
    } else {
        Cell::Dead
    }
}

impl Cell {
    /// The cell with the given state.
    pub fn alive(is_alive: bool) -> (cell: Cell)
        ensures
            cell == (if is_alive { Cell::Alive } else { Cell::Dead }),
    {
        if is_alive {
            Cell::Alive
        } else {
            Cell::Dead
        }
    }

    /// The display token of the cell.
    pub fn to_string(&self) -> (token: String)
        ensures
            token@ == display_token(*self),
    {
        proof {
            reveal_strlit("(_)");
            reveal_strlit(" . ");
        }
        match self {
            Cell::Alive => {
                let token = String::from_str("(_)");
                assert(token@ =~= display_token(*self));
                token
            },
            Cell::Dead => {
                let token = String::from_str(" . ");
                assert(token@ =~= display_token(*self));
                token
            },
        }
    }

    /// The file token of the cell.
    pub fn to_file_token(&self) -> (token: String)
        ensures
            token@ == file_token(*self),
    {
        proof {
            reveal_strlit("o");
            reveal_strlit(".");
        }
        match self {
            Cell::Alive => {
                let token = String::from_str("o");
                assert(token@ =~= file_token(*self));
                token
            },
            Cell::Dead => {
                let token = String::from_str(".");
                assert(token@ =~= file_token(*self));
                token
            },
        }
    }

    /// Decodes one character of a board file.
    pub fn from_char(c: char) -> (cell: Cell)
        ensures
            cell == decode_char(c),
    {
        if c == FILE_CELL {
            Cell::Alive
        } else {
            Cell::Dead
        }
    }

    /// Decodes a token of a board file. Unrecognised tokens are dead cells.
    pub fn from_str(s: &str) -> (cell: Cell)
        ensures
            cell == decode(s@),
    {
        if s.unicode_len() == 1 && s.get_char(0) == FILE_CELL {
            Cell::Alive
        } else {
            Cell::Dead
        }
    }
}

/// Decoding the file token of a cell gives the cell back.
pub proof fn lemma_decode_file_token(cell: Cell)
    ensures
        decode(file_token(cell)) == cell,
        file_token(cell).len() == 1,
        decode_char(file_token(cell)[0]) == cell,
{
}

} // verus!
