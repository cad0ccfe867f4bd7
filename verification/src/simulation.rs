//! A run of the game: a board, a number of days, and the text that the
//! run reports.

use vstd::prelude::*;
use vstd::string::*;
use crate::board::{next_grid, render_grid, well_formed, Board};
use crate::cell::Cell;
use crate::load::grid_of;
use crate::text::{decimal, lemma_split_nonempty, push_decimal, split, split_str};

verus! {

/// A board loaded from a named file and the number of days to run it for.
#[derive(Debug)]
pub struct Simulation {
    pub name: String,
    pub board: Board,
    pub days: i32,
    pub delayed: bool,
}

/// The grid after `n` steps.
pub open spec fn generation(g: Seq<Seq<Cell>>, n: nat) -> Seq<Seq<Cell>>
    decreases n,
{
    if n == 0 {
        g
    } else {
        next_grid(generation(g, (n - 1) as nat))
    }
}

/// The report of one day: a heading with the day's number, the display
/// text of the board, and an empty line.
pub open spec fn day_report(day: int, g: Seq<Seq<Cell>>) -> Seq<char> {
    seq!['D', 'a', 'y', ' '] + decimal(day) + seq![':', '\n'] + render_grid(g) + seq!['\n']
}

/// The path under which the reports of a run are kept: the file name up
/// to its first dot, and the number of days.
pub open spec fn output_path(name: Seq<char>, days: int) -> Seq<char> {
    "output/"@ + split(name, '.')[0] + seq!['-'] + decimal(days) + "-days.txt"@
}

impl Simulation {
    /// The run of the board that the text of the file `filename` holds,
    /// for `days` days, with a pause between the days.
    pub fn load(filename: &str, text: String, days: i32) -> (simulation: Simulation)
        ensures
            simulation.name@ == filename@,
            simulation.board@ == grid_of(filename@, text@),
            simulation.days == days,
            simulation.delayed,
    {
        let board = Board::from_file(filename, text);
        Simulation { name: String::from_str(filename), board, days, delayed: true }
    }

    /// The run of the board that the text of the file `filename` holds,
    /// or `None` where the file does not hold a grid that a board can
    /// stand on.
    pub fn parse(filename: &str, text: String, days: i32) -> (simulation: Option<Simulation>)
        ensures
            match simulation {
                Some(s) => {
                    &&& s.name@ == filename@
                    &&& s.board@ == grid_of(filename@, text@)
                    &&& s.board.wf()
                    &&& s.days == days
                    &&& s.delayed
                },
                None => !well_formed(grid_of(filename@, text@)),
            },
    {
        match Board::parse(filename, text) {
            Some(board) => Some(
                Simulation { name: String::from_str(filename), board, days, delayed: true },
            ),
            None => None,
        }
    }

    /// The report of one day of a run.
    pub fn report(day: i32, board: &Board) -> (text: String)
        ensures
            text@ == day_report(day as int, board@),
    {
        let mut text = String::from_str("Day ");
        push_decimal(&mut text, day);
        text.append(":\n");
        let rendered = board.render();
        text.append(rendered.as_str());
        text.append("\n");
        proof {
            reveal_strlit("Day ");
            reveal_strlit(":\n");
            reveal_strlit("\n");
            assert(text@ =~= day_report(day as int, board@));
        }
        text
    }

    /// The reports of the run, one for each day from the first: the report
    /// of day `i + 1` shows the board after `i` steps. A run of no days, or
    /// of a negative number of days, reports nothing.
    pub fn run(&self) -> (reports: Vec<String>)
        requires
            self.board.wf(),
        ensures
            reports@.len() == (if self.days > 0 { self.days as int } else { 0 }),
            forall|i: int| 0 <= i < reports@.len() ==> (#[trigger] reports@[i])@ == day_report(
                i + 1,
                generation(self.board@, i as nat),
            ),
    {
        let mut reports: Vec<String> = Vec::new();
        if self.days < 1 {
            return reports;
        }
        reports.push(Simulation::report(1, &self.board));
        let mut current = self.board.simulate_step();
        let mut day: i32 = 1;
        proof {
            assert(generation(self.board@, 1) == next_grid(generation(self.board@, 0)));
        }
        while day < self.days
            invariant
                1 <= day <= self.days,
                current.wf(),
                current@ == generation(self.board@, day as nat),
                reports@.len() == day,
                forall|i: int| 0 <= i < reports@.len() ==> (#[trigger] reports@[i])@ == day_report(
                    i + 1,
                    generation(self.board@, i as nat),
                ),
            decreases self.days - day,
        {
            day += 1;
            reports.push(Simulation::report(day, &current));
            current = current.simulate_step();
        }
        reports
    }

    /// The path under which the reports of the run are kept.
    pub fn save_path(&self) -> (path: String)
        ensures
            path@ == output_path(self.name@, self.days as int),
    {
        let parts = split_str(self.name.as_str(), '.');
        proof {
            lemma_split_nonempty(self.name@, '.');
        }
        let mut path = String::from_str("output/");
        path.append(parts[0]);
        path.append("-");
        push_decimal(&mut path, self.days);
        path.append("-days.txt");
        proof {
            reveal_strlit("-");
            assert(path@ =~= output_path(self.name@, self.days as int));
        }
        path
    }
}

} // verus!
