use game_of_life::board::Board;
use game_of_life::cell::Cell;
use game_of_life::point::Point;

fn grid_from(rows: &[&str]) -> Vec<Vec<Cell>> {
    rows.iter().map(|row| row.chars().map(Cell::from_char).collect()).collect()
}

fn board_from(rows: &[&str]) -> Board {
    Board::from(grid_from(rows))
}

#[test]
fn from_keeps_the_grid() {
    let grid = grid_from(&["o.", ".o"]);
    let board = Board::from(grid.clone());
    assert_eq!(board.grid, grid);
}

#[test]
fn well_formed_boards_are_told_apart() {
    assert!(board_from(&["o.", ".o"]).is_well_formed());
    assert!(board_from(&["o"]).is_well_formed());
    assert!(!board_from(&["o.", "o"]).is_well_formed());
    assert!(!board_from(&[]).is_well_formed());
    assert!(!board_from(&[""]).is_well_formed());
    assert!(!board_from(&["", ""]).is_well_formed());
}

#[test]
fn in_range_follows_the_bounds() {
    let board = board_from(&["...", "..."]);
    assert!(board.in_range(Point::from(0, 0)));
    assert!(board.in_range(Point::from(2, 1)));
    assert!(!board.in_range(Point::from(3, 1)));
    assert!(!board.in_range(Point::from(2, 2)));
    assert!(!board.in_range(Point::from(-1, 0)));
    assert!(!board.in_range(Point::from(0, -1)));
}

#[test]
fn get_cell_reads_column_then_row() {
    let board = board_from(&[".o.", "..."]);
    assert_eq!(board.get_cell(Point::from(1, 0)), Cell::Alive);
    assert_eq!(board.get_cell(Point::from(0, 1)), Cell::Dead);
    assert!(board.is_alive(Point::from(1, 0)));
    assert!(!board.is_alive(Point::from(2, 1)));
}

#[test]
fn corner_of_full_grid_has_three_neighbors() {
    let board = board_from(&["ooo", "ooo", "ooo"]);
    assert_eq!(board.count_neighbors(Point::from(0, 0)), 3);
    assert_eq!(board.count_neighbors(Point::from(2, 2)), 3);
    assert_eq!(board.count_neighbors(Point::from(1, 0)), 5);
    assert_eq!(board.count_neighbors(Point::from(1, 1)), 8);
}

#[test]
fn neighbor_counts_stay_between_zero_and_eight() {
    let board = board_from(&["o.o", ".oo", "oo."]);
    for y in -2..5 {
        for x in -2..5 {
            let n = board.count_neighbors(Point::from(x, y));
            assert!((0..=8).contains(&n));
        }
    }
}

#[test]
fn neighbors_of_points_off_the_board() {
    let board = board_from(&["ooo", "ooo", "ooo"]);
    assert_eq!(board.count_neighbors(Point::from(-1, -1)), 1);
    assert_eq!(board.count_neighbors(Point::from(3, 1)), 3);
    assert_eq!(board.count_neighbors(Point::from(10, 10)), 0);
    assert_eq!(board.count_neighbors(Point::from(i32::MAX, i32::MAX)), 0);
    assert_eq!(board.count_neighbors(Point::from(i32::MIN, i32::MIN)), 0);
}

#[test]
fn the_center_does_not_count_itself() {
    let board = board_from(&["...", ".o.", "..."]);
    assert_eq!(board.count_neighbors(Point::from(1, 1)), 0);
    assert_eq!(board.count_neighbors(Point::from(0, 0)), 1);
}

#[test]
fn all_dead_stays_all_dead() {
    let board = board_from(&["...", "...", "..."]);
    assert_eq!(board.simulate_step(), board_from(&["...", "...", "..."]));
}

#[test]
fn a_lonely_cell_dies() {
    let board = board_from(&["...", ".o.", "..."]);
    assert_eq!(board.simulate_step(), board_from(&["...", "...", "..."]));
}

#[test]
fn a_full_grid_keeps_its_corners() {
    let board = board_from(&["ooo", "ooo", "ooo"]);
    assert_eq!(board.simulate_step(), board_from(&["o.o", "...", "o.o"]));
}

#[test]
fn a_blinker_turns() {
    let board = board_from(&["...", "ooo", "..."]);
    let next = board.simulate_step();
    assert_eq!(next, board_from(&[".o.", ".o.", ".o."]));
    assert_eq!(next.simulate_step(), board);
}

#[test]
fn three_neighbors_give_birth() {
    let board = board_from(&["oo.", "o..", "..."]);
    assert_eq!(board.simulate_step(), board_from(&["oo.", "oo.", "..."]));
}

#[test]
fn a_step_leaves_the_board_as_it_was() {
    let board = board_from(&["...", "ooo", "..."]);
    let first = board.simulate_step();
    let second = board.simulate_step();
    assert_eq!(first, second);
    assert_eq!(board, board_from(&["...", "ooo", "..."]));
}

#[test]
fn a_step_keeps_the_size() {
    let board = board_from(&["o..o.", ".oo..", "o.o.o"]);
    let next = board.simulate_step();
    assert_eq!(next.grid.len(), 3);
    assert!(next.grid.iter().all(|row| row.len() == 5));
    assert!(next.is_well_formed());
}

#[test]
fn a_single_cell_board_steps() {
    assert_eq!(board_from(&["o"]).simulate_step(), board_from(&["."]));
}

#[test]
fn render_writes_a_line_for_each_row() {
    let board = board_from(&["o.", ".o"]);
    assert_eq!(board.render(), "(_) . \n . (_)\n");
}

#[test]
fn render_of_no_rows_is_empty() {
    assert_eq!(board_from(&[]).render(), "");
    assert_eq!(board_from(&[""]).render(), "\n");
}
