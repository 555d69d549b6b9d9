use four_in_a_row::board::BitBoard;
use four_in_a_row::driver::{choose_reply, Reply, OPENING_COLUMN, STOLEN_COLUMN};
use four_in_a_row::solver::Solver;

#[test]
fn first_turn_opens_on_column_three() {
    let mut solver: Solver = Solver::new();
    let board: BitBoard = BitBoard::new();
    assert_eq!(OPENING_COLUMN, 3);
    assert_eq!(choose_reply(&mut solver, &board, 0, -1), Reply::Column(3));
}

#[test]
fn second_player_steals_an_opening_on_column_four() {
    let mut solver: Solver = Solver::new();
    let board: BitBoard = BitBoard::new().make_move(4);
    assert_eq!(STOLEN_COLUMN, 4);
    assert_eq!(choose_reply(&mut solver, &board, 1, 4), Reply::Steal);
}

#[test]
fn stealing_does_not_use_the_solver() {
    let mut solver: Solver = Solver::new();
    let board: BitBoard = BitBoard::new().make_move(4);
    assert_eq!(choose_reply(&mut solver, &board, 1, 4), Reply::Steal);
    let mut fresh: Solver = Solver::new();
    let probe: BitBoard = board.make_move(0);
    assert_eq!(solver.negamax(&probe, -127, 127, 9), fresh.negamax(&probe, -127, 127, 9));
}

fn nearly_full() -> BitBoard {
    let mut rows: Vec<Vec<char>> = Vec::new();
    for line in 0..7usize {
        let row: usize = 6 - line;
        let mut glyphs: Vec<char> = Vec::new();
        for col in 0..9usize {
            if col == 8 && row >= 6 {
                glyphs.push('.');
            } else if (col / 2 + row) % 2 == 0 {
                glyphs.push('0');
            } else {
                glyphs.push('1');
            }
        }
        rows.push(glyphs);
    }
    BitBoard::from_input(62, &rows).unwrap()
}

#[test]
fn later_turns_ask_the_solver() {
    let board: BitBoard = nearly_full();
    let mut solver: Solver = Solver::new();
    assert_eq!(choose_reply(&mut solver, &board, 62, 0), Reply::Column(8));
    let mut other: Solver = Solver::new();
    assert_eq!(choose_reply(&mut other, &board, 1, 3), Reply::Column(8));
    let mut third: Solver = Solver::new();
    assert_eq!(choose_reply(&mut third, &board, 2, 4), Reply::Column(8));
}

#[test]
fn reply_is_the_best_move() {
    let mut board: BitBoard = BitBoard::new();
    let mut seed: u64 = 31337;
    let mut placed: usize = 0;
    while placed < 44 {
        seed = seed.wrapping_mul(6364136223846793005).wrapping_add(1442695040888963407);
        let col: usize = ((seed >> 33) % 9) as usize;
        if board.is_legal_move(col) && !board.move_causes_win(col) {
            board = board.make_move(col);
            placed += 1;
        }
    }
    let mut solver: Solver = Solver::new();
    let mut other: Solver = Solver::new();
    let expected: usize = other.best_move(&board);
    assert_eq!(choose_reply(&mut solver, &board, 44, 2), Reply::Column(expected));
}
