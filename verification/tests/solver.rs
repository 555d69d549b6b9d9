use four_in_a_row::board::BitBoard;
use four_in_a_row::solver::{Solver, COLUMN_ORDER, HORIZON, WIN_SCORE};

fn play(moves: &[usize]) -> BitBoard {
    let mut board: BitBoard = BitBoard::new();
    for col in moves {
        assert!(board.is_legal_move(*col));
        board = board.make_move(*col);
    }
    board
}

/// A grid without four in a line anywhere: columns 0 to 7 full, column 8
/// filled up to `height`, owners alternating by row and by pair of columns.
fn crowded(height: usize) -> Vec<Vec<char>> {
    let mut rows: Vec<Vec<char>> = Vec::new();
    for line in 0..7usize {
        let row: usize = 6 - line;
        let mut glyphs: Vec<char> = Vec::new();
        for col in 0..9usize {
            if col == 8 && row >= height {
                glyphs.push('.');
            } else if (col / 2 + row) % 2 == 0 {
                glyphs.push('0');
            } else {
                glyphs.push('1');
            }
        }
        rows.push(glyphs);
    }
    rows
}

#[test]
fn tuning_constants() {
    assert_eq!(HORIZON, 9);
    assert_eq!(WIN_SCORE, 127);
    assert_eq!(COLUMN_ORDER, [4, 3, 5, 2, 6, 1, 7, 0, 8]);
}

#[test]
fn beyond_the_horizon_the_score_is_zero() {
    let mut solver: Solver = Solver::new();
    let board: BitBoard = play(&[0, 0, 1, 1, 2, 2]);
    assert_eq!(solver.negamax(&board, -127, 127, 10), 0);
    assert_eq!(solver.negamax(&board, 5, 7, 11), 0);
    assert_eq!(solver.negamax(&BitBoard::new(), -127, 127, usize::MAX), 0);
}

#[test]
fn immediate_win_scores_127_minus_pieces() {
    let mut solver: Solver = Solver::new();
    let board: BitBoard = play(&[0, 0, 1, 1, 2, 2]);
    assert!(board.move_causes_win(3));
    assert_eq!(solver.negamax(&board, -127, 127, 0), 121);
    assert_eq!(solver.negamax(&board, -127, 127, 9), 121);
    assert_eq!(solver.negamax(&board, -5, 5, 3), 121);
    let later: BitBoard = play(&[0, 0, 1, 1, 2, 2, 8, 8]);
    assert_eq!(solver.negamax(&later, -127, 127, 0), 119);
}

#[test]
fn last_level_scores_zero_when_nothing_is_won() {
    let mut solver: Solver = Solver::new();
    let board: BitBoard = play(&[4, 4, 3]);
    assert_eq!(solver.negamax(&board, -127, 127, 9), 0);
    let mut other: Solver = Solver::new();
    assert_eq!(other.negamax(&board, -127, -3, 9), 0);
    let mut third: Solver = Solver::new();
    assert_eq!(third.negamax(&board, 4, 127, 9), 4);
}

#[test]
fn loss_in_two_scores_negative() {
    let mut solver: Solver = Solver::new();
    let board: BitBoard = play(&[0, 8, 1, 8, 2]);
    let rows: Vec<Vec<char>> = vec![
        ".........".chars().collect(),
        ".........".chars().collect(),
        ".........".chars().collect(),
        ".........".chars().collect(),
        ".........".chars().collect(),
        "........1".chars().collect(),
        ".000....1".chars().collect(),
    ];
    let doomed: BitBoard = BitBoard::from_input(5, &rows).unwrap();
    assert_eq!(solver.negamax(&doomed, -127, 127, 8), -(127 - 6));
    let blocked: i8 = solver.negamax(&board, -127, 127, 8);
    assert_eq!(blocked, 0);
}

#[test]
fn empty_board_has_no_forced_win_within_the_horizon() {
    let mut solver: Solver = Solver::new();
    let board: BitBoard = BitBoard::new();
    for col in 0..9usize {
        assert!(!board.move_causes_win(col));
    }
    let score: i8 = solver.negamax(&board, -127, 127, 0);
    assert!(score <= 0);
    assert!(score >= -127);
}

#[test]
fn scores_stay_in_range() {
    let mut solver: Solver = Solver::new();
    let mut seed: u64 = 99;
    for _game in 0..40usize {
        let mut board: BitBoard = BitBoard::new();
        for _ply in 0..30usize {
            seed = seed.wrapping_mul(6364136223846793005).wrapping_add(1442695040888963407);
            let col: usize = ((seed >> 33) % 9) as usize;
            if board.is_legal_move(col) {
                board = board.make_move(col);
            }
            let alpha: i8 = (((seed >> 20) % 255) as i32 - 127) as i8;
            let beta: i8 = (((seed >> 40) % 255) as i32 - 127) as i8;
            let score: i8 = solver.negamax(&board, alpha, beta, 6);
            assert!(score >= -127);
        }
    }
}

#[test]
fn single_open_column_is_the_forced_continuation() {
    for height in [2usize, 4, 6] {
        let rows: Vec<Vec<char>> = crowded(height);
        let board: BitBoard = BitBoard::from_input(0, &rows).unwrap();
        for col in 0..8usize {
            assert!(!board.is_legal_move(col));
        }
        assert!(board.is_legal_move(8));
        assert!(!board.move_causes_win(8));
        for (alpha, beta) in [(-127i8, 127i8), (-10, 10), (0, 1), (-127, -100)] {
            let mut solver: Solver = Solver::new();
            let score: i8 = solver.negamax(&board, alpha, beta, 3);
            let mut fresh: Solver = Solver::new();
            let reply: i8 = -fresh.negamax(&board.make_move(8), -beta, -alpha, 4);
            let expected: i8 = if reply >= beta {
                reply
            } else if reply > alpha {
                reply
            } else {
                alpha
            };
            assert_eq!(score, expected);
        }
    }
}

#[test]
fn full_board_returns_alpha() {
    let rows: Vec<Vec<char>> = crowded(7);
    let board: BitBoard = BitBoard::from_input(1, &rows).unwrap();
    assert_eq!(board.moves_played(), 63);
    let mut solver: Solver = Solver::new();
    assert_eq!(solver.negamax(&board, -3, 50, 0), -3);
    assert_eq!(solver.negamax(&board, 20, 50, 0), -3);
    assert_eq!(solver.negamax(&board, -20, 50, 0), -20);
}

#[test]
fn stored_bound_lowers_beta() {
    let board: BitBoard = play(&[4, 4, 3]);
    let mut solver: Solver = Solver::new();
    assert_eq!(solver.negamax(&board, -50, 127, 9), 0);
    assert_eq!(solver.negamax(&board, 10, 127, 9), 0);
    assert_eq!(solver.negamax(&board, -50, -20, 9), 0);
}

#[test]
fn mirrored_positions_score_zero_beyond_the_horizon() {
    let rows: Vec<Vec<char>> = vec![
        ".........".chars().collect(),
        ".........".chars().collect(),
        ".........".chars().collect(),
        ".........".chars().collect(),
        ".........".chars().collect(),
        "...10....".chars().collect(),
        "..010....".chars().collect(),
    ];
    let board: BitBoard = BitBoard::from_input(0, &rows).unwrap();
    let mirror: BitBoard = BitBoard::from_input(1, &rows).unwrap();
    assert_eq!(mirror.mask(), board.mask());
    assert_eq!(mirror.position(), board.position() ^ board.mask());
    let mut solver: Solver = Solver::new();
    let mut other: Solver = Solver::new();
    assert_eq!(solver.negamax(&board, -127, 127, 10), -other.negamax(&mirror, -127, 127, 10));
    assert_eq!(solver.negamax(&board, -127, 127, 9), -other.negamax(&mirror, -127, 127, 9));
}

/// The choice at the root, written out: every open column in order, the
/// reply searched from the best score so far, the first strict improvement
/// kept.
fn choose_by_hand(board: &BitBoard) -> usize {
    let mut solver: Solver = Solver::new();
    let mut best_score: i8 = -127;
    let mut best_move: usize = 0;
    for col in COLUMN_ORDER.iter() {
        if board.is_legal_move(*col) {
            let score: i8 = -solver.negamax(&board.make_move(*col), best_score, 127, 0);
            if score > best_score {
                best_score = score;
                best_move = *col;
            }
        }
    }
    best_move
}

#[test]
fn best_move_is_the_first_strict_improvement() {
    let mut seed: u64 = 4242;
    for _game in 0..3usize {
        let mut board: BitBoard = BitBoard::new();
        let mut placed: usize = 0;
        while placed < 40 {
            seed = seed.wrapping_mul(6364136223846793005).wrapping_add(1442695040888963407);
            let col: usize = ((seed >> 33) % 9) as usize;
            if board.is_legal_move(col) && !board.move_causes_win(col) {
                board = board.make_move(col);
                placed += 1;
            }
        }
        let mut solver: Solver = Solver::new();
        let chosen: usize = solver.best_move(&board);
        assert!(chosen < 9);
        assert_eq!(chosen, choose_by_hand(&board));
    }
}

#[test]
fn best_move_plays_the_only_open_column() {
    let board: BitBoard = BitBoard::from_input(0, &crowded(6)).unwrap();
    let mut solver: Solver = Solver::new();
    assert_eq!(solver.best_move(&board), 8);
}

#[test]
fn best_move_on_a_full_board_is_column_zero() {
    let full: BitBoard = BitBoard::from_input(1, &crowded(7)).unwrap();
    let mut solver: Solver = Solver::new();
    assert_eq!(solver.best_move(&full), 0);
}
