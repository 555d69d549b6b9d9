use four_in_a_row::bits::{BOTTOM_MASK, COLUMNS, GRID_MASK, ROWS};
use four_in_a_row::board::BitBoard;
use std::collections::HashMap;

fn play(moves: &[usize]) -> BitBoard {
    let mut board: BitBoard = BitBoard::new();
    for col in moves {
        assert!(board.is_legal_move(*col));
        board = board.make_move(*col);
    }
    board
}

fn cell_bit(col: usize, row: usize) -> u128 {
    1u128 << (col * 8 + row)
}

/// A plain scan of the drawn board for four `1` glyphs in a line after the
/// side to move has dropped a piece into `col`.
fn scan_for_win(board: &BitBoard, col: usize) -> bool {
    let mut grid: Vec<Vec<char>> = board.render();
    let mut landing: Option<usize> = None;
    for row in 0..7usize {
        if grid[6 - row][col] == '_' {
            landing = Some(row);
            break;
        }
    }
    if let Some(row) = landing {
        grid[6 - row][col] = '1';
    }
    let dirs: [(i32, i32); 4] = [(1, 0), (0, 1), (1, 1), (1, -1)];
    for c in 0..9i32 {
        for r in 0..7i32 {
            for (dc, dr) in dirs.iter() {
                let mut all: bool = true;
                for k in 0..4i32 {
                    let cc: i32 = c + k * dc;
                    let rr: i32 = r + k * dr;
                    if cc < 0 || cc >= 9 || rr < 0 || rr >= 7 {
                        all = false;
                    } else if grid[(6 - rr) as usize][cc as usize] != '1' {
                        all = false;
                    }
                }
                if all {
                    return true;
                }
            }
        }
    }
    false
}

#[test]
fn constants_describe_the_grid() {
    assert_eq!(COLUMNS, 9);
    assert_eq!(ROWS, 7);
    let mut bottom: u128 = 0;
    let mut grid: u128 = 0;
    for col in 0..9usize {
        bottom |= cell_bit(col, 0);
        for row in 0..7usize {
            grid |= cell_bit(col, row);
        }
    }
    assert_eq!(BOTTOM_MASK, bottom);
    assert_eq!(GRID_MASK, grid);
    assert_eq!(BOTTOM_MASK, 0x010101010101010101u128);
}

#[test]
fn new_board_is_empty() {
    let board: BitBoard = BitBoard::new();
    assert_eq!(board.position(), 0);
    assert_eq!(board.mask(), 0);
    assert_eq!(board.moves_played(), 0);
    for col in 0..9usize {
        assert!(board.is_legal_move(col));
    }
}

#[test]
fn masks_have_exact_values() {
    assert_eq!(BitBoard::bottom_mask(0), 1);
    assert_eq!(BitBoard::top_mask(0), 0x40);
    assert_eq!(BitBoard::column_mask(0), 0x7f);
    assert_eq!(BitBoard::bottom_mask(3), 1u128 << 24);
    assert_eq!(BitBoard::top_mask(3), 1u128 << 30);
    assert_eq!(BitBoard::column_mask(3), 0x7fu128 << 24);
    assert_eq!(BitBoard::bottom_mask(8), 1u128 << 64);
    assert_eq!(BitBoard::top_mask(8), 1u128 << 70);
    assert_eq!(BitBoard::column_mask(8), 0x7fu128 << 64);
}

#[test]
fn column_is_legal_until_it_holds_seven() {
    for col in 0..9usize {
        let mut board: BitBoard = BitBoard::new();
        for height in 0..7usize {
            assert!(board.is_legal_move(col), "column {} at height {}", col, height);
            board = board.make_move(col);
        }
        assert!(!board.is_legal_move(col));
        for other in 0..9usize {
            if other != col {
                assert!(board.is_legal_move(other));
            }
        }
    }
}

#[test]
fn make_move_has_exact_bits() {
    let first: BitBoard = BitBoard::new().make_move(4);
    assert_eq!(first.mask(), 1u128 << 32);
    assert_eq!(first.position(), 0);
    assert_eq!(first.moves_played(), 1);
    let second: BitBoard = first.make_move(4);
    assert_eq!(second.mask(), (1u128 << 32) | (1u128 << 33));
    assert_eq!(second.position(), 1u128 << 32);
    assert_eq!(second.moves_played(), 2);
    let third: BitBoard = second.make_move(0);
    assert_eq!(third.mask(), (1u128 << 32) | (1u128 << 33) | 1);
    assert_eq!(third.position(), 1u128 << 33);
    assert_eq!(third.moves_played(), 3);
}

#[test]
fn make_move_leaves_the_board_untouched() {
    let before: BitBoard = play(&[4, 4, 3]);
    let copy: BitBoard = before;
    let _after: BitBoard = before.make_move(5);
    assert_eq!(before, copy);
    assert_eq!(before.moves_played(), 3);
}

#[test]
fn make_move_swaps_sides() {
    let mut seed: u64 = 0x9e3779b97f4a7c15;
    for _game in 0..200usize {
        let mut board: BitBoard = BitBoard::new();
        for _ply in 0..63usize {
            seed = seed.wrapping_mul(6364136223846793005).wrapping_add(1442695040888963407);
            let col: usize = ((seed >> 33) % 9) as usize;
            if !board.is_legal_move(col) {
                continue;
            }
            let next: BitBoard = board.make_move(col);
            assert_eq!(next.position() & board.mask(), board.mask() & !board.position());
            assert_eq!(next.position(), board.position() ^ board.mask());
            assert_eq!(next.moves_played(), board.moves_played() + 1);
            assert_eq!((next.mask() & !board.mask()).count_ones(), 1);
            assert_eq!(next.mask() & board.mask(), board.mask());
            assert_eq!(next.mask().count_ones() as usize, next.moves_played());
            assert_ne!(next, board);
            board = next;
        }
    }
}

#[test]
fn key_has_exact_values() {
    assert_eq!(BitBoard::new().key(), BOTTOM_MASK);
    let first: BitBoard = BitBoard::new().make_move(0);
    assert_eq!(first.key(), BOTTOM_MASK + 1);
    let second: BitBoard = first.make_move(0);
    assert_eq!(second.key(), (BOTTOM_MASK - 1 + 4) ^ 1);
    let mut full: BitBoard = BitBoard::new();
    for _ in 0..7usize {
        full = full.make_move(8);
    }
    assert_eq!(full.key() >> 71, 1);
}

#[test]
fn key_is_injective_over_reachable_states() {
    let mut seen: HashMap<u128, (u128, u128)> = HashMap::new();
    let mut frontier: Vec<BitBoard> = vec![BitBoard::new()];
    let mut states: usize = 0;
    for _ply in 0..6usize {
        let mut next: Vec<BitBoard> = Vec::new();
        for board in frontier.iter() {
            let fields: (u128, u128) = (board.position(), board.mask());
            assert_ne!(board.key(), 0);
            match seen.get(&board.key()) {
                Some(other) => assert_eq!(*other, fields),
                None => {
                    seen.insert(board.key(), fields);
                    states += 1;
                    for col in 0..9usize {
                        if board.is_legal_move(col) {
                            next.push(board.make_move(col));
                        }
                    }
                }
            }
        }
        frontier = next;
    }
    assert!(states > 1000);
    let mut fields_seen: HashMap<(u128, u128), u128> = HashMap::new();
    for (key, fields) in seen.iter() {
        assert!(fields_seen.insert(*fields, *key).is_none());
    }
}

#[test]
fn key_tells_the_side_to_move() {
    let board: BitBoard = play(&[4, 3, 4, 3]);
    let rows: Vec<Vec<char>> = vec![
        ".........".chars().collect(),
        ".........".chars().collect(),
        ".........".chars().collect(),
        ".........".chars().collect(),
        ".........".chars().collect(),
        "...10....".chars().collect(),
        "...10....".chars().collect(),
    ];
    let same: BitBoard = BitBoard::from_input(4, &rows).unwrap();
    let mirror: BitBoard = BitBoard::from_input(5, &rows).unwrap();
    assert_eq!(same, board);
    assert_eq!(same.key(), board.key());
    assert_eq!(mirror.mask(), board.mask());
    assert_ne!(mirror.key(), board.key());
}

#[test]
fn has_4_in_row_finds_each_direction() {
    let horizontal: u128 = cell_bit(2, 3) | cell_bit(3, 3) | cell_bit(4, 3) | cell_bit(5, 3);
    let vertical: u128 = cell_bit(8, 3) | cell_bit(8, 4) | cell_bit(8, 5) | cell_bit(8, 6);
    let rising: u128 = cell_bit(0, 0) | cell_bit(1, 1) | cell_bit(2, 2) | cell_bit(3, 3);
    let falling: u128 = cell_bit(5, 6) | cell_bit(6, 5) | cell_bit(7, 4) | cell_bit(8, 3);
    assert!(BitBoard::has_4_in_row(horizontal));
    assert!(BitBoard::has_4_in_row(vertical));
    assert!(BitBoard::has_4_in_row(rising));
    assert!(BitBoard::has_4_in_row(falling));
    assert!(BitBoard::has_4_in_row(GRID_MASK));
}

#[test]
fn has_4_in_row_needs_four() {
    assert!(!BitBoard::has_4_in_row(0));
    let three_across: u128 = cell_bit(0, 0) | cell_bit(1, 0) | cell_bit(2, 0);
    let three_up: u128 = cell_bit(4, 0) | cell_bit(4, 1) | cell_bit(4, 2);
    let gap: u128 = cell_bit(0, 0) | cell_bit(1, 0) | cell_bit(2, 0) | cell_bit(4, 0);
    assert!(!BitBoard::has_4_in_row(three_across));
    assert!(!BitBoard::has_4_in_row(three_up));
    assert!(!BitBoard::has_4_in_row(gap));
}

#[test]
fn has_4_in_row_does_not_wrap_between_columns() {
    let over_the_top: u128 = cell_bit(0, 5) | cell_bit(0, 6) | cell_bit(1, 0) | cell_bit(1, 1);
    let rising_off: u128 = cell_bit(0, 5) | cell_bit(1, 6) | cell_bit(3, 0) | cell_bit(4, 1);
    let falling_off: u128 = cell_bit(0, 1) | cell_bit(1, 0) | cell_bit(1, 6) | cell_bit(2, 5);
    assert!(!BitBoard::has_4_in_row(over_the_top));
    assert!(!BitBoard::has_4_in_row(rising_off));
    assert!(!BitBoard::has_4_in_row(falling_off));
    let mut alternating: u128 = 0;
    for col in 0..9usize {
        for row in 0..7usize {
            if (col / 2 + row) % 2 == 0 {
                alternating |= cell_bit(col, row);
            }
        }
    }
    assert!(!BitBoard::has_4_in_row(alternating));
    assert!(!BitBoard::has_4_in_row(GRID_MASK & !alternating));
}

#[test]
fn has_4_in_row_reads_raw_bits_outside_the_grid() {
    let through_guard: u128 = (1u128 << 5) | (1u128 << 6) | (1u128 << 7) | (1u128 << 8);
    assert!(BitBoard::has_4_in_row(through_guard));
    let high: u128 = (1u128 << 100) | (1u128 << 108) | (1u128 << 116) | (1u128 << 124);
    assert!(BitBoard::has_4_in_row(high));
}

#[test]
fn three_in_a_row_with_open_fourth_wins() {
    let board: BitBoard = play(&[0, 0, 1, 1, 2, 2]);
    assert!(board.move_causes_win(3));
    for col in 0..9usize {
        if col != 3 {
            assert!(!board.move_causes_win(col), "column {}", col);
        }
    }
}

#[test]
fn move_causes_win_in_corners_and_edges() {
    let left_column: BitBoard = play(&[0, 1, 0, 1, 0, 1]);
    assert!(left_column.move_causes_win(0));
    assert!(!left_column.move_causes_win(1));
    let right_column: BitBoard = play(&[8, 7, 8, 7, 8, 7]);
    assert!(right_column.move_causes_win(8));
    let right_row: BitBoard = play(&[5, 5, 6, 6, 7, 7]);
    assert!(right_row.move_causes_win(8));
    assert!(right_row.move_causes_win(4));
    let left_row: BitBoard = play(&[1, 1, 2, 2, 3, 3]);
    assert!(left_row.move_causes_win(0));
    assert!(left_row.move_causes_win(4));
    let top_left: BitBoard = play(&[0, 0, 0, 0, 0, 0, 0]);
    assert!(!top_left.is_legal_move(0));
    assert!(top_left.is_legal_move(1));
    assert!(!top_left.move_causes_win(1));
    let rising: BitBoard = play(&[0, 1, 1, 2, 3, 2, 2, 3, 4, 3]);
    assert!(rising.move_causes_win(3));
    let falling: BitBoard = play(&[8, 7, 7, 6, 5, 6, 6, 5, 4, 5]);
    assert!(falling.move_causes_win(5));
}

#[test]
fn move_causes_win_does_not_change_the_board() {
    let board: BitBoard = play(&[0, 0, 1, 1, 2, 2]);
    let copy: BitBoard = board;
    let _win: bool = board.move_causes_win(3);
    assert_eq!(board, copy);
}

#[test]
fn move_causes_win_on_a_full_column_drops_nothing() {
    let mut board: BitBoard = BitBoard::new();
    for _ in 0..7usize {
        board = board.make_move(2);
    }
    assert!(!board.is_legal_move(2));
    assert!(!board.move_causes_win(2));
    assert_eq!(board.move_causes_win(2), BitBoard::has_4_in_row(board.position()));
}

#[test]
fn move_causes_win_agrees_with_a_direct_scan() {
    let mut seed: u64 = 12345;
    let mut wins: usize = 0;
    let mut checked: usize = 0;
    for _game in 0..300usize {
        let mut board: BitBoard = BitBoard::new();
        for _ply in 0..63usize {
            for col in 0..9usize {
                let expected: bool = scan_for_win(&board, col);
                assert_eq!(board.move_causes_win(col), expected);
                checked += 1;
                if expected {
                    wins += 1;
                }
            }
            seed = seed.wrapping_mul(6364136223846793005).wrapping_add(1442695040888963407);
            let col: usize = ((seed >> 33) % 9) as usize;
            if board.is_legal_move(col) && !board.move_causes_win(col) {
                let next: BitBoard = board.make_move(col);
                if BitBoard::has_4_in_row(next.position() ^ next.mask()) {
                    break;
                }
                board = next;
            }
        }
    }
    assert!(checked > 10000);
    assert!(wins > 100);
}

#[test]
fn moves_played_counts_pieces() {
    let board: BitBoard = play(&[4, 4, 3, 5, 2, 8, 8, 0]);
    assert_eq!(board.moves_played(), 8);
    assert_eq!(board.mask().count_ones(), 8);
}
