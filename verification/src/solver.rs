//! The solver: negamax with alpha-beta pruning over boards, a fixed order of
//! columns, a depth horizon and a transposition table.
use crate::board::BitBoard;
use crate::position::{can_win, winning_move};
use crate::table::{fresh, lookup, stored, TranspositionTable};
use vstd::prelude::*;

verus! {

/// The deepest level that is still searched; the root is level 0.
pub const HORIZON: usize = 9;

/// The score of a win on an empty board, and the largest score there is. A
/// win found with `n` pieces on the board scores `WIN_SCORE - n`.
pub const WIN_SCORE: i8 = 127;

/// The order in which columns are tried: from the centre outward.
pub const COLUMN_ORDER: [usize; 9] = [4, 3, 5, 2, 6, 1, 7, 0, 8];

/// The column tried at place `i`.
pub open spec fn column_at(i: int) -> int {
    if i == 0 {
        4
    } else if i == 1 {
        3
    } else if i == 2 {
        5
    } else if i == 3 {
        2
    } else if i == 4 {
        6
    } else if i == 5 {
        1
    } else if i == 6 {
        7
    } else if i == 7 {
        0
    } else {
        8
    }
}

/// Every score in the contents is at least `-WIN_SCORE`, so that it can be
/// negated.
pub open spec fn bounded(m: Map<u128, i8>) -> bool {
    forall|k: u128| m.dom().contains(k) ==> #[trigger] m[k] >= -127
}

/// The upper bound the table gives for a key: the stored score, or
/// `WIN_SCORE` when the key is not found.
pub open spec fn bound_for(m: Map<u128, i8>, key: u128) -> int {
    match lookup(m, key) {
        Some(v) => v as int,
        None => 127,
    }
}

/// What a search of `board` at level `depth` with the window `alpha`, `beta`
/// returns on the table contents `m`, and the contents it leaves.
///
/// Beyond the horizon the score is 0. A side that can win at once scores
/// `WIN_SCORE` less the number of pieces on the board. Otherwise the table's
/// bound for the position lowers `beta`; if that closes the window the bound
/// is the score. Otherwise the columns are tried in order (`scan`).
pub open spec fn search(m: Map<u128, i8>, board: BitBoard, alpha: int, beta: int, depth: nat) -> (
    int,
    Map<u128, i8>,
)
    decreases HORIZON + 1 - depth, 10int,
{
    if depth > HORIZON {
        (0, m)
    } else if can_win(board@) {
        (WIN_SCORE - board.ply(), m)
    } else {
        let bound = bound_for(m, board.key_value());
        if beta > bound {
            if alpha >= bound {
                (bound, m)
            } else {
                scan(m, board, alpha, bound, depth, 0)
            }
        } else {
            scan(m, board, alpha, beta, depth, 0)
        }
    }
}

/// The part of a search that tries the columns from place `i` of the order
/// onward.
///
/// A full column is passed over. In an open column the move is played and the
/// resulting board is searched one level deeper with the window negated and
/// swapped; the score of the move is the negation of what that search
/// returns. A score of at least `beta` ends the search with that score; a
/// score above `alpha` raises `alpha`. When no column is left, `alpha` is
/// stored in the table under the key of the board and is the score. A search
/// never comes here beyond the horizon; there no column is tried.
pub open spec fn scan(
    m: Map<u128, i8>,
    board: BitBoard,
    alpha: int,
    beta: int,
    depth: nat,
    i: nat,
) -> (int, Map<u128, i8>)
    decreases HORIZON + 1 - depth, 9 - i,
{
    if depth > HORIZON || i >= 9 {
        (alpha, stored(m, board.key_value(), alpha as i8))
    } else if board.height(column_at(i as int)) >= 7 {
        scan(m, board, alpha, beta, depth, i + 1)
    } else {
        let (reply, after) = search(
            m,
            board.after_move(column_at(i as int)),
            -beta,
            -alpha,
            depth + 1,
        );
        if -reply >= beta {
            (-reply, after)
        } else if -reply > alpha {
            scan(after, board, -reply, beta, depth, i + 1)
        } else {
            scan(after, board, alpha, beta, depth, i + 1)
        }
    }
}

/// The choice of a move at the root, from place `i` of the order onward, with
/// the best score and column so far.
///
/// Every open column is played and the resulting board searched at level 0
/// with the window from the best score so far to `WIN_SCORE`. A column whose
/// negated result is strictly better than the best so far becomes the choice,
/// so among equal scores the column tried first stays.
pub open spec fn choose_from(
    m: Map<u128, i8>,
    board: BitBoard,
    best_score: int,
    best_col: int,
    i: nat,
) -> (int, Map<u128, i8>)
    decreases 9 - i,
{
    if i >= 9 {
        (best_col, m)
    } else if board.height(column_at(i as int)) >= 7 {
        choose_from(m, board, best_score, best_col, i + 1)
    } else {
        let (reply, after) = search(
            m,
            board.after_move(column_at(i as int)),
            best_score,
            WIN_SCORE as int,
            0,
        );
        if -reply > best_score {
            choose_from(after, board, -reply, column_at(i as int), i + 1)
        } else {
            choose_from(after, board, best_score, best_col, i + 1)
        }
    }
}

/// The column chosen at the root and the table contents left: the choice
/// starts from score `-WIN_SCORE` and column 0.
pub open spec fn root_choice(m: Map<u128, i8>, board: BitBoard) -> (int, Map<u128, i8>) {
    choose_from(m, board, -WIN_SCORE as int, 0, 0)
}

/// A search keeps its promises about range: from a window inside
/// `-WIN_SCORE ..= WIN_SCORE` and table contents that are bounded, the score
/// lies in `-WIN_SCORE ..= WIN_SCORE` and the contents stay bounded.
pub proof fn lemma_search_range(
    m: Map<u128, i8>,
    board: BitBoard,
    alpha: int,
    beta: int,
    depth: nat,
)
    requires
        board.wf(),
        bounded(m),
        -127 <= alpha <= 127,
        -127 <= beta <= 127,
    ensures
        -127 <= search(m, board, alpha, beta, depth).0 <= 127,
        bounded(search(m, board, alpha, beta, depth).1),
    decreases HORIZON + 1 - depth, 10int,
{
    if depth > HORIZON {
    } else if can_win(board@) {
        board.lemma_cells();
    } else {
        let bound = bound_for(m, board.key_value());
        if beta > bound {
            if alpha >= bound {
            } else {
                lemma_scan_range(m, board, alpha, bound, depth, 0);
            }
        } else {
            lemma_scan_range(m, board, alpha, beta, depth, 0);
        }
    }
}

/// The same for the part of a search that tries the columns.
pub proof fn lemma_scan_range(
    m: Map<u128, i8>,
    board: BitBoard,
    alpha: int,
    beta: int,
    depth: nat,
    i: nat,
)
    requires
        board.wf(),
        bounded(m),
        -127 <= alpha <= 127,
        -127 <= beta <= 127,
    ensures
        -127 <= scan(m, board, alpha, beta, depth, i).0 <= 127,
        bounded(scan(m, board, alpha, beta, depth, i).1),
    decreases HORIZON + 1 - depth, 9 - i,
{
    if depth > HORIZON || i >= 9 {
    } else if board.height(column_at(i as int)) >= 7 {
        lemma_scan_range(m, board, alpha, beta, depth, i + 1);
    } else {
        let next = board.after_move(column_at(i as int));
        board.lemma_after_move(column_at(i as int));
        lemma_search_range(m, next, -beta, -alpha, depth + 1);
        let (reply, after) = search(m, next, -beta, -alpha, depth + 1);
        if -reply >= beta {
        } else if -reply > alpha {
            lemma_scan_range(after, board, -reply, beta, depth, i + 1);
        } else {
            lemma_scan_range(after, board, alpha, beta, depth, i + 1);
        }
    }
}

/// Every column from place `i` of the order onward, except `keep`, is full.
pub open spec fn others_full(board: BitBoard, keep: int, i: int) -> bool {
    forall|j: int| i <= j < 9 && column_at(j) != keep ==> board.height(#[trigger] column_at(j)) >= 7
}

/// What a forced move is worth: the only open column `col` is played, the
/// resulting board is searched one level deeper, and the negated result either
/// cuts off at `beta` or is stored as the raised `alpha`.
pub open spec fn forced(
    m: Map<u128, i8>,
    board: BitBoard,
    alpha: int,
    beta: int,
    depth: nat,
    col: int,
) -> (int, Map<u128, i8>) {
    let (reply, after) = search(m, board.after_move(col), -beta, -alpha, depth + 1);
    if -reply >= beta {
        (-reply, after)
    } else if -reply > alpha {
        (-reply, stored(after, board.key_value(), (-reply) as i8))
    } else {
        (alpha, stored(after, board.key_value(), alpha as i8))
    }
}

/// When no column from place `i` onward is open, nothing is tried: `alpha` is
/// stored and returned.
pub proof fn lemma_scan_nothing(
    m: Map<u128, i8>,
    board: BitBoard,
    alpha: int,
    beta: int,
    depth: nat,
    i: nat,
)
    requires
        others_full(board, -1, i as int),
    ensures
        scan(m, board, alpha, beta, depth, i) == (
            alpha,
            stored(m, board.key_value(), alpha as i8),
        ),
    decreases 9 - i,
{
    if depth > HORIZON || i >= 9 {
    } else {
        assert(board.height(column_at(i as int)) >= 7);
        lemma_scan_nothing(m, board, alpha, beta, depth, i + 1);
    }
}

/// When `col` is the only open column from place `i` onward and its place is
/// not before `i`, only `col` is tried.
pub proof fn lemma_scan_forced(
    m: Map<u128, i8>,
    board: BitBoard,
    alpha: int,
    beta: int,
    depth: nat,
    i: nat,
    col: int,
)
    requires
        depth <= HORIZON,
        board.height(col) < 7,
        others_full(board, col, i as int),
        exists|j: int| i <= j < 9 && column_at(j) == col,
    ensures
        scan(m, board, alpha, beta, depth, i) == forced(m, board, alpha, beta, depth, col),
    decreases 9 - i,
{
    if column_at(i as int) == col {
        let (reply, after) = search(m, board.after_move(col), -beta, -alpha, depth + 1);
        assert forall|j: int| i + 1 <= j < 9 implies board.height(#[trigger] column_at(j))
            >= 7 by {
            assert(column_at(j) != col);
        }
        if -reply >= beta {
        } else if -reply > alpha {
            lemma_scan_nothing(after, board, -reply, beta, depth, i + 1);
        } else {
            lemma_scan_nothing(after, board, alpha, beta, depth, i + 1);
        }
    } else {
        assert(board.height(column_at(i as int)) >= 7);
        lemma_scan_forced(m, board, alpha, beta, depth, i + 1, col);
    }
}

/// A position with exactly one open column, searched within the horizon: if
/// the mover cannot win at once and the table does not close the window, the
/// result is that of the single forced move, and no other column is tried.
pub proof fn lemma_forced_move(
    m: Map<u128, i8>,
    board: BitBoard,
    alpha: int,
    beta: int,
    depth: nat,
    col: int,
)
    requires
        depth <= HORIZON,
        0 <= col < 9,
        board.height(col) < 7,
        forall|c: int| 0 <= c < 9 && c != col ==> #[trigger] board.height(c) >= 7,
        !can_win(board@),
        !(beta > bound_for(m, board.key_value()) && alpha >= bound_for(m, board.key_value())),
    ensures
        search(m, board, alpha, beta, depth) == forced(
            m,
            board,
            alpha,
            if beta > bound_for(m, board.key_value()) {
                bound_for(m, board.key_value())
            } else {
                beta
            },
            depth,
            col,
        ),
{
    let bound = bound_for(m, board.key_value());
    let j = if col == 4 {
        0int
    } else if col == 3 {
        1int
    } else if col == 5 {
        2int
    } else if col == 2 {
        3int
    } else if col == 6 {
        4int
    } else if col == 1 {
        5int
    } else if col == 7 {
        6int
    } else if col == 0 {
        7int
    } else {
        8int
    };
    assert(0 <= j < 9 && column_at(j) == col);
    if beta > bound {
        lemma_scan_forced(m, board, alpha, bound, depth, 0, col);
    } else {
        lemma_scan_forced(m, board, alpha, beta, depth, 0, col);
    }
}

/// The part of a search at the last level that tries the columns: every move
/// leads beyond the horizon and scores 0, so from an `alpha` that is 0, or
/// that is below 0 with an open column still to come, the score is 0.
pub proof fn lemma_scan_quiet(
    m: Map<u128, i8>,
    board: BitBoard,
    alpha: int,
    beta: int,
    i: nat,
)
    requires
        alpha <= 0,
        alpha == 0 || exists|j: int| i <= j < 9 && board.height(#[trigger] column_at(j)) < 7,
    ensures
        scan(m, board, alpha, beta, HORIZON as nat, i).0 == 0,
    decreases 9 - i,
{
    if i >= 9 {
    } else if board.height(column_at(i as int)) >= 7 {
        lemma_scan_quiet(m, board, alpha, beta, i + 1);
    } else {
        let deeper = search(
            m,
            board.after_move(column_at(i as int)),
            -beta,
            -alpha,
            (HORIZON + 1) as nat,
        );
        assert(deeper == (0int, m));
        if 0 >= beta {
        } else {
            lemma_scan_quiet(m, board, 0, beta, i + 1);
        }
    }
}

/// A position at the last level in which the side to move cannot win at
/// once, has an open column, and finds no bound in the table, scores 0 from
/// any window whose `alpha` is not above 0.
pub proof fn lemma_quiet_leaf(m: Map<u128, i8>, board: BitBoard, alpha: int, beta: int)
    requires
        !can_win(board@),
        exists|c: int| 0 <= c < 9 && #[trigger] board.height(c) < 7,
        lookup(m, board.key_value()) is None,
        alpha <= 0,
        beta <= 127,
    ensures
        search(m, board, alpha, beta, HORIZON as nat).0 == 0,
{
    let c = choose|c: int| 0 <= c < 9 && #[trigger] board.height(c) < 7;
    let j = if c == 4 {
        0int
    } else if c == 3 {
        1int
    } else if c == 5 {
        2int
    } else if c == 2 {
        3int
    } else if c == 6 {
        4int
    } else if c == 1 {
        5int
    } else if c == 7 {
        6int
    } else if c == 0 {
        7int
    } else {
        8int
    };
    assert(0 <= j < 9 && board.height(column_at(j)) < 7);
    lemma_scan_quiet(m, board, alpha, beta, 0);
}

/// Zero-sum symmetry beyond the horizon: a board and its mirror, the same
/// occupancy with the other side to move, get scores that are each other's
/// negation, whatever the windows and the tables.
pub proof fn lemma_mirror_beyond_horizon(
    m: Map<u128, i8>,
    board: BitBoard,
    alpha: int,
    beta: int,
    mirror_m: Map<u128, i8>,
    mirror_alpha: int,
    mirror_beta: int,
    depth: nat,
)
    requires
        depth > HORIZON,
    ensures
        search(m, board, alpha, beta, depth).0 == -search(
            mirror_m,
            board.mirror(),
            mirror_alpha,
            mirror_beta,
            depth,
        ).0,
{
}

/// Zero-sum symmetry at the last level: when neither side could win at once
/// on the occupancy, a column is open, the table has no bound for the board
/// or for its mirror, and neither window starts above 0, the board and its
/// mirror get scores that are each other's negation.
pub proof fn lemma_mirror_at_horizon(
    m: Map<u128, i8>,
    board: BitBoard,
    alpha: int,
    beta: int,
    mirror_m: Map<u128, i8>,
    mirror_alpha: int,
    mirror_beta: int,
)
    requires
        board.wf(),
        !can_win(board@),
        !can_win(board.mirror()@),
        exists|c: int| 0 <= c < 9 && #[trigger] board.height(c) < 7,
        lookup(m, board.key_value()) is None,
        lookup(mirror_m, board.mirror().key_value()) is None,
        alpha <= 0,
        mirror_alpha <= 0,
        beta <= 127,
        mirror_beta <= 127,
    ensures
        search(m, board, alpha, beta, HORIZON as nat).0 == -search(
            mirror_m,
            board.mirror(),
            mirror_alpha,
            mirror_beta,
            HORIZON as nat,
        ).0,
{
    board.lemma_mirror();
    let c = choose|c: int| 0 <= c < 9 && #[trigger] board.height(c) < 7;
    assert(board.mirror().height(c) < 7);
    lemma_quiet_leaf(m, board, alpha, beta);
    lemma_quiet_leaf(mirror_m, board.mirror(), mirror_alpha, mirror_beta);
}

/// A solver owns its transposition table.
pub struct Solver {
    tt: TranspositionTable,
}

impl View for Solver {
    type V = Map<u128, i8>;

    /// The contents of the table.
    closed spec fn view(&self) -> Map<u128, i8> {
        self.tt@
    }
}

impl Solver {
    /// The table is sound and every score in it can be negated.
    pub closed spec fn wf(&self) -> bool {
        self.tt.wf() && bounded(self.tt@)
    }

    /// A solver with a new table.
    pub fn new() -> (solver: Solver)
        ensures
            solver.wf(),
            solver@ == fresh(),
    {
        Solver { tt: TranspositionTable::new() }
    }

    /// The column tried at place `i` of the order.
    fn ordered_column(i: usize) -> (col: usize)
        requires
            i < 9,
        ensures
            col == column_at(i as int),
            col < 9,
    {
        COLUMN_ORDER[i]
    }

    /// Whether the side to move has an open column that gives it four in a
    /// line.
    fn wins_at_once(b: &BitBoard) -> (found: bool)
        requires
            b.wf(),
        ensures
            found == can_win(b@),
    {
        let mut x: usize = 0;
        while x < 9
            invariant
                x <= 9,
                b.wf(),
                forall|c: int| 0 <= c < x ==> !#[trigger] winning_move(b@, c),
            decreases 9 - x,
        {
            if b.is_legal_move(x) && b.move_causes_win(x) {
                assert(winning_move(b@, x as int));
                return true;
            }
            x += 1;
        }
        false
    }

    /// Score `b` for the side to move; higher is better for that side.
    ///
    /// The score and the table contents left behind are those of `search`.
    pub fn negamax(&mut self, b: &BitBoard, alpha: i8, beta: i8, depth: usize) -> (score: i8)
        requires
            old(self).wf(),
            b.wf(),
            -127 <= alpha <= 127,
            -127 <= beta <= 127,
        ensures
            final(self).wf(),
            score == search(old(self)@, *b, alpha as int, beta as int, depth as nat).0,
            final(self)@ == search(old(self)@, *b, alpha as int, beta as int, depth as nat).1,
            -127 <= score <= 127,
        decreases HORIZON + 1 - depth,
    {
        let ghost want = search(old(self)@, *b, alpha as int, beta as int, depth as nat);
        // Cut off evaluation beyond the horizon
        if depth > HORIZON {
            return 0;
        }
        proof {
            b.lemma_cells();
        }
        // Check if a win is possible on the next move
        if Solver::wins_at_once(b) {
            return WIN_SCORE - (b.moves_played() as i8);
        }

        let ttv = self.tt.get(b.key());
        let max: i8 = ttv.unwrap_or(WIN_SCORE);
        assert(max == bound_for(self@, b.key_value()));
        let mut lo: i8 = alpha;
        let mut hi: i8 = beta;
        if hi > max {
            hi = max;
            if lo >= hi {
                return hi;
            }
        }
        assert(want == scan(self@, *b, lo as int, hi as int, depth as nat, 0));

        let mut i: usize = 0;
        while i < 9
            invariant
                i <= 9,
                depth <= HORIZON,
                self.wf(),
                b.wf(),
                -127 <= lo <= 127,
                -127 <= hi <= 127,
                want == search(old(self)@, *b, alpha as int, beta as int, depth as nat),
                want == scan(self@, *b, lo as int, hi as int, depth as nat, i as nat),
            decreases 9 - i,
        {
            let col = Solver::ordered_column(i);
            if b.is_legal_move(col) {
                let b2 = b.make_move(col);
                let b2_score: i8 = -self.negamax(&b2, -hi, -lo, depth + 1);
                if b2_score >= hi {
                    return b2_score;
                }
                if b2_score > lo {
                    lo = b2_score;
                }
            }
            i += 1;
        }
        self.tt.put(b.key(), lo);
        lo
    }

    /// The column to play on `board`: the open column with the best score
    /// when every open column is tried in order, the earlier one among equals,
    /// and column 0 when nothing scores above `-WIN_SCORE`.
    pub fn best_move(&mut self, board: &BitBoard) -> (col: usize)
        requires
            old(self).wf(),
            board.wf(),
        ensures
            final(self).wf(),
            col == root_choice(old(self)@, *board).0,
            final(self)@ == root_choice(old(self)@, *board).1,
            col < 9,
    {
        let mut best_score: i8 = -WIN_SCORE;
        let mut best_move: usize = 0;
        let mut i: usize = 0;
        while i < 9
            invariant
                i <= 9,
                self.wf(),
                board.wf(),
                -127 <= best_score <= 127,
                best_move < 9,
                root_choice(old(self)@, *board) == choose_from(
                    self@,
                    *board,
                    best_score as int,
                    best_move as int,
                    i as nat,
                ),
            decreases 9 - i,
        {
            let col = Solver::ordered_column(i);
            if board.is_legal_move(col) {
                let b2 = board.make_move(col);
                let t_score: i8 = -self.negamax(&b2, best_score, WIN_SCORE, 0);
                if t_score > best_score {
                    best_score = t_score;
                    best_move = col;
                }
            }
            i += 1;
        }
        best_move
    }
}

} // verus!
