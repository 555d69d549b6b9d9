//! The decision taken at each turn: a fixed opening, the steal rule, or the
//! column the solver chooses.
use crate::board::BitBoard;
use crate::solver::{root_choice, Solver};
use vstd::prelude::*;

verus! {

/// The column the first player opens with.
pub const OPENING_COLUMN: usize = 3;

/// The opening of the first player that the second player answers by
/// stealing.
pub const STOLEN_COLUMN: i32 = 4;

/// What is answered at a turn.
#[derive(Clone, Copy, Debug, PartialEq, Eq, Structural)]
pub enum Reply {
    /// Drop a piece into this column.
    Column(usize),
    /// Take over the opponent's first move.
    Steal,
}

/// At turn 0 the opening column is played. At turn 1 the answer to an opening
/// on the stolen column is to steal. Neither asks the solver.
pub open spec fn fixed_reply(turn_index: int, opp_previous_action: int) -> Option<Reply> {
    if turn_index == 0 {
        Some(Reply::Column(OPENING_COLUMN))
    } else if turn_index == 1 && opp_previous_action == STOLEN_COLUMN {
        Some(Reply::Steal)
    } else {
        None
    }
}

/// The reply at turn `turn_index` on `board`, after the opponent has played
/// column `opp_previous_action` (-1 when there is no such move).
///
/// Where the reply is fixed the solver is not used and its table stays as it
/// is; otherwise the reply is the column the solver chooses at the root.
pub fn choose_reply(
    solver: &mut Solver,
    board: &BitBoard,
    turn_index: usize,
    opp_previous_action: i32,
) -> (reply: Reply)
    requires
        old(solver).wf(),
        board.wf(),
    ensures
        final(solver).wf(),
        reply matches Reply::Column(col) ==> col < 9,
        match fixed_reply(turn_index as int, opp_previous_action as int) {
            Some(fixed) => reply == fixed && final(solver)@ == old(solver)@,
            None => {
                &&& reply == Reply::Column(root_choice(old(solver)@, *board).0 as usize)
                &&& final(solver)@ == root_choice(old(solver)@, *board).1
            },
        },
{
    if turn_index == 0 {
        Reply::Column(OPENING_COLUMN)
    } else if turn_index == 1 && opp_previous_action == STOLEN_COLUMN {
        Reply::Steal
    } else {
        Reply::Column(solver.best_move(board))
    }
}

} // verus!
