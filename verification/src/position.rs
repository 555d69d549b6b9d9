//! The game position as mathematics: nine stacks of pieces.
//!
//! A position is a sequence of nine columns. A column is the sequence of its
//! pieces from the bottom up; `true` marks a piece of the side to move.
use crate::lines::has_line;
use vstd::prelude::*;

verus! {

/// Nine columns of at most seven pieces each.
pub open spec fn well_shaped(p: Seq<Seq<bool>>) -> bool {
    &&& p.len() == 9
    &&& forall|col: int| 0 <= col < 9 ==> (#[trigger] p[col]).len() <= 7
}

/// Column `col` exists and holds fewer than seven pieces.
pub open spec fn open_column(p: Seq<Seq<bool>>, col: int) -> bool {
    0 <= col < p.len() && p[col].len() < 7
}

/// The cells that hold a piece of the side to move.
pub open spec fn owned_cells(p: Seq<Seq<bool>>) -> spec_fn(int, int) -> bool {
    |col: int, row: int| 0 <= col < p.len() && 0 <= row < p[col].len() && p[col][row]
}

/// Number of pieces in the position.
pub open spec fn pieces(p: Seq<Seq<bool>>) -> nat {
    p[0].len() + p[1].len() + p[2].len() + p[3].len() + p[4].len() + p[5].len() + p[6].len()
        + p[7].len() + p[8].len()
}

/// A column seen by the other side: every piece changes owner.
pub open spec fn swapped(column: Seq<bool>) -> Seq<bool> {
    Seq::new(column.len(), |row: int| !column[row])
}

/// The position after the side to move drops a piece into column `col`: the
/// piece lands on top of that column, and the turn passes, so the new piece
/// and all former pieces of the mover now belong to the side not to move.
pub open spec fn play(p: Seq<Seq<bool>>, col: int) -> Seq<Seq<bool>> {
    Seq::new(
        p.len(),
        |c: int|
            if c == col {
                swapped(p[c]).push(false)
            } else {
                swapped(p[c])
            },
    )
}

/// The position with one more piece of the side to move on top of column
/// `col`, the turn not passed.
pub open spec fn claim(p: Seq<Seq<bool>>, col: int) -> Seq<Seq<bool>> {
    p.update(col, p[col].push(true))
}

/// The side to move has four pieces in a line.
pub open spec fn has_four(p: Seq<Seq<bool>>) -> bool {
    has_line(owned_cells(p))
}

/// The side to move has four in a line once it has dropped a piece into
/// column `col`; on a full column nothing is dropped.
pub open spec fn wins_by(p: Seq<Seq<bool>>, col: int) -> bool {
    has_four(
        if open_column(p, col) {
            claim(p, col)
        } else {
            p
        },
    )
}

/// Dropping a piece into column `col` is allowed and gives the side to move
/// four in a line.
pub open spec fn winning_move(p: Seq<Seq<bool>>, col: int) -> bool {
    open_column(p, col) && has_four(claim(p, col))
}

/// The side to move can win at once.
pub open spec fn can_win(p: Seq<Seq<bool>>) -> bool {
    exists|col: int| #[trigger] winning_move(p, col)
}

} // verus!
