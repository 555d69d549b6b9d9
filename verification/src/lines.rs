//! Four in a row, said geometrically, and why the shift-and-mask test on a
//! packed grid finds exactly those lines.
use crate::bits::{
    bit, cell, in_grid, lemma_bit_ops, lemma_in_grid_bit, lemma_nonzero_has_bit, lemma_run_bit,
    run_bits,
};
use vstd::prelude::*;

verus! {

/// Four cells starting at `(col, row)` and stepping by `(dc, dr)` all satisfy
/// `owns`.
pub open spec fn line_from(
    owns: spec_fn(int, int) -> bool,
    col: int,
    row: int,
    dc: int,
    dr: int,
) -> bool {
    &&& owns(col, row)
    &&& owns(col + dc, row + dr)
    &&& owns(col + 2 * dc, row + 2 * dr)
    &&& owns(col + 3 * dc, row + 3 * dr)
}

/// A line of four starts at `(col, row)`: to the right, upward, diagonally up
/// or diagonally down.
pub open spec fn line_at(owns: spec_fn(int, int) -> bool, col: int, row: int) -> bool {
    ||| line_from(owns, col, row, 1, 0)
    ||| line_from(owns, col, row, 0, 1)
    ||| line_from(owns, col, row, 1, 1)
    ||| line_from(owns, col, row, 1, -1)
}

/// Some four cells in a line all satisfy `owns`.
pub open spec fn has_line(owns: spec_fn(int, int) -> bool) -> bool {
    exists|col: int, row: int| #[trigger] line_at(owns, col, row)
}

/// The set cells of the packed grid `x`, as a predicate on coordinates.
pub open spec fn cells_of(x: u128) -> spec_fn(int, int) -> bool {
    |col: int, row: int| cell(x, col, row)
}

/// The packed grid `x` holds four set cells in a line.
pub open spec fn four_in_row(x: u128) -> bool {
    has_line(cells_of(x))
}

/// Bits `i`, `i + step`, `i + 2 * step` and `i + 3 * step` of `x` are set.
pub open spec fn run_at(x: u128, i: int, step: int) -> bool {
    bit(x, i) && bit(x, i + step) && bit(x, i + 2 * step) && bit(x, i + 3 * step)
}

/// Some four bits of `x` that are `step` apart are all set.
pub open spec fn has_run(x: u128, step: int) -> bool {
    exists|i: int| #[trigger] run_at(x, i, step)
}

/// The shift-and-mask test is not zero exactly when four bits `step` apart are
/// set.
pub proof fn lemma_run_test(x: u128, step: int)
    requires
        1 <= step <= 9,
    ensures
        (run_bits(x, step) != 0) == has_run(x, step),
{
    if run_bits(x, step) != 0 {
        let i = lemma_nonzero_has_bit(run_bits(x, step));
        lemma_run_bit(x, step, i);
        assert(run_at(x, i, step));
    }
    if has_run(x, step) {
        let i = choose|i: int| #[trigger] run_at(x, i, step);
        lemma_run_bit(x, step, i);
        lemma_bit_ops(x, x, i);
    }
}

/// Inside the grid the guard bits keep runs from leaking between columns: a
/// run of bits is a line of cells, and a line of cells is a run of bits with
/// step 8 (to the right), 1 (upward), 9 (diagonally up) or 7 (diagonally
/// down).
pub proof fn lemma_runs_are_lines(x: u128)
    requires
        in_grid(x),
    ensures
        four_in_row(x) == (has_run(x, 8) || has_run(x, 7) || has_run(x, 9) || has_run(x, 1)),
{
    let owns = cells_of(x);
    if four_in_row(x) {
        let (col, row) = choose|col: int, row: int| #[trigger] line_at(owns, col, row);
        let i = 8 * col + row;
        if line_from(owns, col, row, 1, 0) {
            assert(run_at(x, i, 8));
        } else if line_from(owns, col, row, 0, 1) {
            assert(run_at(x, i, 1));
        } else if line_from(owns, col, row, 1, 1) {
            assert(run_at(x, i, 9));
        } else {
            assert(run_at(x, i, 7));
        }
    }
    if has_run(x, 8) {
        let i = choose|i: int| #[trigger] run_at(x, i, 8);
        lemma_run_cells(x, i, 8);
        assert(line_from(owns, i / 8, i % 8, 1, 0));
        assert(line_at(owns, i / 8, i % 8));
    }
    if has_run(x, 1) {
        let i = choose|i: int| #[trigger] run_at(x, i, 1);
        lemma_run_cells(x, i, 1);
        assert(line_from(owns, i / 8, i % 8, 0, 1));
        assert(line_at(owns, i / 8, i % 8));
    }
    if has_run(x, 9) {
        let i = choose|i: int| #[trigger] run_at(x, i, 9);
        lemma_run_cells(x, i, 9);
        assert(line_from(owns, i / 8, i % 8, 1, 1));
        assert(line_at(owns, i / 8, i % 8));
    }
    if has_run(x, 7) {
        let i = choose|i: int| #[trigger] run_at(x, i, 7);
        lemma_run_cells(x, i, 7);
        assert(line_from(owns, i / 8, i % 8, 1, -1));
        assert(line_at(owns, i / 8, i % 8));
    }
}

/// The four bits of a run inside the grid are cells of the grid.
proof fn lemma_run_cells(x: u128, i: int, step: int)
    requires
        in_grid(x),
        run_at(x, i, step),
    ensures
        cell(x, i / 8, i % 8),
        cell(x, (i + step) / 8, (i + step) % 8),
        cell(x, (i + 2 * step) / 8, (i + 2 * step) % 8),
        cell(x, (i + 3 * step) / 8, (i + 3 * step) % 8),
{
    lemma_in_grid_bit(x, i);
    lemma_in_grid_bit(x, i + step);
    lemma_in_grid_bit(x, i + 2 * step);
    lemma_in_grid_bit(x, i + 3 * step);
}

} // verus!
