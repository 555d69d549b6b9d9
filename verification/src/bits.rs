//! The packed grid: nine columns of eight bits each inside a `u128`.
//!
//! Cell `(col, row)` lives at bit `8 * col + row`; row 0 is the bottom of a
//! column, rows 0 through 6 are playable and row 7 of every column is a guard
//! bit that is never set. This module names those bits, states what it means
//! for a bit field to stay inside the grid and to obey gravity, and proves the
//! bit-vector facts the rest of the crate is built on.
use vstd::prelude::*;

verus! {

/// Number of columns of the grid.
pub const COLUMNS: usize = 9;

/// Number of playable rows in a column.
pub const ROWS: usize = 7;

/// One bit at the bottom cell of every column.
pub const BOTTOM_MASK: u128 = 0x01_01_01_01_01_01_01_01_01;

/// Every playable cell of the grid.
pub const GRID_MASK: u128 = 0x7f_7f_7f_7f_7f_7f_7f_7f_7f;

/// Bit `i` of `x` is set.
pub open spec fn bit(x: u128, i: int) -> bool {
    0 <= i < 128 && (x >> (i as u128)) & 1 == 1
}

/// `(col, row)` is a playable cell and its bit is set in `x`.
pub open spec fn cell(x: u128, col: int, row: int) -> bool {
    0 <= col < 9 && 0 <= row < 7 && bit(x, 8 * col + row)
}

/// The bit field with exactly the bit of cell `(col, row)` set.
pub open spec fn cell_bit(col: int, row: int) -> u128 {
    1u128 << ((8 * col + row) as u128)
}

/// The seven playable cells of column `col`.
pub open spec fn column_bits(col: int) -> u128 {
    0x7fu128 << ((8 * col) as u128)
}

/// No bit of `x` lies outside the playable cells.
pub open spec fn in_grid(x: u128) -> bool {
    x & !GRID_MASK == 0
}

/// Gravity: every set bit that is not on a bottom cell has the bit directly
/// below it set as well.
pub open spec fn settled(x: u128) -> bool {
    x & !(x << 1) & !BOTTOM_MASK == 0
}

/// 1 when the condition holds, 0 otherwise.
pub open spec fn indicator(b: bool) -> int {
    if b {
        1
    } else {
        0
    }
}

/// Number of set cells of `x` in column `col`.
pub open spec fn column_height(x: u128, col: int) -> int {
    indicator(cell(x, col, 0)) + indicator(cell(x, col, 1)) + indicator(cell(x, col, 2))
        + indicator(cell(x, col, 3)) + indicator(cell(x, col, 4)) + indicator(cell(x, col, 5))
        + indicator(cell(x, col, 6))
}

/// Number of set cells of `x` in the whole grid.
pub open spec fn piece_count(x: u128) -> int {
    column_height(x, 0) + column_height(x, 1) + column_height(x, 2) + column_height(x, 3)
        + column_height(x, 4) + column_height(x, 5) + column_height(x, 6) + column_height(x, 7)
        + column_height(x, 8)
}

/// What dropping a piece into column `col` adds to the occupancy `mask`: the
/// carry of `mask + bottom` stops at the lowest empty cell of the column.
pub open spec fn drop_bit(mask: u128, col: int) -> u128 {
    ((mask + cell_bit(col, 0)) as u128) & column_bits(col)
}

/// The position key: the mover's bits, and one marker bit directly above the
/// stack of every column.
pub open spec fn key_of(pos: u128, mask: u128) -> u128 {
    pos ^ ((mask + BOTTOM_MASK) as u128)
}

/// The shift-and-mask test for four set bits `step` apart.
pub open spec fn run_bits(x: u128, step: int) -> u128 {
    let pairs = x & (x >> (step as u128));
    pairs & (pairs >> ((2 * step) as u128))
}

// The facts of this block are settled by the bit-vector solver. The public
// lemmas after it restate them over `bit` and `cell`.

/// What the bitwise operators do to a single bit.
proof fn bv_ops(x: u128, y: u128, i: u128)
    by (bit_vector)
    requires
        i < 128,
    ensures
        ((x & y) >> i) & 1 == 1 <==> ((x >> i) & 1 == 1 && (y >> i) & 1 == 1),
        ((x | y) >> i) & 1 == 1 <==> ((x >> i) & 1 == 1 || (y >> i) & 1 == 1),
        ((x ^ y) >> i) & 1 == 1 <==> (((x >> i) & 1 == 1) != ((y >> i) & 1 == 1)),
        ((!x) >> i) & 1 == 1 <==> (x >> i) & 1 != 1,
        (0u128 >> i) & 1 != 1,
{
}

/// The bits of `GRID_MASK` are rows 0 to 6 of the nine columns.
proof fn bv_grid_bits(i: u128)
    by (bit_vector)
    requires
        i < 128,
    ensures
        (GRID_MASK >> i) & 1 == 1 <==> (i < 72 && i % 8 != 7),
{
}

/// A bit of a shifted field is the bit that many places higher.
proof fn bv_shr(x: u128, s: u128, i: u128)
    by (bit_vector)
    requires
        i < 128,
        s < 128,
    ensures
        ((x >> s) >> i) & 1 == 1 <==> (i + s < 128 && (x >> ((i + s) as u128)) & 1 == 1),
{
}

/// A one shifted left has a single bit.
proof fn bv_single(j: u128, i: u128)
    by (bit_vector)
    requires
        i < 128,
        j < 128,
    ensures
        ((1u128 << j) >> i) & 1 == 1 <==> i == j,
{
}

/// Masking with a single bit tests that bit.
proof fn bv_test(x: u128, j: u128)
    by (bit_vector)
    requires
        j < 128,
    ensures
        x & (1u128 << j) == 0 <==> (x >> j) & 1 != 1,
{
}

/// Halving a field that is not zero and has bit 0 clear gives a smaller field
/// that is not zero.
proof fn bv_halve(x: u128)
    by (bit_vector)
    ensures
        x >> 0 == x,
        x != 0 && x & 1 != 1 ==> (x >> 1) != 0 && (x >> 1) < x,
{
}

/// A set bit of a field inside the grid is below bit 72 and not a guard bit.
proof fn bv_in_grid(x: u128, i: u128)
    by (bit_vector)
    requires
        x & !GRID_MASK == 0,
        i < 128,
        (x >> i) & 1 == 1,
    ensures
        i < 72,
        i % 8 != 7,
        x <= GRID_MASK,
{
}

/// In a settled field a set bit above a bottom cell has the bit below it set.
proof fn bv_gravity(x: u128, i: u128)
    by (bit_vector)
    requires
        x & !(x << 1) & !BOTTOM_MASK == 0,
        x & !GRID_MASK == 0,
        i < 128,
        (x >> i) & 1 == 1,
        i % 8 != 0,
    ensures
        (x >> ((i - 1) as u128)) & 1 == 1,
{
}

/// A bit of `x` is a bit of `y` when `x & !y` is zero.
proof fn bv_subset(x: u128, y: u128, i: u128)
    by (bit_vector)
    requires
        x & !y == 0,
        i < 128,
        (x >> i) & 1 == 1,
    ensures
        (y >> i) & 1 == 1,
{
}

/// Bounds for a field inside the grid and for the masks of a column.
proof fn bv_grid_bound(x: u128, j: u128)
    by (bit_vector)
    requires
        x & !GRID_MASK == 0,
        j < 72,
    ensures
        x <= GRID_MASK,
        (1u128 << j) < 0x1_00_00_00_00_00_00_00_00_00,
        (0x7fu128 << j) < 0x1_00_00_00_00_00_00_00_00_00_00,
{
}

/// The carry of adding the bottom bit of a column stops at the lowest clear
/// cell of that column.
proof fn bv_drop(m: u128, j: u128, i: u128)
    by (bit_vector)
    requires
        m & !GRID_MASK == 0,
        m & !(m << 1) & !BOTTOM_MASK == 0,
        j < 72,
        j % 8 == 0,
        i < 128,
    ensures
        (((((m + (1u128 << j)) as u128) & (0x7fu128 << j)) >> i) & 1 == 1) <==> (i / 8 == j / 8 && i
            % 8 != 7 && (m >> i) & 1 != 1 && (i % 8 == 0 || (m >> ((i - 1) as u128)) & 1 == 1)),
{
}

/// The occupancy after a move into a column that is not full.
proof fn bv_move(p: u128, m: u128, j: u128)
    by (bit_vector)
    requires
        m & !GRID_MASK == 0,
        m & !(m << 1) & !BOTTOM_MASK == 0,
        p & !m == 0,
        j < 72,
        j % 8 == 0,
        m & (1u128 << ((j + 6) as u128)) == 0,
    ensures
        ({
            let next = m | ((m + (1u128 << j)) as u128);
            &&& next & !GRID_MASK == 0
            &&& next & !(next << 1) & !BOTTOM_MASK == 0
            &&& (p ^ m) & !next == 0
            &&& next == m | (((m + (1u128 << j)) as u128) & (0x7fu128 << j))
        }),
{
}

/// The mover's bits with the drop bit of a column stay inside the grid.
proof fn bv_claim(p: u128, m: u128, j: u128)
    by (bit_vector)
    requires
        m & !GRID_MASK == 0,
        p & !m == 0,
        j < 72,
        j % 8 == 0,
    ensures
        (p | (((m + (1u128 << j)) as u128) & (0x7fu128 << j))) & !GRID_MASK == 0,
{
}

/// A bit of the key is a bit of the mover or the bit directly above a stack.
proof fn bv_key(p: u128, m: u128, i: u128)
    by (bit_vector)
    requires
        m & !GRID_MASK == 0,
        m & !(m << 1) & !BOTTOM_MASK == 0,
        p & !m == 0,
        i < 128,
    ensures
        ((p ^ ((m + BOTTOM_MASK) as u128)) >> i) & 1 == 1 <==> ((p >> i) & 1 == 1 || (i < 72 && (m
            >> i) & 1 != 1 && (i % 8 == 0 || (m >> ((i - 1) as u128)) & 1 == 1))),
{
}

/// The key determines both fields.
proof fn bv_key_injective(pos_a: u128, mask_a: u128, pos_b: u128, mask_b: u128)
    by (bit_vector)
    requires
        mask_a & !GRID_MASK == 0,
        mask_b & !GRID_MASK == 0,
        mask_a & !(mask_a << 1) & !BOTTOM_MASK == 0,
        mask_b & !(mask_b << 1) & !BOTTOM_MASK == 0,
        pos_a & !mask_a == 0,
        pos_b & !mask_b == 0,
        pos_a ^ ((mask_a + BOTTOM_MASK) as u128) == pos_b ^ ((mask_b + BOTTOM_MASK) as u128),
    ensures
        pos_a == pos_b,
        mask_a == mask_b,
{
}

/// Inside the occupancy, the flipped field is the complement of the mover's.
proof fn bv_flip(p: u128, m: u128)
    by (bit_vector)
    ensures
        (p ^ m) & m == m & !p,
{
}

/// A bit of the shift-and-mask test is set when four bits a step apart are.
proof fn bv_run(x: u128, s: u128, i: u128)
    by (bit_vector)
    requires
        1 <= s <= 9,
        i < 128,
    ensures
        (((x & (x >> s)) & ((x & (x >> s)) >> ((2 * s) as u128))) >> i) & 1 == 1 <==> (i + 3 * s
            < 128 && (x >> i) & 1 == 1 && (x >> ((i + s) as u128)) & 1 == 1 && (x >> ((i + 2
            * s) as u128)) & 1 == 1 && (x >> ((i + 3 * s) as u128)) & 1 == 1),
{
}

/// Setting the bit of a playable cell keeps the fields inside the grid and
/// nested.
proof fn bv_place(p: u128, m: u128, j: u128)
    by (bit_vector)
    requires
        m & !GRID_MASK == 0,
        p & !m == 0,
        j < 72,
        j % 8 != 7,
    ensures
        (m | (1u128 << j)) & !GRID_MASK == 0,
        (p | (1u128 << j)) & !(m | (1u128 << j)) == 0,
        p & !(m | (1u128 << j)) == 0,
{
}

/// A bit of the floating test marks a set bit above a clear one.
proof fn bv_floating(m: u128, i: u128)
    by (bit_vector)
    requires
        m & !GRID_MASK == 0,
        i < 128,
        ((m & !(m << 1) & !BOTTOM_MASK) >> i) & 1 == 1,
    ensures
        (m >> i) & 1 == 1,
        i % 8 != 0,
        (m >> ((i - 1) as u128)) & 1 != 1,
{
}

/// The empty field is inside the grid, settled and nested in itself.
proof fn bv_empty()
    by (bit_vector)
    ensures
        0u128 & !GRID_MASK == 0,
        0u128 & !(0u128 << 1) & !BOTTOM_MASK == 0,
        0u128 & !0u128 == 0,
{
}

/// `&` commutes, and fields whose exclusive or is zero are equal.
proof fn bv_equal(x: u128, y: u128)
    by (bit_vector)
    ensures
        x & y == y & x,
        x ^ y == 0 ==> x == y,
{
}

/// Flipping inside the occupancy stays nested, and twice is the identity.
proof fn bv_mirror(p: u128, m: u128)
    by (bit_vector)
    requires
        p & !m == 0,
    ensures
        (p ^ m) & !m == 0,
        (p ^ m) ^ m == p,
{
}

/// Bit by bit, what `&`, `|`, `^` and `!` do.
pub proof fn lemma_bit_ops(x: u128, y: u128, i: int)
    ensures
        bit(x & y, i) == (bit(x, i) && bit(y, i)),
        bit(x | y, i) == (bit(x, i) || bit(y, i)),
        bit(x ^ y, i) == (bit(x, i) != bit(y, i)),
        bit(!x, i) == (0 <= i < 128 && !bit(x, i)),
        !bit(0, i),
{
    if 0 <= i < 128 {
        bv_ops(x, y, i as u128);
    }
}

/// The only bit of `cell_bit(col, row)` is the one of that cell.
pub proof fn lemma_cell_bit(col: int, row: int, i: int)
    requires
        0 <= col < 9,
        0 <= row < 8,
    ensures
        bit(cell_bit(col, row), i) == (i == 8 * col + row),
{
    if 0 <= i < 128 {
        bv_single((8 * col + row) as u128, i as u128);
    }
}

/// Masking with a single cell tests that cell.
pub proof fn lemma_cell_test(x: u128, col: int, row: int)
    requires
        0 <= col < 9,
        0 <= row < 8,
    ensures
        (x & cell_bit(col, row) == 0) == !bit(x, 8 * col + row),
{
    bv_test(x, (8 * col + row) as u128);
}

/// A bit field that is not zero has a set bit.
pub proof fn lemma_nonzero_has_bit(x: u128) -> (i: int)
    requires
        x != 0,
    ensures
        bit(x, i),
    decreases x,
{
    bv_halve(x);
    if x & 1 == 1 {
        0
    } else {
        let j = lemma_nonzero_has_bit(x >> 1);
        bv_shr(x, 1, j as u128);
        j + 1
    }
}

/// Inside the grid every set bit is the bit of a playable cell.
pub proof fn lemma_in_grid_bit(x: u128, i: int)
    requires
        in_grid(x),
        bit(x, i),
    ensures
        0 <= i < 72,
        i % 8 != 7,
        cell(x, i / 8, i % 8),
{
    bv_in_grid(x, i as u128);
}

/// Under gravity a column is a stack: its set cells are exactly the rows below
/// its height.
pub proof fn lemma_stack(x: u128, col: int)
    requires
        in_grid(x),
        settled(x),
        0 <= col < 9,
    ensures
        0 <= column_height(x, col) <= 7,
        forall|row: int| #[trigger] cell(x, col, row) <==> 0 <= row < column_height(x, col),
{
    assert forall|row: int| 1 <= row < 7 && #[trigger] cell(x, col, row) implies cell(
        x,
        col,
        row - 1,
    ) by {
        bv_gravity(x, (8 * col + row) as u128);
    }
    assert(cell(x, col, 1) ==> cell(x, col, 0));
    assert(cell(x, col, 2) ==> cell(x, col, 1));
    assert(cell(x, col, 3) ==> cell(x, col, 2));
    assert(cell(x, col, 4) ==> cell(x, col, 3));
    assert(cell(x, col, 5) ==> cell(x, col, 4));
    assert(cell(x, col, 6) ==> cell(x, col, 5));
}

/// A bit of `x` is a bit of `y` whenever `x` has no bit outside `y`.
pub proof fn lemma_subset_bit(x: u128, y: u128, i: int)
    requires
        x & !y == 0,
        bit(x, i),
    ensures
        bit(y, i),
{
    bv_subset(x, y, i as u128);
}

/// Inside the grid a bit field is small enough for the additions of this
/// crate: adding one bottom bit, or all of them, does not overflow.
pub proof fn lemma_grid_bound(x: u128, col: int)
    requires
        in_grid(x),
        0 <= col < 9,
    ensures
        x <= GRID_MASK,
        x + cell_bit(col, 0) <= u128::MAX,
        x + BOTTOM_MASK <= u128::MAX,
{
    bv_grid_bound(x, (8 * col) as u128);
}

/// The drop bit of a column is the cell directly above its stack, and nothing
/// when the column is full.
pub proof fn lemma_drop_cell(mask: u128, col: int, c: int, row: int)
    requires
        in_grid(mask),
        settled(mask),
        0 <= col < 9,
    ensures
        cell(drop_bit(mask, col), c, row) == (c == col && row == column_height(mask, col) && row
            < 7),
{
    lemma_stack(mask, col);
    if 0 <= c < 9 && 0 <= row < 7 {
        bv_drop(mask, (8 * col) as u128, (8 * c + row) as u128);
        if c == col && row >= 1 {
            assert(bit(mask, 8 * c + row - 1) == cell(mask, col, row - 1));
        }
    }
}

/// Playing a column that is not full: the sum does not overflow, the new
/// occupancy is the old one with the drop bit added, it stays inside the grid
/// and settled, and the flipped mover field lies inside it.
pub proof fn lemma_move_bits(pos: u128, mask: u128, col: int)
    requires
        in_grid(mask),
        settled(mask),
        pos & !mask == 0,
        0 <= col < 9,
        mask & cell_bit(col, 6) == 0,
    ensures
        mask + cell_bit(col, 0) <= u128::MAX,
        ({
            let next = mask | ((mask + cell_bit(col, 0)) as u128);
            &&& next == mask | drop_bit(mask, col)
            &&& in_grid(next)
            &&& settled(next)
            &&& (pos ^ mask) & !next == 0
        }),
{
    lemma_grid_bound(mask, col);
    bv_move(pos, mask, (8 * col) as u128);
}

/// Adding the drop bit of a column that is not full raises the height of that
/// column by one and leaves the other columns as they were.
pub proof fn lemma_drop_height(mask: u128, col: int, c: int)
    requires
        in_grid(mask),
        settled(mask),
        0 <= col < 9,
        column_height(mask, col) < 7,
    ensures
        column_height(mask | drop_bit(mask, col), c) == column_height(mask, c) + indicator(
            c == col,
        ),
{
    let next = mask | drop_bit(mask, col);
    assert forall|row: int| #[trigger]
        cell(next, c, row) == (cell(mask, c, row) || (c == col && row == column_height(
            mask,
            col,
        ))) by {
        lemma_bit_ops(mask, drop_bit(mask, col), 8 * c + row);
        lemma_drop_cell(mask, col, c, row);
    }
    lemma_stack(mask, col);
}

/// The mover's bits together with the drop bit of a column stay inside the
/// grid.
pub proof fn lemma_claim_in_grid(pos: u128, mask: u128, col: int)
    requires
        in_grid(mask),
        pos & !mask == 0,
        0 <= col < 9,
    ensures
        in_grid(pos | drop_bit(mask, col)),
{
    bv_claim(pos, mask, (8 * col) as u128);
}

/// The key holds the mover's cells and, in every column, the cell directly
/// above the stack (the guard bit when the column is full).
pub proof fn lemma_key_bit(pos: u128, mask: u128, col: int, row: int)
    requires
        in_grid(mask),
        settled(mask),
        pos & !mask == 0,
        0 <= col < 9,
        0 <= row < 8,
    ensures
        bit(key_of(pos, mask), 8 * col + row) == (cell(pos, col, row) || row == column_height(
            mask,
            col,
        )),
{
    lemma_stack(mask, col);
    bv_key(pos, mask, (8 * col + row) as u128);
    if row >= 1 {
        assert(bit(mask, 8 * col + row - 1) == cell(mask, col, row - 1));
    }
    if row == 7 {
        if bit(pos, 8 * col + row) {
            lemma_subset_bit(pos, mask, 8 * col + row);
            lemma_in_grid_bit(mask, 8 * col + row);
        }
        if bit(mask, 8 * col + row) {
            lemma_in_grid_bit(mask, 8 * col + row);
        }
    } else {
        assert(bit(mask, 8 * col + row) == cell(mask, col, row));
    }
}

/// Two settled positions with the same key have the same bit fields.
pub proof fn lemma_key_fields(pos_a: u128, mask_a: u128, pos_b: u128, mask_b: u128)
    requires
        in_grid(mask_a),
        settled(mask_a),
        pos_a & !mask_a == 0,
        in_grid(mask_b),
        settled(mask_b),
        pos_b & !mask_b == 0,
        key_of(pos_a, mask_a) == key_of(pos_b, mask_b),
    ensures
        pos_a == pos_b,
        mask_a == mask_b,
{
    bv_key_injective(pos_a, mask_a, pos_b, mask_b);
}

/// Swapping sides: inside the old occupancy the new mover owns exactly the
/// cells the old mover did not.
pub proof fn lemma_flip(pos: u128, mask: u128)
    ensures
        (pos ^ mask) & mask == mask & !pos,
{
    bv_flip(pos, mask);
}

/// Bit `i` of the shift-and-mask test is set exactly when the four bits `i`,
/// `i + step`, `i + 2 * step` and `i + 3 * step` are.
pub proof fn lemma_run_bit(x: u128, step: int, i: int)
    requires
        1 <= step <= 9,
    ensures
        bit(run_bits(x, step), i) == (bit(x, i) && bit(x, i + step) && bit(x, i + 2 * step) && bit(
            x,
            i + 3 * step,
        )),
{
    if 0 <= i < 128 {
        bv_run(x, step as u128, i as u128);
    }
}

/// The empty grid is inside the grid and settled, and no cell of it is set.
pub proof fn lemma_empty()
    ensures
        in_grid(0),
        settled(0),
        0u128 & !0u128 == 0,
        piece_count(0) == 0,
        forall|col: int, row: int| !#[trigger] cell(0, col, row),
{
    bv_empty();
    assert forall|col: int, row: int| !#[trigger] cell(0, col, row) by {
        lemma_bit_ops(0, 0, 8 * col + row);
    }
}

/// Setting the bit of a playable cell keeps a bit field inside the grid, and
/// keeps the mover's bits among the occupied ones whether or not the mover
/// gets the new bit.
pub proof fn lemma_place_bits(pos: u128, mask: u128, col: int, row: int)
    requires
        in_grid(mask),
        pos & !mask == 0,
        0 <= col < 9,
        0 <= row < 7,
    ensures
        in_grid(mask | cell_bit(col, row)),
        (pos | cell_bit(col, row)) & !(mask | cell_bit(col, row)) == 0,
        pos & !(mask | cell_bit(col, row)) == 0,
{
    bv_place(pos, mask, (8 * col + row) as u128);
}

/// Setting the bit of a cell sets that cell and no other.
pub proof fn lemma_place_cell(x: u128, col: int, row: int, c: int, r: int)
    requires
        0 <= col < 9,
        0 <= row < 7,
    ensures
        cell(x | cell_bit(col, row), c, r) == (cell(x, c, r) || (c == col && r == row)),
{
    lemma_bit_ops(x, cell_bit(col, row), 8 * c + r);
    lemma_cell_bit(col, row, 8 * c + r);
}

/// Setting the bit of an empty cell adds one piece.
pub proof fn lemma_place_count(x: u128, col: int, row: int)
    requires
        0 <= col < 9,
        0 <= row < 7,
        !cell(x, col, row),
    ensures
        piece_count(x | cell_bit(col, row)) == piece_count(x) + 1,
{
    let next = x | cell_bit(col, row);
    assert forall|c: int, r: int| #[trigger]
        cell(next, c, r) == (cell(x, c, r) || (c == col && r == row)) by {
        lemma_place_cell(x, col, row, c, r);
    }
    assert forall|c: int| 0 <= c < 9 implies #[trigger] column_height(next, c) == column_height(
        x,
        c,
    ) + indicator(c == col) by {
    }
}

/// A bit field inside the grid that is not settled has a floating cell: a set
/// cell above the bottom row with nothing directly below it.
pub proof fn lemma_floating_cell(x: u128) -> (at: (int, int))
    requires
        in_grid(x),
        !settled(x),
    ensures
        0 <= at.0 < 9,
        1 <= at.1 < 7,
        cell(x, at.0, at.1),
        !cell(x, at.0, at.1 - 1),
{
    let i = lemma_nonzero_has_bit(x & !(x << 1) & !BOTTOM_MASK);
    bv_floating(x, i as u128);
    lemma_in_grid_bit(x, i);
    (i / 8, i % 8)
}

/// `&` does not care about the order of its operands.
pub proof fn lemma_and_commutes(x: u128, y: u128)
    ensures
        x & y == y & x,
{
    bv_equal(x, y);
}

/// Swapping sides inside the same occupancy keeps the mover's bits among the
/// occupied ones, and swapping twice gives the first bits back.
pub proof fn lemma_mirror_bits(pos: u128, mask: u128)
    requires
        pos & !mask == 0,
    ensures
        (pos ^ mask) & !mask == 0,
        (pos ^ mask) ^ mask == pos,
{
    bv_mirror(pos, mask);
}

/// What `in_grid` means: every set bit is the bit of a playable cell.
pub proof fn lemma_in_grid_means(x: u128)
    ensures
        in_grid(x) <==> forall|i: int| #[trigger] bit(x, i) ==> 0 <= i < 72 && i % 8 != 7,
{
    if in_grid(x) {
        assert forall|i: int| #[trigger] bit(x, i) implies 0 <= i < 72 && i % 8 != 7 by {
            lemma_in_grid_bit(x, i);
        }
    } else {
        let i = lemma_nonzero_has_bit(x & !GRID_MASK);
        lemma_bit_ops(x, !GRID_MASK, i);
        lemma_bit_ops(GRID_MASK, 0, i);
        bv_grid_bits(i as u128);
        assert(bit(x, i) && !(0 <= i < 72 && i % 8 != 7));
    }
}

/// What `settled` means inside the grid: in every column the set cells are
/// exactly the rows below the height of the column.
pub proof fn lemma_settled_means(x: u128)
    requires
        in_grid(x),
    ensures
        settled(x) <==> forall|col: int, row: int| #[trigger]
            cell(x, col, row) <==> 0 <= col < 9 && 0 <= row < column_height(x, col),
{
    if settled(x) {
        assert forall|col: int, row: int| #[trigger]
            cell(x, col, row) <==> 0 <= col < 9 && 0 <= row < column_height(x, col) by {
            if 0 <= col < 9 {
                lemma_stack(x, col);
            }
        }
    } else {
        let at = lemma_floating_cell(x);
        assert(cell(x, at.0, at.1) && !cell(x, at.0, at.1 - 1));
    }
}

/// What `x & !y == 0` means: every set bit of `x` is set in `y`.
pub proof fn lemma_subset_means(x: u128, y: u128)
    ensures
        x & !y == 0 <==> forall|i: int| #[trigger] bit(x, i) ==> bit(y, i),
{
    if x & !y == 0 {
        assert forall|i: int| #[trigger] bit(x, i) implies bit(y, i) by {
            lemma_subset_bit(x, y, i);
        }
    } else {
        let i = lemma_nonzero_has_bit(x & !y);
        lemma_bit_ops(x, !y, i);
        lemma_bit_ops(y, 0, i);
        assert(bit(x, i) && !bit(y, i));
    }
}

/// Two bit fields with the same bits are equal.
pub proof fn lemma_same_bits(x: u128, y: u128)
    requires
        forall|i: int| 0 <= i < 128 ==> bit(x, i) == bit(y, i),
    ensures
        x == y,
{
    bv_equal(x, y);
    if x ^ y != 0 {
        let i = lemma_nonzero_has_bit(x ^ y);
        lemma_bit_ops(x, y, i);
    }
}

/// Two bit fields inside the grid with the same cells are equal.
pub proof fn lemma_same_cells(x: u128, y: u128)
    requires
        in_grid(x),
        in_grid(y),
        forall|col: int, row: int| cell(x, col, row) == cell(y, col, row),
    ensures
        x == y,
{
    assert forall|i: int| 0 <= i < 128 implies bit(x, i) == bit(y, i) by {
        if bit(x, i) {
            lemma_in_grid_bit(x, i);
            assert(cell(y, i / 8, i % 8));
        }
        if bit(y, i) {
            lemma_in_grid_bit(y, i);
            assert(cell(x, i / 8, i % 8));
        }
    }
    lemma_same_bits(x, y);
}

/// A bit field with no bit outside a field inside the grid is inside the
/// grid.
pub proof fn lemma_subset_grid(x: u128, y: u128)
    requires
        x & !y == 0,
        in_grid(y),
    ensures
        in_grid(x),
{
    lemma_in_grid_means(x);
    assert forall|i: int| #[trigger] bit(x, i) implies 0 <= i < 72 && i % 8 != 7 by {
        lemma_subset_bit(x, y, i);
        lemma_in_grid_bit(y, i);
    }
}

} // verus!
