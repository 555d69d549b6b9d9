//! The bit-packed board: two bit fields and a move counter.
use crate::bits::{
    bit, cell, cell_bit, column_bits, column_height, drop_bit, in_grid, key_of,
    lemma_and_commutes, lemma_bit_ops, lemma_cell_test, lemma_claim_in_grid, lemma_drop_cell,
    lemma_drop_height, lemma_empty, lemma_flip, lemma_floating_cell, lemma_grid_bound,
    lemma_in_grid_means, lemma_key_bit, lemma_key_fields, lemma_mirror_bits, lemma_move_bits,
    lemma_place_bits, lemma_place_cell, lemma_place_count, lemma_same_cells,
    lemma_settled_means, lemma_stack, lemma_subset_bit, lemma_subset_grid, lemma_subset_means,
    piece_count, run_bits, settled, BOTTOM_MASK,
};
use crate::lines::{cells_of, four_in_row, has_run, lemma_run_test, lemma_runs_are_lines};
use crate::position::{
    claim, open_column, owned_cells, pieces, play, swapped, well_shaped, wins_by,
};
use vstd::prelude::*;

verus! {

/// Why a grid of glyphs is not a board.
#[derive(Clone, Copy, Debug, PartialEq, Eq, Structural)]
pub enum DecodeError {
    /// There are not exactly seven rows.
    RowCount,
    /// A row has fewer than nine glyphs.
    ShortRow,
    /// A piece has an empty cell directly below it.
    FloatingPiece,
}

/// The glyph of cell `(col, row)` in a grid written as seven rows from the
/// top row down.
pub open spec fn glyph_at(rows: Seq<Vec<char>>, col: int, row: int) -> char {
    rows[6 - row]@[col]
}

/// The grid shows a piece on cell `(col, row)`: any glyph but `.`.
pub open spec fn piece_at(rows: Seq<Vec<char>>, col: int, row: int) -> bool {
    glyph_at(rows, col, row) != '.'
}

/// The glyph is a piece of the side to move at turn `turn_index`: the first
/// player, whose glyph is `0`, moves at even turns; every glyph other than
/// `.` and `0` is a piece of the second player.
pub open spec fn movers_glyph(glyph: char, turn_index: int) -> bool {
    if turn_index % 2 == 0 {
        glyph == '0'
    } else {
        glyph != '.' && glyph != '0'
    }
}

/// Seven rows of at least nine glyphs each.
pub open spec fn well_sized(rows: Seq<Vec<char>>) -> bool {
    &&& rows.len() == 7
    &&& forall|line: int| 0 <= line < 7 ==> (#[trigger] rows[line])@.len() >= 9
}

/// The grid shows a piece on `(col, row)` and none directly below it.
pub open spec fn floating(rows: Seq<Vec<char>>, col: int, row: int) -> bool {
    0 <= col < 9 && 1 <= row < 7 && piece_at(rows, col, row) && !piece_at(rows, col, row - 1)
}

/// The grid shows a floating piece somewhere.
pub open spec fn has_floating(rows: Seq<Vec<char>>) -> bool {
    exists|col: int, row: int| #[trigger] floating(rows, col, row)
}

/// The cells on which the grid shows a piece.
pub open spec fn shown(rows: Seq<Vec<char>>) -> spec_fn(int, int) -> bool {
    |col: int, row: int| piece_at(rows, col, row)
}

/// The cells on which the grid shows a piece of the side to move at turn
/// `turn_index`.
pub open spec fn shown_to_mover(rows: Seq<Vec<char>>, turn_index: int) -> spec_fn(
    int,
    int,
) -> bool {
    |col: int, row: int|
        piece_at(rows, col, row) && movers_glyph(glyph_at(rows, col, row), turn_index)
}

/// Reading goes from the top row down and in each row from the left: cell
/// `(col, row)` has been read when row `i` has been read up to column `j`.
spec fn already_read(i: int, j: int, col: int, row: int) -> bool {
    0 <= col < 9 && 0 <= row < 7 && (row > i || (row == i && col < j))
}

/// The set cells of `x` are the wanted cells among those already read.
#[verifier::opaque]
spec fn read_into(x: u128, want: spec_fn(int, int) -> bool, i: int, j: int) -> bool {
    forall|col: int, row: int| #[trigger]
        cell(x, col, row) == (already_read(i, j, col, row) && want(col, row))
}

/// Reading one more cell: its bit is set if it is wanted and left alone if
/// not. Before, the cell is empty.
proof fn lemma_read_cell(x: u128, want: spec_fn(int, int) -> bool, i: int, j: int)
    requires
        0 <= i < 7,
        0 <= j < 9,
        read_into(x, want, i, j),
    ensures
        !cell(x, j, i),
        want(j, i) ==> read_into(x | cell_bit(j, i), want, i, j + 1),
        !want(j, i) ==> read_into(x, want, i, j + 1),
{
    reveal(read_into);
    assert(cell(x, j, i) == (already_read(i, j, j, i) && want(j, i)));
    assert forall|col: int, row: int| #[trigger]
        cell(x | cell_bit(j, i), col, row) == (cell(x, col, row) || (col == j && row == i)) by {
        lemma_place_cell(x, j, i, col, row);
    }
}

/// A row read to its end is the next row not yet begun.
proof fn lemma_read_row(x: u128, want: spec_fn(int, int) -> bool, i: int)
    requires
        read_into(x, want, i, 9),
    ensures
        read_into(x, want, i - 1, 0),
{
    reveal(read_into);
    assert forall|col: int, row: int| #[trigger]
        cell(x, col, row) == (already_read(i - 1, 0, col, row) && want(col, row)) by {
        assert(cell(x, col, row) == (already_read(i, 9, col, row) && want(col, row)));
    }
}

/// One game position, seen by the side to move.
///
/// `pos` has a bit for every cell that holds a piece of the side to move,
/// `mask` a bit for every cell that holds any piece, and `moves` counts the
/// pieces on the board.
#[derive(Clone, Copy, Debug, PartialEq, Eq, Structural)]
pub struct BitBoard {
    pos: u128,
    mask: u128,
    moves: usize,
}

impl View for BitBoard {
    type V = Seq<Seq<bool>>;

    /// The nine columns as stacks, bottom first; `true` is a piece of the
    /// side to move.
    open spec fn view(&self) -> Seq<Seq<bool>> {
        Seq::new(
            9,
            |col: int| Seq::new(self.height(col) as nat, |row: int| self.mine(col, row)),
        )
    }
}

impl BitBoard {
    /// The bit field of the side to move.
    pub closed spec fn mover_bits(&self) -> u128 {
        self.pos
    }

    /// The bit field of all pieces.
    pub closed spec fn occupied_bits(&self) -> u128 {
        self.mask
    }

    /// The move counter.
    pub closed spec fn ply(&self) -> int {
        self.moves as int
    }

    /// The invariant of a board: all pieces lie on playable cells, no piece
    /// floats, the mover's pieces are among the pieces, and the counter is the
    /// number of pieces.
    pub open spec fn wf(&self) -> bool {
        &&& in_grid(self.occupied_bits())
        &&& settled(self.occupied_bits())
        &&& self.mover_bits() & !self.occupied_bits() == 0
        &&& self.ply() == piece_count(self.occupied_bits())
    }

    /// The invariant said cell by cell: every piece lies on a playable cell,
    /// in every column the occupied cells are exactly the rows below the
    /// height of the column, every piece of the mover is a piece, and the
    /// counter is the number of pieces.
    pub open spec fn wf_cells(&self) -> bool {
        &&& forall|i: int| #[trigger] bit(self.occupied_bits(), i) ==> 0 <= i < 72 && i % 8 != 7
        &&& forall|col: int, row: int| #[trigger]
            self.occupied(col, row) <==> 0 <= col < 9 && 0 <= row < self.height(col)
        &&& forall|i: int| #[trigger]
            bit(self.mover_bits(), i) ==> bit(self.occupied_bits(), i)
        &&& self.ply() == piece_count(self.occupied_bits())
    }

    /// Number of pieces in column `col`.
    pub open spec fn height(&self, col: int) -> int {
        column_height(self.occupied_bits(), col)
    }

    /// Cell `(col, row)` holds a piece.
    pub open spec fn occupied(&self, col: int, row: int) -> bool {
        cell(self.occupied_bits(), col, row)
    }

    /// Cell `(col, row)` holds a piece of the side to move.
    pub open spec fn mine(&self, col: int, row: int) -> bool {
        cell(self.mover_bits(), col, row)
    }

    /// The key of the position.
    pub open spec fn key_value(&self) -> u128 {
        key_of(self.mover_bits(), self.occupied_bits())
    }

    /// The board holds exactly the pieces that the grid `rows` shows, and the
    /// mover's pieces are those of the side to move at turn `turn_index`.
    pub open spec fn shows(&self, rows: Seq<Vec<char>>, turn_index: int) -> bool {
        forall|col: int, row: int|
            0 <= col < 9 && 0 <= row < 7 ==> {
                &&& #[trigger] self.occupied(col, row) == piece_at(rows, col, row)
                &&& self.mine(col, row) == (piece_at(rows, col, row) && movers_glyph(
                    glyph_at(rows, col, row),
                    turn_index,
                ))
            }
    }

    /// The glyph that stands for cell `(col, row)` when the board is drawn:
    /// `_` for an empty cell, `1` for a piece of the side to move, `2` for a
    /// piece of the other side.
    pub open spec fn glyph(&self, col: int, row: int) -> char {
        if !self.occupied(col, row) {
            '_'
        } else if self.mine(col, row) {
            '1'
        } else {
            '2'
        }
    }

    /// The board after the side to move has played column `col`.
    pub closed spec fn after_move(&self, col: int) -> BitBoard {
        BitBoard {
            pos: self.pos ^ self.mask,
            mask: self.mask | drop_bit(self.mask, col),
            moves: (self.moves + 1) as usize,
        }
    }

    /// The mirror of the board: the same occupancy with the other side to
    /// move.
    pub closed spec fn mirror(&self) -> BitBoard {
        BitBoard { pos: self.pos ^ self.mask, mask: self.mask, moves: self.moves }
    }

    /// The invariant is what `wf_cells` says.
    pub proof fn lemma_wf_means(self)
        ensures
            self.wf() == self.wf_cells(),
    {
        lemma_in_grid_means(self.mask);
        lemma_subset_means(self.pos, self.mask);
        if in_grid(self.mask) {
            lemma_settled_means(self.mask);
            if settled(self.mask) {
                assert forall|col: int, row: int| #[trigger]
                    self.occupied(col, row) <==> 0 <= col < 9 && 0 <= row < self.height(col) by {
                    assert(cell(self.mask, col, row) <==> 0 <= col < 9 && 0 <= row
                        < column_height(self.mask, col));
                }
            }
            if self.wf_cells() {
                assert forall|col: int, row: int| #[trigger]
                    cell(self.mask, col, row) <==> 0 <= col < 9 && 0 <= row < column_height(
                        self.mask,
                        col,
                    ) by {
                    assert(self.occupied(col, row) <==> 0 <= col < 9 && 0 <= row < self.height(
                        col,
                    ));
                }
            }
        }
    }

    /// The mirror of a board is a board with the same pieces, each owned by
    /// the other side, and the mirror of the mirror is the board itself.
    pub proof fn lemma_mirror(self)
        requires
            self.wf(),
        ensures
            self.mirror().wf(),
            self.mirror().mirror() == self,
            self.mirror().occupied_bits() == self.occupied_bits(),
            self.mirror().ply() == self.ply(),
            self.mirror()@ == Seq::new(9, |col: int| swapped(self@[col])),
            forall|col: int, row: int| #[trigger]
                self.mirror().mine(col, row) == (self.occupied(col, row) && !self.mine(col, row)),
    {
        let other = self.mirror();
        lemma_mirror_bits(self.pos, self.mask);
        assert forall|col: int, row: int| #[trigger]
            other.mine(col, row) == (self.occupied(col, row) && !self.mine(col, row)) by {
            lemma_bit_ops(self.pos, self.mask, 8 * col + row);
            if self.mine(col, row) {
                lemma_subset_bit(self.pos, self.mask, 8 * col + row);
            }
        }
        self.lemma_cells();
        other.lemma_cells();
        let flipped = Seq::new(9, |col: int| swapped(self@[col]));
        assert forall|col: int| 0 <= col < 9 implies #[trigger] other@[col] =~= flipped[col] by {
            assert(other@[col].len() == other.height(col));
            assert(self@[col].len() == self.height(col));
            assert forall|row: int| 0 <= row < other@[col].len() implies other@[col][row]
                == flipped[col][row] by {
                assert(other@[col][row] == other.mine(col, row));
                assert(self.occupied(col, row));
                assert(self@[col][row] == self.mine(col, row));
            }
        }
        assert(other@ =~= flipped);
    }

    /// What the invariant gives cell by cell and in the view: every column
    /// is a stack whose cells below its height are occupied and no others,
    /// the mover's cells are occupied ones, and the view is that grid.
    pub proof fn lemma_cells(self)
        requires
            self.wf(),
        ensures
            well_shaped(self@),
            pieces(self@) == self.ply(),
            0 <= self.ply() <= 63,
            forall|col: int| 0 <= col < 9 ==> 0 <= #[trigger] self.height(col) <= 7,
            forall|col: int| 0 <= col < 9 ==> (#[trigger] self@[col]).len() == self.height(col),
            forall|col: int, row: int| #[trigger]
                self.occupied(col, row) <==> 0 <= col < 9 && 0 <= row < self.height(col),
            forall|col: int, row: int| #[trigger] self.mine(col, row) ==> self.occupied(col, row),
            forall|col: int, row: int| #[trigger]
                owned_cells(self@)(col, row) == self.mine(col, row),
    {
        self.lemma_stacks();
        assert forall|col: int| 0 <= col < 9 implies (#[trigger] self@[col]).len() == self.height(
            col,
        ) by {}
        assert forall|col: int, row: int| #[trigger]
            owned_cells(self@)(col, row) == self.mine(col, row) by {
            if 0 <= col < 9 && 0 <= row < self.height(col) {
                assert(self@[col][row] == self.mine(col, row));
            }
        }
    }

    /// The part of `lemma_cells` that does not speak of the view.
    proof fn lemma_stacks(self)
        requires
            self.wf(),
        ensures
            0 <= self.ply() <= 63,
            forall|col: int| 0 <= col < 9 ==> 0 <= #[trigger] self.height(col) <= 7,
            forall|col: int, row: int| #[trigger]
                self.occupied(col, row) <==> 0 <= col < 9 && 0 <= row < self.height(col),
            forall|col: int, row: int| #[trigger] self.mine(col, row) ==> self.occupied(col, row),
    {
        lemma_settled_means(self.mask);
        assert forall|col: int, row: int| #[trigger]
            self.occupied(col, row) <==> 0 <= col < 9 && 0 <= row < self.height(col) by {
            assert(cell(self.mask, col, row) <==> 0 <= col < 9 && 0 <= row < column_height(
                self.mask,
                col,
            ));
        }
        assert forall|col: int| 0 <= col < 9 implies 0 <= #[trigger] self.height(col) <= 7 by {
            lemma_stack(self.mask, col);
        }
        assert forall|col: int, row: int| #[trigger] self.mine(col, row) implies self.occupied(
            col,
            row,
        ) by {
            lemma_subset_bit(self.pos, self.mask, 8 * col + row);
        }
    }

    /// The empty board.
    pub fn new() -> (board: BitBoard)
        ensures
            board.wf(),
            board.ply() == 0,
            board.mover_bits() == 0,
            board.occupied_bits() == 0,
            forall|col: int| 0 <= col < 9 ==> (#[trigger] board@[col]).len() == 0,
    {
        let board = BitBoard { pos: 0, mask: 0, moves: 0 };
        proof {
            lemma_empty();
        }
        board
    }

    /// Decode a grid of glyphs, given as seven rows from the top row down.
    ///
    /// `.` is an empty cell, `0` a piece of the first player and any other
    /// glyph a piece of the second player; glyphs beyond the ninth of a row
    /// are not read. `turn_index` says whose turn it is: the first player's
    /// at even turns. The move counter of the board is the number of pieces
    /// shown.
    pub fn from_input(turn_index: usize, rows: &Vec<Vec<char>>) -> (result: Result<
        BitBoard,
        DecodeError,
    >)
        ensures
            match result {
                Ok(board) => {
                    &&& well_sized(rows@)
                    &&& !has_floating(rows@)
                    &&& board.wf()
                    &&& board.shows(rows@, turn_index as int)
                },
                Err(DecodeError::RowCount) => rows@.len() != 7,
                Err(DecodeError::ShortRow) => rows@.len() == 7 && !well_sized(rows@),
                Err(DecodeError::FloatingPiece) => well_sized(rows@) && has_floating(rows@),
            },
    {
        if rows.len() != 7 {
            return Err(DecodeError::RowCount);
        }
        let mut line: usize = 0;
        while line < 7
            invariant
                line <= 7,
                rows@.len() == 7,
                forall|k: int| 0 <= k < line ==> (#[trigger] rows@[k])@.len() >= 9,
            decreases 7 - line,
        {
            if rows[line].len() < 9 {
                return Err(DecodeError::ShortRow);
            }
            line += 1;
        }
        let plr_id: usize = (turn_index % 2) + 1;
        let mut pos: u128 = 0;
        let mut mask: u128 = 0;
        let mut moves: usize = 0;
        let ghost pieces_shown = shown(rows@);
        let ghost movers_shown = shown_to_mover(rows@, turn_index as int);
        proof {
            lemma_empty();
            reveal(read_into);
        }
        let mut line: usize = 0;
        while line < 7
            invariant
                line <= 7,
                well_sized(rows@),
                plr_id == (turn_index % 2) + 1,
                pieces_shown == shown(rows@),
                movers_shown == shown_to_mover(rows@, turn_index as int),
                in_grid(mask),
                pos & !mask == 0,
                moves == piece_count(mask),
                read_into(mask, pieces_shown, 6 - line, 0),
                read_into(pos, movers_shown, 6 - line, 0),
            decreases 7 - line,
        {
            let i: usize = 6 - line;
            let mut j: usize = 0;
            while j < 9
                invariant
                    j <= 9,
                    line < 7,
                    i == 6 - line,
                    well_sized(rows@),
                    plr_id == (turn_index % 2) + 1,
                    pieces_shown == shown(rows@),
                    movers_shown == shown_to_mover(rows@, turn_index as int),
                    in_grid(mask),
                    pos & !mask == 0,
                    moves == piece_count(mask),
                    read_into(mask, pieces_shown, i as int, j as int),
                    read_into(pos, movers_shown, i as int, j as int),
                decreases 9 - j,
            {
                let c: char = rows[line][j];
                let cell_code: usize = if c == '.' {
                    0
                } else {
                    if c == '0' {
                        1
                    } else {
                        2
                    }
                };
                proof {
                    assert(c == glyph_at(rows@, j as int, i as int));
                    lemma_read_cell(mask, pieces_shown, i as int, j as int);
                    lemma_read_cell(pos, movers_shown, i as int, j as int);
                }
                if cell_code > 0 {
                    let bindex: usize = j * 8 + i;
                    proof {
                        lemma_place_bits(pos, mask, j as int, i as int);
                        lemma_place_count(mask, j as int, i as int);
                    }
                    mask = mask | ((1 as u128) << bindex);
                    moves = moves + 1;
                    if cell_code == plr_id {
                        pos = pos | ((1 as u128) << bindex);
                    }
                }
                j += 1;
            }
            proof {
                lemma_read_row(mask, pieces_shown, i as int);
                lemma_read_row(pos, movers_shown, i as int);
            }
            line += 1;
        }
        proof {
            reveal(read_into);
        }
        if mask & !(mask << 1) & !BOTTOM_MASK != 0 {
            proof {
                let at = lemma_floating_cell(mask);
                assert(floating(rows@, at.0, at.1));
            }
            return Err(DecodeError::FloatingPiece);
        }
        let board = BitBoard { pos, mask, moves };
        proof {
            assert forall|c: int, r: int| !#[trigger] floating(rows@, c, r) by {
                if 0 <= c < 9 {
                    lemma_stack(mask, c);
                    if floating(rows@, c, r) {
                        assert(cell(mask, c, r));
                        assert(!cell(mask, c, r - 1));
                    }
                }
            }
        }
        Ok(board)
    }

    /// Draw the board as seven rows of nine glyphs from the top row down.
    pub fn render(&self) -> (rows: Vec<Vec<char>>)
        ensures
            rows@.len() == 7,
            forall|line: int| 0 <= line < 7 ==> (#[trigger] rows@[line])@.len() == 9,
            forall|col: int, row: int|
                0 <= col < 9 && 0 <= row < 7 ==> #[trigger] glyph_at(rows@, col, row) == self.glyph(
                    col,
                    row,
                ),
    {
        let mut rows: Vec<Vec<char>> = Vec::new();
        let mut line: usize = 0;
        while line < 7
            invariant
                line <= 7,
                rows@.len() == line,
                forall|k: int| 0 <= k < line ==> (#[trigger] rows@[k])@.len() == 9,
                forall|k: int, col: int|
                    0 <= k < line && 0 <= col < 9 ==> #[trigger] rows@[k]@[col] == self.glyph(
                        col,
                        6 - k,
                    ),
            decreases 7 - line,
        {
            let r: usize = 6 - line;
            let mut drawn: Vec<char> = Vec::new();
            let mut c: usize = 0;
            while c < 9
                invariant
                    c <= 9,
                    r < 7,
                    drawn@.len() == c,
                    forall|col: int| 0 <= col < c ==> #[trigger] drawn@[col] == self.glyph(
                        col,
                        r as int,
                    ),
                decreases 9 - c,
            {
                let brc: u128 = (1 as u128) << (c * 8 + r);
                let mrc: u128 = brc & self.mask;
                let prc: u128 = brc & self.pos;
                proof {
                    lemma_cell_test(self.mask, c as int, r as int);
                    lemma_cell_test(self.pos, c as int, r as int);
                    lemma_and_commutes(brc, self.mask);
                    lemma_and_commutes(brc, self.pos);
                }
                drawn.push(
                    if mrc == 0 {
                        '_'
                    } else {
                        if prc == 0 {
                            '2'
                        } else {
                            '1'
                        }
                    },
                );
                c += 1;
            }
            rows.push(drawn);
            line += 1;
        }
        rows
    }

    /// The bit field of the side to move.
    pub fn position(&self) -> (bits: u128)
        ensures
            bits == self.mover_bits(),
    {
        self.pos
    }

    /// The bit field of all pieces.
    pub fn mask(&self) -> (bits: u128)
        ensures
            bits == self.occupied_bits(),
    {
        self.mask
    }

    /// The key of the position: the mover's bits, and a marker bit directly
    /// above the stack of every column.
    pub fn key(&self) -> (k: u128)
        requires
            self.wf(),
        ensures
            k == self.key_value(),
    {
        proof {
            lemma_grid_bound(self.mask, 0);
        }
        self.pos ^ (self.mask + BOTTOM_MASK)
    }

    /// The bit of the top playable cell of column `col`.
    pub fn top_mask(col: usize) -> (m: u128)
        requires
            col < 9,
        ensures
            m == cell_bit(col as int, 6),
    {
        (1 as u128) << (col * 8 + 6)
    }

    /// The bit of the bottom cell of column `col`.
    pub fn bottom_mask(col: usize) -> (m: u128)
        requires
            col < 9,
        ensures
            m == cell_bit(col as int, 0),
    {
        (1 as u128) << (col * 8)
    }

    /// The bits of the seven playable cells of column `col`.
    pub fn column_mask(col: usize) -> (m: u128)
        requires
            col < 9,
        ensures
            m == column_bits(col as int),
    {
        (127 as u128) << (col * 8)
    }

    /// Whether `pos` holds four set bits in a line: 8 apart (a row), 7 or 9
    /// apart (the diagonals) or 1 apart (a column). Inside the grid these are
    /// exactly the lines of four cells.
    pub fn has_4_in_row(pos: u128) -> (found: bool)
        ensures
            found == (has_run(pos, 8) || has_run(pos, 7) || has_run(pos, 9) || has_run(pos, 1)),
            in_grid(pos) ==> found == four_in_row(pos),
    {
        proof {
            lemma_run_test(pos, 8);
            lemma_run_test(pos, 7);
            lemma_run_test(pos, 9);
            lemma_run_test(pos, 1);
            if in_grid(pos) {
                lemma_runs_are_lines(pos);
            }
            assert(run_bits(pos, 8) == (pos & (pos >> 8)) & ((pos & (pos >> 8)) >> 16));
            assert(run_bits(pos, 7) == (pos & (pos >> 7)) & ((pos & (pos >> 7)) >> 14));
            assert(run_bits(pos, 9) == (pos & (pos >> 9)) & ((pos & (pos >> 9)) >> 18));
            assert(run_bits(pos, 1) == (pos & (pos >> 1)) & ((pos & (pos >> 1)) >> 2));
        }
        // Horizontal
        let hb: u128 = pos & (pos >> 8);
        if hb & (hb >> 16) != 0 {
            return true;
        }
        // Diagonal
        let d1: u128 = pos & (pos >> 7);
        if d1 & (d1 >> 14) != 0 {
            return true;
        }
        // Other diagonal
        let d2: u128 = pos & (pos >> 9);
        if d2 & (d2 >> 18) != 0 {
            return true;
        }
        // Vertical
        let v: u128 = pos & (pos >> 1);
        if v & (v >> 2) != 0 {
            return true;
        }
        false
    }

    /// Can this column be played? Yes exactly when it holds fewer than seven
    /// pieces.
    pub fn is_legal_move(&self, col: usize) -> (legal: bool)
        requires
            self.wf(),
            col < 9,
        ensures
            legal == !self.occupied(col as int, 6),
            legal == (self.height(col as int) < 7),
            legal == open_column(self@, col as int),
    {
        proof {
            self.lemma_cells();
            lemma_cell_test(self.mask, col as int, 6);
            assert(self.occupied(col as int, 6) == !(self.mask & cell_bit(col as int, 6) == 0));
        }
        self.mask & BitBoard::top_mask(col) == 0
    }

    /// Play the given column: the sides swap and one piece is added on top of
    /// the column.
    pub fn make_move(&self, col: usize) -> (next: BitBoard)
        requires
            self.wf(),
            col < 9,
            self.height(col as int) < 7,
        ensures
            next.wf(),
            next == self.after_move(col as int),
            next@ == play(self@, col as int),
            next.ply() == self.ply() + 1,
            next.occupied_bits() == self.occupied_bits() | drop_bit(
                self.occupied_bits(),
                col as int,
            ),
            next.mover_bits() == self.mover_bits() ^ self.occupied_bits(),
            next.mover_bits() & self.occupied_bits() == self.occupied_bits() & !self.mover_bits(),
    {
        proof {
            self.lemma_cells();
            lemma_cell_test(self.mask, col as int, 6);
            assert(self.occupied(col as int, 6) == !(self.mask & cell_bit(col as int, 6) == 0));
            lemma_move_bits(self.pos, self.mask, col as int);
            lemma_flip(self.pos, self.mask);
            self.lemma_after_move(col as int);
        }
        BitBoard {
            pos: self.pos ^ self.mask,
            mask: self.mask | (self.mask + BitBoard::bottom_mask(col)),
            moves: self.moves + 1,
        }
    }

    /// Playing a column that is not full keeps the invariant, and in the view
    /// it is `play`.
    pub proof fn lemma_after_move(self, col: int)
        requires
            self.wf(),
            0 <= col < 9,
            self.height(col) < 7,
        ensures
            self.after_move(col).wf(),
            self.after_move(col)@ == play(self@, col),
            self.after_move(col).ply() == self.ply() + 1,
            self.after_move(col).occupied_bits() == self.occupied_bits() | drop_bit(
                self.occupied_bits(),
                col,
            ),
            self.after_move(col).mover_bits() == self.mover_bits() ^ self.occupied_bits(),
    {
        let next = self.after_move(col);
        self.lemma_after_move_heights(col);
        self.lemma_cells();
        next.lemma_cells();
        let played = play(self@, col);
        assert forall|c: int| 0 <= c < 9 implies #[trigger] next@[c] =~= played[c] by {
            assert(next@[c].len() == next.height(c));
            assert(self@[c].len() == self.height(c));
            assert forall|row: int| 0 <= row < next@[c].len() implies next@[c][row]
                == played[c][row] by {
                self.lemma_after_move_cell(col, c, row);
                assert(next@[c][row] == next.mine(c, row));
                if row < self.height(c) {
                    assert(self.occupied(c, row));
                    assert(self@[c][row] == self.mine(c, row));
                } else {
                    assert(!self.occupied(c, row));
                }
            }
        }
        assert(next@ =~= played);
    }

    /// After a move the heights are the old ones, but one more in the column
    /// played, and the invariant holds.
    proof fn lemma_after_move_heights(self, col: int)
        requires
            self.wf(),
            0 <= col < 9,
            self.height(col) < 7,
        ensures
            self.after_move(col).wf(),
            self.after_move(col).ply() == self.ply() + 1,
            forall|c: int|
                0 <= c < 9 ==> #[trigger] self.after_move(col).height(c) == self.height(c)
                    + if c == col {
                    1int
                } else {
                    0int
                },
    {
        let next = self.after_move(col);
        lemma_stack(self.mask, col);
        lemma_cell_test(self.mask, col, 6);
        assert(self.occupied(col, 6) == !(self.mask & cell_bit(col, 6) == 0));
        lemma_move_bits(self.pos, self.mask, col);
        lemma_drop_height(self.mask, col, 0);
        lemma_drop_height(self.mask, col, 1);
        lemma_drop_height(self.mask, col, 2);
        lemma_drop_height(self.mask, col, 3);
        lemma_drop_height(self.mask, col, 4);
        lemma_drop_height(self.mask, col, 5);
        lemma_drop_height(self.mask, col, 6);
        lemma_drop_height(self.mask, col, 7);
        lemma_drop_height(self.mask, col, 8);
    }

    /// After a move the new mover owns the occupied cells the old mover did
    /// not.
    proof fn lemma_after_move_cell(self, col: int, c: int, row: int)
        requires
            self.wf(),
        ensures
            self.after_move(col).mine(c, row) == (self.occupied(c, row) && !self.mine(c, row)),
    {
        lemma_bit_ops(self.pos, self.mask, 8 * c + row);
        if self.mine(c, row) {
            lemma_subset_bit(self.pos, self.mask, 8 * c + row);
        }
    }

    /// Would playing this column give the side to move four in a line? The
    /// piece is dropped onto the mover's bits only; on a full column nothing
    /// is dropped and the answer is whether four in a line are there already.
    pub fn move_causes_win(&self, col: usize) -> (win: bool)
        requires
            self.wf(),
            col < 9,
        ensures
            win == four_in_row(self.mover_bits() | drop_bit(self.occupied_bits(), col as int)),
            win == wins_by(self@, col as int),
    {
        proof {
            lemma_grid_bound(self.mask, col as int);
            lemma_claim_in_grid(self.pos, self.mask, col as int);
            self.lemma_claim(col as int);
        }
        let newpos: u128 = self.pos | ((self.mask + BitBoard::bottom_mask(col))
            & BitBoard::column_mask(col));
        BitBoard::has_4_in_row(newpos)
    }

    /// The mover's bits with the drop bit of a column are the mover's cells of
    /// the view with one more piece claimed on that column.
    pub proof fn lemma_claim(self, col: int)
        requires
            self.wf(),
            0 <= col < 9,
        ensures
            four_in_row(self.mover_bits() | drop_bit(self.occupied_bits(), col)) == wins_by(
                self@,
                col,
            ),
    {
        self.lemma_cells();
        let bits = self.pos | drop_bit(self.mask, col);
        let target = if open_column(self@, col) {
            claim(self@, col)
        } else {
            self@
        };
        assert forall|c: int, row: int| #[trigger]
            cells_of(bits)(c, row) == owned_cells(target)(c, row) by {
            lemma_bit_ops(self.pos, drop_bit(self.mask, col), 8 * c + row);
            lemma_drop_cell(self.mask, col, c, row);
            assert(owned_cells(self@)(c, row) == self.mine(c, row));
            if 0 <= c < 9 {
                assert(self@[c].len() == self.height(c));
            }
            if self.mine(c, row) {
                assert(self.occupied(c, row));
            }
        }
        assert(cells_of(bits) =~= owned_cells(target));
    }

    /// How many pieces are on the board.
    pub fn moves_played(&self) -> (n: usize)
        ensures
            n == self.ply(),
            self.wf() ==> n == pieces(self@),
    {
        proof {
            if self.wf() {
                self.lemma_cells();
            }
        }
        self.moves
    }

    /// The key bit by bit: in every column the mover's cells, and the cell
    /// directly above the stack (the guard bit of a full column).
    pub proof fn lemma_key_cells(self, col: int, row: int)
        requires
            self.wf(),
            0 <= col < 9,
            0 <= row < 8,
        ensures
            bit(self.key_value(), 8 * col + row) == (self.mine(col, row) || row
                == self.height(col)),
    {
        lemma_key_bit(self.pos, self.mask, col, row);
    }

    /// The view loses nothing: two boards with the same view are the same
    /// board.
    pub proof fn lemma_view_injective(self, other: BitBoard)
        requires
            self.wf(),
            other.wf(),
            self@ == other@,
        ensures
            self == other,
    {
        self.lemma_cells();
        other.lemma_cells();
        assert forall|col: int| 0 <= col < 9 implies #[trigger] self.height(col) == other.height(
            col,
        ) by {
            assert(self@[col].len() == other@[col].len());
        }
        assert forall|col: int, row: int|
            cell(self.mask, col, row) == cell(other.mask, col, row) by {
            assert(self.occupied(col, row) == other.occupied(col, row));
        }
        lemma_same_cells(self.mask, other.mask);
        assert forall|col: int, row: int|
            cell(self.pos, col, row) == cell(other.pos, col, row) by {
            assert(owned_cells(self@)(col, row) == self.mine(col, row));
            assert(owned_cells(other@)(col, row) == other.mine(col, row));
        }
        lemma_subset_grid(self.pos, self.mask);
        lemma_subset_grid(other.pos, other.mask);
        lemma_same_cells(self.pos, other.pos);
    }

    /// The key of a board is never 0, because it has a marker bit directly
    /// above the stack of every column. So the zero slots of a new table
    /// never pass for a board.
    pub proof fn lemma_key_nonzero(self)
        requires
            self.wf(),
        ensures
            self.key_value() != 0,
    {
        lemma_stack(self.mask, 0);
        lemma_key_bit(self.pos, self.mask, 0, self.height(0));
        lemma_bit_ops(0, 0, self.height(0));
    }

    /// The key is injective: two boards with the same key are the same board,
    /// in occupancy and in side to move.
    pub proof fn lemma_key_injective(self, other: BitBoard)
        requires
            self.wf(),
            other.wf(),
            self.key_value() == other.key_value(),
        ensures
            self == other,
            self.mover_bits() == other.mover_bits(),
            self.occupied_bits() == other.occupied_bits(),
            self@ == other@,
    {
        lemma_key_fields(self.pos, self.mask, other.pos, other.mask);
    }
}

} // verus!
