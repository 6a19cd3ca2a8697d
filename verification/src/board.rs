//! The board: a fixed-size 2D grid of tiles with bounds-checked
//! access, free placement and gravity-drop placement.

use vstd::prelude::*;
use crate::tile::{Tile, BoardErr};
use crate::grid::{grid_seq, grid_width, grid_filled, grid_row_len, grid_column_len, grid_get,
    grid_set};

verus! {

pub struct Board {
    pub(crate) grid: array2d::Array2D<Tile>,
}

impl View for Board {
    type V = Seq<Seq<Tile>>;

    closed spec fn view(&self) -> Seq<Seq<Tile>> {
        grid_seq(self.grid)
    }
}

/// The first row index at or below `from` whose cell in `col` is
/// occupied, or the row count if the rest of the column is empty.
pub open spec fn first_occupied(v: Seq<Seq<Tile>>, col: int, from: int) -> int
    decreases v.len() - from,
{
    if from < 0 || from >= v.len() {
        v.len() as int
    } else if v[from][col] != Tile::Empty {
        from
    } else {
        first_occupied(v, col, from + 1)
    }
}

pub proof fn lemma_first_occupied(v: Seq<Seq<Tile>>, col: int, from: int)
    requires
        0 <= from <= v.len(),
    ensures
        from <= first_occupied(v, col, from) <= v.len(),
        forall|r: int| from <= r < first_occupied(v, col, from) ==> v[r][col] == Tile::Empty,
        first_occupied(v, col, from) < v.len() ==> v[first_occupied(v, col, from)][col]
            != Tile::Empty,
    decreases v.len() - from,
{
    if from < v.len() && v[from][col] == Tile::Empty {
        lemma_first_occupied(v, col, from + 1);
    }
}

/// A successful placement changes exactly its target cell: reading
/// that cell afterwards gives the placed tile, and every other cell
/// of the board reads as before.
pub proof fn lemma_place_reads_back(v: Seq<Seq<Tile>>, row: int, col: int, tile: Tile)
    requires
        0 <= row < v.len(),
        0 <= col < v[row].len(),
    ensures
        ({
            let v2 = v.update(row, v[row].update(col, tile));
            &&& v2[row][col] == tile
            &&& v2.len() == v.len()
            &&& forall|i: int, j: int|
                0 <= i < v.len() && 0 <= j < v[i].len() && !(i == row && j == col)
                    ==> v2[i][j] == v[i][j]
        }),
{
}

/// A column has gravity shape: every cell below an occupied cell is
/// occupied, so the occupied cells form the bottom of the column.
pub open spec fn column_gravity(v: Seq<Seq<Tile>>, col: int) -> bool {
    forall|r1: int, r2: int|
        0 <= r1 < r2 < v.len() && #[trigger] v[r1][col] != Tile::Empty ==> #[trigger] v[r2][col]
            != Tile::Empty
}

proof fn lemma_first_occupied_is(v: Seq<Seq<Tile>>, col: int, from: int, k: int)
    requires
        0 <= from <= k < v.len(),
        forall|r: int| from <= r < k ==> v[r][col] == Tile::Empty,
        v[k][col] != Tile::Empty,
    ensures
        first_occupied(v, col, from) == k,
    decreases k - from,
{
    if from < k {
        lemma_first_occupied_is(v, col, from + 1, k);
    }
}

/// Gravity drops fill a column from the bottom up. In a column of
/// gravity shape whose top cell is empty, the landing row is exactly
/// the lowest empty cell of the column (every cell below it is
/// occupied, the cell itself is empty), and after the tile lands the
/// column has gravity shape again with its landing row one higher.
pub proof fn lemma_drop_fills_upward(v: Seq<Seq<Tile>>, w: int, col: int, tile: Tile)
    requires
        v.len() >= 1,
        forall|i: int| 0 <= i < v.len() ==> (#[trigger] v[i]).len() == w,
        0 <= col < w,
        v[0][col] == Tile::Empty,
        column_gravity(v, col),
        tile != Tile::Empty,
    ensures
        1 <= first_occupied(v, col, 0) <= v.len(),
        v[first_occupied(v, col, 0) - 1][col] == Tile::Empty,
        forall|r: int|
            first_occupied(v, col, 0) <= r < v.len() ==> #[trigger] v[r][col] != Tile::Empty,
        ({
            let f = first_occupied(v, col, 0);
            let v2 = v.update(f - 1, v[f - 1].update(col, tile));
            column_gravity(v2, col) && (f - 1 >= 1 ==> first_occupied(v2, col, 0) == f - 1) && (f
                - 1 == 0 ==> v2[0][col] != Tile::Empty)
        }),
{
    let f = first_occupied(v, col, 0);
    lemma_first_occupied(v, col, 0);
    assert forall|r: int| f <= r < v.len() implies #[trigger] v[r][col] != Tile::Empty by {
        if r > f {
            assert(v[f][col] != Tile::Empty);
        }
    }
    let v2 = v.update(f - 1, v[f - 1].update(col, tile));
    assert(v2[f - 1][col] == tile);
    assert forall|r: int| 0 <= r < v.len() && r != f - 1 implies #[trigger] v2[r][col] == v[r][col]
        by {}
    assert(column_gravity(v2, col));
    if f - 1 >= 1 {
        lemma_first_occupied_is(v2, col, 0, f - 1);
    }
}

impl Board {
    pub closed spec fn width_spec(&self) -> nat {
        grid_width(self.grid)
    }

    pub(crate) proof fn grid_facts(&self)
        ensures
            self@ == grid_seq(self.grid),
            self.width_spec() == grid_width(self.grid),
    {
    }

    pub open spec fn height_spec(&self) -> nat {
        self@.len()
    }

    /// The board invariant: positive fixed dimensions, every row of
    /// the view as wide as the board, and a cell count a `usize` holds.
    pub open spec fn wf(&self) -> bool {
        &&& self.height_spec() >= 1
        &&& self.width_spec() >= 1
        &&& self.width_spec() * self.height_spec() <= usize::MAX as int
        &&& forall|i: int| 0 <= i < self@.len() ==> (#[trigger] self@[i]).len() == self.width_spec()
    }

    pub fn new(tile: Tile, width: usize, height: usize) -> (r: Board)
        requires
            width >= 1,
            height >= 1,
            width as int * height as int <= usize::MAX as int,
        ensures
            r.wf(),
            r.width_spec() == width,
            r.height_spec() == height,
            forall|i: int, j: int| 0 <= i < height && 0 <= j < width ==> r@[i][j] == tile,
    {
        Board { grid: grid_filled(tile, width, height) }
    }

    pub fn width(&self) -> (r: usize)
        ensures
            r == self.width_spec(),
    {
        grid_row_len(&self.grid)
    }

    pub fn height(&self) -> (r: usize)
        ensures
            r == self.height_spec(),
    {
        grid_column_len(&self.grid)
    }

    pub fn get(&self, row: usize, column: usize) -> (r: Option<Tile>)
        ensures
            r == if row < self.height_spec() && column < self.width_spec() {
                Some(self@[row as int][column as int])
            } else {
                None::<Tile>
            },
    {
        grid_get(&self.grid, row, column)
    }

    /// Write `tile` into the cell at zero-based `(row, column)`.
    /// Succeeds exactly on an in-range empty cell, and then changes
    /// that cell and nothing else; any failure leaves the board as it
    /// was.
    pub fn place(&mut self, tile: Tile, row: usize, column: usize) -> (r: Result<(), BoardErr>)
        ensures
            final(self).width_spec() == old(self).width_spec(),
            final(self).height_spec() == old(self).height_spec(),
            old(self).wf() ==> final(self).wf(),
            ({
                let v = old(self)@;
                if row < v.len() && column < old(self).width_spec() {
                    if v[row as int][column as int] == Tile::Empty {
                        &&& r == Ok::<(), BoardErr>(())
                        &&& final(self)@ == v.update(
                            row as int,
                            v[row as int].update(column as int, tile),
                        )
                    } else {
                        &&& r == Err::<(), BoardErr>(BoardErr::BlockedError)
                        &&& final(self)@ == v
                    }
                } else {
                    &&& r == Err::<(), BoardErr>(BoardErr::BoundsError)
                    &&& final(self)@ == v
                }
            }),
    {
        let found = grid_get(&self.grid, row, column);
        match found {
            Some(t) => {
                if t == Tile::Empty {
                    if grid_set(&mut self.grid, row, column, tile) {
                        Ok(())
                    } else {
                        Err(BoardErr::BoundsError)
                    }
                } else {
                    Err(BoardErr::BlockedError)
                }
            },
            None => Err(BoardErr::BoundsError),
        }
    }

    /// Drop `tile` into `column`: it lands in the row just above the
    /// topmost occupied cell, or in the bottom row of an empty column.
    /// Fails with `BoundsError` for a column out of range and with
    /// `BlockedError` when the column's top cell is occupied; failure
    /// leaves the board as it was.
    pub fn place_drop(&mut self, tile: Tile, column: usize) -> (r: Result<(), BoardErr>)
        requires
            old(self).wf(),
        ensures
            final(self).wf(),
            final(self).width_spec() == old(self).width_spec(),
            final(self).height_spec() == old(self).height_spec(),
            ({
                let v = old(self)@;
                if column >= old(self).width_spec() {
                    &&& r == Err::<(), BoardErr>(BoardErr::BoundsError)
                    &&& final(self)@ == v
                } else if v[0][column as int] != Tile::Empty {
                    &&& r == Err::<(), BoardErr>(BoardErr::BlockedError)
                    &&& final(self)@ == v
                } else {
                    let target = first_occupied(v, column as int, 0) - 1;
                    &&& r == Ok::<(), BoardErr>(())
                    &&& final(self)@ == v.update(
                        target,
                        v[target].update(column as int, tile),
                    )
                }
            }),
    {
        if column >= self.width() {
            return Err(BoardErr::BoundsError);
        }
        let height = self.height();
        let ghost v = self@;
        let ghost c = column as int;
        let mut row: usize = 0;
        let mut found: bool = false;
        while !found && row < height
            invariant
                self == old(self),
                self.wf(),
                v == self@,
                c == column as int,
                column < self.width_spec(),
                height == self.height_spec(),
                row <= height,
                forall|q: int| 0 <= q < row ==> v[q][c] == Tile::Empty,
                first_occupied(v, c, 0) == first_occupied(v, c, row as int),
                found ==> row < height && v[row as int][c] != Tile::Empty,
            decreases height - row + (if found { 0int } else { 1int }),
        {
            let t = self.get(row, column);
            let occupied = match t {
                Some(Tile::Empty) => false,
                _ => true,
            };
            if occupied {
                found = true;
            } else {
                row += 1;
            }
        }
        proof {
            lemma_first_occupied(v, c, 0);
        }
        if found {
            if row == 0 {
                Err(BoardErr::BlockedError)
            } else {
                self.place(tile, row - 1, column)
            }
        } else {
            self.place(tile, height - 1, column)
        }
    }
}

} // verus!
