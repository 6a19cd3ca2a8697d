//! Trusted boundary around the `array2d` crate, which supplies the
//! fixed-size 2D storage that the board is built on. Everything the
//! verified code knows of an `Array2D` it knows through the two names
//! `grid_seq` / `grid_width` and the wrapper contracts below.

use vstd::prelude::*;
use crate::tile::Tile;

verus! {

#[verifier::external_type_specification]
#[verifier::external_body]
#[verifier::reject_recursive_types(T)]
pub struct ExArray2D<T>(array2d::Array2D<T>);

/// The contents of a grid, row by row (row `i`, column `j` at `[i][j]`).
pub uninterp spec fn grid_seq(a: array2d::Array2D<Tile>) -> Seq<Seq<Tile>>;

/// The fixed number of columns the grid was constructed with.
pub uninterp spec fn grid_width(a: array2d::Array2D<Tile>) -> nat;

/// Relies on `Array2D::filled_with(element, num_rows, num_columns)`:
/// builds a `num_rows` x `num_columns` grid with every cell `element`.
#[verifier::external_body]
pub(crate) fn grid_filled(tile: Tile, width: usize, height: usize) -> (r: array2d::Array2D<Tile>)
    requires
        width as int * height as int <= usize::MAX as int,
    ensures
        grid_width(r) == width,
        grid_seq(r).len() == height,
        forall|i: int| 0 <= i < height ==> (#[trigger] grid_seq(r)[i]).len() == width,
        forall|i: int, j: int|
            0 <= i < height && 0 <= j < width ==> #[trigger] grid_seq(r)[i][j] == tile,
{
    array2d::Array2D::filled_with(tile, height, width)
}

/// Relies on `Array2D::row_len`: the number of columns.
#[verifier::external_body]
pub(crate) fn grid_row_len(a: &array2d::Array2D<Tile>) -> (r: usize)
    ensures
        r == grid_width(*a),
{
    a.row_len()
}

/// Relies on `Array2D::column_len`: the number of rows.
#[verifier::external_body]
pub(crate) fn grid_column_len(a: &array2d::Array2D<Tile>) -> (r: usize)
    ensures
        r == grid_seq(*a).len(),
{
    a.column_len()
}

/// Relies on `Array2D::get`: `Some` of the cell exactly when the
/// indices are in range, `None` otherwise.
#[verifier::external_body]
pub(crate) fn grid_get(a: &array2d::Array2D<Tile>, row: usize, column: usize) -> (r: Option<Tile>)
    ensures
        row < grid_seq(*a).len() && column < grid_width(*a) ==> r == Some(
            grid_seq(*a)[row as int][column as int],
        ),
        !(row < grid_seq(*a).len() && column < grid_width(*a)) ==> r is None,
{
    a.get(row, column).copied()
}

/// Relies on `Array2D::set`: writes the cell and returns `Ok` exactly
/// when the indices are in range; out of range it changes nothing and
/// returns its `IndicesOutOfBounds` error. `Ok` is handed on as `true`.
#[verifier::external_body]
pub(crate) fn grid_set(a: &mut array2d::Array2D<Tile>, row: usize, column: usize, tile: Tile) -> (r: bool)
    ensures
        r == (row < grid_seq(*old(a)).len() && column < grid_width(*old(a))),
        r ==> grid_seq(*final(a)) == grid_seq(*old(a)).update(row as int, grid_seq(*old(a))[row as int].update(column as int, tile)),
        !r ==> grid_seq(*final(a)) == grid_seq(*old(a)),
        r ==> grid_width(*final(a)) == grid_width(*old(a)),
        !r ==> grid_width(*final(a)) == grid_width(*old(a)),
{
    a.set(row, column, tile).is_ok()
}

/// Relies on `Array2D::as_rows`: clones the grid out as a vector of
/// rows, in order. Its `rows_iter` unwraps each `row_iter`, which
/// fails on a grid of rows with zero columns, so such grids are kept
/// out.
#[verifier::external_body]
pub(crate) fn grid_as_rows(a: &array2d::Array2D<Tile>) -> (r: Vec<Vec<Tile>>)
    requires
        grid_width(*a) >= 1 || grid_seq(*a).len() == 0,
    ensures
        r@.len() == grid_seq(*a).len(),
        forall|i: int| 0 <= i < r@.len() ==> (#[trigger] r@[i])@ == grid_seq(*a)[i],
{
    a.as_rows()
}

/// Relies on `Array2D::as_columns`: clones the grid out as a vector of
/// columns, in order; column `j` holds the cells `[0][j], [1][j], ...`.
#[verifier::external_body]
pub(crate) fn grid_as_columns(a: &array2d::Array2D<Tile>) -> (r: Vec<Vec<Tile>>)
    ensures
        r@.len() == grid_width(*a),
        forall|j: int|
            0 <= j < r@.len() ==> (#[trigger] r@[j])@ == Seq::new(
                grid_seq(*a).len(),
                |i: int| grid_seq(*a)[i][j],
            ),
{
    a.as_columns()
}

} // verus!
