//! One game session: the board plus the turn counter. The parity of
//! the counter picks the active player; it advances only on a
//! successful placement, and replay resets both.

use vstd::prelude::*;
use crate::tile::{Tile, BoardErr};
use crate::board::{Board, first_occupied};

verus! {

pub struct Session {
    pub board: Board,
    pub turn: usize,
}

impl Session {
    pub open spec fn wf(&self) -> bool {
        self.board.wf()
    }

    /// The tile of the player to move: X on even turns, O on odd.
    pub open spec fn active_tile_spec(&self) -> Tile {
        if self.turn % 2 == 0 {
            Tile::X
        } else {
            Tile::O
        }
    }

    pub fn new(width: usize, height: usize) -> (r: Session)
        requires
            width >= 1,
            height >= 1,
            width as int * height as int <= usize::MAX as int,
        ensures
            r.wf(),
            r.board.width_spec() == width,
            r.board.height_spec() == height,
            r.turn == 0,
            r.active_tile_spec() == Tile::X,
            forall|i: int, j: int| 0 <= i < height && 0 <= j < width ==> r.board@[i][j] == Tile::Empty,
    {
        Session { board: Board::new(Tile::Empty, width, height), turn: 0 }
    }

    pub fn active_tile(&self) -> (r: Tile)
        ensures
            r == self.active_tile_spec(),
    {
        if self.turn % 2 == 0 {
            Tile::X
        } else {
            Tile::O
        }
    }

    /// A free-placement move for the active player. On success the
    /// turn advances; any rejected move leaves board and turn exactly
    /// as they were.
    pub fn place_move(&mut self, row: usize, column: usize) -> (r: Result<(), BoardErr>)
        requires
            old(self).wf(),
            old(self).turn < usize::MAX,
        ensures
            final(self).wf(),
            final(self).board.width_spec() == old(self).board.width_spec(),
            final(self).board.height_spec() == old(self).board.height_spec(),
            ({
                let v = old(self).board@;
                let t = old(self).active_tile_spec();
                if row < v.len() && column < old(self).board.width_spec() {
                    if v[row as int][column as int] == Tile::Empty {
                        &&& r == Ok::<(), BoardErr>(())
                        &&& final(self).board@ == v.update(
                            row as int,
                            v[row as int].update(column as int, t),
                        )
                        &&& final(self).turn == old(self).turn + 1
                    } else {
                        &&& r == Err::<(), BoardErr>(BoardErr::BlockedError)
                        &&& final(self).board@ == v
                        &&& final(self).turn == old(self).turn
                    }
                } else {
                    &&& r == Err::<(), BoardErr>(BoardErr::BoundsError)
                    &&& final(self).board@ == v
                    &&& final(self).turn == old(self).turn
                }
            }),
    {
        let tile = self.active_tile();
        let result = self.board.place(tile, row, column);
        match result {
            Ok(()) => {
                self.turn += 1;
                Ok(())
            },
            Err(e) => Err(e),
        }
    }

    /// A gravity-drop move for the active player. On success the turn
    /// advances; any rejected move leaves board and turn as they were.
    pub fn drop_move(&mut self, column: usize) -> (r: Result<(), BoardErr>)
        requires
            old(self).wf(),
            old(self).turn < usize::MAX,
        ensures
            final(self).wf(),
            final(self).board.width_spec() == old(self).board.width_spec(),
            final(self).board.height_spec() == old(self).board.height_spec(),
            ({
                let v = old(self).board@;
                let t = old(self).active_tile_spec();
                if column >= old(self).board.width_spec() {
                    &&& r == Err::<(), BoardErr>(BoardErr::BoundsError)
                    &&& final(self).board@ == v
                    &&& final(self).turn == old(self).turn
                } else if v[0][column as int] != Tile::Empty {
                    &&& r == Err::<(), BoardErr>(BoardErr::BlockedError)
                    &&& final(self).board@ == v
                    &&& final(self).turn == old(self).turn
                } else {
                    let target = first_occupied(v, column as int, 0) - 1;
                    &&& r == Ok::<(), BoardErr>(())
                    &&& final(self).board@ == v.update(
                        target,
                        v[target].update(column as int, t),
                    )
                    &&& final(self).turn == old(self).turn + 1
                }
            }),
    {
        let tile = self.active_tile();
        let result = self.board.place_drop(tile, column);
        match result {
            Ok(()) => {
                self.turn += 1;
                Ok(())
            },
            Err(e) => Err(e),
        }
    }

    /// Start a new round: every cell of the new board is empty and the
    /// first player is to move again, whatever the prior state was.
    pub fn reset(&mut self)
        requires
            old(self).wf(),
        ensures
            final(self).wf(),
            final(self).board.width_spec() == old(self).board.width_spec(),
            final(self).board.height_spec() == old(self).board.height_spec(),
            final(self).turn == 0,
            final(self).active_tile_spec() == Tile::X,
            forall|i: int, j: int|
                0 <= i < final(self).board.height_spec() && 0 <= j < final(self).board.width_spec()
                    ==> final(self).board@[i][j] == Tile::Empty,
    {
        let w = self.board.width();
        let h = self.board.height();
        self.board = Board::new(Tile::Empty, w, h);
        self.turn = 0;
    }
}

} // verus!
