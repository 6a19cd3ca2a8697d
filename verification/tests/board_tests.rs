use grid_games::board::Board;
use grid_games::tile::{BoardErr, Tile};

#[test]
fn new_board_dimensions_and_fill() {
    let b = Board::new(Tile::Empty, 7, 6);
    assert_eq!(b.width(), 7);
    assert_eq!(b.height(), 6);
    for row in 0..6 {
        for col in 0..7 {
            assert_eq!(b.get(row, col), Some(Tile::Empty));
        }
    }
    assert_eq!(b.get(6, 0), None);
    assert_eq!(b.get(0, 7), None);
}

#[test]
fn place_on_empty_cell_then_get() {
    let mut b = Board::new(Tile::Empty, 3, 3);
    assert_eq!(b.place(Tile::X, 1, 2), Ok(()));
    assert_eq!(b.get(1, 2), Some(Tile::X));
    for row in 0..3 {
        for col in 0..3 {
            if (row, col) != (1, 2) {
                assert_eq!(b.get(row, col), Some(Tile::Empty));
            }
        }
    }
}

#[test]
fn place_on_occupied_cell_is_blocked() {
    let mut b = Board::new(Tile::Empty, 3, 3);
    assert_eq!(b.place(Tile::X, 0, 0), Ok(()));
    assert_eq!(b.place(Tile::O, 0, 0), Err(BoardErr::BlockedError));
    assert_eq!(b.get(0, 0), Some(Tile::X));
}

#[test]
fn place_out_of_bounds_changes_nothing() {
    let mut b = Board::new(Tile::Empty, 3, 3);
    assert_eq!(b.place(Tile::X, 0, 1), Ok(()));
    assert_eq!(b.place(Tile::O, 3, 0), Err(BoardErr::BoundsError));
    assert_eq!(b.place(Tile::O, 0, 3), Err(BoardErr::BoundsError));
    assert_eq!(b.place(Tile::O, 9, 9), Err(BoardErr::BoundsError));
    for row in 0..3 {
        for col in 0..3 {
            let expected = if (row, col) == (0, 1) {
                Some(Tile::X)
            } else {
                Some(Tile::Empty)
            };
            assert_eq!(b.get(row, col), expected);
        }
    }
}

#[test]
fn drops_fill_column_bottom_up_and_then_block() {
    let mut b = Board::new(Tile::Empty, 7, 6);
    let tiles = [Tile::X, Tile::O, Tile::X, Tile::O, Tile::X, Tile::O];
    for t in tiles {
        assert_eq!(b.place_drop(t, 2), Ok(()));
    }
    assert_eq!(b.get(5, 2), Some(Tile::X));
    assert_eq!(b.get(4, 2), Some(Tile::O));
    assert_eq!(b.get(3, 2), Some(Tile::X));
    assert_eq!(b.get(2, 2), Some(Tile::O));
    assert_eq!(b.get(1, 2), Some(Tile::X));
    assert_eq!(b.get(0, 2), Some(Tile::O));
    assert_eq!(b.place_drop(Tile::X, 2), Err(BoardErr::BlockedError));
    assert_eq!(b.get(0, 2), Some(Tile::O));
}

#[test]
fn drop_out_of_bounds_column() {
    let mut b = Board::new(Tile::Empty, 7, 6);
    assert_eq!(b.place_drop(Tile::X, 7), Err(BoardErr::BoundsError));
    for row in 0..6 {
        for col in 0..7 {
            assert_eq!(b.get(row, col), Some(Tile::Empty));
        }
    }
}

#[test]
fn drop_lands_above_occupied_cell() {
    let mut b = Board::new(Tile::Empty, 7, 6);
    assert_eq!(b.place_drop(Tile::X, 0), Ok(()));
    assert_eq!(b.place_drop(Tile::O, 0), Ok(()));
    assert_eq!(b.get(5, 0), Some(Tile::X));
    assert_eq!(b.get(4, 0), Some(Tile::O));
    assert_eq!(b.get(3, 0), Some(Tile::Empty));
}
