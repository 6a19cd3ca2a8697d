use grid_games::board::Board;
use grid_games::render::tile_str;
use grid_games::tile::Tile;

#[test]
fn tile_glyphs() {
    assert_eq!(tile_str(Tile::Empty), "_");
    assert_eq!(tile_str(Tile::X), "X");
    assert_eq!(tile_str(Tile::O), "O");
}

#[test]
fn render_empty_two_by_two() {
    let b = Board::new(Tile::Empty, 2, 2);
    assert_eq!(b.render(), "   1  2 \n1  _  _ \n2  _  _ \n");
}

#[test]
fn render_shows_placed_tiles() {
    let mut b = Board::new(Tile::Empty, 3, 3);
    assert_eq!(b.place(Tile::X, 0, 0), Ok(()));
    assert_eq!(b.place(Tile::O, 1, 2), Ok(()));
    assert_eq!(
        b.render(),
        "   1  2  3 \n1  X  _  _ \n2  _  _  O \n3  _  _  _ \n"
    );
}

#[test]
fn render_plain_has_no_labels() {
    let mut b = Board::new(Tile::Empty, 3, 2);
    assert_eq!(b.place(Tile::X, 1, 0), Ok(()));
    assert_eq!(b.render_plain(), " _  _  _ \n X  _  _ \n");
}

#[test]
fn render_numbers_wide_boards_in_decimal() {
    let b = Board::new(Tile::Empty, 11, 1);
    assert_eq!(
        b.render(),
        "   1  2  3  4  5  6  7  8  9  10  11 \n1  _  _  _  _  _  _  _  _  _  _  _ \n"
    );
}
