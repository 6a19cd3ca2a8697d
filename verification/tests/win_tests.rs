use grid_games::board::Board;
use grid_games::tile::{Outcome, Tile};

fn place_all(b: &mut Board, moves: &[(Tile, usize, usize)]) {
    for &(t, row, col) in moves {
        assert_eq!(b.place(t, row, col), Ok(()));
    }
}

#[test]
fn winner_in_straight_finds_a_run() {
    assert_eq!(
        Board::winner_in_straight(3, &vec![Tile::X, Tile::X, Tile::X]),
        Tile::X
    );
    assert_eq!(
        Board::winner_in_straight(3, &vec![Tile::X, Tile::X, Tile::O, Tile::O, Tile::O]),
        Tile::O
    );
    assert_eq!(
        Board::winner_in_straight(3, &vec![Tile::Empty, Tile::Empty, Tile::Empty]),
        Tile::Empty
    );
    assert_eq!(
        Board::winner_in_straight(4, &vec![Tile::X, Tile::X, Tile::X]),
        Tile::Empty
    );
    assert_eq!(
        Board::winner_in_straight(1, &vec![Tile::Empty, Tile::O]),
        Tile::O
    );
}

#[test]
fn free_placement_main_diagonal_wins() {
    let mut b = Board::new(Tile::Empty, 3, 3);
    place_all(
        &mut b,
        &[
            (Tile::X, 0, 0),
            (Tile::O, 0, 1),
            (Tile::X, 1, 1),
            (Tile::O, 1, 0),
            (Tile::X, 2, 2),
        ],
    );
    assert_eq!(b.winner(3), Outcome::Win(Tile::X));
}

#[test]
fn gravity_bottom_row_wins() {
    let mut b = Board::new(Tile::Empty, 7, 6);
    for col in 0..4 {
        assert_eq!(b.place_drop(Tile::X, col), Ok(()));
    }
    assert_eq!(b.winner(4), Outcome::Win(Tile::X));
}

#[test]
fn full_board_without_run_is_a_draw() {
    let mut b = Board::new(Tile::Empty, 3, 3);
    place_all(
        &mut b,
        &[
            (Tile::X, 0, 0),
            (Tile::O, 0, 1),
            (Tile::X, 0, 2),
            (Tile::O, 1, 0),
            (Tile::O, 1, 1),
            (Tile::X, 1, 2),
            (Tile::X, 2, 0),
            (Tile::X, 2, 1),
            (Tile::O, 2, 2),
        ],
    );
    let outcome = b.winner(3);
    assert_eq!(outcome, Outcome::Draw);
    assert_ne!(outcome, Outcome::Undecided);
    assert_ne!(outcome, Outcome::Win(Tile::X));
    assert_ne!(outcome, Outcome::Win(Tile::O));
}

#[test]
fn empty_board_is_undecided() {
    let b = Board::new(Tile::Empty, 3, 3);
    assert_eq!(b.winner(3), Outcome::Undecided);
}

#[test]
fn winner_check_is_idempotent() {
    let mut b = Board::new(Tile::Empty, 3, 3);
    place_all(&mut b, &[(Tile::X, 0, 0), (Tile::O, 1, 1), (Tile::X, 2, 0)]);
    let first = b.winner(3);
    let second = b.winner(3);
    assert_eq!(first, second);
}

#[test]
fn diagonal_enumeration_on_3x3_is_complete() {
    let mut b = Board::new(Tile::Empty, 3, 3);
    // Checkerboard of X and O: X where row + col is even.
    for row in 0..3 {
        for col in 0..3 {
            let t = if (row + col) % 2 == 0 { Tile::X } else { Tile::O };
            assert_eq!(b.place(t, row, col), Ok(()));
        }
    }
    let diags = b.all_diagonals();
    assert_eq!(diags.len(), 10);
    assert_eq!(diags[0], vec![Tile::X, Tile::X, Tile::X]);
    assert_eq!(diags[1], vec![Tile::X]);
    assert_eq!(diags[2], vec![Tile::O, Tile::O]);
    assert_eq!(diags[3], vec![Tile::O, Tile::O]);
    assert_eq!(diags[4], vec![Tile::X]);
    assert_eq!(diags[5], vec![Tile::X, Tile::X, Tile::X]);
    assert_eq!(diags[6], vec![Tile::O, Tile::O]);
    assert_eq!(diags[7], vec![Tile::O, Tile::O]);
    assert_eq!(diags[8], vec![Tile::X]);
    assert_eq!(diags[9], vec![Tile::X]);
}

#[test]
fn straights_cover_rows_columns_and_diagonals() {
    let b = Board::new(Tile::Empty, 3, 3);
    let straights = b.all_straights();
    // 3 rows + 3 columns + 10 diagonals.
    assert_eq!(straights.len(), 16);
    for s in &straights[0..6] {
        assert_eq!(s.len(), 3);
    }
}

#[test]
fn anti_diagonal_wins_too() {
    let mut b = Board::new(Tile::Empty, 3, 3);
    place_all(
        &mut b,
        &[
            (Tile::O, 2, 0),
            (Tile::X, 0, 0),
            (Tile::O, 1, 1),
            (Tile::X, 0, 1),
            (Tile::O, 0, 2),
        ],
    );
    assert_eq!(b.winner(3), Outcome::Win(Tile::O));
}

#[test]
fn column_run_wins() {
    let mut b = Board::new(Tile::Empty, 7, 6);
    for _ in 0..4 {
        assert_eq!(b.place_drop(Tile::O, 3), Ok(()));
    }
    assert_eq!(b.winner(4), Outcome::Win(Tile::O));
}
