use grid_games::input::{
    parse_usize, replay_confirmed, replay_declined, validate_number, NumberCheck,
};
use grid_games::session::Session;
use grid_games::tile::{BoardErr, Tile};

#[test]
fn turns_alternate_on_successful_moves() {
    let mut s = Session::new(3, 3);
    assert_eq!(s.active_tile(), Tile::X);
    assert_eq!(s.place_move(0, 0), Ok(()));
    assert_eq!(s.turn, 1);
    assert_eq!(s.active_tile(), Tile::O);
    assert_eq!(s.place_move(1, 1), Ok(()));
    assert_eq!(s.turn, 2);
    assert_eq!(s.active_tile(), Tile::X);
    assert_eq!(s.board.get(0, 0), Some(Tile::X));
    assert_eq!(s.board.get(1, 1), Some(Tile::O));
}

#[test]
fn rejected_move_keeps_board_and_turn() {
    let mut s = Session::new(3, 3);
    assert_eq!(s.place_move(0, 0), Ok(()));
    assert_eq!(s.place_move(0, 0), Err(BoardErr::BlockedError));
    assert_eq!(s.place_move(5, 5), Err(BoardErr::BoundsError));
    assert_eq!(s.turn, 1);
    assert_eq!(s.active_tile(), Tile::O);
    assert_eq!(s.board.get(0, 0), Some(Tile::X));
}

#[test]
fn replay_resets_every_cell_and_the_turn() {
    let mut s = Session::new(3, 3);
    assert_eq!(s.place_move(0, 0), Ok(()));
    assert_eq!(s.place_move(1, 0), Ok(()));
    assert_eq!(s.place_move(2, 2), Ok(()));
    s.reset();
    assert_eq!(s.turn, 0);
    assert_eq!(s.active_tile(), Tile::X);
    for row in 0..3 {
        for col in 0..3 {
            assert_eq!(s.board.get(row, col), Some(Tile::Empty));
        }
    }
}

#[test]
fn drop_moves_alternate_players() {
    let mut s = Session::new(7, 6);
    assert_eq!(s.drop_move(4), Ok(()));
    assert_eq!(s.drop_move(4), Ok(()));
    assert_eq!(s.board.get(5, 4), Some(Tile::X));
    assert_eq!(s.board.get(4, 4), Some(Tile::O));
    assert_eq!(s.turn, 2);
}

#[test]
fn parse_usize_accepts_plain_numerals() {
    assert_eq!(parse_usize(&b"0".to_vec()), Some(0));
    assert_eq!(parse_usize(&b"7".to_vec()), Some(7));
    assert_eq!(parse_usize(&b"123".to_vec()), Some(123));
    assert_eq!(parse_usize(&b"+42".to_vec()), Some(42));
    assert_eq!(parse_usize(&b"007".to_vec()), Some(7));
    assert_eq!(
        parse_usize(&b"18446744073709551615".to_vec()),
        Some(usize::MAX)
    );
}

#[test]
fn parse_usize_rejects_everything_else() {
    assert_eq!(parse_usize(&b"".to_vec()), None);
    assert_eq!(parse_usize(&b"+".to_vec()), None);
    assert_eq!(parse_usize(&b"-3".to_vec()), None);
    assert_eq!(parse_usize(&b"12a".to_vec()), None);
    assert_eq!(parse_usize(&b"a12".to_vec()), None);
    assert_eq!(parse_usize(&b"1 2".to_vec()), None);
    assert_eq!(parse_usize(&b"18446744073709551616".to_vec()), None);
    assert_eq!(parse_usize(&b"99999999999999999999999".to_vec()), None);
}

#[test]
fn replay_decisions_read_the_first_byte() {
    assert!(replay_declined(Some(b'n')));
    assert!(replay_declined(Some(b'N')));
    assert!(!replay_declined(Some(b'y')));
    assert!(!replay_declined(Some(b'x')));
    assert!(!replay_declined(None));
    assert!(replay_confirmed(Some(b'y')));
    assert!(replay_confirmed(Some(b'Y')));
    assert!(!replay_confirmed(Some(b'n')));
    assert!(!replay_confirmed(Some(b'q')));
    assert!(!replay_confirmed(None));
}

#[test]
fn validate_number_covers_each_verdict() {
    assert_eq!(validate_number(None, 1, 3), NumberCheck::NotANumber);
    assert_eq!(validate_number(Some(0), 1, 3), NumberCheck::OutOfBounds);
    assert_eq!(validate_number(Some(4), 1, 3), NumberCheck::OutOfBounds);
    assert_eq!(validate_number(Some(1), 1, 3), NumberCheck::Accepted(1));
    assert_eq!(validate_number(Some(3), 1, 3), NumberCheck::Accepted(3));
}
