use rustychess::error::ChessError;
use rustychess::piece::Color;
use rustychess::position::Position;

#[test]
fn create_accepts_all_board_coordinates_and_round_trips() {
    for file in 0u8..8 {
        for rank in 0u8..8 {
            let p = Position::create(file, rank).unwrap();
            assert_eq!(p.file, file);
            assert_eq!(p.rank, rank);
            let (fc, rc) = p.to_algebraic();
            let back = Position::from_algebraic(fc, rc).unwrap();
            assert_eq!(back, p);
        }
    }
}

#[test]
fn create_rejects_out_of_range_coordinates() {
    assert!(matches!(Position::create(8, 0), Err(ChessError::InvalidPosition(_))));
    assert!(matches!(Position::create(0, 8), Err(ChessError::InvalidPosition(_))));
    assert!(matches!(Position::create(255, 255), Err(ChessError::InvalidPosition(_))));
}

#[test]
fn from_algebraic_parses_squares() {
    let p = Position::from_algebraic('e', '4').unwrap();
    assert_eq!(p.file, 4);
    assert_eq!(p.rank, 3);
    let a1 = Position::from_algebraic('a', '1').unwrap();
    assert_eq!((a1.file, a1.rank), (0, 0));
    let h8 = Position::from_algebraic('h', '8').unwrap();
    assert_eq!((h8.file, h8.rank), (7, 7));
    assert!(matches!(Position::from_algebraic('i', '1'), Err(ChessError::InvalidPosition(_))));
    assert!(matches!(Position::from_algebraic('a', '9'), Err(ChessError::InvalidPosition(_))));
    assert!(matches!(Position::from_algebraic('0', '4'), Err(ChessError::InvalidPosition(_))));
}

#[test]
fn from_str_parses_two_character_squares() {
    let p = Position::from_str("e2").unwrap();
    assert_eq!((p.file, p.rank), (4, 1));
    assert!(matches!(Position::from_str("e"), Err(ChessError::InvalidPosition(_))));
    assert!(matches!(Position::from_str("e22"), Err(ChessError::InvalidPosition(_))));
    assert!(matches!(Position::from_str(""), Err(ChessError::InvalidPosition(_))));
    assert!(matches!(Position::from_str("z9"), Err(ChessError::InvalidPosition(_))));
}

#[test]
fn to_algebraic_and_to_string_render_squares() {
    let p = Position::new(4, 3);
    assert_eq!(p.to_algebraic(), ('e', '4'));
    assert_eq!(p.to_string(), "e4");
    let a1 = Position::new(0, 0);
    assert_eq!(a1.to_algebraic(), ('a', '1'));
    assert_eq!(a1.to_string(), "a1");
    let h8 = Position::new(7, 7);
    assert_eq!(h8.to_string(), "h8");
}

#[test]
fn is_valid_checks_bounds() {
    assert!(Position::new(0, 0).is_valid());
    assert!(Position::new(7, 7).is_valid());
    assert!(!Position::new(8, 0).is_valid());
    assert!(!Position::new(0, 8).is_valid());
}

#[test]
fn relative_rank_mirrors_for_black() {
    let e2 = Position::from_str("e2").unwrap();
    assert_eq!(e2.relative_rank(Color::White), 1);
    assert_eq!(e2.relative_rank(Color::Black), 6);
    assert!(e2.is_on_relative_rank(1, Color::White));
    let e7 = Position::from_str("e7").unwrap();
    assert_eq!(e7.relative_rank(Color::Black), 1);
    assert!(e7.is_on_relative_rank(1, Color::Black));
}
