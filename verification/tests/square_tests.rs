use chess_vision::Bitboard;
use chess_vision::Direction;
use chess_vision::File;
use chess_vision::Move;
use chess_vision::Rank;
use chess_vision::Square;
use chess_vision::SquareColor;

#[test]
fn bitboard_instantiates_square() {
    assert_eq!(Bitboard::square(Square::new(File::A, Rank::One)).0, 1);
    assert_eq!(Bitboard::square(Square::new(File::B, Rank::One)).0, 2);
    assert_eq!(Bitboard::square(Square::new(File::A, Rank::Two)).0, 1 << 8);
    assert_eq!(Bitboard::square(Square::new(File::B, Rank::Two)).0, 1 << 9);
    assert_eq!(Bitboard::square(Square::new(File::H, Rank::Eight)).0, 1 << 63);
}

#[test]
fn bitboard_instantiates_rank() {
    let expected_rank_one = 1 + 2 + 4 + 8 + 16 + 32 + 64 + 128;
    assert_eq!(Bitboard::rank(Rank::One).0, expected_rank_one);
    assert_eq!(Bitboard::rank(Rank::Two).0, expected_rank_one << 8);
    assert_eq!(Bitboard::rank(Rank::Eight).0, expected_rank_one << 56);
}

#[test]
fn bitboard_transforms() {
    let a8 = Square::from_string("a8");
    let h1 = Square::from_string("h1");

    let bitboard = Bitboard::square(a8);
    let bitboard = bitboard.transform(Move::new(a8, h1));

    assert_eq!(bitboard, Bitboard::square(h1));
}

#[test]
fn bitboard_to_squares() {
    let squares = vec![Square::from_string("b7"), Square::from_string("h2")];
    let bitboard = Bitboard::from_squares(squares);

    let squares = bitboard.to_squares();
    assert_eq!(squares.len(), 2);
    assert!(squares.contains(&Square::from_string("b7")));
    assert!(squares.contains(&Square::from_string("h2")));
}

#[test]
fn squares_all_instantiates() {
    let all_squares = Square::all();
    assert_eq!(all_squares.len(), 64);
}

#[test]
fn squares_instantiate_from_string() {
    let squares = Square::squares_from_string("a8,\n\tf6,     h1".to_string());
    assert_eq!(
        squares,
        Ok(vec![
            Square(File::A, Rank::Eight),
            Square(File::F, Rank::Six),
            Square(File::H, Rank::One),
        ])
    );
}

#[test]
fn square_instantiates_from_string() {
    let a8 = Square::from_string("a8");
    let f6 = Square::from_string("f6");
    let h1 = Square::from_string("h1");
    assert_eq!(a8, Square(File::A, Rank::Eight));
    assert_eq!(f6, Square(File::F, Rank::Six));
    assert_eq!(h1, Square(File::H, Rank::One));
}

#[test]
fn square_gets_adjacent() {
    let a8 = Square::from_string("a8");
    let h1 = Square::from_string("h1");
    let d8 = Square::from_string("d8");

    assert_eq!(a8.get_adjacent(Direction::Left), None);
    assert_eq!(a8.get_adjacent(Direction::Right), Some(Square(File::B, Rank::Eight)));
    assert_eq!(h1.get_adjacent(Direction::Right), None);
    assert_eq!(d8.get_adjacent(Direction::UpLeft), None);
}

#[test]
fn square_gets_color() {
    assert_eq!(Square::from_string("h1").get_color(), SquareColor::Light);
    assert_eq!(Square::from_string("h2").get_color(), SquareColor::Dark);
    assert_eq!(Square::from_string("g2").get_color(), SquareColor::Light);
    assert_eq!(Square::from_string("a1").get_color(), SquareColor::Dark);
    assert_eq!(Square::from_string("d5").get_color(), SquareColor::Light);
}
