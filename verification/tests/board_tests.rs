use chess_vision::Bitboard;
use chess_vision::Board;
use chess_vision::Castle;
use chess_vision::File;
use chess_vision::Move;
use chess_vision::Piece;
use chess_vision::Rank;
use chess_vision::Side;
use chess_vision::Square;

#[test]
fn board_smoke_test() {
    let mut board = Board::empty();

    board.add(Side::White, Piece::Pawn, Square::new(File::E, Rank::Four));
    board.add(Side::Black, Piece::Pawn, Square::from_string("e5"));
    board.add(Side::White, Piece::King, Square::from_string("e1"));
    board.add(Side::Black, Piece::King, Square::from_string("e8"));
    board.add(Side::White, Piece::Knight, Square::from_string("g7"));

    assert!(board.is_legal_move(Move::new(Square::from_string("g7"), Square::from_string("h5"))));
    assert!(board.is_legal_move(board.try_parse_move(Side::White, "Ke2").unwrap()));
    assert!(board.try_parse_move(Side::White, "Ka1").is_err());
    assert!(board.try_parse_move(Side::White, "e5").is_err());
    assert!(board.is_in_check(Side::Black));
    assert!(!board.is_in_check(Side::White));

    assert!(board.is_attacking(Side::White, Square::from_string("d5")));
    assert!(!board.is_attacking(Side::Black, Square::from_string("d5")));
    assert!(board.is_attacking(Side::White, Square::from_string("f5")));
    assert!(!board.is_attacking(Side::Black, Square::from_string("f5")));

    assert!(board.is_attacking(Side::White, Square::from_string("e6")));
    assert!(!board.is_attacking(Side::Black, Square::from_string("e6")));
}

#[test]
fn board_initializes_starting_position() {
    let board = Board::starting_position();

    assert_eq!(board.pieces().to_squares().len(), 32);

    assert_eq!(
        board.get_side_pieces_bitboard(Side::White, Piece::King).to_squares(),
        vec![Square::from_string("e1")]
    );
    assert_eq!(
        board.get_side_pieces_bitboard(Side::White, Piece::Queen).to_squares(),
        vec![Square::from_string("d1")]
    );
    assert_eq!(
        board.get_side_pieces_bitboard(Side::White, Piece::Rook).to_squares(),
        vec![Square::from_string("a1"), Square::from_string("h1")]
    );
    assert_eq!(
        board.get_side_pieces_bitboard(Side::White, Piece::Bishop).to_squares(),
        vec![Square::from_string("c1"), Square::from_string("f1")]
    );
    assert_eq!(
        board.get_side_pieces_bitboard(Side::White, Piece::Knight).to_squares(),
        vec![Square::from_string("b1"), Square::from_string("g1")]
    );
    let white_pawns = board.get_side_pieces_bitboard(Side::White, Piece::Pawn).to_squares();
    assert_eq!(white_pawns.len(), 8);
    assert!(white_pawns.iter().all(|x| x.1 == Rank::Two));

    assert_eq!(
        board.get_side_pieces_bitboard(Side::Black, Piece::King).to_squares(),
        vec![Square::from_string("e8")]
    );
    assert_eq!(
        board.get_side_pieces_bitboard(Side::Black, Piece::Queen).to_squares(),
        vec![Square::from_string("d8")]
    );
    assert_eq!(
        board.get_side_pieces_bitboard(Side::Black, Piece::Rook).to_squares(),
        vec![Square::from_string("a8"), Square::from_string("h8")]
    );
    assert_eq!(
        board.get_side_pieces_bitboard(Side::Black, Piece::Bishop).to_squares(),
        vec![Square::from_string("c8"), Square::from_string("f8")]
    );
    assert_eq!(
        board.get_side_pieces_bitboard(Side::Black, Piece::Knight).to_squares(),
        vec![Square::from_string("b8"), Square::from_string("g8")]
    );
    let black_pawns = board.get_side_pieces_bitboard(Side::Black, Piece::Pawn).to_squares();
    assert_eq!(black_pawns.len(), 8);
    assert!(black_pawns.iter().all(|x| x.1 == Rank::Seven));
}

#[test]
fn board_parses_moves() {
    let mut board = Board::empty();
    board.add(Side::White, Piece::Pawn, Square::from_string("e4"));
    assert_eq!(
        board.try_parse_move(Side::White, "e5").unwrap(),
        Move::new(Square::from_string("e4"), Square::from_string("e5"))
    );

    board.add(Side::Black, Piece::Pawn, Square::from_string("f5"));
    assert_eq!(
        board.try_parse_move(Side::Black, "f4").unwrap(),
        Move::new(Square::from_string("f5"), Square::from_string("f4"))
    );
    assert_eq!(
        board.try_parse_move(Side::Black, "fe4").unwrap(),
        Move::new(Square::from_string("f5"), Square::from_string("e4"))
    );

    board.add(Side::Black, Piece::Pawn, Square::from_string("h7"));
    assert_eq!(
        board.try_parse_move(Side::Black, "h5").unwrap(),
        Move::new(Square::from_string("h7"), Square::from_string("h5"))
    );
}

#[test]
fn board_gets_legal_moves() {
    let mut board = Board::empty();
    board.add(Side::Black, Piece::Pawn, Square::from_string("f5"));
    let moves = board.get_legal_moves(Square::from_string("f5"));
    assert_eq!(moves[0], Move(Square::from_string("f5"), Square::from_string("f4")), "{:?}", moves);

    board.add(Side::White, Piece::Queen, Square::from_string("e4"));
    board.add(Side::White, Piece::Knight, Square::from_string("g4"));

    let pawn_takes = board.get_diagonal_pawn_takes(Side::Black, Square::from_string("f5"));
    assert_eq!(pawn_takes.to_squares().len(), 2);

    let moves = board.get_legal_moves(Square::from_string("f5"));
    assert_eq!(moves.len(), 3, "{:?}", moves);
    assert_eq!(moves[0], Move(Square::from_string("f5"), Square::from_string("e4")), "{:?}", moves);
    assert_eq!(moves[1], Move(Square::from_string("f5"), Square::from_string("f4")), "{:?}", moves);
    assert_eq!(moves[2], Move(Square::from_string("f5"), Square::from_string("g4")), "{:?}", moves);

    board.add(Side::White, Piece::Pawn, Square::from_string("a2"));
    let moves = board.get_legal_moves(Square::from_string("a2"));
    assert_eq!(
        moves,
        vec![
            Move(Square::from_string("a2"), Square::from_string("a3")),
            Move(Square::from_string("a2"), Square::from_string("a4")),
        ]
    );

    let mut board = Board::starting_position();

    let m = board.force_parse_move(Side::White, "b4");
    board.make_move(m);
    assert!(!board.get_legal_moves_for_side(Side::White).contains(&m));
}

#[test]
fn board_computes_castles() {
    let mut board = Board::starting_position();

    let white_king_square = Square::from_string("e1");
    let white_king_moves = board.get_legal_moves(white_king_square);
    let black_king_square = Square::from_string("e8");
    let black_king_moves = board.get_legal_moves(black_king_square);

    assert!(&board.try_parse_move(Side::White, "O-O").is_err());
    assert!(&board.try_parse_move(Side::Black, "O-O").is_err());
    assert!(&board.try_parse_move(Side::White, "O-O-O").is_err());
    assert!(&board.try_parse_move(Side::Black, "O-O-O").is_err());

    assert!(!white_king_moves.contains(&Castle::Kingside.get_king_move(Side::White)));
    assert!(!black_king_moves.contains(&Castle::Kingside.get_king_move(Side::Black)));
    assert!(!white_king_moves.contains(&Castle::Queenside.get_king_move(Side::White)));
    assert!(!black_king_moves.contains(&Castle::Queenside.get_king_move(Side::Black)));

    let m = board.force_parse_move(Side::White, "e4");
    board.make_move(m);
    let m = board.force_parse_move(Side::Black, "d6");
    board.make_move(m);
    let m = board.force_parse_move(Side::White, "Nf3");
    board.make_move(m);
    let m = board.force_parse_move(Side::Black, "Nf6");
    board.make_move(m);

    let white_king_moves = board.get_legal_moves(white_king_square);
    let black_king_moves = board.get_legal_moves(black_king_square);

    assert!(&board.try_parse_move(Side::White, "O-O").is_err());
    assert!(&board.try_parse_move(Side::Black, "O-O").is_err());
    assert!(&board.try_parse_move(Side::White, "O-O-O").is_err());
    assert!(&board.try_parse_move(Side::Black, "O-O-O").is_err());

    assert!(!white_king_moves.contains(&Castle::Kingside.get_king_move(Side::White)));
    assert!(!black_king_moves.contains(&Castle::Kingside.get_king_move(Side::Black)));
    assert!(!white_king_moves.contains(&Castle::Queenside.get_king_move(Side::White)));
    assert!(!black_king_moves.contains(&Castle::Queenside.get_king_move(Side::Black)));

    let m = board.force_parse_move(Side::White, "Bc4");
    board.make_move(m);
    let m = board.force_parse_move(Side::Black, "g6");
    board.make_move(m);

    let white_king_moves = board.get_legal_moves(white_king_square);
    let black_king_moves = board.get_legal_moves(black_king_square);

    assert_eq!(board.get_castles(Side::White), vec![Castle::Kingside]);

    assert!(white_king_moves.contains(&board.force_parse_move(Side::White, "O-O")));
    assert!(&board.try_parse_move(Side::Black, "O-O").is_err());

    let m = board.force_parse_move(Side::White, "O-O");
    board.make_move(m);
    let m = board.force_parse_move(Side::Black, "Bg7");
    board.make_move(m);

    assert!(
        board
            .get_side_pieces_bitboard(Side::White, Piece::King)
            .bit_and(Bitboard::square(Square::from_string("g1")))
            .has_pieces()
    );
    assert!(
        board
            .get_side_pieces_bitboard(Side::White, Piece::Rook)
            .bit_and(Bitboard::square(Square::from_string("f1")))
            .has_pieces()
    );

    assert!(&board.try_parse_move(Side::White, "O-O-O").is_err());
    assert!(&board.try_parse_move(Side::Black, "O-O-O").is_err());
    assert!(!white_king_moves.contains(&Castle::Queenside.get_king_move(Side::White)));
    assert!(!black_king_moves.contains(&Castle::Queenside.get_king_move(Side::Black)));

    let m = board.force_parse_move(Side::White, "d4");
    board.make_move(m);
    let m = board.force_parse_move(Side::Black, "O-O");
    board.make_move(m);

    assert!(
        board
            .get_side_pieces_bitboard(Side::Black, Piece::King)
            .bit_and(Bitboard::square(Square::from_string("g8")))
            .has_pieces()
    );
    assert!(
        board
            .get_side_pieces_bitboard(Side::Black, Piece::Rook)
            .bit_and(Bitboard::square(Square::from_string("f8")))
            .has_pieces()
    );
}

#[test]
fn board_makes_moves() {
    let mut board = Board::starting_position();

    let m = board.force_parse_move(Side::White, "h4");
    board.make_move(m);
    assert_eq!(board.get(Square::from_string("h4")), Some((Side::White, Piece::Pawn)));
    assert_eq!(board.get(Square::from_string("h2")), None);
    assert_eq!(board.get(Square::from_string("h3")), None);

    let m = board.force_parse_move(Side::White, "h5");
    board.make_move(m);
    assert_eq!(board.get(Square::from_string("h5")), Some((Side::White, Piece::Pawn)));
    assert_eq!(board.get(Square::from_string("h4")), None);

    let m = board.force_parse_move(Side::White, "Nh3");
    board.make_move(m);
    assert_eq!(board.get(Square::from_string("h3")), Some((Side::White, Piece::Knight)));
    assert_eq!(board.get(Square::from_string("g1")), None);
}

#[test]
fn board_detects_checks() {
    let mut board = Board::empty();

    assert!(!board.is_in_check(Side::White));
    assert!(!board.is_in_check(Side::Black));

    board.add(Side::White, Piece::King, Square::from_string("e1"));
    board.add(Side::Black, Piece::King, Square::from_string("e8"));

    board.add(Side::White, Piece::Pawn, Square::from_string("e7"));
    assert!(!board.is_in_check(Side::White));
    assert!(!board.is_in_check(Side::Black));

    board.add(Side::Black, Piece::Pawn, Square::from_string("d2"));
    assert!(board.is_in_check(Side::White));
    assert!(!board.is_in_check(Side::Black));

    let mut board = Board::starting_position();
    assert!(!board.is_in_check(Side::White));
    assert!(!board.is_in_check(Side::Black));

    board.transform(Move::new(Square::from_string("e2"), Square::from_string("e4")));
    assert!(!board.is_in_check(Side::White));
    assert!(!board.is_in_check(Side::Black));
}

#[test]
fn board_adds() {
    let mut board = Board::empty();

    assert_eq!(board.pieces().0, 0);

    board.add(Side::White, Piece::Rook, Square::new(File::A, Rank::One));
    assert_eq!(board.white.0, 1);
    assert_eq!(board.rooks.0, 1);
    assert_eq!(board.pieces().0, 1);

    board.add(Side::White, Piece::Pawn, Square::new(File::A, Rank::Two));
    assert_eq!(board.white.0, 1 + (1 << 8));
    assert_eq!(board.rooks.0, 1);
    assert_eq!(board.pawns.0, 1 << 8);
    assert_eq!(board.pieces().0, 1 + (1 << 8));
}

#[test]
fn board_transforms() {
    let a8 = Square::from_string("a8");
    let h1 = Square::from_string("h1");
    let h2 = Square::from_string("h2");

    let mut board = Board::empty();
    board.add(Side::White, Piece::Pawn, a8);
    board.transform(Move::new(a8, h1));

    assert_eq!(board.pieces(), Bitboard::square(h1));
    assert_eq!(board.black, Bitboard::empty());
    assert_eq!(board.white, Bitboard::square(h1));
    assert_eq!(board.pawns, Bitboard::square(h1));
    assert_eq!(board.queens, Bitboard::empty());

    let new_board = board.get_transformation(Move::new(h1, h2));
    assert_eq!(new_board.pieces(), Bitboard::square(h2));
    assert_eq!(new_board.black, Bitboard::empty());
    assert_eq!(new_board.white, Bitboard::square(h2));
    assert_eq!(new_board.pawns, Bitboard::square(h2));
    assert_eq!(new_board.queens, Bitboard::empty());

    assert_eq!(board.pieces(), Bitboard::square(h1));
    assert_eq!(board.black, Bitboard::empty());
    assert_eq!(board.white, Bitboard::square(h1));
    assert_eq!(board.pawns, Bitboard::square(h1));
    assert_eq!(board.queens, Bitboard::empty());
}

#[test]
fn board_vision() {
    let mut board = Board::empty();
    board.add(Side::Black, Piece::King, Square::from_string("b3"));
    board.add(Side::Black, Piece::Bishop, Square::from_string("h8"));
    board.add(Side::Black, Piece::Pawn, Square::from_string("f7"));
    board.add(Side::White, Piece::Pawn, Square::from_string("g7"));
    board.add(Side::White, Piece::Pawn, Square::from_string("f6"));

    let vision = board.get_adjacent_vision(Square::from_string("b3"));
    assert_eq!(vision.to_squares().len(), 8, "{:?}", vision.print());

    let vision = board.get_adjacent_vision(Square::from_string("h8"));
    assert_eq!(vision.to_squares().len(), 3, "{:?}", vision.print());

    let vision = board.get_adjacent_vision(Square::from_string("f7"));
    assert_eq!(vision.to_squares().len(), 8, "{:?}", vision.print());

    let vision = board.get_immediately_diagonal_vision(Square::from_string("b3"));
    assert_eq!(vision.to_squares().len(), 4, "{:?}", vision.print());

    let vision = board.get_immediately_diagonal_vision(Square::from_string("h8"));
    assert_eq!(vision.to_squares().len(), 1, "{:?}", vision.print());

    let vision = board.get_immediately_diagonal_vision(Square::from_string("f7"));
    assert_eq!(vision.to_squares().len(), 4, "{:?}", vision.print());

    let vision = board.get_lateral_vision(Square::from_string("b3"));
    assert_eq!(vision.to_squares().len(), 14, "{:?}", vision.print());

    let vision = board.get_lateral_vision(Square::from_string("h8"));
    assert_eq!(vision.to_squares().len(), 14, "{:?}", vision.print());

    let vision = board.get_lateral_vision(Square::from_string("f7"));
    assert_eq!(vision.to_squares().len(), 8, "{:?}", vision.print());

    let vision = board.get_diagonal_vision(Square::from_string("b3"));
    assert_eq!(vision.to_squares().len(), 8, "{:?}", vision.print());

    let vision = board.get_diagonal_vision(Square::from_string("h8"));
    assert_eq!(vision.to_squares().len(), 1, "{:?}", vision.print());

    let vision = board.get_diagonal_vision(Square::from_string("f7"));
    assert_eq!(vision.to_squares().len(), 8, "{:?}", vision.print());
}

#[test]
fn board_detects_attackers() {
    let mut board = Board::starting_position();
    assert!(!board.has_vision(Square::from_string("e6"), Square::from_string("b5")));
    assert!(board.has_vision(Square::from_string("a1"), Square::from_string("b1")));
    assert!(board.has_vision(Square::from_string("a1"), Square::from_string("a2")));
    assert!(!board.has_vision(Square::from_string("c1"), Square::from_string("e3")));

    let m = board.force_parse_move(Side::White, "d4");
    board.make_move(m);
    assert!(board.has_vision(Square::from_string("c1"), Square::from_string("e3")));
    let m = board.force_parse_move(Side::White, "e4");
    board.make_move(m);
    let m = board.force_parse_move(Side::White, "Qh5");
    board.make_move(m);

    assert!(board.has_vision(Square::from_string("h5"), Square::from_string("f7")));
    assert!(!board.has_vision(Square::from_string("h5"), Square::from_string("e8")));
}

#[test]
fn board_detects_occupied_squares() {
    let mut board = Board::empty();

    board.add(Side::White, Piece::Pawn, Square::new(File::E, Rank::Four));
    board.add(Side::White, Piece::Pawn, Square::new(File::D, Rank::Four));
    board.add(Side::White, Piece::Knight, Square::from_string("g7"));
    assert!(board.is_occupied(Square::new(File::E, Rank::Four)));
    assert!(board.is_occupied(Square::new(File::D, Rank::Four)));
    assert!(!board.is_occupied(Square::new(File::D, Rank::Five)));
    assert!(!board.is_occupied(Square::new(File::C, Rank::One)));
    assert!(!board.is_occupied(Square::new(File::H, Rank::Eight)));
    assert!(board.is_occupied(Square::new(File::G, Rank::Seven)));
}

#[test]
fn test_board_gets_fen() {
    let mut board = Board::starting_position();
    assert_eq!(board.fen(Side::White, 0, 1), "rnbqkbnr/pppppppp/8/8/8/8/PPPPPPPP/RNBQKBNR w KQkq - 0 1");

    let m = board.force_parse_move(Side::White, "d4");
    board.make_move(m);
    let m = board.force_parse_move(Side::Black, "d5");
    board.make_move(m);
    let m = board.force_parse_move(Side::White, "c4");
    board.make_move(m);
    let m = board.force_parse_move(Side::Black, "e6");
    board.make_move(m);
    let m = board.force_parse_move(Side::White, "Nc3");
    board.make_move(m);
    let m = board.force_parse_move(Side::Black, "Nf6");
    board.make_move(m);

    assert_eq!(
        board.fen(Side::White, 2, 4),
        "rnbqkb1r/ppp2ppp/4pn2/3p4/2PP4/2N5/PP2PPPP/R1BQKBNR w KQkq - 2 4"
    );
}
