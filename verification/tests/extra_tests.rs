use chess_vision::Board;
use chess_vision::Color;
use chess_vision::File;
use chess_vision::Move;
use chess_vision::Piece;
use chess_vision::Rank;
use chess_vision::Side;
use chess_vision::Square;
use chess_vision::SquareColor;

#[test]
fn side_opponents_are_symmetric() {
    assert_eq!(Side::get_opponent(Side::get_opponent(Side::White)), Side::White);
    assert_eq!(Side::get_opponent(Side::get_opponent(Side::Black)), Side::Black);
    assert_eq!(Side::get_opponent(Side::White), Side::Black);
}

#[test]
fn legal_moves_never_leave_own_king_in_check() {
    let mut board = Board::empty();
    board.add(Side::White, Piece::King, Square::from_string("e1"));
    board.add(Side::White, Piece::Rook, Square::from_string("e2"));
    board.add(Side::Black, Piece::Rook, Square::from_string("e8"));
    board.add(Side::Black, Piece::King, Square::from_string("a8"));

    // The white rook on e2 shields its king: it may only slide along the
    // e-file, never sideways into a discovered check.
    let moves = board.get_legal_moves(Square::from_string("e2"));
    for m in &moves {
        assert_eq!(m.1 .0, File::E);
        let after = board.get_transformation(*m);
        assert!(!after.is_in_check(Side::White));
    }
    assert!(!moves.is_empty());
}

#[test]
fn move_string_round_trips_through_parser() {
    let board = Board::starting_position();
    for m in board.get_legal_moves_for_side(Side::White) {
        let text = board.get_move_string(m);
        let parsed = board.try_parse_move(Side::White, text.as_str()).unwrap();
        assert_eq!(parsed, m);
    }
}

#[test]
fn parser_rejects_malformed_and_impossible_moves() {
    let board = Board::starting_position();
    assert!(board.try_parse_move(Side::White, "xyz").is_err());
    assert!(board.try_parse_move(Side::White, "").is_err());
    assert!(board.try_parse_move(Side::White, "e2").is_err());
    assert!(board.try_parse_move(Side::White, "Ne5").is_err());
    assert!(board.try_parse_move(Side::White, "ab6").is_err());
    assert!(board.try_parse_move(Side::White, "O-O").is_err());
    assert!(board.try_parse_move(Side::White, "e4").is_ok());
    assert!(board.try_parse_move(Side::White, "Nf3").is_ok());
}

#[test]
fn disambiguated_piece_moves_parse() {
    let mut board = Board::empty();
    board.add(Side::White, Piece::King, Square::from_string("e1"));
    board.add(Side::Black, Piece::King, Square::from_string("e8"));
    board.add(Side::White, Piece::Rook, Square::from_string("a1"));
    board.add(Side::White, Piece::Rook, Square::from_string("a5"));

    assert_eq!(
        board.try_parse_move(Side::White, "R1a3").unwrap(),
        Move::new(Square::from_string("a1"), Square::from_string("a3"))
    );
    assert_eq!(
        board.try_parse_move(Side::White, "R5a3").unwrap(),
        Move::new(Square::from_string("a5"), Square::from_string("a3"))
    );
    assert_eq!(board.get_move_string(Move::new(Square::from_string("a1"), Square::from_string("a3"))), "R1a3");
    assert_eq!(board.get_move_string(Move::new(Square::from_string("a5"), Square::from_string("a3"))), "R5a3");

    // Printed disambiguated forms parse back to the move they were
    // written for, for either of the two rooks.
    for m in [
        Move::new(Square::from_string("a1"), Square::from_string("a3")),
        Move::new(Square::from_string("a5"), Square::from_string("a3")),
    ] {
        let text = board.get_move_string(m);
        assert_eq!(board.try_parse_move(Side::White, text.as_str()).unwrap(), m);
    }
}

#[test]
fn pawn_source_search_stops_at_a_blocked_square() {
    let mut board = Board::empty();
    board.add(Side::White, Piece::King, Square::from_string("h1"));
    board.add(Side::Black, Piece::King, Square::from_string("h8"));
    board.add(Side::White, Piece::Pawn, Square::from_string("e2"));
    board.add(Side::White, Piece::Knight, Square::from_string("e3"));

    // The knight on e3 blocks the backward walk from e4: the search may
    // not skip over it to the pawn on e2.
    assert!(board.try_parse_move(Side::White, "e4").is_err());

    let mut board = Board::empty();
    board.add(Side::White, Piece::King, Square::from_string("h1"));
    board.add(Side::Black, Piece::King, Square::from_string("h8"));
    board.add(Side::White, Piece::Pawn, Square::from_string("e2"));
    assert_eq!(
        board.try_parse_move(Side::White, "e4").unwrap(),
        Move::new(Square::from_string("e2"), Square::from_string("e4"))
    );
}

#[test]
fn checkmate_and_stalemate_by_king_moves() {
    let mut board = Board::empty();
    board.add(Side::Black, Piece::King, Square::from_string("a8"));
    board.add(Side::White, Piece::King, Square::from_string("b6"));
    board.add(Side::White, Piece::Queen, Square::from_string("b7"));
    assert!(board.is_checkmated(Side::Black));
    assert!(!board.is_stalemated(Side::Black));

    let mut board = Board::empty();
    board.add(Side::Black, Piece::King, Square::from_string("a8"));
    board.add(Side::White, Piece::King, Square::from_string("b6"));
    board.add(Side::White, Piece::Pawn, Square::from_string("a7"));
    assert!(!board.is_checkmated(Side::Black));
    assert!(board.is_stalemated(Side::Black));
}

#[test]
fn checks_and_captures_are_found() {
    let mut board = Board::empty();
    board.add(Side::White, Piece::King, Square::from_string("a1"));
    board.add(Side::Black, Piece::King, Square::from_string("h8"));
    board.add(Side::White, Piece::Rook, Square::from_string("b2"));
    board.add(Side::Black, Piece::Pawn, Square::from_string("b4"));

    let checks = board.get_checks(Side::White);
    assert!(checks.contains(&Move::new(Square::from_string("b2"), Square::from_string("h2"))));
    assert!(!checks.contains(&Move::new(Square::from_string("b2"), Square::from_string("b3"))));

    let captures = board.get_captures(Side::White);
    assert_eq!(captures, vec![Move::new(Square::from_string("b2"), Square::from_string("b4"))]);
    assert!(board.is_capture(Move::new(Square::from_string("b2"), Square::from_string("b4"))));
    assert!(!board.is_capture(Move::new(Square::from_string("b2"), Square::from_string("b3"))));
}

#[test]
fn defender_and_attacker_counts() {
    let board = Board::starting_position();
    assert_eq!(board.get_n_defenders(Side::White, Square::from_string("d2")), 4);
    assert_eq!(board.get_n_defenders(Side::White, Square::from_string("e2")), 4);
    assert_eq!(board.get_n_defenders(Side::White, Square::from_string("a1")), 0);
    assert_eq!(board.get_n_attackers(Side::White, Square::from_string("a1")), 0);
    assert_eq!(board.get_n_attackers(Side::Black, Square::from_string("c3")), 3);
}

#[test]
fn fen_writes_multi_digit_counters() {
    let board = Board::starting_position();
    assert_eq!(
        board.fen(Side::Black, 13, 107),
        "rnbqkbnr/pppppppp/8/8/8/8/PPPPPPPP/RNBQKBNR b KQkq - 13 107"
    );
}

#[test]
fn make_moves_plays_a_sequence() {
    let mut board = Board::starting_position();
    let e4 = board.force_parse_move(Side::White, "e4");
    board.make_moves(vec![e4]);
    assert_eq!(board.get(Square::from_string("e4")), Some((Side::White, Piece::Pawn)));
    assert_eq!(board.get(Square::from_string("e2")), None);
}

#[test]
fn move_strings_are_cut_apart() {
    let tokens = Move::parse_move_strings("e4,\n\td5, exd5+,\tQxd5#".to_string());
    assert_eq!(tokens, vec!["e4", "d5", "ed5", "Qd5"]);
}

#[test]
fn squares_print_as_a_list() {
    let squares = vec![Square::from_string("a8"), Square::from_string("f6"), Square::from_string("h1")];
    assert_eq!(Square::squares_to_string(squares), "a8,f6,h1");
    assert_eq!(Square::squares_to_string(Vec::new()), "");
}

#[test]
fn words_parse_to_pieces_and_shades() {
    assert_eq!(Piece::try_parse("knight".to_string()), Ok(Piece::Knight));
    assert_eq!(Piece::try_parse("Q".to_string()), Ok(Piece::Queen));
    assert_eq!(Piece::try_parse("king".to_string()), Ok(Piece::King));
    assert!(Piece::try_parse("".to_string()).is_err());
    assert!(Piece::try_parse("z".to_string()).is_err());

    assert_eq!(SquareColor::try_parse("White".to_string()), Ok(SquareColor::Light));
    assert_eq!(SquareColor::try_parse("DARK".to_string()), Ok(SquareColor::Dark));
    assert!(SquareColor::try_parse("blue".to_string()).is_err());
    assert_eq!(SquareColor::Light.to_string(), "Light");
}

#[test]
fn square_parsing_rejects_bad_names() {
    assert!(Square::try_parse("e44").is_err());
    assert!(Square::try_parse("z4").is_err());
    assert!(Square::try_parse("e9").is_err());
    assert_eq!(Square::try_parse("e4"), Ok(Square(File::E, Rank::Four)));
    assert!(Square::squares_from_string("a1,zz".to_string()).is_err());
}

#[test]
fn colors_wrap_text_in_escape_codes() {
    assert_eq!(Color::Green.format("ok".to_string()), "\x1b[32mok\x1b[0m");
    assert_eq!(Side::Black.colorize("R".to_string()), "\x1b[31mR\x1b[0m");
    assert_eq!(Side::White.to_string(), "White");
}

#[test]
fn random_draws_respect_their_ranges() {
    for _i in 0..32 {
        assert_ne!(Piece::get_random_non_pawn(), Piece::Pawn);
        let s = Square::get_random();
        assert!(s.file().index() < 8 && s.rank().index() < 8);
        let _p = Piece::get_random();
        let _f = File::get_random();
        let _r = Rank::get_random();
    }
}

#[test]
fn coordinate_helpers_measure_distances() {
    assert_eq!(File::distance(&File::A, &File::H), 7);
    assert_eq!(File::distance(&File::H, &File::A), 7);
    assert_eq!(Rank::distance(Rank::Two, Rank::Seven), 5);
    assert_eq!(File::A.to_number(), 1);
    assert_eq!(File::H.to_number(), 8);
    assert_eq!(Piece::Knight.to_long_string(), "Knight");
    assert_eq!(Piece::Knight.to_string(), "N");
    assert_eq!(Rank::first_pawn_move(Side::Black), Rank::Seven);
    assert_eq!(File::E.previous(), Some(File::D));
    assert_eq!(File::A.previous(), None);
    assert_eq!(Rank::Eight.next(), None);
    assert_eq!(Square::from_string("c5").to_string(), "c5");
}

#[test]
fn boards_print_as_ascii_grids() {
    let mut board = Board::empty();
    board.add(Side::White, Piece::King, Square::from_string("a1"));
    let text = board.pretty_print();
    assert!(text.contains("K"));
    assert_eq!(text.lines().count(), 17);

    let grid = chess_vision::Bitboard::square(Square::from_string("a8")).print();
    assert!(grid.lines().next().unwrap().starts_with("+---+"));
    assert!(grid.contains("#"));
}
