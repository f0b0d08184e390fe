use chess_vision::Move;
use chess_vision::Path;
use chess_vision::Piece;
use chess_vision::Square;

fn path_of(names: &[(&str, &str)]) -> Path {
    let mut moves: Vec<Move> = Vec::new();
    for (from, to) in names {
        moves.push(Move::new(Square::from_string(from), Square::from_string(to)));
    }
    Path::new(moves)
}

fn same_path_set(found: &Vec<Path>, expected: &Vec<Path>) -> bool {
    found.len() == expected.len() && expected.iter().all(|p| found.iter().any(|q| q == p))
}

#[test]
fn path_gets_shortest_path() {
    assert!(same_path_set(
        &Piece::Rook.get_shortest_paths(Square::from_string("e3"), Square::from_string("e3")),
        &vec![Path::new(Vec::new())]
    ));

    assert!(same_path_set(
        &Piece::Rook.get_shortest_paths(Square::from_string("a3"), Square::from_string("e3")),
        &vec![path_of(&[("a3", "e3")])]
    ));

    assert!(same_path_set(
        &Piece::Bishop.get_shortest_paths(Square::from_string("a3"), Square::from_string("f8")),
        &vec![path_of(&[("a3", "f8")])]
    ));

    assert!(same_path_set(
        &Piece::Bishop.get_shortest_paths(Square::from_string("a3"), Square::from_string("f7")),
        &Vec::new()
    ));

    assert!(same_path_set(
        &Piece::Rook.get_shortest_paths(Square::from_string("g2"), Square::from_string("h8")),
        &vec![
            path_of(&[("g2", "h2"), ("h2", "h8")]),
            path_of(&[("g2", "g8"), ("g8", "h8")]),
        ]
    ));

    assert!(same_path_set(
        &Piece::Queen.get_shortest_paths(Square::from_string("e1"), Square::from_string("f3")),
        &vec![
            path_of(&[("e1", "d1"), ("d1", "f3")]),
            path_of(&[("e1", "e2"), ("e2", "f3")]),
            path_of(&[("e1", "e3"), ("e3", "f3")]),
            path_of(&[("e1", "e4"), ("e4", "f3")]),
            path_of(&[("e1", "f1"), ("f1", "f3")]),
            path_of(&[("e1", "f2"), ("f2", "f3")]),
            path_of(&[("e1", "g3"), ("g3", "f3")]),
            path_of(&[("e1", "c3"), ("c3", "f3")]),
            path_of(&[("e1", "h1"), ("h1", "f3")]),
        ]
    ));
}

#[test]
fn path_accessors_work() {
    let p = path_of(&[("a1", "a4"), ("a4", "d4")]);
    assert_eq!(p.len(), 2);
    assert_eq!(p.get(0), Move::new(Square::from_string("a1"), Square::from_string("a4")));
    assert_eq!(p.get_ending_square(), Some(Square::from_string("d4")));
    assert_eq!(
        p.get_ending_square_or_default_if_empty(Square::from_string("h8")),
        Square::from_string("d4")
    );
    assert_eq!(
        Path::empty().get_ending_square_or_default_if_empty(Square::from_string("h8")),
        Square::from_string("h8")
    );

    let q = p.to_postpended(Move::new(Square::from_string("d4"), Square::from_string("d1")));
    assert_eq!(q.len(), 3);
    assert_eq!(q.get_ending_square(), Some(Square::from_string("d1")));

    let r = p.to_prepended(Move::new(Square::from_string("a1"), Square::from_string("a1")));
    assert_eq!(r.len(), 3);
    assert_eq!(r.get(0), Move::new(Square::from_string("a1"), Square::from_string("a1")));

    let mut s = Path::empty();
    s.push(Move::new(Square::from_string("b2"), Square::from_string("b4")));
    assert_eq!(s.len(), 1);
    assert_eq!(s, path_of(&[("b2", "b4")]));
    assert_ne!(s, Path::empty());
}

#[test]
fn path_prints_move_strings() {
    let board = chess_vision::Board::starting_position();
    let p = path_of(&[("b1", "c3"), ("c3", "d5")]);
    assert_eq!(p.to_move_strings(&board), "Nc3,Nd5");
}
