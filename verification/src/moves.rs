use vstd::prelude::*;

use crate::bitboard::Bitboard;
use crate::bitboard::asc_squares;
use crate::bitboard::lemma_asc_matches_bitboard;
use crate::bitboard::lemma_to_squares_props;
use crate::board::Board;
use crate::coords::Direction;
use crate::coords::File;
use crate::coords::Piece;
use crate::coords::Rank;
use crate::coords::Side;
use crate::squares::Castle;
use crate::squares::Move;
use crate::squares::Square;
use crate::vision::is_forward_diag;
use crate::vision::is_king_step;
use crate::vision::is_knight_jump;
use crate::vision::pawn_dir;

verus! {

impl Board {
    /// En passant captures: structurally present but always empty.
    pub open spec fn spec_en_passant_takes(self, side: Side, sq: Square) -> Set<Square> {
        Set::empty()
    }

    pub fn get_en_passant_takes(&self, side: Side, square: Square) -> (v: Bitboard)
        ensures
            v.0 == 0,
            forall|t: Square|
                v.spec_contains(t) == self.spec_en_passant_takes(side, square).contains(t),
    {
        let _prior_move = match side {
            Side::White => self.prior_move_white,
            Side::Black => self.prior_move_black,
        };
        Bitboard::empty()
    }

    /// Diagonally-forward squares held by the opponent.
    pub open spec fn spec_diagonal_pawn_takes(self, side: Side, sq: Square) -> Set<Square> {
        Set::new(
            |t: Square|
                is_forward_diag(side, sq, t) && self.spec_side_bb(
                    side.spec_opponent(),
                ).spec_contains(t),
        )
    }

    pub fn get_diagonal_pawn_takes(&self, side: Side, square: Square) -> (v: Bitboard)
        ensures
            forall|t: Square|
                v.spec_contains(t) == self.spec_diagonal_pawn_takes(side, square).contains(t),
    {
        let potential_captures = self.get_immediately_diagonal_and_forward_vision(side, square);
        let opponent_pieces = self.get_side_bitboard(Side::get_opponent(side));
        potential_captures.bit_and(opponent_pieces)
    }

    /// One step onto an empty square, or a second step from the starting
    /// rank when both squares ahead are empty.
    pub open spec fn is_forward_pawn_move(self, side: Side, sq: Square, t: Square) -> bool {
        (t.f() == sq.f() && t.r() == sq.r() + pawn_dir(side) && !self.spec_occupied(t)) || (t.f()
            == sq.f() && t.r() == sq.r() + 2 * pawn_dir(side) && sq.1
            == Rank::spec_first_pawn_move(side) && !self.spec_occupied(
            Square::spec_new(sq.f(), sq.r() + pawn_dir(side)),
        ) && !self.spec_occupied(t))
    }

    /// Forward pawn advances: one step onto an empty square, and a second
    /// step from the starting rank when both squares ahead are empty.
    pub open spec fn spec_forward_pawn_moves(self, side: Side, sq: Square) -> Set<Square> {
        Set::new(|t: Square| self.is_forward_pawn_move(side, sq, t))
    }

    pub fn get_forward_pawn_moves(&self, side: Side, square: Square) -> (v: Bitboard)
        ensures
            forall|t: Square|
                v.spec_contains(t) == self.spec_forward_pawn_moves(side, square).contains(t),
    {
        let direction = Direction::get_forward(side);
        let one_step = square.get_adjacent(direction);
        let mut to_return = match one_step {
            None => Bitboard::empty(),
            Some(s) => {
                if self.is_occupied(s) {
                    Bitboard::empty()
                } else {
                    Bitboard::square(s)
                }
            },
        };
        let ghost tr1 = to_return;
        let is_first_pawn_move = square.rank() == Rank::first_pawn_move(side);
        if is_first_pawn_move && to_return.has_pieces() {
            match one_step {
                None => {},
                Some(s) => {
                    match s.get_adjacent(direction) {
                        None => {},
                        Some(s2) => {
                            if !self.is_occupied(s2) {
                                to_return = to_return.bit_or(Bitboard::square(s2));
                            }
                        },
                    }
                },
            }
        }
        proof {
            crate::bitboard::lemma_square_ranges(square);
            assert(direction.df() == 0 && direction.dr() == pawn_dir(side));
            if 0 <= square.r() + pawn_dir(side) < 8 {
                crate::squares::lemma_spec_new_coords(square.f(), square.r() + pawn_dir(side));
            }
            if 0 <= square.r() + 2 * pawn_dir(side) < 8 {
                crate::squares::lemma_spec_new_coords(
                    square.f(),
                    square.r() + 2 * pawn_dir(side),
                );
            }
            assert forall|t: Square|
                to_return.spec_contains(t) == self.spec_forward_pawn_moves(
                    side,
                    square,
                ).contains(t) by {
                crate::squares::lemma_square_coords(t);
                crate::bitboard::lemma_square_ranges(t);
                assert(self.spec_forward_pawn_moves(side, square).contains(t)
                    == self.is_forward_pawn_move(side, square, t));
                let d = pawn_dir(side);
                match one_step {
                    None => {
                        assert(!(0 <= square.r() + d < 8));
                        assert(!to_return.spec_contains(t));
                        assert(!self.is_forward_pawn_move(side, square, t));
                    },
                    Some(s) => {
                        assert(s == Square::spec_new(square.f(), square.r() + d));
                        assert(s.f() == square.f() && s.r() == square.r() + d);
                        if self.spec_occupied(s) {
                            assert(!to_return.spec_contains(t));
                            assert(!self.is_forward_pawn_move(side, square, t));
                        } else {
                            assert(tr1.spec_contains(s));
                            assert(exists|q: Square| tr1.spec_contains(q));
                            if is_first_pawn_move {
                                match s.spec_adjacent(Direction::spec_forward(side)) {
                                    None => {
                                        assert(to_return.spec_contains(t) == (t == s));
                                        assert(self.is_forward_pawn_move(side, square, t) == (t
                                            == s));
                                    },
                                    Some(s2) => {
                                        assert(s2 == Square::spec_new(
                                            square.f(),
                                            square.r() + 2 * d,
                                        ));
                                        assert(s2.f() == square.f() && s2.r() == square.r() + 2
                                            * d);
                                        if self.spec_occupied(s2) {
                                            assert(to_return.spec_contains(t) == (t == s));
                                            assert(self.is_forward_pawn_move(side, square, t)
                                                == (t == s));
                                        } else {
                                            assert(to_return.spec_contains(t) == (t == s || t
                                                == s2));
                                            assert(self.is_forward_pawn_move(side, square, t)
                                                == (t == s || t == s2));
                                        }
                                    },
                                }
                            } else {
                                assert(to_return.spec_contains(t) == (t == s));
                                assert(self.is_forward_pawn_move(side, square, t) == (t == s));
                            }
                        }
                    },
                }
            }
        }
        to_return
    }

    /// The five structural and historical conditions that permit castling
    /// on one wing: king home, rook home, clear transit, no attacked king
    /// square, and the right still standing.
    pub open spec fn spec_can_castle(self, side: Side, c: Castle) -> bool {
        let rank = Castle::spec_rank(side);
        let opp = side.spec_opponent();
        &&& self.has_side_piece(side, Piece::King, Square(File::E, rank))
        &&& self.has_side_piece(side, Piece::Rook, c.spec_rook_source(side))
        &&& match c {
            Castle::Kingside => {
                &&& !self.spec_occupied(Square(File::F, rank))
                &&& !self.spec_occupied(Square(File::G, rank))
                &&& !self.spec_is_attacking(opp, Square(File::E, rank))
                &&& !self.spec_is_attacking(opp, Square(File::F, rank))
                &&& !self.spec_is_attacking(opp, Square(File::G, rank))
            },
            Castle::Queenside => {
                &&& !self.spec_occupied(Square(File::B, rank))
                &&& !self.spec_occupied(Square(File::C, rank))
                &&& !self.spec_occupied(Square(File::D, rank))
                &&& !self.spec_is_attacking(opp, Square(File::C, rank))
                &&& !self.spec_is_attacking(opp, Square(File::D, rank))
                &&& !self.spec_is_attacking(opp, Square(File::E, rank))
            },
        }
        &&& match (side, c) {
            (Side::White, Castle::Kingside) => self.castling_rights_white_kingside,
            (Side::White, Castle::Queenside) => self.castling_rights_white_queenside,
            (Side::Black, Castle::Kingside) => self.castling_rights_black_kingside,
            (Side::Black, Castle::Queenside) => self.castling_rights_black_queenside,
        }
    }

    /// The castles currently available, kingside listed first.
    pub open spec fn spec_castles(self, side: Side) -> Seq<Castle> {
        let ks = self.spec_can_castle(side, Castle::Kingside);
        let qs = self.spec_can_castle(side, Castle::Queenside);
        if ks && qs {
            seq![Castle::Kingside, Castle::Queenside]
        } else if ks {
            seq![Castle::Kingside]
        } else if qs {
            seq![Castle::Queenside]
        } else {
            Seq::empty()
        }
    }

    pub fn get_castles(&self, side: Side) -> (v: Vec<Castle>)
        ensures
            v@ == self.spec_castles(side),
    {
        let rank = Castle::get_rank(side);
        let kings = self.get_side_pieces_bitboard(side, Piece::King);
        let is_king_home = kings.is_occupied(Square(File::E, rank));
        if !is_king_home {
            let v: Vec<Castle> = Vec::new();
            proof {
                assert(v@ =~= self.spec_castles(side));
            }
            return v;
        }

        let rooks = self.get_side_pieces_bitboard(side, Piece::Rook);
        let is_kingside_rook_in_place = rooks.is_occupied(Square(File::H, rank));
        let is_queenside_rook_in_place = rooks.is_occupied(Square(File::A, rank));

        let is_kingside_blocked = self.is_occupied(Square(File::F, rank)) || self.is_occupied(
            Square(File::G, rank),
        );
        let is_queenside_blocked = self.is_occupied(Square(File::B, rank)) || self.is_occupied(
            Square(File::C, rank),
        ) || self.is_occupied(Square(File::D, rank));

        let opponent = Side::get_opponent(side);
        let is_kingside_attacked = self.is_attacking(opponent, Square(File::E, rank))
            || self.is_attacking(opponent, Square(File::F, rank)) || self.is_attacking(
            opponent,
            Square(File::G, rank),
        );
        let is_queenside_attacked = self.is_attacking(opponent, Square(File::C, rank))
            || self.is_attacking(opponent, Square(File::D, rank)) || self.is_attacking(
            opponent,
            Square(File::E, rank),
        );

        let (castling_rights_kingside, castling_rights_queenside) = match side {
            Side::White => (
                self.castling_rights_white_kingside,
                self.castling_rights_white_queenside,
            ),
            Side::Black => (
                self.castling_rights_black_kingside,
                self.castling_rights_black_queenside,
            ),
        };

        let can_castle_kingside = is_kingside_rook_in_place && !is_kingside_blocked
            && !is_kingside_attacked && castling_rights_kingside;
        let can_castle_queenside = is_queenside_rook_in_place && !is_queenside_blocked
            && !is_queenside_attacked && castling_rights_queenside;

        let mut v: Vec<Castle> = Vec::new();
        if can_castle_kingside {
            v.push(Castle::Kingside);
        }
        if can_castle_queenside {
            v.push(Castle::Queenside);
        }
        proof {
            assert(can_castle_kingside == self.spec_can_castle(side, Castle::Kingside));
            assert(can_castle_queenside == self.spec_can_castle(side, Castle::Queenside));
            assert(v@ =~= self.spec_castles(side));
        }
        v
    }

    /// The squares the king's leaper step may move to: adjacent, not own.
    pub fn get_adjacent_moves(&self, side: Side, square: Square) -> (v: Bitboard)
        ensures
            forall|t: Square|
                v.spec_contains(t) == (is_king_step(square, t) && !self.spec_side_bb(
                    side,
                ).spec_contains(t)),
    {
        self.get_adjacent_vision(square).bit_and(self.get_side(side).get_inverse())
    }

    pub fn get_knight_moves(&self, side: Side, square: Square) -> (v: Bitboard)
        ensures
            forall|t: Square|
                v.spec_contains(t) == (is_knight_jump(square, t) && !self.spec_side_bb(
                    side,
                ).spec_contains(t)),
    {
        self.get_knight_vision(square).bit_and(self.get_side(side).get_inverse())
    }

    pub fn get_diagonal_moves(&self, side: Side, square: Square) -> (v: Bitboard)
        ensures
            forall|t: Square|
                v.spec_contains(t) == (self.spec_diagonal_vision(square).contains(t)
                    && !self.spec_side_bb(side).spec_contains(t)),
    {
        self.get_diagonal_vision(square).bit_and(self.get_side(side).get_inverse())
    }

    pub fn get_lateral_moves(&self, side: Side, square: Square) -> (v: Bitboard)
        ensures
            forall|t: Square|
                v.spec_contains(t) == (self.spec_lateral_vision(square).contains(t)
                    && !self.spec_side_bb(side).spec_contains(t)),
    {
        self.get_lateral_vision(square).bit_and(self.get_side(side).get_inverse())
    }

    /// The pseudo-legal destinations of the piece on `sq`, before the
    /// check-safety filter.
    pub open spec fn spec_pseudo_dests(self, side: Side, piece: Piece, sq: Square) -> Set<
        Square,
    > {
        match piece {
            Piece::Pawn => self.spec_en_passant_takes(side, sq).union(
                self.spec_diagonal_pawn_takes(side, sq),
            ).union(self.spec_forward_pawn_moves(side, sq)),
            Piece::Knight => Set::new(
                |t: Square|
                    is_knight_jump(sq, t) && !self.spec_side_bb(side).spec_contains(t),
            ),
            Piece::Bishop => Set::new(
                |t: Square|
                    self.spec_diagonal_vision(sq).contains(t) && !self.spec_side_bb(
                        side,
                    ).spec_contains(t),
            ),
            Piece::Rook => Set::new(
                |t: Square|
                    self.spec_lateral_vision(sq).contains(t) && !self.spec_side_bb(
                        side,
                    ).spec_contains(t),
            ),
            Piece::Queen => Set::new(
                |t: Square|
                    (self.spec_diagonal_vision(sq).contains(t) || self.spec_lateral_vision(
                        sq,
                    ).contains(t)) && !self.spec_side_bb(side).spec_contains(t),
            ),
            Piece::King => Set::new(
                |t: Square|
                    (is_king_step(sq, t) && !self.spec_side_bb(side).spec_contains(t)) || (
                    self.spec_can_castle(side, Castle::Kingside) && t
                        == Castle::Kingside.spec_king_destination(side)) || (
                    self.spec_can_castle(side, Castle::Queenside) && t
                        == Castle::Queenside.spec_king_destination(side)),
            ),
        }
    }

    /// The move does not leave its own side's king in check afterwards.
    pub open spec fn spec_safe(self, side: Side, m: Move) -> bool {
        !self.spec_transform(m).spec_in_check(side)
    }

    /// The destinations that survive the check-safety filter, as moves, in
    /// the destinations' enumeration order.
    pub open spec fn spec_filter_safe(self, side: Side, sq: Square, dests: Seq<Square>) -> Seq<
        Move,
    >
        decreases dests.len(),
    {
        if dests.len() == 0 {
            Seq::empty()
        } else {
            self.spec_filter_safe(side, sq, dests.drop_last()) + if self.spec_safe(
                side,
                Move(sq, dests.last()),
            ) {
                seq![Move(sq, dests.last())]
            } else {
                Seq::empty()
            }
        }
    }

    /// The legal moves of the piece on `sq`: its pseudo-legal destinations
    /// in enumeration order, each kept only if the mover's own side is not
    /// in check after playing it.
    #[verifier::opaque]
    pub open spec fn spec_legal_moves(self, sq: Square) -> Seq<Move> {
        match self.spec_get(sq) {
            None => Seq::empty(),
            Some((side, piece)) => self.spec_filter_safe(
                side,
                sq,
                asc_squares(self.spec_pseudo_dests(side, piece, sq)),
            ),
        }
    }

    fn get_moves_not_into_check(&self, source: Square, bitboard: Bitboard) -> (v: Vec<Move>)
        requires
            self.wf(),
            self.spec_occupied(source),
        ensures
            v@ == self.spec_filter_safe(
                self.side_at(source)->Some_0,
                source,
                bitboard.spec_to_squares(),
            ),
    {
        proof {
            assert(self.wf_at(source));
        }
        let (side, _piece) = self.get(source).unwrap();
        let destinations = bitboard.to_squares();
        let mut v: Vec<Move> = Vec::new();
        let mut i: usize = 0;
        while i < destinations.len()
            invariant
                self.wf(),
                self.spec_occupied(source),
                side == self.side_at(source)->Some_0,
                destinations@ == bitboard.spec_to_squares(),
                i <= destinations@.len(),
                v@ == self.spec_filter_safe(side, source, destinations@.take(i as int)),
            decreases destinations@.len() - i,
        {
            let destination = destinations[i];
            proof {
                assert(destinations@.take(i + 1).drop_last() =~= destinations@.take(i as int));
                assert(destinations@.take(i + 1).last() == destinations@[i as int]);
            }
            let next = self.get_transformation(Move(source, destination));
            if !next.is_in_check(side) {
                v.push(Move(source, destination));
                proof {
                    assert(v@ =~= self.spec_filter_safe(
                        side,
                        source,
                        destinations@.take(i + 1),
                    ));
                }
            } else {
                proof {
                    assert(v@ =~= self.spec_filter_safe(
                        side,
                        source,
                        destinations@.take(i + 1),
                    ));
                }
            }
            i = i + 1;
        }
        proof {
            assert(destinations@.take(destinations@.len() as int) =~= destinations@);
        }
        v
    }

    /// The legal moves of the piece standing on `square`.
    pub fn get_legal_moves(&self, square: Square) -> (v: Vec<Move>)
        requires
            self.wf(),
            self.spec_occupied(square),
        ensures
            v@ == self.spec_legal_moves(square),
    {
        proof {
            assert(self.wf_at(square));
        }
        let (side, piece) = self.get(square).unwrap();

        let to_return = match piece {
            Piece::Pawn => {
                self.get_en_passant_takes(side, square).bit_or(
                    self.get_diagonal_pawn_takes(side, square),
                ).bit_or(self.get_forward_pawn_moves(side, square))
            },
            Piece::Knight => self.get_knight_moves(side, square),
            Piece::Bishop => self.get_diagonal_moves(side, square),
            Piece::Rook => self.get_lateral_moves(side, square),
            Piece::Queen => self.get_diagonal_moves(side, square).bit_or(
                self.get_lateral_moves(side, square),
            ),
            Piece::King => {
                let castles = self.get_castles(side);
                let mut castle_squares: Vec<Square> = Vec::new();
                let mut i: usize = 0;
                while i < castles.len()
                    invariant
                        castles@ == self.spec_castles(side),
                        i <= castles@.len(),
                        castle_squares@.len() == i,
                        forall|j: int|
                            0 <= j < i ==> #[trigger] castle_squares@[j] == castles@[
                                j
                            ].spec_king_destination(side),
                    decreases castles@.len() - i,
                {
                    castle_squares.push(castles[i].get_king_destination(side));
                    i = i + 1;
                }
                let castle_bb = Bitboard::from_squares(castle_squares);
                proof {
                    assert forall|t: Square|
                        castle_bb.spec_contains(t) == ((self.spec_can_castle(
                            side,
                            Castle::Kingside,
                        ) && t == Castle::Kingside.spec_king_destination(side)) || (
                        self.spec_can_castle(side, Castle::Queenside) && t
                            == Castle::Queenside.spec_king_destination(side))) by {
                        let cs = self.spec_castles(side);
                        if castle_squares@.contains(t) {
                            let j = choose|j: int|
                                0 <= j < castle_squares@.len() && castle_squares@[j] == t;
                            assert(cs.contains(cs[j]));
                        }
                        if self.spec_can_castle(side, Castle::Kingside) && t
                            == Castle::Kingside.spec_king_destination(side) {
                            assert(cs[0] == Castle::Kingside);
                            assert(castle_squares@[0] == t);
                        }
                        if self.spec_can_castle(side, Castle::Queenside) && t
                            == Castle::Queenside.spec_king_destination(side) {
                            if self.spec_can_castle(side, Castle::Kingside) {
                                assert(cs[1] == Castle::Queenside);
                                assert(castle_squares@[1] == t);
                            } else {
                                assert(cs[0] == Castle::Queenside);
                                assert(castle_squares@[0] == t);
                            }
                        }
                    }
                }
                self.get_adjacent_moves(side, square).bit_or(castle_bb)
            },
        };

        let v = self.get_moves_not_into_check(square, to_return);
        proof {
            reveal(Board::spec_legal_moves);
            lemma_asc_matches_bitboard(to_return, self.spec_pseudo_dests(side, piece, square));
        }
        v
    }

    /// Whether the move is among the legal moves of its source square.
    pub fn is_legal_move(&self, m: Move) -> (r: bool)
        requires
            self.wf(),
            self.spec_occupied(m.0),
        ensures
            r == self.spec_legal_moves(m.0).contains(m),
    {
        let moves = self.get_legal_moves(m.0);
        let mut i: usize = 0;
        while i < moves.len()
            invariant
                moves@ == self.spec_legal_moves(m.0),
                i <= moves@.len(),
                forall|j: int| 0 <= j < i ==> moves@[j] != m,
            decreases moves@.len() - i,
        {
            if moves[i] == m {
                proof {
                    assert(moves@[i as int] == m);
                }
                return true;
            }
            i = i + 1;
        }
        proof {
            if moves@.contains(m) {
                let j = choose|j: int| 0 <= j < moves@.len() && moves@[j] == m;
                assert(false);
            }
        }
        false
    }

    /// The legal moves of every piece of one side, in the side's square
    /// enumeration order.
    pub open spec fn spec_legal_moves_concat(self, squares: Seq<Square>) -> Seq<Move>
        decreases squares.len(),
    {
        if squares.len() == 0 {
            Seq::empty()
        } else {
            self.spec_legal_moves_concat(squares.drop_last()) + self.spec_legal_moves(
                squares.last(),
            )
        }
    }

    /// All legal moves of one side.
    pub open spec fn spec_legal_moves_for_side(self, side: Side) -> Seq<Move> {
        self.spec_legal_moves_concat(self.spec_side_bb(side).spec_to_squares())
    }

    pub fn get_legal_moves_for_side(&self, side: Side) -> (v: Vec<Move>)
        requires
            self.wf(),
        ensures
            v@ == self.spec_legal_moves_for_side(side),
    {
        let bb = self.get_side_bitboard(side);
        let squares = bb.to_squares();
        proof {
            lemma_to_squares_props(bb);
        }
        let mut v: Vec<Move> = Vec::new();
        let mut i: usize = 0;
        while i < squares.len()
            invariant
                self.wf(),
                bb == self.spec_side_bb(side),
                squares@ == bb.spec_to_squares(),
                forall|t: Square| squares@.contains(t) == bb.spec_contains(t),
                i <= squares@.len(),
                v@ == self.spec_legal_moves_concat(squares@.take(i as int)),
            decreases squares@.len() - i,
        {
            let sq = squares[i];
            proof {
                assert(squares@.contains(sq)) by {
                    assert(squares@[i as int] == sq);
                }
                assert(squares@.take(i + 1).drop_last() =~= squares@.take(i as int));
                assert(squares@.take(i + 1).last() == squares@[i as int]);
            }
            let mut more = self.get_legal_moves(sq);
            let mut j: usize = 0;
            let ghost base = v@;
            while j < more.len()
                invariant
                    j <= more@.len(),
                    v@ == base + more@.take(j as int),
                decreases more@.len() - j,
            {
                proof {
                    assert(more@.take(j + 1) =~= more@.take(j as int).push(more@[j as int]));
                }
                v.push(more[j]);
                proof {
                    assert(v@ =~= base + more@.take(j + 1));
                }
                j = j + 1;
            }
            proof {
                assert(more@.take(more@.len() as int) =~= more@);
                assert(v@ =~= self.spec_legal_moves_concat(squares@.take(i + 1)));
            }
            i = i + 1;
        }
        proof {
            assert(squares@.take(squares@.len() as int) =~= squares@);
        }
        v
    }
}

/// What membership in the safety filter's output means: exactly the moves
/// from `sq` to a listed destination whose play leaves the mover safe.
pub proof fn lemma_filter_safe_members(b: Board, side: Side, sq: Square, dests: Seq<Square>)
    ensures
        forall|m: Move|
            #![all_triggers]
            b.spec_filter_safe(side, sq, dests).contains(m) == (m.0 == sq && dests.contains(m.1)
                && b.spec_safe(side, m)),
    decreases dests.len(),
{
    let out = b.spec_filter_safe(side, sq, dests);
    if dests.len() == 0 {
        assert forall|m: Move| out.contains(m) == (m.0 == sq && dests.contains(m.1) && b.spec_safe(
            side,
            m,
        )) by {
            if dests.contains(m.1) {
                let j = choose|j: int| 0 <= j < dests.len() && dests[j] == m.1;
            }
            if out.contains(m) {
                let j = choose|j: int| 0 <= j < out.len() && out[j] == m;
            }
        }
    } else {
        lemma_filter_safe_members(b, side, sq, dests.drop_last());
        let prev = b.spec_filter_safe(side, sq, dests.drop_last());
        assert forall|m: Move| out.contains(m) == (m.0 == sq && dests.contains(m.1) && b.spec_safe(
            side,
            m,
        )) by {
            if out.contains(m) {
                let j = choose|j: int| 0 <= j < out.len() && out[j] == m;
                if j < prev.len() {
                    assert(prev.contains(m)) by {
                        assert(prev[j] == m);
                    }
                    assert(m.0 == sq && dests.drop_last().contains(m.1) && b.spec_safe(side, m));
                    let k = choose|k: int|
                        0 <= k < dests.drop_last().len() && #[trigger] dests.drop_last()[k]
                            == m.1;
                    assert(dests[k] == m.1);
                    assert(dests.contains(m.1)) by {
                        assert(dests[k] == m.1);
                    }
                } else {
                    assert(m == Move(sq, dests.last()));
                    assert(dests.contains(m.1)) by {
                        assert(dests[dests.len() - 1] == m.1);
                    }
                }
            }
            if m.0 == sq && dests.contains(m.1) && b.spec_safe(side, m) {
                let j = choose|j: int| 0 <= j < dests.len() && dests[j] == m.1;
                if j < dests.len() - 1 {
                    assert(dests.drop_last()[j] == m.1);
                    assert(dests.drop_last().contains(m.1));
                    assert(prev.contains(m));
                    let k = choose|k: int| 0 <= k < prev.len() && prev[k] == m;
                    assert(out[k] == m);
                } else {
                    assert(m == Move(sq, dests.last()));
                    assert(out[out.len() - 1] == m);
                }
            }
        }
    }
}

/// What membership in a side's square enumeration means, and that the
/// enumeration is strictly ascending, so no square appears twice.
pub proof fn lemma_asc_squares_members(s: Set<Square>)
    ensures
        forall|t: Square| asc_squares(s).contains(t) == s.contains(t),
        forall|i: int, j: int|
            0 <= i < j < asc_squares(s).len() ==> (#[trigger] asc_squares(s)[i]).key() < (
            #[trigger] asc_squares(s)[j]).key(),
{
    lemma_set_below_members(s, 64);
    assert forall|t: Square| asc_squares(s).contains(t) == s.contains(t) by {
        crate::bitboard::lemma_square_ranges(t);
        if asc_squares(s).contains(t) {
            let j = choose|j: int|
                0 <= j < asc_squares(s).len() && #[trigger] asc_squares(s)[j] == t;
        }
    }
}

proof fn lemma_set_below_members(s: Set<Square>, k: nat)
    requires
        k <= 64,
    ensures
        forall|i: int|
            0 <= i < crate::bitboard::set_squares_below(s, k).len() ==> s.contains(
                #[trigger] crate::bitboard::set_squares_below(s, k)[i],
            ) && 0 <= crate::bitboard::set_squares_below(s, k)[i].key() < k,
        forall|t: Square|
            s.contains(t) && t.key() < k ==> crate::bitboard::set_squares_below(s, k).contains(
                t,
            ),
        forall|i: int, j: int|
            0 <= i < j < crate::bitboard::set_squares_below(s, k).len() ==> (
            #[trigger] crate::bitboard::set_squares_below(s, k)[i]).key() < (
            #[trigger] crate::bitboard::set_squares_below(s, k)[j]).key(),
    decreases k,
{
    let below = crate::bitboard::set_squares_below(s, k);
    if k > 0 {
        lemma_set_below_members(s, (k - 1) as nat);
        crate::bitboard::lemma_of_key(k - 1);
        let q = Square::of_key(k - 1);
        let prev = crate::bitboard::set_squares_below(s, (k - 1) as nat);
        assert(below == prev + if s.contains(q) {
            seq![q]
        } else {
            Seq::<Square>::empty()
        });
        assert(forall|i: int| 0 <= i < prev.len() ==> below[i] == prev[i]);
        assert forall|t: Square| s.contains(t) && t.key() < k implies below.contains(t) by {
            if t.key() < k - 1 {
                let j = choose|j: int| 0 <= j < prev.len() && #[trigger] prev[j] == t;
                assert(below[j] == t);
            } else {
                crate::squares::lemma_key_injective(t, q);
                assert(below[prev.len() as int] == t);
            }
        }
    }
}

/// Every legal move starts at its own square, lands on a pseudo-legal
/// destination, and leaves the mover's king safe: the legality filter in
/// one sentence.
pub proof fn lemma_legal_move_members(b: Board, sq: Square)
    requires
        b.wf(),
    ensures
        forall|m: Move|
            b.spec_legal_moves(sq).contains(m) == (b.spec_get(sq) is Some && m.0 == sq && (
            b.spec_pseudo_dests(
                b.spec_get(sq)->Some_0.0,
                b.spec_get(sq)->Some_0.1,
                sq,
            ).contains(m.1)) && b.spec_safe(b.spec_get(sq)->Some_0.0, m)),
{
    reveal(Board::spec_legal_moves);
    match b.spec_get(sq) {
        None => {
            assert forall|m: Move| !b.spec_legal_moves(sq).contains(m) by {
                if b.spec_legal_moves(sq).contains(m) {
                    let j = choose|j: int|
                        0 <= j < b.spec_legal_moves(sq).len() && #[trigger] b.spec_legal_moves(
                            sq,
                        )[j] == m;
                }
            }
        },
        Some((side, piece)) => {
            let dests = asc_squares(b.spec_pseudo_dests(side, piece, sq));
            lemma_filter_safe_members(b, side, sq, dests);
            lemma_asc_squares_members(b.spec_pseudo_dests(side, piece, sq));
            assert forall|m: Move|
                b.spec_legal_moves(sq).contains(m) == (b.spec_get(sq) is Some && m.0 == sq && (
                b.spec_pseudo_dests(
                    b.spec_get(sq)->Some_0.0,
                    b.spec_get(sq)->Some_0.1,
                    sq,
                ).contains(m.1)) && b.spec_safe(b.spec_get(sq)->Some_0.0, m)) by {
                assert(b.spec_legal_moves(sq) == b.spec_filter_safe(side, sq, dests));
                assert(b.spec_filter_safe(side, sq, dests).contains(m) == (m.0 == sq
                    && dests.contains(m.1) && b.spec_safe(side, m)));
                assert(dests.contains(m.1) == b.spec_pseudo_dests(side, piece, sq).contains(
                    m.1,
                ));
            }
        },
    }
}

} // verus!
