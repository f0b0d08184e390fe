use vstd::prelude::*;

use crate::bitboard::Bitboard;
use crate::bitboard::lemma_and_not_membership;
use crate::bitboard::lemma_transform_membership;
use crate::coords::File;
use crate::coords::Piece;
use crate::coords::Rank;
use crate::coords::Side;
use crate::squares::Move;
use crate::squares::Square;

verus! {

/// A chess position: one occupancy set per side, one per piece kind,
/// the four castling-rights flags, and the inert per-side prior-move slots.
#[derive(Debug, PartialEq, Clone, Copy)]
pub struct Board {
    pub white: Bitboard,
    pub black: Bitboard,
    pub pawns: Bitboard,
    pub knights: Bitboard,
    pub bishops: Bitboard,
    pub rooks: Bitboard,
    pub queens: Bitboard,
    pub kings: Bitboard,
    pub prior_move_white: Option<Move>,
    pub prior_move_black: Option<Move>,
    pub castling_rights_white_kingside: bool,
    pub castling_rights_white_queenside: bool,
    pub castling_rights_black_kingside: bool,
    pub castling_rights_black_queenside: bool,
}

impl Board {
    /// The occupancy set of one side.
    pub open spec fn spec_side_bb(self, side: Side) -> Bitboard {
        match side {
            Side::White => self.white,
            Side::Black => self.black,
        }
    }

    /// The occupancy set of one piece kind, both sides together.
    pub open spec fn spec_piece_bb(self, piece: Piece) -> Bitboard {
        match piece {
            Piece::Pawn => self.pawns,
            Piece::Knight => self.knights,
            Piece::Bishop => self.bishops,
            Piece::Rook => self.rooks,
            Piece::Queen => self.queens,
            Piece::King => self.kings,
        }
    }

    pub open spec fn with_side_bb(self, side: Side, bb: Bitboard) -> Board {
        match side {
            Side::White => Board { white: bb, ..self },
            Side::Black => Board { black: bb, ..self },
        }
    }

    pub open spec fn with_piece_bb(self, piece: Piece, bb: Bitboard) -> Board {
        match piece {
            Piece::Pawn => Board { pawns: bb, ..self },
            Piece::Knight => Board { knights: bb, ..self },
            Piece::Bishop => Board { bishops: bb, ..self },
            Piece::Rook => Board { rooks: bb, ..self },
            Piece::Queen => Board { queens: bb, ..self },
            Piece::King => Board { kings: bb, ..self },
        }
    }

    /// The squares of one side holding one piece kind.
    pub open spec fn spec_side_piece_bb(self, side: Side, piece: Piece) -> Bitboard {
        Bitboard(self.spec_side_bb(side).0 & self.spec_piece_bb(piece).0)
    }

    pub open spec fn spec_occupied(self, s: Square) -> bool {
        self.white.spec_contains(s) || self.black.spec_contains(s)
    }

    /// How many piece-kind sets hold the square.
    pub open spec fn kinds_at(self, s: Square) -> int {
        (if self.pawns.spec_contains(s) {
            1int
        } else {
            0int
        }) + (if self.knights.spec_contains(s) {
            1int
        } else {
            0int
        }) + (if self.bishops.spec_contains(s) {
            1int
        } else {
            0int
        }) + (if self.rooks.spec_contains(s) {
            1int
        } else {
            0int
        }) + (if self.queens.spec_contains(s) {
            1int
        } else {
            0int
        }) + (if self.kings.spec_contains(s) {
            1int
        } else {
            0int
        })
    }

    /// Soundness of the position at one square: the square belongs to at
    /// most one side, and to exactly one piece kind when occupied, none
    /// when empty.
    pub open spec fn wf_at(self, s: Square) -> bool {
        &&& !(self.white.spec_contains(s) && self.black.spec_contains(s))
        &&& self.spec_occupied(s) ==> self.kinds_at(s) == 1
        &&& !self.spec_occupied(s) ==> self.kinds_at(s) == 0
    }

    /// The board's invariant: every square is a member of at most one
    /// side set and at most one piece-kind set, and side and piece-kind
    /// membership agree.
    pub open spec fn wf(self) -> bool {
        forall|s: Square| self.wf_at(s)
    }

    pub open spec fn side_at(self, s: Square) -> Option<Side> {
        if self.white.spec_contains(s) {
            Some(Side::White)
        } else if self.black.spec_contains(s) {
            Some(Side::Black)
        } else {
            None
        }
    }

    pub open spec fn kind_at(self, s: Square) -> Option<Piece> {
        if self.pawns.spec_contains(s) {
            Some(Piece::Pawn)
        } else if self.knights.spec_contains(s) {
            Some(Piece::Knight)
        } else if self.bishops.spec_contains(s) {
            Some(Piece::Bishop)
        } else if self.rooks.spec_contains(s) {
            Some(Piece::Rook)
        } else if self.queens.spec_contains(s) {
            Some(Piece::Queen)
        } else if self.kings.spec_contains(s) {
            Some(Piece::King)
        } else {
            None
        }
    }

    /// The side and piece standing on a square, if any.
    pub open spec fn spec_get(self, s: Square) -> Option<(Side, Piece)> {
        match (self.side_at(s), self.kind_at(s)) {
            (Some(side), Some(piece)) => Some((side, piece)),
            _ => None,
        }
    }

    /// An empty board, all castling rights still standing.
    pub fn empty() -> (b: Self)
        ensures
            b.wf(),
            forall|s: Square| !b.spec_occupied(s),
            forall|s: Square| b.spec_get(s) is None,
            b.white.0 == 0 && b.black.0 == 0 && b.pawns.0 == 0 && b.knights.0 == 0 && b.bishops.0
                == 0 && b.rooks.0 == 0 && b.queens.0 == 0 && b.kings.0 == 0,
            b.prior_move_white is None && b.prior_move_black is None,
            b.castling_rights_white_kingside && b.castling_rights_white_queenside
                && b.castling_rights_black_kingside && b.castling_rights_black_queenside,
    {
        let white = Bitboard::empty();
        let black = Bitboard::empty();
        let pawns = Bitboard::empty();
        let knights = Bitboard::empty();
        let bishops = Bitboard::empty();
        let rooks = Bitboard::empty();
        let queens = Bitboard::empty();
        let kings = Bitboard::empty();
        Self {
            white,
            black,
            pawns,
            knights,
            bishops,
            rooks,
            queens,
            kings,
            prior_move_white: None,
            prior_move_black: None,
            castling_rights_white_kingside: true,
            castling_rights_white_queenside: true,
            castling_rights_black_kingside: true,
            castling_rights_black_queenside: true,
        }
    }

    /// What stands on each square of the standard starting position.
    pub open spec fn start_get(s: Square) -> Option<(Side, Piece)> {
        if s.r() == 1 {
            Some((Side::White, Piece::Pawn))
        } else if s.r() == 6 {
            Some((Side::Black, Piece::Pawn))
        } else if s.r() == 0 || s.r() == 7 {
            let side = if s.r() == 0 {
                Side::White
            } else {
                Side::Black
            };
            let piece = if s.f() == 0 || s.f() == 7 {
                Piece::Rook
            } else if s.f() == 1 || s.f() == 6 {
                Piece::Knight
            } else if s.f() == 2 || s.f() == 5 {
                Piece::Bishop
            } else if s.f() == 3 {
                Piece::Queen
            } else {
                Piece::King
            };
            Some((side, piece))
        } else {
            None
        }
    }

    /// The standard starting position: thirty-two pieces, eight pawns per
    /// side on the second and seventh ranks, and the usual back ranks.
    pub fn starting_position() -> (b: Self)
        ensures
            b.wf(),
            forall|s: Square| b.spec_get(s) == Self::start_get(s),
            forall|s: Square| b.spec_occupied(s) == (Self::start_get(s) is Some),
            b.prior_move_white is None && b.prior_move_black is None,
            b.castling_rights_white_kingside && b.castling_rights_white_queenside
                && b.castling_rights_black_kingside && b.castling_rights_black_queenside,
    {
        let white = Bitboard::rank(Rank::One).bit_or(Bitboard::rank(Rank::Two));
        let black = Bitboard::rank(Rank::Seven).bit_or(Bitboard::rank(Rank::Eight));

        let pawns = Bitboard::rank(Rank::Two).bit_or(Bitboard::rank(Rank::Seven));

        let mut king_squares: Vec<Square> = Vec::new();
        king_squares.push(Square(File::E, Rank::One));
        king_squares.push(Square(File::E, Rank::Eight));
        let kings = Bitboard::from_squares(king_squares);

        let mut queen_squares: Vec<Square> = Vec::new();
        queen_squares.push(Square(File::D, Rank::One));
        queen_squares.push(Square(File::D, Rank::Eight));
        let queens = Bitboard::from_squares(queen_squares);

        let mut rook_squares: Vec<Square> = Vec::new();
        rook_squares.push(Square(File::A, Rank::One));
        rook_squares.push(Square(File::H, Rank::One));
        rook_squares.push(Square(File::A, Rank::Eight));
        rook_squares.push(Square(File::H, Rank::Eight));
        let rooks = Bitboard::from_squares(rook_squares);

        let mut bishop_squares: Vec<Square> = Vec::new();
        bishop_squares.push(Square(File::C, Rank::One));
        bishop_squares.push(Square(File::F, Rank::One));
        bishop_squares.push(Square(File::C, Rank::Eight));
        bishop_squares.push(Square(File::F, Rank::Eight));
        let bishops = Bitboard::from_squares(bishop_squares);

        let mut knight_squares: Vec<Square> = Vec::new();
        knight_squares.push(Square(File::B, Rank::One));
        knight_squares.push(Square(File::G, Rank::One));
        knight_squares.push(Square(File::B, Rank::Eight));
        knight_squares.push(Square(File::G, Rank::Eight));
        let knights = Bitboard::from_squares(knight_squares);

        let b = Self {
            white,
            black,
            pawns,
            kings,
            queens,
            rooks,
            bishops,
            knights,
            prior_move_white: None,
            prior_move_black: None,
            castling_rights_white_kingside: true,
            castling_rights_white_queenside: true,
            castling_rights_black_kingside: true,
            castling_rights_black_queenside: true,
        };
        proof {
            assert(king_squares@ =~= seq![Square(File::E, Rank::One), Square(File::E, Rank::Eight)]);
            assert(queen_squares@ =~= seq![Square(File::D, Rank::One), Square(File::D, Rank::Eight)]);
            assert(rook_squares@ =~= seq![
                Square(File::A, Rank::One),
                Square(File::H, Rank::One),
                Square(File::A, Rank::Eight),
                Square(File::H, Rank::Eight),
            ]);
            assert(bishop_squares@ =~= seq![
                Square(File::C, Rank::One),
                Square(File::F, Rank::One),
                Square(File::C, Rank::Eight),
                Square(File::F, Rank::Eight),
            ]);
            assert(knight_squares@ =~= seq![
                Square(File::B, Rank::One),
                Square(File::G, Rank::One),
                Square(File::B, Rank::Eight),
                Square(File::G, Rank::Eight),
            ]);
            assert forall|s: Square|
                b.wf_at(s) && b.spec_get(s) == Self::start_get(s) && b.spec_occupied(s) == (
                Self::start_get(s) is Some) by {
                assert(s == Square(s.0, s.1));
                assert(b.white.spec_contains(s) == (s.1 == Rank::One || s.1 == Rank::Two));
                assert(b.black.spec_contains(s) == (s.1 == Rank::Seven || s.1 == Rank::Eight));
                assert(b.pawns.spec_contains(s) == (s.1 == Rank::Two || s.1 == Rank::Seven));
                assert(b.kings.spec_contains(s) == (king_squares@.contains(s)));
                assert(b.queens.spec_contains(s) == (queen_squares@.contains(s)));
                assert(b.rooks.spec_contains(s) == (rook_squares@.contains(s)));
                assert(b.bishops.spec_contains(s) == (bishop_squares@.contains(s)));
                assert(b.knights.spec_contains(s) == (knight_squares@.contains(s)));
            }
        }
        b
    }

    pub fn is_occupied(&self, square: Square) -> (r: bool)
        ensures
            r == self.spec_occupied(square),
    {
        self.pieces().is_occupied(square)
    }

    /// All occupied squares, both sides together.
    pub fn pieces(&self) -> (r: Bitboard)
        ensures
            r.0 == self.white.0 | self.black.0,
            forall|s: Square| r.spec_contains(s) == self.spec_occupied(s),
    {
        self.white.bit_or(self.black)
    }

    pub fn get_side_bitboard(&self, side: Side) -> (r: Bitboard)
        ensures
            r == self.spec_side_bb(side),
    {
        match side {
            Side::White => self.white,
            Side::Black => self.black,
        }
    }

    pub fn set_side_bitboard(&mut self, side: Side, bitboard: Bitboard)
        ensures
            *final(self) == old(self).with_side_bb(side, bitboard),
    {
        match side {
            Side::White => {
                self.white = bitboard;
            },
            Side::Black => {
                self.black = bitboard;
            },
        };
    }

    pub fn get_pieces_bitboard(&self, piece: Piece) -> (r: Bitboard)
        ensures
            r == self.spec_piece_bb(piece),
    {
        match piece {
            Piece::Pawn => self.pawns,
            Piece::Knight => self.knights,
            Piece::Bishop => self.bishops,
            Piece::Rook => self.rooks,
            Piece::Queen => self.queens,
            Piece::King => self.kings,
        }
    }

    pub fn set_pieces_bitboard(&mut self, piece: Piece, bitboard: Bitboard)
        ensures
            *final(self) == old(self).with_piece_bb(piece, bitboard),
    {
        match piece {
            Piece::Pawn => {
                self.pawns = bitboard;
            },
            Piece::Knight => {
                self.knights = bitboard;
            },
            Piece::Bishop => {
                self.bishops = bitboard;
            },
            Piece::Rook => {
                self.rooks = bitboard;
            },
            Piece::Queen => {
                self.queens = bitboard;
            },
            Piece::King => {
                self.kings = bitboard;
            },
        }
    }

    pub fn get_side(&self, side: Side) -> (r: Bitboard)
        ensures
            r == self.spec_side_bb(side),
    {
        match side {
            Side::White => self.white,
            Side::Black => self.black,
        }
    }

    pub fn get_opponent(&self, side: Side) -> (r: Bitboard)
        ensures
            r == self.spec_side_bb(side.spec_opponent()),
    {
        match side {
            Side::White => self.black,
            Side::Black => self.white,
        }
    }

    pub fn get_side_pieces_bitboard(&self, side: Side, piece: Piece) -> (r: Bitboard)
        ensures
            r == self.spec_side_piece_bb(side, piece),
            forall|s: Square|
                r.spec_contains(s) == (self.spec_side_bb(side).spec_contains(s)
                    && self.spec_piece_bb(piece).spec_contains(s)),
    {
        self.get_side_bitboard(side).bit_and(self.get_pieces_bitboard(piece))
    }

    pub fn get_side_pieces(&self, side: Side, piece: Piece) -> (v: Vec<Square>)
        ensures
            v@ == self.spec_side_piece_bb(side, piece).spec_to_squares(),
    {
        self.get_side_pieces_bitboard(side, piece).to_squares()
    }

    pub fn get_side_squares(&self, side: Side) -> (v: Vec<Square>)
        ensures
            v@ == self.spec_side_bb(side).spec_to_squares(),
    {
        self.get_side_bitboard(side).to_squares()
    }

    /// The board with one more piece bit set, as a value.
    pub open spec fn spec_add(self, side: Side, piece: Piece, square: Square) -> Board {
        let b1 = self.with_side_bb(
            side,
            Bitboard(self.spec_side_bb(side).0 | crate::bitboard::mask_of(square)),
        );
        b1.with_piece_bb(
            piece,
            Bitboard(b1.spec_piece_bb(piece).0 | crate::bitboard::mask_of(square)),
        )
    }

    /// Place a piece on an unoccupied square.
    pub fn add(&mut self, side: Side, piece: Piece, square: Square)
        requires
            old(self).wf(),
            !old(self).spec_occupied(square),
        ensures
            *final(self) == old(self).spec_add(side, piece, square),
            final(self).wf(),
            forall|s: Square|
                final(self).spec_get(s) == if s == square {
                    Some((side, piece))
                } else {
                    old(self).spec_get(s)
                },
            forall|s: Square|
                final(self).spec_occupied(s) == (s == square || old(self).spec_occupied(s)),
            final(self).prior_move_white == old(self).prior_move_white,
            final(self).prior_move_black == old(self).prior_move_black,
            final(self).castling_rights_white_kingside == old(self).castling_rights_white_kingside,
            final(self).castling_rights_white_queenside == old(self).castling_rights_white_queenside,
            final(self).castling_rights_black_kingside == old(self).castling_rights_black_kingside,
            final(self).castling_rights_black_queenside == old(self).castling_rights_black_queenside,
    {
        let bb = Bitboard::square(square);

        match side {
            Side::White => {
                self.white = self.white.bit_or(bb);
            },
            Side::Black => {
                self.black = self.black.bit_or(bb);
            },
        };

        match piece {
            Piece::Pawn => {
                self.pawns = self.pawns.bit_or(bb);
            },
            Piece::Knight => {
                self.knights = self.knights.bit_or(bb);
            },
            Piece::Bishop => {
                self.bishops = self.bishops.bit_or(bb);
            },
            Piece::Rook => {
                self.rooks = self.rooks.bit_or(bb);
            },
            Piece::Queen => {
                self.queens = self.queens.bit_or(bb);
            },
            Piece::King => {
                self.kings = self.kings.bit_or(bb);
            },
        };
        proof {
            assert forall|s: Square|
                self.wf_at(s) && (self.spec_get(s) == if s == square {
                    Some((side, piece))
                } else {
                    old(self).spec_get(s)
                }) && (self.spec_occupied(s) == (s == square || old(self).spec_occupied(s))) by {
                assert(old(self).wf_at(s));
                assert(old(self).wf_at(square));
            }
        }
    }

    /// The board holding exactly one piece, as a value.
    pub open spec fn singleton_spec(side: Side, piece: Piece, square: Square) -> Board {
        Board {
            white: if side == Side::White {
                Bitboard(crate::bitboard::mask_of(square))
            } else {
                Bitboard(0)
            },
            black: if side == Side::Black {
                Bitboard(crate::bitboard::mask_of(square))
            } else {
                Bitboard(0)
            },
            pawns: if piece == Piece::Pawn {
                Bitboard(crate::bitboard::mask_of(square))
            } else {
                Bitboard(0)
            },
            knights: if piece == Piece::Knight {
                Bitboard(crate::bitboard::mask_of(square))
            } else {
                Bitboard(0)
            },
            bishops: if piece == Piece::Bishop {
                Bitboard(crate::bitboard::mask_of(square))
            } else {
                Bitboard(0)
            },
            rooks: if piece == Piece::Rook {
                Bitboard(crate::bitboard::mask_of(square))
            } else {
                Bitboard(0)
            },
            queens: if piece == Piece::Queen {
                Bitboard(crate::bitboard::mask_of(square))
            } else {
                Bitboard(0)
            },
            kings: if piece == Piece::King {
                Bitboard(crate::bitboard::mask_of(square))
            } else {
                Bitboard(0)
            },
            prior_move_white: None,
            prior_move_black: None,
            castling_rights_white_kingside: true,
            castling_rights_white_queenside: true,
            castling_rights_black_kingside: true,
            castling_rights_black_queenside: true,
        }
    }

    /// A board holding exactly one piece.
    pub fn singleton(side: Side, piece: Piece, square: Square) -> (b: Self)
        ensures
            b == Self::singleton_spec(side, piece, square),
            b.wf(),
            forall|s: Square|
                b.spec_get(s) == if s == square {
                    Some((side, piece))
                } else {
                    None::<(Side, Piece)>
                },
            forall|s: Square| b.spec_occupied(s) == (s == square),
            b.prior_move_white is None && b.prior_move_black is None,
            b.castling_rights_white_kingside && b.castling_rights_white_queenside
                && b.castling_rights_black_kingside && b.castling_rights_black_queenside,
    {
        let mut board = Self::empty();
        board.add(side, piece, square);
        proof {
            lemma_zero_or(crate::bitboard::mask_of(square));
            let want = Self::singleton_spec(side, piece, square);
            assert(board.white == want.white);
            assert(board.black == want.black);
            assert(board.pawns == want.pawns);
            assert(board.knights == want.knights);
            assert(board.bishops == want.bishops);
            assert(board.rooks == want.rooks);
            assert(board.queens == want.queens);
            assert(board.kings == want.kings);
            assert(board == want);
        }
        board
    }

    /// What stands on the square: its side and piece kind, or None.
    pub fn get(&self, square: Square) -> (r: Option<(Side, Piece)>)
        requires
            self.wf(),
        ensures
            r == self.spec_get(square),
    {
        if !self.is_occupied(square) {
            None
        } else {
            let bb = Bitboard::square(square);
            let side: Side;
            if self.white.bit_and(bb).has_pieces() {
                side = Side::White;
            } else {
                side = Side::Black;
            }

            let piece: Piece;
            if self.pawns.bit_and(bb).has_pieces() {
                piece = Piece::Pawn;
            } else if self.knights.bit_and(bb).has_pieces() {
                piece = Piece::Knight;
            } else if self.bishops.bit_and(bb).has_pieces() {
                piece = Piece::Bishop;
            } else if self.rooks.bit_and(bb).has_pieces() {
                piece = Piece::Rook;
            } else if self.queens.bit_and(bb).has_pieces() {
                piece = Piece::Queen;
            } else {
                piece = Piece::King;
                proof {
                    assert(self.wf_at(square));
                }
            }

            Some((side, piece))
        }
    }

    /// The board after one unconditional single-piece relocation, captures
    /// resolved: the algebraic step that `transform` performs.
    #[verifier::opaque]
    pub open spec fn spec_transform(self, m: Move) -> Board {
        match (self.side_at(m.0), self.kind_at(m.0)) {
            (Some(side), Some(piece)) => {
                let b1 = self.with_side_bb(side, self.spec_side_bb(side).spec_transform(m));
                let b2 = b1.with_piece_bb(piece, b1.spec_piece_bb(piece).spec_transform(m));
                b2.spec_disambiguate(side, piece)
            },
            _ => self,
        }
    }

    /// Remove any opposing piece overlapping the mover's side, and clear
    /// the mover's piece-kind squares from every other piece kind.
    pub open spec fn spec_disambiguate(self, side: Side, piece: Piece) -> Board {
        let opp = side.spec_opponent();
        let b = self.with_side_bb(
            opp,
            Bitboard(self.spec_side_bb(opp).0 & !self.spec_side_bb(side).0),
        );
        let b = b.spec_privilege(piece, Piece::Pawn);
        let b = b.spec_privilege(piece, Piece::Knight);
        let b = b.spec_privilege(piece, Piece::Bishop);
        let b = b.spec_privilege(piece, Piece::Rook);
        let b = b.spec_privilege(piece, Piece::Queen);
        let b = b.spec_privilege(piece, Piece::King);
        b
    }

    pub open spec fn spec_privilege(self, privileged: Piece, to_overwrite: Piece) -> Board {
        if privileged == to_overwrite {
            self
        } else {
            self.with_piece_bb(
                to_overwrite,
                Bitboard(self.spec_piece_bb(to_overwrite).0 & !self.spec_piece_bb(privileged).0),
            )
        }
    }

    /// What stands where after a transform: the moved piece on the
    /// destination, nothing on the vacated source, all else unchanged.
    pub open spec fn transform_get(self, m: Move, s: Square) -> Option<(Side, Piece)> {
        if s == m.1 {
            self.spec_get(m.0)
        } else if s == m.0 {
            None
        } else {
            self.spec_get(s)
        }
    }

    /// Apply a move unconditionally: relocate the side and piece-kind bits
    /// and resolve any capture.
    pub fn transform(&mut self, m: Move)
        requires
            old(self).wf(),
            old(self).spec_occupied(m.0),
        ensures
            *final(self) == old(self).spec_transform(m),
            final(self).wf(),
            forall|s: Square| final(self).spec_get(s) == old(self).transform_get(m, s),
            final(self).prior_move_white == old(self).prior_move_white,
            final(self).prior_move_black == old(self).prior_move_black,
            final(self).castling_rights_white_kingside == old(self).castling_rights_white_kingside,
            final(self).castling_rights_white_queenside == old(self).castling_rights_white_queenside,
            final(self).castling_rights_black_kingside == old(self).castling_rights_black_kingside,
            final(self).castling_rights_black_queenside == old(self).castling_rights_black_queenside,
    {
        let source = m.0;
        proof {
            reveal(Board::spec_transform);
            assert(old(self).wf_at(source));
        }
        let (side, piece) = self.get(source).unwrap();

        let side_bb = self.get_side_bitboard(side);
        let side_bb = side_bb.transform(m);

        let pieces_bb = self.get_pieces_bitboard(piece);
        let pieces_bb = pieces_bb.transform(m);

        self.set_side_bitboard(side, side_bb);
        self.set_pieces_bitboard(piece, pieces_bb);
        self.disambiguate_captures(side, piece);
        proof {
            lemma_transform_props(*old(self), m);
        }
    }

    /// A clone of the board with the move applied; the receiver is untouched.
    pub fn get_transformation(&self, m: Move) -> (b: Self)
        requires
            self.wf(),
            self.spec_occupied(m.0),
        ensures
            b == self.spec_transform(m),
            b.wf(),
            forall|s: Square| b.spec_get(s) == self.transform_get(m, s),
    {
        let mut to_return = self.clone();
        to_return.transform(m);
        to_return
    }

    fn disambiguate_captures(&mut self, side: Side, piece: Piece)
        ensures
            *final(self) == old(self).spec_disambiguate(side, piece),
    {
        let side_bb = self.get_side_bitboard(side);
        let opponent = Side::get_opponent(side);
        let opponent_bb = self.get_side_bitboard(opponent);

        self.set_side_bitboard(opponent, opponent_bb.bit_and(side_bb.get_inverse()));

        self.priviledge_piece(piece, Piece::Pawn);
        self.priviledge_piece(piece, Piece::Knight);
        self.priviledge_piece(piece, Piece::Bishop);
        self.priviledge_piece(piece, Piece::Rook);
        self.priviledge_piece(piece, Piece::Queen);
        self.priviledge_piece(piece, Piece::King);
    }

    fn priviledge_piece(&mut self, priviledged: Piece, to_overwrite: Piece)
        ensures
            *final(self) == old(self).spec_privilege(priviledged, to_overwrite),
    {
        if priviledged == to_overwrite {
            return ;
        }
        let priviledged_bb = self.get_pieces_bitboard(priviledged);
        let to_overwrite_bb = self.get_pieces_bitboard(to_overwrite);

        self.set_pieces_bitboard(to_overwrite, to_overwrite_bb.bit_and(priviledged_bb.get_inverse()));
    }
}

proof fn lemma_zero_or(m: u64)
    by (bit_vector)
    ensures
        0u64 | m == m,
{
}

/// The memberships of every occupancy set after `spec_transform`, and the
/// preservation of the board invariant by it.
pub proof fn lemma_transform_props(b: Board, m: Move)
    requires
        b.wf(),
        b.spec_occupied(m.0),
    ensures
        b.spec_transform(m).wf(),
        forall|s: Square| b.spec_transform(m).spec_get(s) == b.transform_get(m, s),
{
    reveal(Board::spec_transform);
    assert(b.wf_at(m.0));
    let side = b.side_at(m.0)->Some_0;
    let piece = b.kind_at(m.0)->Some_0;
    let opp = side.spec_opponent();
    let t = b.spec_transform(m);

    let side_new = b.spec_side_bb(side).spec_transform(m);
    let piece_new = b.spec_piece_bb(piece).spec_transform(m);
    lemma_transform_membership(b.spec_side_bb(side), m);
    lemma_transform_membership(b.spec_piece_bb(piece), m);
    lemma_and_not_membership(b.spec_side_bb(opp), side_new);
    lemma_and_not_membership(b.pawns, piece_new);
    lemma_and_not_membership(b.knights, piece_new);
    lemma_and_not_membership(b.bishops, piece_new);
    lemma_and_not_membership(b.rooks, piece_new);
    lemma_and_not_membership(b.queens, piece_new);
    lemma_and_not_membership(b.kings, piece_new);

    assert forall|s: Square| t.wf_at(s) && t.spec_get(s) == b.transform_get(m, s) by {
        assert(b.wf_at(s));
        assert(b.wf_at(m.0));
        assert(b.wf_at(m.1));
    }
}

} // verus!
