use vstd::prelude::*;

use crate::board::Board;
use crate::board::lemma_transform_props;
use crate::coords::Piece;
use crate::coords::Side;
use crate::moves::lemma_legal_move_members;
use crate::squares::Castle;
use crate::squares::Move;
use crate::squares::Square;
use crate::vision::is_king_step;

verus! {

impl Board {
    /// The board after playing a move without any legality check, castling
    /// executed as the king's move plus the linked rook move.
    #[verifier::opaque]
    pub open spec fn spec_force_make(self, m: Move) -> Board {
        match self.spec_get(m.0) {
            Some((side, piece)) => {
                if piece == Piece::King && m == Castle::Kingside.spec_king_move(side) {
                    self.spec_transform(m).spec_transform(Castle::Kingside.spec_rook_move(side))
                } else if piece == Piece::King && m == Castle::Queenside.spec_king_move(side) {
                    self.spec_transform(m).spec_transform(
                        Castle::Queenside.spec_rook_move(side),
                    )
                } else {
                    self.spec_transform(m)
                }
            },
            None => self,
        }
    }

    fn force_make_move(&mut self, m: Move)
        requires
            old(self).wf(),
            old(self).spec_occupied(m.0),
            ({
                let side = old(self).spec_get(m.0)->Some_0.0;
                let piece = old(self).spec_get(m.0)->Some_0.1;
                (piece == Piece::King && m == Castle::Kingside.spec_king_move(side)
                    ==> old(self).spec_transform(m).spec_occupied(
                    Castle::Kingside.spec_rook_source(side),
                )) && (piece == Piece::King && m == Castle::Queenside.spec_king_move(side)
                    ==> old(self).spec_transform(m).spec_occupied(
                    Castle::Queenside.spec_rook_source(side),
                ))
            }),
        ensures
            *final(self) == old(self).spec_force_make(m),
            final(self).wf(),
    {
        let source = m.0;
        proof {
            reveal(Board::spec_force_make);
            assert(self.wf_at(source));
        }
        let (side, piece) = self.get(source).unwrap();
        let kingside_castle = Castle::Kingside.get_king_move(side);
        let queenside_castle = Castle::Queenside.get_king_move(side);
        if piece == Piece::King && m == kingside_castle {
            let king_move = m;
            let rook_move = Castle::Kingside.get_rook_move(side);
            self.transform(king_move);
            self.transform(rook_move);
        } else if piece == Piece::King && m == queenside_castle {
            let king_move = m;
            let rook_move = Castle::Queenside.get_rook_move(side);
            self.transform(king_move);
            self.transform(rook_move);
        } else {
            self.transform(m);
        }
    }

    /// Play a legal move; castling is carried out as two linked
    /// single-square relocations.
    pub fn make_move(&mut self, m: Move)
        requires
            old(self).wf(),
            old(self).spec_occupied(m.0),
            old(self).spec_legal_moves(m.0).contains(m),
        ensures
            *final(self) == old(self).spec_force_make(m),
            final(self).wf(),
    {
        let legal = self.is_legal_move(m);
        proof {
            assert(legal);
            lemma_rook_present_for_castle(*self, m);
        }
        self.force_make_move(m);
    }

    /// Every move of the list is legal when its turn comes.
    pub open spec fn spec_moves_ok(self, ms: Seq<Move>) -> bool
        decreases ms.len(),
    {
        if ms.len() == 0 {
            true
        } else {
            &&& self.spec_occupied(ms[0].0)
            &&& self.spec_legal_moves(ms[0].0).contains(ms[0])
            &&& self.spec_force_make(ms[0]).spec_moves_ok(ms.subrange(1, ms.len() as int))
        }
    }

    /// The board after playing the whole list in order.
    pub open spec fn spec_apply_moves(self, ms: Seq<Move>) -> Board
        decreases ms.len(),
    {
        if ms.len() == 0 {
            self
        } else {
            self.spec_force_make(ms[0]).spec_apply_moves(ms.subrange(1, ms.len() as int))
        }
    }

    /// Play a list of moves in order, each legal when its turn comes.
    pub fn make_moves(&mut self, moves: Vec<Move>)
        requires
            old(self).wf(),
            old(self).spec_moves_ok(moves@),
        ensures
            *final(self) == old(self).spec_apply_moves(moves@),
            final(self).wf(),
    {
        let mut i: usize = 0;
        proof {
            assert(moves@.skip(0) =~= moves@);
        }
        while i < moves.len()
            invariant
                i <= moves@.len(),
                self.wf(),
                self.spec_moves_ok(moves@.skip(i as int)),
                old(self).spec_apply_moves(moves@) == self.spec_apply_moves(
                    moves@.skip(i as int),
                ),
            decreases moves@.len() - i,
        {
            let ghost rem = moves@.skip(i as int);
            proof {
                assert(rem[0] == moves@[i as int]);
                assert(rem.subrange(1, rem.len() as int) =~= moves@.skip(i + 1));
            }
            self.make_move(moves[i]);
            i = i + 1;
        }
        proof {
            assert(moves@.skip(moves@.len() as int) =~= Seq::<Move>::empty());
        }
    }

    /// Whether the move takes an opposing piece.
    pub open spec fn spec_is_capture(self, m: Move) -> bool {
        match (self.spec_get(m.0), self.spec_get(m.1)) {
            (Some((side, p1)), Some((s2, p2))) => s2 == side.spec_opponent(),
            _ => false,
        }
    }

    pub fn is_capture(&self, m: Move) -> (r: bool)
        requires
            self.wf(),
            self.spec_occupied(m.0),
        ensures
            r == self.spec_is_capture(m),
    {
        proof {
            assert(self.wf_at(m.0));
        }
        let (side, _piece) = self.get(m.0).unwrap();
        let opponent = Side::get_opponent(side);
        match self.get(m.1) {
            None => false,
            Some((s, _)) => s == opponent,
        }
    }

    /// The side's legal moves that give check to the opponent.
    pub fn get_checks(&self, side: Side) -> (v: Vec<Move>)
        requires
            self.wf(),
        ensures
            v@ == self.spec_legal_moves_for_side(side).filter(
                |m: Move| self.spec_transform(m).spec_in_check(side.spec_opponent()),
            ),
    {
        let legal_moves = self.get_legal_moves_for_side(side);
        let opponent = Side::get_opponent(side);
        proof {
            lemma_side_moves_occupied(*self, side);
        }
        let mut v: Vec<Move> = Vec::new();
        let mut i: usize = 0;
        while i < legal_moves.len()
            invariant
                self.wf(),
                opponent == side.spec_opponent(),
                legal_moves@ == self.spec_legal_moves_for_side(side),
                forall|j: int|
                    0 <= j < legal_moves@.len() ==> self.spec_occupied(
                        (#[trigger] legal_moves@[j]).0,
                    ),
                i <= legal_moves@.len(),
                v@ == legal_moves@.take(i as int).filter(
                    |m: Move| self.spec_transform(m).spec_in_check(side.spec_opponent()),
                ),
            decreases legal_moves@.len() - i,
        {
            let m = legal_moves[i];
            proof {
                assert(legal_moves@.take(i + 1).drop_last() =~= legal_moves@.take(i as int));
                assert(legal_moves@.take(i + 1).last() == legal_moves@[i as int]);
                reveal_with_fuel(Seq::filter, 2);
            }
            if self.get_transformation(m).is_in_check(opponent) {
                v.push(m);
            }
            i = i + 1;
        }
        proof {
            assert(legal_moves@.take(legal_moves@.len() as int) =~= legal_moves@);
        }
        v
    }

    /// The side's legal moves that take an opposing piece.
    pub fn get_captures(&self, side: Side) -> (v: Vec<Move>)
        requires
            self.wf(),
        ensures
            v@ == self.spec_legal_moves_for_side(side).filter(
                |m: Move| self.spec_is_capture(m),
            ),
    {
        let legal_moves = self.get_legal_moves_for_side(side);
        proof {
            lemma_side_moves_occupied(*self, side);
        }
        let mut v: Vec<Move> = Vec::new();
        let mut i: usize = 0;
        while i < legal_moves.len()
            invariant
                self.wf(),
                legal_moves@ == self.spec_legal_moves_for_side(side),
                forall|j: int|
                    0 <= j < legal_moves@.len() ==> self.spec_occupied(
                        (#[trigger] legal_moves@[j]).0,
                    ),
                i <= legal_moves@.len(),
                v@ == legal_moves@.take(i as int).filter(|m: Move| self.spec_is_capture(m)),
            decreases legal_moves@.len() - i,
        {
            let m = legal_moves[i];
            proof {
                assert(legal_moves@.take(i + 1).drop_last() =~= legal_moves@.take(i as int));
                assert(legal_moves@.take(i + 1).last() == legal_moves@[i as int]);
                reveal_with_fuel(Seq::filter, 2);
            }
            if self.is_capture(m) {
                v.push(m);
            }
            i = i + 1;
        }
        proof {
            assert(legal_moves@.take(legal_moves@.len() as int) =~= legal_moves@);
        }
        v
    }

    /// The square of the side's single king.
    pub open spec fn spec_king_square(self, side: Side) -> Square {
        self.spec_side_piece_bb(side, Piece::King).spec_to_squares()[0]
    }

    /// Exactly one king of the side stands on the board.
    pub open spec fn spec_one_king(self, side: Side) -> bool {
        self.spec_side_piece_bb(side, Piece::King).spec_to_squares().len() == 1
    }

    /// In check with no legal king move. As in the reference behaviour,
    /// only the king's own moves are examined.
    pub fn is_checkmated(&self, side: Side) -> (r: bool)
        requires
            self.wf(),
            self.spec_one_king(side),
        ensures
            r == (self.spec_in_check(side) && self.spec_legal_moves(
                self.spec_king_square(side),
            ).len() == 0),
    {
        let kings = self.get_side_pieces_bitboard(side, Piece::King).to_squares();
        let king = kings[0];
        proof {
            lemma_king_square_occupied(*self, side);
        }
        self.is_in_check(side) && self.has_no_legal_moves(king)
    }

    /// Not in check, yet no legal king move. As in the reference behaviour,
    /// only the king's own moves are examined.
    pub fn is_stalemated(&self, side: Side) -> (r: bool)
        requires
            self.wf(),
            self.spec_one_king(side),
        ensures
            r == (!self.spec_in_check(side) && self.spec_legal_moves(
                self.spec_king_square(side),
            ).len() == 0),
    {
        let kings = self.get_side_pieces_bitboard(side, Piece::King).to_squares();
        let king = kings[0];
        proof {
            lemma_king_square_occupied(*self, side);
        }
        (!self.is_in_check(side)) && self.has_no_legal_moves(king)
    }

    fn has_no_legal_moves(&self, square: Square) -> (r: bool)
        requires
            self.wf(),
            self.spec_occupied(square),
        ensures
            r == (self.spec_legal_moves(square).len() == 0),
    {
        self.get_legal_moves(square).len() == 0
    }
}

/// The legality filter never lets a move through that leaves its own
/// side's king in check in the resulting position.
pub proof fn lemma_legal_moves_safe(b: Board, sq: Square, m: Move)
    requires
        b.wf(),
        b.spec_legal_moves(sq).contains(m),
    ensures
        !b.spec_transform(m).spec_in_check(b.spec_get(sq)->Some_0.0),
{
    lemma_legal_move_members(b, sq);
}

/// A board never holds a square on both sides' occupancy sets, nor on two
/// piece-kind sets at once; side and piece membership agree square by
/// square.
pub proof fn lemma_no_double_occupancy(b: Board, s: Square)
    requires
        b.wf(),
    ensures
        !(b.white.spec_contains(s) && b.black.spec_contains(s)),
        b.spec_occupied(s) ==> b.kinds_at(s) == 1,
        !b.spec_occupied(s) ==> b.kinds_at(s) == 0,
{
    assert(b.wf_at(s));
}

/// A legal king move to a castling destination implies the castle was
/// available, so the rook still stands on its corner after the king's step.
proof fn lemma_rook_present_for_castle(b: Board, m: Move)
    requires
        b.wf(),
        b.spec_occupied(m.0),
        b.spec_legal_moves(m.0).contains(m),
    ensures
        ({
            let side = b.spec_get(m.0)->Some_0.0;
            let piece = b.spec_get(m.0)->Some_0.1;
            (piece == Piece::King && m == Castle::Kingside.spec_king_move(side)
                ==> b.spec_transform(m).spec_occupied(
                Castle::Kingside.spec_rook_source(side),
            )) && (piece == Piece::King && m == Castle::Queenside.spec_king_move(side)
                ==> b.spec_transform(m).spec_occupied(
                Castle::Queenside.spec_rook_source(side),
            ))
        }),
{
    assert(b.wf_at(m.0));
    let side = b.spec_get(m.0)->Some_0.0;
    let piece = b.spec_get(m.0)->Some_0.1;
    lemma_legal_move_members(b, m.0);
    if piece == Piece::King && m == Castle::Kingside.spec_king_move(side) {
        assert(b.spec_pseudo_dests(side, piece, m.0).contains(m.1));
        assert(!is_king_step(m.0, m.1));
        assert(b.spec_can_castle(side, Castle::Kingside));
        let rs = Castle::Kingside.spec_rook_source(side);
        assert(b.spec_occupied(rs));
        lemma_transform_props(b, m);
        assert(rs != m.0 && rs != m.1);
        assert(b.transform_get(m, rs) == b.spec_get(rs));
        assert(b.spec_transform(m).spec_get(rs) == b.transform_get(m, rs));
        assert(b.wf_at(rs));
    }
    if piece == Piece::King && m == Castle::Queenside.spec_king_move(side) {
        assert(b.spec_pseudo_dests(side, piece, m.0).contains(m.1));
        assert(!is_king_step(m.0, m.1));
        assert(b.spec_can_castle(side, Castle::Queenside));
        let rs = Castle::Queenside.spec_rook_source(side);
        assert(b.spec_occupied(rs));
        lemma_transform_props(b, m);
        assert(rs != m.0 && rs != m.1);
        assert(b.transform_get(m, rs) == b.spec_get(rs));
        assert(b.spec_transform(m).spec_get(rs) == b.transform_get(m, rs));
        assert(b.wf_at(rs));
    }
}

/// Every move produced for a side starts on one of that side's occupied
/// squares.
proof fn lemma_side_moves_occupied(b: Board, side: Side)
    requires
        b.wf(),
    ensures
        forall|j: int|
            0 <= j < b.spec_legal_moves_for_side(side).len() ==> b.spec_occupied(
                (#[trigger] b.spec_legal_moves_for_side(side)[j]).0,
            ),
{
    crate::bitboard::lemma_to_squares_props(b.spec_side_bb(side));
    lemma_concat_moves_occupied(b, b.spec_side_bb(side).spec_to_squares());
}

proof fn lemma_concat_moves_occupied(b: Board, squares: Seq<Square>)
    requires
        b.wf(),
        forall|j: int| 0 <= j < squares.len() ==> b.spec_occupied(#[trigger] squares[j]),
    ensures
        forall|j: int|
            0 <= j < b.spec_legal_moves_concat(squares).len() ==> b.spec_occupied(
                (#[trigger] b.spec_legal_moves_concat(squares)[j]).0,
            ),
    decreases squares.len(),
{
    if squares.len() > 0 {
        lemma_concat_moves_occupied(b, squares.drop_last());
        let sq = squares.last();
        lemma_legal_move_members(b, sq);
        let prev = b.spec_legal_moves_concat(squares.drop_last());
        let tail = b.spec_legal_moves(sq);
        assert(b.spec_legal_moves_concat(squares) == prev + tail);
        assert forall|j: int|
            0 <= j < b.spec_legal_moves_concat(squares).len() implies b.spec_occupied(
            (#[trigger] b.spec_legal_moves_concat(squares)[j]).0,
        ) by {
            if j < prev.len() {
                assert(b.spec_legal_moves_concat(squares)[j] == prev[j]);
            } else {
                let m = tail[j - prev.len()];
                assert(tail.contains(m)) by {
                    assert(tail[j - prev.len()] == m);
                }
                assert(m.0 == sq);
            }
        }
    }
}

/// The side's single king stands on its recorded square.
proof fn lemma_king_square_occupied(b: Board, side: Side)
    requires
        b.wf(),
        b.spec_one_king(side),
    ensures
        b.spec_occupied(b.spec_king_square(side)),
        b.spec_side_piece_bb(side, Piece::King).spec_contains(b.spec_king_square(side)),
    {
    let bb = b.spec_side_piece_bb(side, Piece::King);
    crate::bitboard::lemma_to_squares_props(bb);
    let k = b.spec_king_square(side);
    assert(bb.spec_contains(k));
    crate::bitboard::lemma_and_not_membership(
        crate::bitboard::Bitboard(bb.0),
        crate::bitboard::Bitboard(0),
    );
    assert(bb.0 == b.spec_side_bb(side).0 & b.spec_piece_bb(Piece::King).0);
    assert(b.spec_side_bb(side).spec_contains(k) && b.spec_piece_bb(Piece::King).spec_contains(
        k,
    )) by {
        assert(b.has_side_piece(side, Piece::King, k) == bb.spec_contains(k)) by {
            lemma_side_piece_membership(b, side, Piece::King, k);
        }
    }
}

/// Membership of the side-and-piece intersection, pointwise.
proof fn lemma_side_piece_membership(b: Board, side: Side, piece: Piece, t: Square)
    ensures
        b.spec_side_piece_bb(side, piece).spec_contains(t) == b.has_side_piece(side, piece, t),
{
    crate::bitboard::lemma_square_ranges(t);
    lemma_and_bit(b.spec_side_bb(side).0, b.spec_piece_bb(piece).0, t.idx() as u64);
}

proof fn lemma_and_bit(b1: u64, b2: u64, k: u64)
    by (bit_vector)
    requires
        k < 64,
    ensures
        ((b1 & b2) & (1u64 << k) != 0) == (b1 & (1u64 << k) != 0 && b2 & (1u64 << k) != 0),
{
}

} // verus!
