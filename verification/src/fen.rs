use vstd::prelude::*;

use vstd::string::StrSliceExecFns;
use vstd::string::StringExecFns;

use crate::board::Board;
use crate::coords::File;
use crate::coords::Piece;
use crate::coords::Rank;
use crate::coords::Side;
use crate::squares::Square;
use crate::text::decimal_string;
use crate::text::digit_char;
use crate::text::spec_decimal;

verus! {

/// The letter FEN writes for a piece: upper case for White, lower for Black.
pub open spec fn fen_piece_char(side: Side, piece: Piece) -> char {
    match (side, piece) {
        (Side::White, Piece::Pawn) => 'P',
        (Side::White, Piece::Knight) => 'N',
        (Side::White, Piece::Bishop) => 'B',
        (Side::White, Piece::Rook) => 'R',
        (Side::White, Piece::Queen) => 'Q',
        (Side::White, Piece::King) => 'K',
        (Side::Black, Piece::Pawn) => 'p',
        (Side::Black, Piece::Knight) => 'n',
        (Side::Black, Piece::Bishop) => 'b',
        (Side::Black, Piece::Rook) => 'r',
        (Side::Black, Piece::Queen) => 'q',
        (Side::Black, Piece::King) => 'k',
    }
}

/// The rest of one rank's FEN text, from file `f` on, with `pending` empty
/// squares seen and not yet written as a digit.
pub open spec fn rank_fen_from(b: Board, r: int, f: int, pending: int) -> Seq<char>
    decreases 8 - f,
{
    if f >= 8 {
        if pending > 0 {
            seq![digit_char(pending)]
        } else {
            Seq::empty()
        }
    } else {
        match b.spec_get(Square::spec_new(f, r)) {
            Some((side, piece)) => (if pending > 0 {
                seq![digit_char(pending)]
            } else {
                Seq::empty()
            }) + seq![fen_piece_char(side, piece)] + rank_fen_from(b, r, f + 1, 0),
            None => rank_fen_from(b, r, f + 1, pending + 1),
        }
    }
}

/// The piece-placement field from rank `r` down to rank 1, '/'-separated.
pub open spec fn placement_from(b: Board, r: int) -> Seq<char>
    decreases r,
{
    rank_fen_from(b, r, 0, 0) + if r > 0 {
        seq!['/'] + placement_from(b, r - 1)
    } else {
        Seq::empty()
    }
}

/// The castling-rights field: the still-standing rights as KQkq, else "-".
pub open spec fn castling_fen(b: Board) -> Seq<char> {
    let s = (if b.castling_rights_white_kingside {
        seq!['K']
    } else {
        Seq::empty()
    }) + (if b.castling_rights_white_queenside {
        seq!['Q']
    } else {
        Seq::empty()
    }) + (if b.castling_rights_black_kingside {
        seq!['k']
    } else {
        Seq::empty()
    }) + (if b.castling_rights_black_queenside {
        seq!['q']
    } else {
        Seq::empty()
    });
    if s.len() == 0 {
        seq!['-']
    } else {
        s
    }
}

pub open spec fn side_fen_char(side: Side) -> char {
    match side {
        Side::White => 'w',
        Side::Black => 'b',
    }
}

/// The whole six-field FEN line: placement, side to move, castling rights,
/// the always-empty en passant field, then the two caller-supplied counters.
pub open spec fn spec_fen(b: Board, side: Side, half_moves: int, full_moves: int) -> Seq<char> {
    placement_from(b, 7) + seq![' ', side_fen_char(side), ' '] + castling_fen(b) + seq![
        ' ',
        '-',
        ' ',
    ] + spec_decimal(half_moves) + seq![' '] + spec_decimal(full_moves)
}

impl Board {
    /// Serialize the position to Forsyth-Edwards Notation. The half-move
    /// and full-move counters are the caller's, and the en passant field
    /// is always "-".
    #[verifier::rlimit(60)]
    pub fn fen(&self, side: Side, half_moves: usize, full_moves: usize) -> (r: String)
        requires
            self.wf(),
        ensures
            r@ == spec_fen(*self, side, half_moves as int, full_moves as int),
    {
        let mut out = String::new();
        let files = File::all();
        let ranks = Rank::all();
        let mut ri: usize = 0;
        while ri < 8
            invariant
                self.wf(),
                files@.len() == 8,
                ranks@.len() == 8,
                forall|i: int| 0 <= i < 8 ==> (#[trigger] files@[i]).as_int() == i,
                forall|i: int| 0 <= i < 8 ==> (#[trigger] ranks@[i]).as_int() == i,
                ri <= 8,
                ri < 8 ==> out@ + placement_from(*self, 7 - ri) == placement_from(*self, 7),
                ri == 8 ==> out@ == placement_from(*self, 7),
            decreases 8 - ri,
        {
            let rank = ranks[7 - ri];
            let ghost base = out@;
            let ghost rr = 7 - ri as int;
            let mut fi: usize = 0;
            let mut pending: usize = 0;
            while fi < 8
                invariant
                    self.wf(),
                    files@.len() == 8,
                    forall|i: int| 0 <= i < 8 ==> (#[trigger] files@[i]).as_int() == i,
                    rank.as_int() == rr,
                    0 <= rr < 8,
                    fi <= 8,
                    pending <= fi,
                    out@ + rank_fen_from(*self, rr, fi as int, pending as int) == base
                        + rank_fen_from(*self, rr, 0, 0),
                decreases 8 - fi,
            {
                let sq = Square(files[fi], rank);
                proof {
                    crate::squares::lemma_square_coords(sq);
                    assert(sq == Square::spec_new(fi as int, rr));
                }
                match self.get(sq) {
                    Some((side2, piece2)) => {
                        if pending > 0 {
                            out.push(crate::fen::digit_char_exec(pending));
                        }
                        out.push(fen_piece_char_exec(side2, piece2));
                        pending = 0;
                    },
                    None => {
                        pending = pending + 1;
                    },
                }
                fi = fi + 1;
            }
            let ghost rank_done = base + rank_fen_from(*self, rr, 0, 0);
            proof {
                assert(base + placement_from(*self, rr) == placement_from(*self, 7));
                if pending == 0 {
                    assert(rank_fen_from(*self, rr, 8, 0) =~= Seq::<char>::empty());
                    assert(out@ + rank_fen_from(*self, rr, 8, 0) =~= out@);
                    assert(out@ =~= rank_done);
                } else {
                    assert(rank_fen_from(*self, rr, 8, pending as int) =~= seq![
                        digit_char(pending as int),
                    ]);
                }
            }
            if pending > 0 {
                out.push(digit_char_exec(pending));
                proof {
                    assert(out@ =~= rank_done);
                }
            }
            if ri < 7 {
                out.push('/');
            }
            proof {
                if ri < 7 {
                    assert(out@ =~= rank_done + seq!['/']);
                    assert(out@ + placement_from(*self, rr - 1) =~= base + (rank_fen_from(
                        *self,
                        rr,
                        0,
                        0,
                    ) + (seq!['/'] + placement_from(*self, rr - 1))));
                    assert(ri + 1 < 8 ==> out@ + placement_from(*self, 7 - (ri + 1))
                        == placement_from(*self, 7));
                } else {
                    assert(placement_from(*self, 0) + Seq::<char>::empty() =~= placement_from(
                        *self,
                        0,
                    ));
                    assert(base + placement_from(*self, 0) =~= rank_done);
                    assert(out@ == placement_from(*self, 7));
                }
            }
            ri = ri + 1;
        }

        let ghost placement = out@;
        out.push(' ');
        match side {
            Side::White => out.push('w'),
            Side::Black => out.push('b'),
        };
        out.push(' ');
        proof {
            assert(out@ =~= placement + seq![' ', side_fen_char(side), ' ']);
        }

        let ghost before_castling = out@;
        let mut any: bool = false;
        if self.castling_rights_white_kingside {
            out.push('K');
            any = true;
        }
        if self.castling_rights_white_queenside {
            out.push('Q');
            any = true;
        }
        if self.castling_rights_black_kingside {
            out.push('k');
            any = true;
        }
        if self.castling_rights_black_queenside {
            out.push('q');
            any = true;
        }
        if !any {
            out.push('-');
        }
        proof {
            assert(out@ =~= before_castling + castling_fen(*self));
        }

        let ghost with_castling = out@;
        out.push(' ');
        out.push('-');
        out.push(' ');
        proof {
            assert(out@ =~= with_castling + seq![' ', '-', ' ']);
        }
        let ghost before_half = out@;
        out.append(decimal_string(half_moves).as_str());
        let ghost with_half = out@;
        out.push(' ');
        out.append(decimal_string(full_moves).as_str());
        proof {
            let rhs1 = placement + seq![' ', side_fen_char(side), ' '];
            assert(before_castling == rhs1);
            let rhs2 = rhs1 + castling_fen(*self);
            assert(with_castling == rhs2);
            let rhs3 = rhs2 + seq![' ', '-', ' '];
            assert(before_half == rhs3);
            let rhs4 = rhs3 + spec_decimal(half_moves as int);
            assert(with_half == rhs4);
            let rhs5 = rhs4 + seq![' '];
            assert(with_half.push(' ') =~= rhs5);
            let rhs6 = rhs5 + spec_decimal(full_moves as int);
            assert(out@ == rhs6);
            assert(spec_fen(*self, side, half_moves as int, full_moves as int) == rhs6);
        }
        out
    }
}

fn fen_piece_char_exec(side: Side, piece: Piece) -> (c: char)
    ensures
        c == fen_piece_char(side, piece),
{
    match (side, piece) {
        (Side::White, Piece::Pawn) => 'P',
        (Side::White, Piece::Knight) => 'N',
        (Side::White, Piece::Bishop) => 'B',
        (Side::White, Piece::Rook) => 'R',
        (Side::White, Piece::Queen) => 'Q',
        (Side::White, Piece::King) => 'K',
        (Side::Black, Piece::Pawn) => 'p',
        (Side::Black, Piece::Knight) => 'n',
        (Side::Black, Piece::Bishop) => 'b',
        (Side::Black, Piece::Rook) => 'r',
        (Side::Black, Piece::Queen) => 'q',
        (Side::Black, Piece::King) => 'k',
    }
}

fn digit_char_exec(d: usize) -> (c: char)
    requires
        d < 10,
    ensures
        c == digit_char(d as int),
{
    match d {
        0 => '0',
        1 => '1',
        2 => '2',
        3 => '3',
        4 => '4',
        5 => '5',
        6 => '6',
        7 => '7',
        8 => '8',
        _ => '9',
    }
}

} // verus!
