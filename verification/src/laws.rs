use vstd::prelude::*;

use crate::bitboard::asc_squares;
use crate::board::Board;
use crate::coords::File;
use crate::coords::Piece;
use crate::coords::Rank;
use crate::coords::Side;
use crate::moves::lemma_asc_squares_members;
use crate::moves::lemma_legal_move_members;
use crate::notation::castle_kingside_str;
use crate::notation::castle_queenside_str;
use crate::squares::Move;
use crate::squares::Square;
use crate::vision::is_king_step;
use crate::vision::pawn_dir;

verus! {

/// Reading a file letter back gives the file it was written for.
proof fn lemma_file_char_round(f: File)
    ensures
        File::spec_is_file_char(f.spec_char()),
        File::spec_from_char(f.spec_char()) == f,
        !Rank::spec_is_rank_char(f.spec_char()),
        f.spec_char() != 'O',
{
}

/// Reading a rank digit back gives the rank it was written for.
proof fn lemma_rank_char_round(r: Rank)
    ensures
        Rank::spec_is_rank_char(r.spec_char()),
        Rank::spec_from_char(r.spec_char()) == r,
        !File::spec_is_file_char(r.spec_char()),
        r.spec_char() != 'O',
{
}

/// Reading a piece letter back gives the piece it was written for.
proof fn lemma_piece_char_round(p: Piece)
    ensures
        Piece::spec_is_piece_char(p.spec_char()),
        Piece::spec_from_char(p.spec_char()) == p,
        !File::spec_is_file_char(p.spec_char()),
        p.spec_char() != 'O',
{
}

/// A ray can be walked one square further past an unoccupied member that
/// still has board ahead of it.
proof fn lemma_ray_extend(b: Board, f: int, r: int, df: int, dr: int, x: Square)
    requires
        !(df == 0 && dr == 0),
        b.spec_ray(f, r, df, dr).contains(x),
        !b.spec_occupied(x),
        0 <= x.f() + df < 8,
        0 <= x.r() + dr < 8,
    ensures
        b.spec_ray(f, r, df, dr).contains(Square::spec_new(x.f() + df, x.r() + dr)),
    decreases crate::vision::ray_fuel(f, r, df, dr),
{
    let f2 = f + df;
    let r2 = r + dr;
    assert(0 <= f2 < 8 && 0 <= r2 < 8);
    let s1 = Square::spec_new(f2, r2);
    crate::squares::lemma_spec_new_coords(f2, r2);
    if x == s1 {
        crate::squares::lemma_spec_new_coords(x.f() + df, x.r() + dr);
        assert(b.spec_ray(f2, r2, df, dr).contains(Square::spec_new(x.f() + df, x.r() + dr)));
    } else {
        assert(!b.spec_occupied(s1));
        assert(b.spec_ray(f2, r2, df, dr).contains(x));
        lemma_ray_extend(b, f2, r2, df, dr, x);
    }
}

/// Slider sight is mutual: a ray from one square that reaches another is
/// answered by the opposite ray back, since the squares between them are
/// the same and the first occupied square is included on both walks.
proof fn lemma_ray_symmetric(b: Board, a: Square, df: int, dr: int, t: Square)
    requires
        !(df == 0 && dr == 0),
        b.spec_ray(a.f(), a.r(), df, dr).contains(t),
    ensures
        b.spec_ray(t.f(), t.r(), -df, -dr).contains(a),
    decreases crate::vision::ray_fuel(a.f(), a.r(), df, dr),
{
    let f2 = a.f() + df;
    let r2 = a.r() + dr;
    assert(0 <= f2 < 8 && 0 <= r2 < 8);
    let s1 = Square::spec_new(f2, r2);
    crate::squares::lemma_spec_new_coords(f2, r2);
    crate::squares::lemma_square_coords(a);
    crate::bitboard::lemma_square_ranges(a);
    crate::bitboard::lemma_square_ranges(t);
    if t == s1 {
        assert(Square::spec_new(t.f() - df, t.r() - dr) == a);
        assert(b.spec_ray(t.f(), t.r(), -df, -dr).contains(a));
    } else {
        assert(!b.spec_occupied(s1));
        assert(b.spec_ray(s1.f(), s1.r(), df, dr).contains(t));
        lemma_ray_symmetric(b, s1, df, dr, t);
        lemma_ray_extend(b, t.f(), t.r(), -df, -dr, s1);
        assert(Square::spec_new(s1.f() - df, s1.r() - dr) == a);
    }
}

/// Diagonal vision is mutual.
pub proof fn lemma_diagonal_vision_symmetric(b: Board, a: Square, t: Square)
    requires
        b.spec_diagonal_vision(a).contains(t),
    ensures
        b.spec_diagonal_vision(t).contains(a),
{
    if b.dir_ray(a, crate::coords::Direction::UpLeft).contains(t) {
        lemma_ray_symmetric(b, a, -1, 1, t);
    } else if b.dir_ray(a, crate::coords::Direction::UpRight).contains(t) {
        lemma_ray_symmetric(b, a, 1, 1, t);
    } else if b.dir_ray(a, crate::coords::Direction::DownLeft).contains(t) {
        lemma_ray_symmetric(b, a, -1, -1, t);
    } else {
        lemma_ray_symmetric(b, a, 1, -1, t);
    }
}

/// Lateral vision is mutual.
pub proof fn lemma_lateral_vision_symmetric(b: Board, a: Square, t: Square)
    requires
        b.spec_lateral_vision(a).contains(t),
    ensures
        b.spec_lateral_vision(t).contains(a),
{
    if b.dir_ray(a, crate::coords::Direction::Right).contains(t) {
        lemma_ray_symmetric(b, a, 1, 0, t);
    } else if b.dir_ray(a, crate::coords::Direction::Left).contains(t) {
        lemma_ray_symmetric(b, a, -1, 0, t);
    } else if b.dir_ray(a, crate::coords::Direction::Up).contains(t) {
        lemma_ray_symmetric(b, a, 0, 1, t);
    } else {
        lemma_ray_symmetric(b, a, 0, -1, t);
    }
}

/// A sequence with a member satisfying the predicate filters to at least
/// one element.
proof fn lemma_filter_one(s: Seq<Square>, pred: spec_fn(Square) -> bool, i: int)
    requires
        0 <= i < s.len(),
        pred(s[i]),
    ensures
        s.filter(pred).len() >= 1,
    decreases s.len(),
{
    reveal_with_fuel(Seq::filter, 2);
    if i < s.len() - 1 {
        lemma_filter_one(s.drop_last(), pred, i);
    }
}

/// A sequence with two members satisfying the predicate filters to at
/// least two elements.
proof fn lemma_filter_two(s: Seq<Square>, pred: spec_fn(Square) -> bool, i: int, j: int)
    requires
        0 <= i < j < s.len(),
        pred(s[i]),
        pred(s[j]),
    ensures
        s.filter(pred).len() >= 2,
    decreases s.len(),
{
    reveal_with_fuel(Seq::filter, 2);
    if j < s.len() - 1 {
        lemma_filter_two(s.drop_last(), pred, i, j);
    } else {
        lemma_filter_one(s.drop_last(), pred, i);
    }
}

/// Round trip of printing and parsing: a legal move written by the
/// printer is read back as the same move, whenever its written form is
/// unambiguous, that is, whenever the printer succeeds: every pawn move,
/// every piece move with a single candidate source, and every piece move
/// the printer disambiguates by the mover's file or rank. A king's
/// castling move prints as a plain king move, which cannot name it, so
/// king moves are covered for single steps.
pub proof fn lemma_move_string_round_trip(b: Board, m: Move)
    requires
        b.wf(),
        b.spec_occupied(m.0),
        b.spec_legal_moves(m.0).contains(m),
        b.spec_move_string_ok(m),
        ({
            let piece = b.spec_get(m.0)->Some_0.1;
            piece == Piece::King ==> is_king_step(m.0, m.1)
        }),
    ensures
        b.spec_parse_move(b.spec_get(m.0)->Some_0.0, b.spec_move_string(m)) == Some(m),
{
    let side = b.spec_get(m.0)->Some_0.0;
    let piece = b.spec_get(m.0)->Some_0.1;
    let s = b.spec_move_string(m);
    let d = pawn_dir(side);
    assert(b.wf_at(m.0));
    assert(b.wf_at(m.1));
    lemma_legal_move_members(b, m.0);
    assert(b.spec_pseudo_dests(side, piece, m.0).contains(m.1));
    crate::bitboard::lemma_square_ranges(m.0);
    crate::bitboard::lemma_square_ranges(m.1);
    lemma_file_char_round(m.0.0);
    lemma_file_char_round(m.1.0);
    lemma_rank_char_round(m.1.1);
    crate::squares::lemma_square_coords(m.0);
    crate::squares::lemma_square_coords(m.1);
    assert(m == Move(m.0, m.1));

    if piece == Piece::Pawn {
        let fwd = b.spec_forward_pawn_moves(side, m.0);
        let diag = b.spec_diagonal_pawn_takes(side, m.0);
        if m.0.0 == m.1.0 {
            // A quiet advance prints as its destination alone.
            assert(!diag.contains(m.1));
            assert(fwd.contains(m.1));
            assert(b.is_forward_pawn_move(side, m.0, m.1));
            assert(s == m.1.spec_chars());
            assert(s.len() == 2);
            assert(s != castle_queenside_str());
            assert(s != castle_kingside_str()) by {
                if s == castle_kingside_str() {
                    assert(s[0] == 'O');
                }
            }
            assert(crate::notation::is_forward_pawn_str(s));
            let dest = Square(File::spec_from_char(s[0]), Rank::spec_from_char(s[1]));
            assert(dest == m.1);
            assert(!b.spec_occupied(dest));
            lemma_pawn_source_found(b, side, m, dest);
        } else {
            // A capture prints its source file before the destination.
            assert(!fwd.contains(m.1));
            assert(diag.contains(m.1));
            assert(s == seq![m.0.0.spec_char()] + m.1.spec_chars());
            assert(s.len() == 3);
            assert(s != castle_queenside_str());
            assert(s != castle_kingside_str()) by {
                if s == castle_kingside_str() {
                    assert(s[0] == 'O');
                }
            }
            assert(s[0] == m.0.0.spec_char() && s[1] == m.1.0.spec_char() && s[2]
                == m.1.1.spec_char());
            assert(!crate::notation::is_forward_pawn_str(s));
            assert(crate::notation::is_dis_pawn_str(s));
            let dest = Square(File::spec_from_char(s[1]), Rank::spec_from_char(s[2]));
            assert(dest == m.1);
            let source_file = File::spec_from_char(s[0]);
            assert(source_file == m.0.0);
            assert(File::spec_distance(source_file, dest.0) == 1);
            let front = Square(source_file, dest.1);
            crate::bitboard::lemma_square_ranges(front);
            assert(front.r() == m.0.r() + d && front.f() == m.0.f());
            assert(b.spec_pawn_source_from_front(side, front) == Some(m.0)) by {
                crate::squares::lemma_spec_new_coords(front.f(), front.r() - d);
                assert(Square::spec_new(front.f(), front.r() - d) == m.0);
                assert(b.has_side_piece(side, Piece::Pawn, m.0));
            }
            assert(b.spec_parse_move(side, s) == Some(Move(m.0, dest)));
        }
    } else {
        // A piece move prints its letter, the mover's file or rank when
        // several candidates reach the destination, and the destination.
        let srcs = asc_squares(b.spec_potential_sources(side, piece, m.1));
        lemma_asc_squares_members(b.spec_potential_sources(side, piece, m.1));
        lemma_piece_char_round(piece);
        assert(b.has_side_piece(side, piece, m.0));
        match piece {
            Piece::Bishop => {
                lemma_diagonal_vision_symmetric(b, m.0, m.1);
            },
            Piece::Rook => {
                lemma_lateral_vision_symmetric(b, m.0, m.1);
            },
            Piece::Queen => {
                if b.spec_diagonal_vision(m.0).contains(m.1) {
                    lemma_diagonal_vision_symmetric(b, m.0, m.1);
                } else {
                    lemma_lateral_vision_symmetric(b, m.0, m.1);
                }
            },
            _ => {},
        }
        assert(b.spec_potential_sources(side, piece, m.1).contains(m.0));
        assert(srcs.contains(m.0));
        let i0 = choose|i0: int| 0 <= i0 < srcs.len() && #[trigger] srcs[i0] == m.0;
        if srcs.len() == 1 {
            assert(srcs[0] == m.0);
            assert(s == seq![piece.spec_char()] + m.1.spec_chars());
            assert(s.len() == 3);
            assert(s != castle_queenside_str());
            assert(s != castle_kingside_str()) by {
                if s == castle_kingside_str() {
                    assert(s[0] == 'O');
                }
            }
            assert(!crate::notation::is_forward_pawn_str(s));
            assert(!crate::notation::is_dis_pawn_str(s));
            assert(crate::notation::is_piece_str(s));
            let dest = Square(File::spec_from_char(s[1]), Rank::spec_from_char(s[2]));
            assert(dest == m.1);
            assert(!b.spec_side_bb(side).spec_contains(dest));
            assert(b.spec_unambiguous_piece_source(side, piece, dest) == Some(m.0));
            assert(b.spec_parse_move(side, s) == Some(Move(m.0, dest)));
        } else if srcs.filter(|x: Square| x.0 == m.0.0).len() == 1 {
            // The mover's file narrows the candidates to the mover alone.
            assert(s == seq![piece.spec_char(), m.0.0.spec_char()] + m.1.spec_chars());
            assert(s.len() == 4);
            assert(s != castle_queenside_str());
            assert(s != castle_kingside_str());
            assert(!crate::notation::is_forward_pawn_str(s));
            assert(!crate::notation::is_dis_pawn_str(s));
            assert(!crate::notation::is_piece_str(s));
            assert(crate::notation::is_dis_piece_str(s));
            let dest = Square(File::spec_from_char(s[2]), Rank::spec_from_char(s[3]));
            assert(dest == m.1);
            assert(!b.spec_side_bb(side).spec_contains(dest));
            assert(!Rank::spec_is_rank_char(s[1]));
            assert(File::spec_from_char(s[1]) == m.0.0);
            lemma_axis_resolves(b, side, piece, m.1, m.0, true);
            assert(b.spec_parse_move(side, s) == Some(Move(m.0, dest)));
        } else {
            // The mover's rank narrows the candidates to the mover alone.
            assert(srcs.filter(|x: Square| x.1 == m.0.1).len() == 1);
            lemma_rank_char_round(m.0.1);
            assert(s == seq![piece.spec_char(), m.0.1.spec_char()] + m.1.spec_chars());
            assert(s.len() == 4);
            assert(s != castle_queenside_str());
            assert(s != castle_kingside_str());
            assert(!crate::notation::is_forward_pawn_str(s));
            assert(!crate::notation::is_dis_pawn_str(s));
            assert(!crate::notation::is_piece_str(s));
            assert(crate::notation::is_dis_piece_str(s));
            let dest = Square(File::spec_from_char(s[2]), Rank::spec_from_char(s[3]));
            assert(dest == m.1);
            assert(!b.spec_side_bb(side).spec_contains(dest));
            assert(Rank::spec_is_rank_char(s[1]));
            assert(Rank::spec_from_char(s[1]) == m.0.1);
            lemma_axis_resolves(b, side, piece, m.1, m.0, false);
            assert(b.spec_parse_move(side, s) == Some(Move(m.0, dest)));
        }
    }
}

/// When the mover's own file (or rank) narrows the candidate sources to
/// the mover alone, the parser's disambiguated resolution returns the
/// mover.
proof fn lemma_axis_resolves(b: Board, side: Side, piece: Piece, dest: Square, m0: Square, by_file: bool)
    requires
        piece != Piece::Pawn,
        asc_squares(b.spec_potential_sources(side, piece, dest)).contains(m0),
        by_file ==> asc_squares(b.spec_potential_sources(side, piece, dest)).filter(
            |x: Square| x.0 == m0.0,
        ).len() == 1,
        !by_file ==> asc_squares(b.spec_potential_sources(side, piece, dest)).filter(
            |x: Square| x.1 == m0.1,
        ).len() == 1,
    ensures
        by_file ==> b.spec_piece_source_on_file(side, piece, dest, m0.0) == Some(m0),
        !by_file ==> b.spec_piece_source_on_rank(side, piece, dest, m0.1) == Some(m0),
{
    let pot = b.spec_potential_sources(side, piece, dest);
    let srcs = asc_squares(pot);
    lemma_asc_squares_members(pot);
    let i0 = choose|i0: int| 0 <= i0 < srcs.len() && #[trigger] srcs[i0] == m0;
    let narrowed = if by_file {
        pot.intersect(Set::new(|t: Square| t.0 == m0.0))
    } else {
        pot.intersect(Set::new(|t: Square| t.1 == m0.1))
    };
    let nsrcs = asc_squares(narrowed);
    lemma_asc_squares_members(narrowed);
    assert(narrowed.contains(m0));
    assert(nsrcs.contains(m0));
    assert forall|y: Square| narrowed.contains(y) implies y == m0 by {
        if y != m0 {
            assert(pot.contains(y));
            assert(srcs.contains(y));
            let iy = choose|iy: int| 0 <= iy < srcs.len() && #[trigger] srcs[iy] == y;
            assert(i0 != iy);
            if by_file {
                if i0 < iy {
                    lemma_filter_two(srcs, |x: Square| x.0 == m0.0, i0, iy);
                } else {
                    lemma_filter_two(srcs, |x: Square| x.0 == m0.0, iy, i0);
                }
            } else {
                if i0 < iy {
                    lemma_filter_two(srcs, |x: Square| x.1 == m0.1, i0, iy);
                } else {
                    lemma_filter_two(srcs, |x: Square| x.1 == m0.1, iy, i0);
                }
            }
            assert(false);
        }
    }
    assert(nsrcs.len() >= 1) by {
        let k = choose|k: int| 0 <= k < nsrcs.len() && #[trigger] nsrcs[k] == m0;
    }
    assert(nsrcs.len() <= 1) by {
        if nsrcs.len() >= 2 {
            assert(nsrcs.contains(nsrcs[0])) by {
                assert(nsrcs[0] == nsrcs[0]);
            }
            assert(nsrcs.contains(nsrcs[1])) by {
                assert(nsrcs[1] == nsrcs[1]);
            }
            assert(narrowed.contains(nsrcs[0]) && narrowed.contains(nsrcs[1]));
            assert(nsrcs[0] == m0 && nsrcs[1] == m0);
            assert(nsrcs[0].key() < nsrcs[1].key());
            assert(false);
        }
    }
    assert(nsrcs[0] == m0) by {
        let k = choose|k: int| 0 <= k < nsrcs.len() && #[trigger] nsrcs[k] == m0;
    }
}

/// Walking back from a legal quiet advance's destination finds exactly
/// the pawn that made it.
proof fn lemma_pawn_source_found(b: Board, side: Side, m: Move, dest: Square)
    requires
        b.wf(),
        dest == m.1,
        b.spec_get(m.0) == Some((side, Piece::Pawn)),
        b.is_forward_pawn_move(side, m.0, m.1),
        m.0.0 == m.1.0,
    ensures
        b.spec_pawn_source_from_front(side, dest) == Some(m.0),
{
    let d = pawn_dir(side);
    assert(b.wf_at(m.0));
    crate::bitboard::lemma_square_ranges(m.0);
    crate::bitboard::lemma_square_ranges(m.1);
    crate::squares::lemma_square_coords(m.0);
    assert(b.has_side_piece(side, Piece::Pawn, m.0));
    if m.1.r() == m.0.r() + d {
        crate::squares::lemma_spec_new_coords(dest.f(), dest.r() - d);
        assert(Square::spec_new(dest.f(), dest.r() - d) == m.0);
    } else {
        assert(m.1.r() == m.0.r() + 2 * d);
        let mid = Square::spec_new(m.0.f(), m.0.r() + d);
        crate::squares::lemma_spec_new_coords(m.0.f(), m.0.r() + d);
        assert(!b.spec_occupied(mid));
        crate::squares::lemma_spec_new_coords(dest.f(), dest.r() - d);
        assert(Square::spec_new(dest.f(), dest.r() - d) == mid);
        assert(!b.has_side_piece(side, Piece::Pawn, mid)) by {
            assert(b.wf_at(mid));
        }
        crate::squares::lemma_spec_new_coords(dest.f(), dest.r() - 2 * d);
        assert(Square::spec_new(dest.f(), dest.r() - 2 * d) == m.0);
    }
}

} // verus!
