use vstd::prelude::*;

use crate::bitboard::Bitboard;
use crate::board::Board;
use crate::coords::Direction;
use crate::coords::File;
use crate::coords::Piece;
use crate::coords::Rank;
use crate::coords::Side;
use crate::squares::Square;
use crate::squares::lemma_spec_new_coords;
use crate::squares::lemma_square_coords;

verus! {

/// How many steps fit between (f, r) and the board edge along (df, dr).
pub open spec fn ray_fuel(f: int, r: int, df: int, dr: int) -> int {
    if df > 0 {
        7 - f
    } else if df < 0 {
        f
    } else if dr > 0 {
        7 - r
    } else {
        r
    }
}

/// One king step apart: at most one file and one rank away, not the same square.
pub open spec fn is_king_step(s: Square, t: Square) -> bool {
    let df = t.f() - s.f();
    let dr = t.r() - s.r();
    -1 <= df <= 1 && -1 <= dr <= 1 && !(df == 0 && dr == 0)
}

/// One diagonal step apart.
pub open spec fn is_diag_step(s: Square, t: Square) -> bool {
    let df = t.f() - s.f();
    let dr = t.r() - s.r();
    (df == 1 || df == -1) && (dr == 1 || dr == -1)
}

/// A knight's jump apart.
pub open spec fn is_knight_jump(s: Square, t: Square) -> bool {
    let df = t.f() - s.f();
    let dr = t.r() - s.r();
    ((df == 1 || df == -1) && (dr == 2 || dr == -2)) || ((df == 2 || df == -2) && (dr == 1 || dr
        == -1))
}

/// The rank direction a pawn of this side advances in: up for White.
pub open spec fn pawn_dir(side: Side) -> int {
    match side {
        Side::White => 1,
        Side::Black => -1,
    }
}

/// One step diagonally forward of `s`, from `side`'s perspective.
pub open spec fn is_forward_diag(side: Side, s: Square, t: Square) -> bool {
    t.r() == s.r() + pawn_dir(side) && (t.f() == s.f() - 1 || t.f() == s.f() + 1)
}

/// One step diagonally backward of `s`, from `side`'s perspective.
pub open spec fn is_backward_diag(side: Side, s: Square, t: Square) -> bool {
    t.r() == s.r() - pawn_dir(side) && (t.f() == s.f() - 1 || t.f() == s.f() + 1)
}

impl Board {
    /// The squares a slider standing at (f, r) sees stepping by (df, dr):
    /// each square until the board edge, including the first occupied one
    /// and nothing beyond it.
    pub open spec fn spec_ray(self, f: int, r: int, df: int, dr: int) -> Set<Square>
        decreases ray_fuel(f, r, df, dr),
    {
        if df == 0 && dr == 0 {
            Set::empty()
        } else {
            let f2 = f + df;
            let r2 = r + dr;
            if !(0 <= f2 < 8 && 0 <= r2 < 8) {
                Set::empty()
            } else {
                let s = Square::spec_new(f2, r2);
                if self.spec_occupied(s) {
                    set![s]
                } else {
                    set![s].union(self.spec_ray(f2, r2, df, dr))
                }
            }
        }
    }

    /// The ray seen from a square along a direction.
    pub open spec fn dir_ray(self, s: Square, d: Direction) -> Set<Square> {
        self.spec_ray(s.f(), s.r(), d.df(), d.dr())
    }

    pub open spec fn spec_diagonal_vision(self, s: Square) -> Set<Square> {
        self.dir_ray(s, Direction::UpLeft).union(self.dir_ray(s, Direction::UpRight)).union(
            self.dir_ray(s, Direction::DownLeft),
        ).union(self.dir_ray(s, Direction::DownRight))
    }

    pub open spec fn spec_file_vision(self, s: Square) -> Set<Square> {
        self.dir_ray(s, Direction::Right).union(self.dir_ray(s, Direction::Left))
    }

    pub open spec fn spec_rank_vision(self, s: Square) -> Set<Square> {
        self.dir_ray(s, Direction::Up).union(self.dir_ray(s, Direction::Down))
    }

    pub open spec fn spec_lateral_vision(self, s: Square) -> Set<Square> {
        self.spec_file_vision(s).union(self.spec_rank_vision(s))
    }

    pub open spec fn spec_queen_vision(self, s: Square) -> Set<Square> {
        self.spec_diagonal_vision(s).union(self.spec_lateral_vision(s))
    }

    pub fn get_vision_directional(&self, square: Square, direction: Direction) -> (v: Bitboard)
        ensures
            forall|t: Square|
                v.spec_contains(t) == self.dir_ray(square, direction).contains(t),
    {
        let mut cur = square;
        let mut acc = Bitboard::empty();
        loop
            invariant_except_break
                forall|t: Square|
                    #![all_triggers]
                    self.dir_ray(square, direction).contains(t) == (acc.spec_contains(t)
                        || self.dir_ray(cur, direction).contains(t)),
                forall|t: Square|
                    #![all_triggers]
                    acc.spec_contains(t) ==> self.dir_ray(square, direction).contains(t),
            ensures
                forall|t: Square|
                    acc.spec_contains(t) == self.dir_ray(square, direction).contains(t),
            decreases ray_fuel(cur.f(), cur.r(), direction.df(), direction.dr()),
        {
            proof {
                lemma_direction_offsets(direction);
            }
            match cur.get_adjacent(direction) {
                None => {
                    proof {
                        assert(self.dir_ray(cur, direction) =~= Set::<Square>::empty());
                    }
                    break ;
                },
                Some(next) => {
                    proof {
                        lemma_spec_new_coords(
                            cur.f() + direction.df(),
                            cur.r() + direction.dr(),
                        );
                        assert(next == Square::spec_new(
                            cur.f() + direction.df(),
                            cur.r() + direction.dr(),
                        ));
                    }
                    let ghost acc_old = acc;
                    let ghost full = self.dir_ray(square, direction);
                    acc = acc.bit_or(Bitboard::square(next));
                    if self.is_occupied(next) {
                        proof {
                            assert(self.dir_ray(cur, direction) =~= set![next]);
                            assert forall|t: Square|
                                acc.spec_contains(t) == full.contains(t) by {
                                assert(full.contains(t) == (acc_old.spec_contains(t)
                                    || self.dir_ray(cur, direction).contains(t)));
                                assert(acc.spec_contains(t) == (acc_old.spec_contains(t) || t
                                    == next));
                            }
                        }
                        break ;
                    }
                    proof {
                        assert(self.dir_ray(cur, direction) =~= set![next].union(
                            self.dir_ray(next, direction),
                        ));
                        assert forall|t: Square|
                            full.contains(t) == (acc.spec_contains(t) || self.dir_ray(
                                next,
                                direction,
                            ).contains(t)) by {
                            assert(full.contains(t) == (acc_old.spec_contains(t) || self.dir_ray(
                                cur,
                                direction,
                            ).contains(t)));
                            assert(acc.spec_contains(t) == (acc_old.spec_contains(t) || t
                                == next));
                        }
                        assert forall|t: Square| acc.spec_contains(t) implies full.contains(
                            t,
                        ) by {
                            assert(acc.spec_contains(t) == (acc_old.spec_contains(t) || t
                                == next));
                            assert(full.contains(t) == (acc_old.spec_contains(t) || self.dir_ray(
                                cur,
                                direction,
                            ).contains(t)));
                            if t == next {
                                assert(self.dir_ray(cur, direction).contains(t));
                            }
                        }
                    }
                    cur = next;
                },
            }
        }
        acc
    }

    pub fn get_diagonal_vision(&self, square: Square) -> (v: Bitboard)
        ensures
            forall|t: Square| v.spec_contains(t) == self.spec_diagonal_vision(square).contains(t),
    {
        let up_left = self.get_vision_directional(square, Direction::UpLeft);
        let up_right = self.get_vision_directional(square, Direction::UpRight);
        let down_left = self.get_vision_directional(square, Direction::DownLeft);
        let down_right = self.get_vision_directional(square, Direction::DownRight);
        up_left.bit_or(up_right).bit_or(down_left).bit_or(down_right)
    }

    pub fn get_file_vision(&self, square: Square) -> (v: Bitboard)
        ensures
            forall|t: Square| v.spec_contains(t) == self.spec_file_vision(square).contains(t),
    {
        let right = self.get_vision_directional(square, Direction::Right);
        let left = self.get_vision_directional(square, Direction::Left);
        right.bit_or(left)
    }

    pub fn get_rank_vision(&self, square: Square) -> (v: Bitboard)
        ensures
            forall|t: Square| v.spec_contains(t) == self.spec_rank_vision(square).contains(t),
    {
        let up = self.get_vision_directional(square, Direction::Up);
        let down = self.get_vision_directional(square, Direction::Down);
        up.bit_or(down)
    }

    pub fn get_lateral_vision(&self, square: Square) -> (v: Bitboard)
        ensures
            forall|t: Square| v.spec_contains(t) == self.spec_lateral_vision(square).contains(t),
    {
        self.get_file_vision(square).bit_or(self.get_rank_vision(square))
    }

    pub fn get_queen_vision(&self, square: Square) -> (v: Bitboard)
        ensures
            forall|t: Square| v.spec_contains(t) == self.spec_queen_vision(square).contains(t),
    {
        self.get_diagonal_vision(square).bit_or(self.get_lateral_vision(square))
    }

    /// The existing neighbours of `square` one step along each given direction.
    pub fn get_adjacents_from_directions(&self, square: Square, directions: Vec<Direction>) -> (v:
        Vec<Square>)
        ensures
            forall|t: Square|
                v@.contains(t) == (exists|d: Direction|
                    #[trigger] directions@.contains(d) && square.spec_adjacent(d) == Some(t)),
    {
        let mut v: Vec<Square> = Vec::new();
        let mut i: usize = 0;
        while i < directions.len()
            invariant
                i <= directions@.len(),
                forall|t: Square|
                    v@.contains(t) == (exists|d: Direction|
                        #[trigger] directions@.take(i as int).contains(d) && square.spec_adjacent(
                            d,
                        ) == Some(t)),
            decreases directions@.len() - i,
        {
            let d = directions[i];
            let ghost pre = v@;
            match square.get_adjacent(d) {
                Some(t0) => {
                    v.push(t0);
                },
                None => {},
            }
            proof {
                let pfx = directions@.take(i as int);
                let pfx2 = directions@.take(i + 1);
                assert(pfx2 =~= pfx.push(d));
                assert(pfx2.contains(d)) by {
                    assert(pfx2[i as int] == d);
                }
                assert forall|t: Square|
                    v@.contains(t) == (exists|e: Direction|
                        #[trigger] pfx2.contains(e) && square.spec_adjacent(e) == Some(t)) by {
                    if v@.contains(t) {
                        let j = choose|j: int| 0 <= j < v@.len() && v@[j] == t;
                        if j < pre.len() {
                            assert(pre.contains(t)) by {
                                assert(pre[j] == t);
                            }
                            let e = choose|e: Direction|
                                #[trigger] pfx.contains(e) && square.spec_adjacent(e) == Some(t);
                            assert(pfx2.contains(e)) by {
                                let k = choose|k: int| 0 <= k < pfx.len() && pfx[k] == e;
                                assert(pfx2[k] == e);
                            }
                        } else {
                            assert(square.spec_adjacent(d) == Some(t));
                        }
                    } else {
                        if exists|e: Direction|
                            #[trigger] pfx2.contains(e) && square.spec_adjacent(e) == Some(t) {
                            let e = choose|e: Direction|
                                #[trigger] pfx2.contains(e) && square.spec_adjacent(e) == Some(t);
                            let k = choose|k: int| 0 <= k < pfx2.len() && pfx2[k] == e;
                            if k < i {
                                assert(pfx.contains(e)) by {
                                    assert(pfx[k] == e);
                                }
                                assert(pre.contains(t));
                                let j = choose|j: int| 0 <= j < pre.len() && pre[j] == t;
                                assert(v@[j] == t);
                                assert(false);
                            } else {
                                assert(e == d);
                                assert(v@.last() == t);
                                assert(false);
                            }
                        }
                    }
                }
            }
            i = i + 1;
        }
        proof {
            assert(directions@.take(directions@.len() as int) =~= directions@);
        }
        v
    }

    /// The squares a king standing on `square` would see.
    pub fn get_adjacent_vision(&self, square: Square) -> (v: Bitboard)
        ensures
            forall|t: Square| v.spec_contains(t) == is_king_step(square, t),
    {
        let dirs_vec = Direction::all();
        let ghost dirs = dirs_vec@;
        let squares = self.get_adjacents_from_directions(square, dirs_vec);
        let ghost gs = squares@;
        let b = Bitboard::from_squares(squares);
        proof {
            lemma_all_directions();
            assert forall|t: Square| b.spec_contains(t) == is_king_step(square, t) by {
                assert(b.spec_contains(t) == gs.contains(t));
                if b.spec_contains(t) {
                    let d = choose|d: Direction|
                        #[trigger] dirs.contains(d) && square.spec_adjacent(d) == Some(t);
                    lemma_direction_offsets(d);
                    lemma_spec_new_coords(square.f() + d.df(), square.r() + d.dr());
                    assert(is_king_step(square, t));
                } else {
                    if is_king_step(square, t) {
                        let d = direction_for(t.f() - square.f(), t.r() - square.r());
                        lemma_square_coords(t);
                        assert(square.spec_adjacent(d) == Some(t));
                        assert(dirs.contains(d));
                        assert(gs.contains(t));
                        assert(false);
                    }
                }
            }
        }
        b
    }

    /// The squares a knight standing on `square` would see.
    pub fn get_knight_vision(&self, square: Square) -> (v: Bitboard)
        ensures
            forall|t: Square| v.spec_contains(t) == is_knight_jump(square, t),
    {
        let mut squares: Vec<Square> = Vec::new();
        let moves = Direction::knight_moves();
        let mut i: usize = 0;
        while i < moves.len()
            invariant
                moves@.len() == 8,
                forall|j: int| 0 <= j < 8 ==> (#[trigger] moves@[j])@ == Direction::knight_moves_spec()[j],
                i <= 8,
                forall|t: Square|
                    squares@.contains(t) == (exists|j: int|
                        0 <= j < i && square.spec_relative(
                            #[trigger] Direction::knight_moves_spec()[j],
                        ) == Some(t)),
            decreases 8 - i,
        {
            let mut list: Vec<Direction> = Vec::new();
            let first = moves[i][0];
            let second = moves[i][1];
            list.push(first);
            list.push(second);
            proof {
                assert(list@ =~= Direction::knight_moves_spec()[i as int]);
            }
            let ghost pre = squares@;
            match square.get_relative(list) {
                Some(t0) => {
                    squares.push(t0);
                },
                None => {},
            }
            proof {
                assert forall|t: Square|
                    squares@.contains(t) == (exists|j: int|
                        0 <= j < i + 1 && square.spec_relative(
                            #[trigger] Direction::knight_moves_spec()[j],
                        ) == Some(t)) by {
                    if squares@.contains(t) {
                        let j = choose|j: int| 0 <= j < squares@.len() && squares@[j] == t;
                        if j < pre.len() {
                            assert(pre.contains(t)) by {
                                assert(pre[j] == t);
                            }
                        } else {
                            assert(square.spec_relative(
                                Direction::knight_moves_spec()[i as int],
                            ) == Some(t));
                        }
                    } else {
                        if exists|j: int|
                            0 <= j < i + 1 && square.spec_relative(
                                #[trigger] Direction::knight_moves_spec()[j],
                            ) == Some(t) {
                            let j = choose|j: int|
                                0 <= j < i + 1 && square.spec_relative(
                                    #[trigger] Direction::knight_moves_spec()[j],
                                ) == Some(t);
                            if j < i {
                                assert(pre.contains(t));
                                let jj = choose|jj: int| 0 <= jj < pre.len() && pre[jj] == t;
                                assert(squares@[jj] == t);
                            } else {
                                assert(squares@.last() == t);
                            }
                            assert(false);
                        }
                    }
                }
            }
            i = i + 1;
        }
        let b = Bitboard::from_squares(squares);
        proof {
            assert forall|t: Square| b.spec_contains(t) == is_knight_jump(square, t) by {
                lemma_knight_jumps(square, t);
            }
        }
        b
    }

    /// The four diagonal neighbours of `square` that exist.
    pub fn get_immediately_diagonal_vision(&self, square: Square) -> (v: Bitboard)
        ensures
            forall|t: Square| v.spec_contains(t) == is_diag_step(square, t),
    {
        let squares = self.get_adjacents_from_directions(square, Direction::diagonals());
        let b = Bitboard::from_squares(squares);
        proof {
            lemma_diagonal_directions();
            assert forall|t: Square| b.spec_contains(t) == is_diag_step(square, t) by {
                if b.spec_contains(t) {
                    let d = choose|d: Direction|
                        #[trigger] Direction::diagonals_spec().contains(d) && square.spec_adjacent(
                            d,
                        ) == Some(t);
                    lemma_spec_new_coords(square.f() + d.df(), square.r() + d.dr());
                } else {
                    if is_diag_step(square, t) {
                        let d = direction_for(t.f() - square.f(), t.r() - square.r());
                        lemma_square_coords(t);
                        assert(square.spec_adjacent(d) == Some(t));
                        assert(Direction::diagonals_spec().contains(d)) by {
                            lemma_diagonal_directions();
                        }
                    }
                }
            }
        }
        b
    }

    /// The squares a pawn of `side` standing on `square` could capture on.
    pub fn get_immediately_diagonal_and_forward_vision(&self, side: Side, square: Square) -> (v:
        Bitboard)
        ensures
            forall|t: Square| v.spec_contains(t) == is_forward_diag(side, square, t),
    {
        let forward_diagonals = Direction::get_forward_diagonals(side);
        let mut vectorized_directions: Vec<Direction> = Vec::new();
        vectorized_directions.push(forward_diagonals.0);
        vectorized_directions.push(forward_diagonals.1);
        let ghost dirs = vectorized_directions@;
        let squares = self.get_adjacents_from_directions(square, vectorized_directions);
        let b = Bitboard::from_squares(squares);
        proof {
            assert(dirs[0] == Direction::spec_forward_diagonals(side).0);
            assert(dirs[1] == Direction::spec_forward_diagonals(side).1);
            assert forall|t: Square| b.spec_contains(t) == is_forward_diag(side, square, t) by {
                if b.spec_contains(t) {
                    let d = choose|d: Direction|
                        #[trigger] dirs.contains(d) && square.spec_adjacent(d) == Some(t);
                    let k = choose|k: int| 0 <= k < dirs.len() && dirs[k] == d;
                    lemma_spec_new_coords(square.f() + d.df(), square.r() + d.dr());
                } else {
                    if is_forward_diag(side, square, t) {
                        let d = direction_for(t.f() - square.f(), t.r() - square.r());
                        lemma_square_coords(t);
                        assert(square.spec_adjacent(d) == Some(t));
                        assert(dirs.contains(d)) by {
                            if t.f() == square.f() - 1 {
                                assert(dirs[0] == d);
                            } else {
                                assert(dirs[1] == d);
                            }
                        }
                    }
                }
            }
        }
        b
    }

    /// The squares an opposing pawn could capture `square` from.
    pub fn get_immediately_diagonal_and_backward_vision(&self, side: Side, square: Square) -> (v:
        Bitboard)
        ensures
            forall|t: Square| v.spec_contains(t) == is_backward_diag(side, square, t),
    {
        let backward_diagonals = Direction::get_forward_diagonals(Side::get_opponent(side));
        let mut vectorized_directions: Vec<Direction> = Vec::new();
        vectorized_directions.push(backward_diagonals.0);
        vectorized_directions.push(backward_diagonals.1);
        let ghost dirs = vectorized_directions@;
        let squares = self.get_adjacents_from_directions(square, vectorized_directions);
        let b = Bitboard::from_squares(squares);
        proof {
            assert forall|t: Square| b.spec_contains(t) == is_backward_diag(side, square, t) by {
                if b.spec_contains(t) {
                    let d = choose|d: Direction|
                        #[trigger] dirs.contains(d) && square.spec_adjacent(d) == Some(t);
                    let k = choose|k: int| 0 <= k < dirs.len() && dirs[k] == d;
                    lemma_spec_new_coords(square.f() + d.df(), square.r() + d.dr());
                } else {
                    if is_backward_diag(side, square, t) {
                        let d = direction_for(t.f() - square.f(), t.r() - square.r());
                        lemma_square_coords(t);
                        assert(square.spec_adjacent(d) == Some(t));
                        assert(dirs.contains(d)) by {
                            if t.f() == square.f() - 1 {
                                assert(dirs[0] == d);
                            } else {
                                assert(dirs[1] == d);
                            }
                        }
                    }
                }
            }
        }
        b
    }

    /// A piece of `side` and kind `piece` stands on `t`.
    pub open spec fn has_side_piece(self, side: Side, piece: Piece, t: Square) -> bool {
        self.spec_side_bb(side).spec_contains(t) && self.spec_piece_bb(piece).spec_contains(t)
    }

    /// Some piece of `attacker` sees `square`: a pawn a capture away, a
    /// king or knight a step away, or a slider along an unblocked ray.
    pub open spec fn spec_is_attacking(self, attacker: Side, square: Square) -> bool {
        ||| exists|t: Square|
            is_backward_diag(attacker, square, t) && #[trigger] self.has_side_piece(
                attacker,
                Piece::Pawn,
                t,
            )
        ||| exists|t: Square|
            is_king_step(square, t) && #[trigger] self.has_side_piece(attacker, Piece::King, t)
        ||| exists|t: Square|
            is_knight_jump(square, t) && #[trigger] self.has_side_piece(
                attacker,
                Piece::Knight,
                t,
            )
        ||| exists|t: Square|
            #[trigger] self.spec_diagonal_vision(square).contains(t) && (self.has_side_piece(
                attacker,
                Piece::Bishop,
                t,
            ) || self.has_side_piece(attacker, Piece::Queen, t))
        ||| exists|t: Square|
            #[trigger] self.spec_lateral_vision(square).contains(t) && (self.has_side_piece(
                attacker,
                Piece::Rook,
                t,
            ) || self.has_side_piece(attacker, Piece::Queen, t))
    }

    pub fn is_attacking(&self, attacker: Side, square: Square) -> (r: bool)
        ensures
            r == self.spec_is_attacking(attacker, square),
    {
        let immediate_diagonals = self.get_immediately_diagonal_and_backward_vision(
            attacker,
            square,
        );
        let pawn_hits = immediate_diagonals.bit_and(
            self.get_side_pieces_bitboard(attacker, Piece::Pawn),
        );
        if pawn_hits.has_pieces() {
            proof {
                let w = choose|s: Square| pawn_hits.spec_contains(s);
                assert(self.has_side_piece(attacker, Piece::Pawn, w));
            }
            return true;
        }

        let adjacent = self.get_adjacent_vision(square);
        let king_hits = adjacent.bit_and(self.get_side_pieces_bitboard(attacker, Piece::King));
        if king_hits.has_pieces() {
            proof {
                let w = choose|s: Square| king_hits.spec_contains(s);
                assert(self.has_side_piece(attacker, Piece::King, w));
            }
            return true;
        }

        let knight_moves = self.get_knight_vision(square);
        let knight_hits = knight_moves.bit_and(
            self.get_side_pieces_bitboard(attacker, Piece::Knight),
        );
        if knight_hits.has_pieces() {
            proof {
                let w = choose|s: Square| knight_hits.spec_contains(s);
                assert(self.has_side_piece(attacker, Piece::Knight, w));
            }
            return true;
        }

        let diagonals = self.get_diagonal_vision(square);
        let bishop_hits = diagonals.bit_and(
            self.get_side_pieces_bitboard(attacker, Piece::Bishop),
        );
        let diag_queen_hits = diagonals.bit_and(
            self.get_side_pieces_bitboard(attacker, Piece::Queen),
        );
        if bishop_hits.has_pieces() || diag_queen_hits.has_pieces() {
            proof {
                if exists|s: Square| bishop_hits.spec_contains(s) {
                    let w = choose|s: Square| bishop_hits.spec_contains(s);
                    assert(self.spec_diagonal_vision(square).contains(w));
                    assert(self.has_side_piece(attacker, Piece::Bishop, w));
                } else {
                    let w = choose|s: Square| diag_queen_hits.spec_contains(s);
                    assert(self.spec_diagonal_vision(square).contains(w));
                    assert(self.has_side_piece(attacker, Piece::Queen, w));
                }
            }
            return true;
        }

        let laterals = self.get_lateral_vision(square);
        let rook_hits = laterals.bit_and(self.get_side_pieces_bitboard(attacker, Piece::Rook));
        let lat_queen_hits = laterals.bit_and(
            self.get_side_pieces_bitboard(attacker, Piece::Queen),
        );
        if rook_hits.has_pieces() || lat_queen_hits.has_pieces() {
            proof {
                if exists|s: Square| rook_hits.spec_contains(s) {
                    let w = choose|s: Square| rook_hits.spec_contains(s);
                    assert(self.spec_lateral_vision(square).contains(w));
                    assert(self.has_side_piece(attacker, Piece::Rook, w));
                } else {
                    let w = choose|s: Square| lat_queen_hits.spec_contains(s);
                    assert(self.spec_lateral_vision(square).contains(w));
                    assert(self.has_side_piece(attacker, Piece::Queen, w));
                }
            }
            return true;
        }

        proof {
            if self.spec_is_attacking(attacker, square) {
                if exists|t: Square|
                    is_backward_diag(attacker, square, t) && #[trigger] self.has_side_piece(
                        attacker,
                        Piece::Pawn,
                        t,
                    ) {
                    let w = choose|t: Square|
                        is_backward_diag(attacker, square, t) && #[trigger] self.has_side_piece(
                            attacker,
                            Piece::Pawn,
                            t,
                        );
                    assert(pawn_hits.spec_contains(w));
                } else if exists|t: Square|
                    is_king_step(square, t) && #[trigger] self.has_side_piece(
                        attacker,
                        Piece::King,
                        t,
                    ) {
                    let w = choose|t: Square|
                        is_king_step(square, t) && #[trigger] self.has_side_piece(
                            attacker,
                            Piece::King,
                            t,
                        );
                    assert(king_hits.spec_contains(w));
                } else if exists|t: Square|
                    is_knight_jump(square, t) && #[trigger] self.has_side_piece(
                        attacker,
                        Piece::Knight,
                        t,
                    ) {
                    let w = choose|t: Square|
                        is_knight_jump(square, t) && #[trigger] self.has_side_piece(
                            attacker,
                            Piece::Knight,
                            t,
                        );
                    assert(knight_hits.spec_contains(w));
                } else if exists|t: Square|
                    #[trigger] self.spec_diagonal_vision(square).contains(t) && (
                    self.has_side_piece(attacker, Piece::Bishop, t) || self.has_side_piece(
                        attacker,
                        Piece::Queen,
                        t,
                    )) {
                    let w = choose|t: Square|
                        #[trigger] self.spec_diagonal_vision(square).contains(t) && (
                        self.has_side_piece(attacker, Piece::Bishop, t) || self.has_side_piece(
                            attacker,
                            Piece::Queen,
                            t,
                        ));
                    assert(bishop_hits.spec_contains(w) || diag_queen_hits.spec_contains(w));
                } else {
                    let w = choose|t: Square|
                        #[trigger] self.spec_lateral_vision(square).contains(t) && (
                        self.has_side_piece(attacker, Piece::Rook, t) || self.has_side_piece(
                            attacker,
                            Piece::Queen,
                            t,
                        ));
                    assert(rook_hits.spec_contains(w) || lat_queen_hits.spec_contains(w));
                }
                assert(false);
            }
        }
        false
    }

    /// The opponent attacks one of the side's king squares.
    pub open spec fn spec_in_check(self, side: Side) -> bool {
        exists|k: Square|
            #[trigger] self.has_side_piece(side, Piece::King, k) && self.spec_is_attacking(
                side.spec_opponent(),
                k,
            )
    }

    pub fn is_in_check(&self, side: Side) -> (r: bool)
        ensures
            r == self.spec_in_check(side),
    {
        let king_bb = self.get_side_pieces_bitboard(side, Piece::King);
        let kings = king_bb.to_squares();
        let opponent = Side::get_opponent(side);
        proof {
            crate::bitboard::lemma_to_squares_props(king_bb);
        }
        let mut i: usize = 0;
        while i < kings.len()
            invariant
                opponent == side.spec_opponent(),
                kings@ == king_bb.spec_to_squares(),
                forall|t: Square|
                    #![all_triggers]
                    king_bb.spec_contains(t) == self.has_side_piece(side, Piece::King, t),
                forall|t: Square|
                    #![all_triggers]
                    kings@.contains(t) == king_bb.spec_contains(t),
                i <= kings@.len(),
                forall|j: int|
                    0 <= j < i ==> !self.spec_is_attacking(
                        side.spec_opponent(),
                        #[trigger] kings@[j],
                    ),
            decreases kings@.len() - i,
        {
            let k = kings[i];
            if self.is_attacking(opponent, k) {
                proof {
                    assert(kings@.contains(k)) by {
                        assert(kings@[i as int] == k);
                    }
                    assert(self.has_side_piece(side, Piece::King, k));
                    assert(self.spec_is_attacking(side.spec_opponent(), k));
                    assert(self.spec_in_check(side));
                }
                return true;
            }
            proof {
                assert(!self.spec_is_attacking(side.spec_opponent(), kings@[i as int]));
            }
            i = i + 1;
        }
        proof {
            if self.spec_in_check(side) {
                let w = choose|k: Square|
                    #[trigger] self.has_side_piece(side, Piece::King, k) && self.spec_is_attacking(
                        side.spec_opponent(),
                        k,
                    );
                assert(kings@.contains(w));
                let j = choose|j: int| 0 <= j < kings@.len() && kings@[j] == w;
                assert(false);
            }
        }
        false
    }

    /// The characteristic vision of the piece standing on `from`, tested
    /// for membership of `to`; false if `from` is empty.
    pub open spec fn spec_has_vision(self, from: Square, to: Square) -> bool {
        match self.spec_get(from) {
            None => false,
            Some((side, piece)) => match piece {
                Piece::King => is_king_step(from, to),
                Piece::Queen => self.spec_queen_vision(from).contains(to),
                Piece::Rook => self.spec_lateral_vision(from).contains(to),
                Piece::Bishop => self.spec_diagonal_vision(from).contains(to),
                Piece::Knight => is_knight_jump(from, to),
                Piece::Pawn => is_forward_diag(side, from, to),
            },
        }
    }

    pub fn has_vision(&self, from: Square, to: Square) -> (r: bool)
        requires
            self.wf(),
        ensures
            r == self.spec_has_vision(from, to),
    {
        match self.get(from) {
            None => false,
            Some((side, piece)) => {
                match piece {
                    Piece::King => self.get_adjacent_vision(from).contains(to),
                    Piece::Queen => self.get_queen_vision(from).contains(to),
                    Piece::Rook => self.get_lateral_vision(from).contains(to),
                    Piece::Bishop => self.get_diagonal_vision(from).contains(to),
                    Piece::Knight => self.get_knight_vision(from).contains(to),
                    Piece::Pawn => self.get_immediately_diagonal_and_forward_vision(
                        side,
                        from,
                    ).contains(to),
                }
            },
        }
    }

    /// How many of `side`'s own pieces have vision on `square`.
    pub fn get_n_defenders(&self, side: Side, square: Square) -> (n: usize)
        requires
            self.wf(),
        ensures
            n == self.spec_side_bb(side).spec_to_squares().filter(
                |t: Square| self.spec_has_vision(t, square),
            ).len(),
    {
        let v = self.get_side_squares(side);
        self.count_vision(v, square)
    }

    /// How many of the opposing side's pieces have vision on `square`.
    pub fn get_n_attackers(&self, side: Side, square: Square) -> (n: usize)
        requires
            self.wf(),
        ensures
            n == self.spec_side_bb(side.spec_opponent()).spec_to_squares().filter(
                |t: Square| self.spec_has_vision(t, square),
            ).len(),
    {
        let v = self.get_side_squares(Side::get_opponent(side));
        self.count_vision(v, square)
    }

    fn count_vision(&self, v: Vec<Square>, square: Square) -> (n: usize)
        requires
            self.wf(),
        ensures
            n == v@.filter(|t: Square| self.spec_has_vision(t, square)).len(),
    {
        let mut n: usize = 0;
        let mut i: usize = 0;
        while i < v.len()
            invariant
                self.wf(),
                i <= v@.len(),
                n <= i,
                n == v@.take(i as int).filter(|t: Square| self.spec_has_vision(t, square)).len(),
            decreases v@.len() - i,
        {
            let ghost pfx = v@.take(i as int);
            let ghost pfx2 = v@.take(i + 1);
            proof {
                assert(pfx2.drop_last() =~= pfx);
                assert(pfx2.last() == v@[i as int]);
                reveal_with_fuel(Seq::filter, 2);
                pfx.lemma_filter_len(|t: Square| self.spec_has_vision(t, square));
            }
            if self.has_vision(v[i], square) {
                n = n + 1;
            }
            i = i + 1;
        }
        proof {
            assert(v@.take(v@.len() as int) =~= v@);
        }
        n
    }

    /// The occupied squares of one file.
    pub fn get_pieces_on_file(&self, file: File) -> (v: Bitboard)
        ensures
            forall|t: Square| v.spec_contains(t) == (self.spec_occupied(t) && t.0 == file),
    {
        self.pieces().bit_and(Bitboard::file(file))
    }

    /// The occupied squares of one rank.
    pub fn get_pieces_on_rank(&self, rank: Rank) -> (v: Bitboard)
        ensures
            forall|t: Square| v.spec_contains(t) == (self.spec_occupied(t) && t.1 == rank),
    {
        self.pieces().bit_and(Bitboard::rank(rank))
    }
}

/// A one-step direction moves at most one file and one rank, and moves.
pub proof fn lemma_direction_offsets(d: Direction)
    ensures
        -1 <= d.df() <= 1,
        -1 <= d.dr() <= 1,
        !(d.df() == 0 && d.dr() == 0),
{
}

/// Every direction is listed in `Direction::all_spec`.
pub proof fn lemma_all_directions()
    ensures
        forall|d: Direction| Direction::all_spec().contains(d),
{
    assert forall|d: Direction| Direction::all_spec().contains(d) by {
        let a = Direction::all_spec();
        match d {
            Direction::Up => assert(a[0] == d),
            Direction::Down => assert(a[1] == d),
            Direction::Left => assert(a[2] == d),
            Direction::Right => assert(a[3] == d),
            Direction::UpLeft => assert(a[4] == d),
            Direction::UpRight => assert(a[5] == d),
            Direction::DownLeft => assert(a[6] == d),
            Direction::DownRight => assert(a[7] == d),
        }
    }
}

/// `Direction::diagonals_spec` holds exactly the four diagonal steps.
pub proof fn lemma_diagonal_directions()
    ensures
        forall|d: Direction|
            Direction::diagonals_spec().contains(d) == (d == Direction::UpLeft || d
                == Direction::UpRight || d == Direction::DownLeft || d == Direction::DownRight),
{
    let a = Direction::diagonals_spec();
    assert(a[0] == Direction::UpLeft);
    assert(a[1] == Direction::UpRight);
    assert(a[2] == Direction::DownLeft);
    assert(a[3] == Direction::DownRight);
    assert forall|d: Direction|
        a.contains(d) == (d == Direction::UpLeft || d == Direction::UpRight || d
            == Direction::DownLeft || d == Direction::DownRight) by {
        if d == Direction::UpLeft || d == Direction::UpRight || d == Direction::DownLeft || d
            == Direction::DownRight {
            assert(a.contains(d));
        } else {
            if a.contains(d) {
                let k = choose|k: int| 0 <= k < a.len() && a[k] == d;
            }
        }
    }
}

/// The one-step direction with the given file and rank offsets.
pub open spec fn direction_for(df: int, dr: int) -> Direction {
    if df == 0 && dr == 1 {
        Direction::Up
    } else if df == 0 && dr == -1 {
        Direction::Down
    } else if df == -1 && dr == 0 {
        Direction::Left
    } else if df == 1 && dr == 0 {
        Direction::Right
    } else if df == -1 && dr == 1 {
        Direction::UpLeft
    } else if df == 1 && dr == 1 {
        Direction::UpRight
    } else if df == -1 && dr == -1 {
        Direction::DownLeft
    } else {
        Direction::DownRight
    }
}

/// The eight two-step knight composites land exactly on the knight-jump
/// squares that exist on the board.
proof fn lemma_knight_jumps(s: Square, t: Square)
    ensures
        (exists|j: int|
            0 <= j < 8 && s.spec_relative(#[trigger] Direction::knight_moves_spec()[j]) == Some(
                t,
            )) == is_knight_jump(s, t),
{
    let km = Direction::knight_moves_spec();
    if exists|j: int| 0 <= j < 8 && s.spec_relative(#[trigger] km[j]) == Some(t) {
        let j = choose|j: int| 0 <= j < 8 && s.spec_relative(#[trigger] km[j]) == Some(t);
        lemma_knight_step(s, km[j][0], km[j][1], t);
        assert(is_knight_jump(s, t));
    }
    if is_knight_jump(s, t) {
        let df = t.f() - s.f();
        let dr = t.r() - s.r();
        lemma_square_coords(t);
        if df == -1 && dr == 2 {
            lemma_knight_witness(s, t, 0);
        } else if df == 1 && dr == 2 {
            lemma_knight_witness(s, t, 1);
        } else if df == 2 && dr == 1 {
            lemma_knight_witness(s, t, 2);
        } else if df == 2 && dr == -1 {
            lemma_knight_witness(s, t, 3);
        } else if df == 1 && dr == -2 {
            lemma_knight_witness(s, t, 4);
        } else if df == -1 && dr == -2 {
            lemma_knight_witness(s, t, 5);
        } else if df == -2 && dr == -1 {
            lemma_knight_witness(s, t, 6);
        } else {
            lemma_knight_witness(s, t, 7);
        }
    }
}

/// Unfolding a two-step relative walk into coordinates.
proof fn lemma_knight_step(s: Square, d1: Direction, d2: Direction, t: Square)
    requires
        s.spec_relative(seq![d1, d2]) == Some(t),
    ensures
        t.f() == s.f() + d1.df() + d2.df(),
        t.r() == s.r() + d1.dr() + d2.dr(),
{
    let l: Seq<Direction> = seq![d1, d2];
    assert(l.drop_last() =~= seq![d1]);
    assert(seq![d1].drop_last() =~= Seq::<Direction>::empty());
    assert(s.spec_relative(Seq::<Direction>::empty()) == Some(s));
    assert(s.spec_relative(seq![d1]) == s.spec_adjacent(d1));
    let mid = s.spec_adjacent(d1);
    assert(mid is Some);
    let m = mid->Some_0;
    lemma_spec_new_coords(s.f() + d1.df(), s.r() + d1.dr());
    assert(t == m.spec_adjacent(d2)->Some_0);
    lemma_spec_new_coords(m.f() + d2.df(), m.r() + d2.dr());
}

/// The `j`-th knight composite from `s` reaches `t` whenever the offsets
/// match and `t` lies on the board.
proof fn lemma_knight_witness(s: Square, t: Square, j: int)
    requires
        0 <= j < 8,
        t == Square::spec_new(t.f(), t.r()),
        t.f() == s.f() + Direction::knight_moves_spec()[j][0].df()
            + Direction::knight_moves_spec()[j][1].df(),
        t.r() == s.r() + Direction::knight_moves_spec()[j][0].dr()
            + Direction::knight_moves_spec()[j][1].dr(),
    ensures
        s.spec_relative(Direction::knight_moves_spec()[j]) == Some(t),
{
    let l = Direction::knight_moves_spec()[j];
    let d1 = l[0];
    let d2 = l[1];
    assert(l =~= seq![d1, d2]);
    assert(l.drop_last() =~= seq![d1]);
    assert(seq![d1].drop_last() =~= Seq::<Direction>::empty());
    assert(s.spec_relative(Seq::<Direction>::empty()) == Some(s));
    let mf = s.f() + d1.df();
    let mr = s.r() + d1.dr();
    assert(0 <= mf < 8 && 0 <= mr < 8);
    let m = Square::spec_new(mf, mr);
    lemma_spec_new_coords(mf, mr);
    assert(s.spec_adjacent(d1) == Some(m));
    assert(s.spec_relative(seq![d1]) == Some(m));
    assert(m.spec_adjacent(d2) == Some(t));
}

} // verus!
