use vstd::prelude::*;

use crate::coords::File;
use crate::coords::Rank;
use crate::squares::Move;
use crate::squares::Square;
use crate::squares::lemma_idx_injective;
use crate::squares::lemma_key_injective;

verus! {

/// A set of squares packed into one 64-bit word, bit index = rank * 8 + file.
#[derive(Debug, PartialEq, Eq, Structural, Copy, Clone)]
pub struct Bitboard(pub u64);

/// The single-bit word holding only the given square.
pub open spec fn mask_of(s: Square) -> u64 {
    1u64 << (s.idx() as u64)
}

/// The word holding every square of the given rank.
pub open spec fn rank_mask_of(r: Rank) -> u64 {
    0xffu64 << ((8 * r.as_int()) as u64)
}

/// The word holding every square of the given file.
pub open spec fn file_mask_of(f: File) -> u64 {
    0x0101010101010101u64 << (f.as_int() as u64)
}

proof fn lemma_bv_or(b1: u64, b2: u64, m: u64)
    by (bit_vector)
    ensures
        ((b1 | b2) & m != 0) == (b1 & m != 0 || b2 & m != 0),
{
}

proof fn lemma_bv_and(b1: u64, b2: u64, k: u64)
    by (bit_vector)
    requires
        k < 64,
    ensures
        ((b1 & b2) & (1u64 << k) != 0) == (b1 & (1u64 << k) != 0 && b2 & (1u64 << k) != 0),
{
}

proof fn lemma_bv_not(b: u64, k: u64)
    by (bit_vector)
    requires
        k < 64,
    ensures
        ((!b) & (1u64 << k) != 0) == !(b & (1u64 << k) != 0),
{
}

proof fn lemma_bv_zero(m: u64)
    by (bit_vector)
    ensures
        0u64 & m == 0,
{
}

proof fn lemma_bv_nonzero(b: u64)
    requires
        b != 0,
    ensures
        exists|k: u64| k < 64 && #[trigger] (b & (1u64 << k)) != 0,
    decreases b,
{
    if b & 1u64 != 0 {
        assert(b & (1u64 << 0u64) != 0) by (bit_vector)
            requires
                b & 1u64 != 0,
        ;
        assert(0u64 < 64 && b & (1u64 << 0u64) != 0);
    } else {
        assert(b >> 1u64 != 0 && b >> 1u64 < b) by (bit_vector)
            requires
                b != 0 && b & 1u64 == 0,
        ;
        lemma_bv_nonzero(b >> 1u64);
        let k = choose|k: u64| k < 64 && #[trigger] ((b >> 1u64) & (1u64 << k)) != 0;
        assert((b >> 1u64) & (1u64 << 63u64) == 0) by (bit_vector);
        assert(k < 63);
        let k1 = (k + 1) as u64;
        assert(b & (1u64 << k1) != 0) by (bit_vector)
            requires
                k1 == k + 1 && k < 63 && (b >> 1u64) & (1u64 << k) != 0,
        ;
        assert(k1 < 64 && b & (1u64 << k1) != 0);
    }
}

proof fn lemma_bv_single(k: u64, j: u64)
    by (bit_vector)
    requires
        k < 64,
        j < 64,
    ensures
        ((1u64 << k) & (1u64 << j) != 0) == (k == j),
{
}

proof fn lemma_bv_rank_mask(r: u64, k: u64)
    by (bit_vector)
    requires
        r < 8,
        k < 64,
    ensures
        ((0xffu64 << (8 * r)) & (1u64 << k) != 0) == (8 * r <= k < 8 * r + 8),
{
}

proof fn lemma_bv_file_mask(f: u64, k: u64)
    by (bit_vector)
    requires
        f < 8,
        k < 64,
    ensures
        ((0x0101010101010101u64 << f) & (1u64 << k) != 0) == (k % 8 == f),
{
}

proof fn lemma_bv_square_mask(f: u64, r: u64)
    by (bit_vector)
    requires
        f < 8,
        r < 8,
    ensures
        (0x0101010101010101u64 << f) & (0xffu64 << (8 * r)) == 1u64 << (8 * r + f),
{
}

proof fn lemma_div_mod8(a: int, b: int)
    by (nonlinear_arith)
    requires
        0 <= a,
        0 <= b < 8,
    ensures
        (8 * a + b) / 8 == a,
        (8 * a + b) % 8 == b,
{
}

/// Every square's bit index lies below 64, and its enumeration key too.
pub proof fn lemma_square_ranges(s: Square)
    ensures
        0 <= s.f() < 8,
        0 <= s.r() < 8,
        0 <= s.idx() < 64,
        0 <= s.key() < 64,
{
}

/// Round trip between a square and its file-major enumeration key.
pub proof fn lemma_of_key(k: int)
    requires
        0 <= k < 64,
    ensures
        Square::of_key(k).key() == k,
        Square::of_key(k).f() == k / 8,
        Square::of_key(k).r() == k % 8,
{
    lemma_div_mod8(k / 8, k % 8);
}

impl Bitboard {
    /// Whether the square's bit is set.
    pub open spec fn spec_contains(self, s: Square) -> bool {
        self.0 & mask_of(s) != 0
    }

    /// The squares whose bits are set, below enumeration key `k`, ascending.
    pub open spec fn squares_below(self, k: nat) -> Seq<Square>
        decreases k,
    {
        if k == 0 {
            Seq::empty()
        } else {
            let s = Square::of_key(k - 1);
            self.squares_below((k - 1) as nat) + if self.spec_contains(s) {
                seq![s]
            } else {
                Seq::empty()
            }
        }
    }

    /// The squares whose bits are set, in file-major ascending order.
    pub open spec fn spec_to_squares(self) -> Seq<Square> {
        self.squares_below(64)
    }

    pub fn empty() -> (r: Self)
        ensures
            r.0 == 0,
            forall|s: Square| !r.spec_contains(s),
    {
        proof {
            assert forall|s: Square| !Bitboard(0).spec_contains(s) by {
                lemma_bv_zero(mask_of(s));
            }
        }
        Bitboard(0)
    }

    pub fn rank(rank: Rank) -> (r: Self)
        ensures
            r.0 == rank_mask_of(rank),
            forall|t: Square| r.spec_contains(t) == (t.1 == rank),
    {
        let i = rank.index();
        let b = Bitboard(255u64 << (8 * (i as u64)));
        proof {
            assert forall|t: Square| b.spec_contains(t) == (t.1 == rank) by {
                lemma_square_ranges(t);
                lemma_bv_rank_mask(rank.as_int() as u64, t.idx() as u64);
            }
        }
        b
    }

    pub fn file(file: File) -> (r: Self)
        ensures
            r.0 == file_mask_of(file),
            forall|t: Square| r.spec_contains(t) == (t.0 == file),
    {
        let i = file.index();
        let b = Bitboard(72340172838076673u64 << (i as u64));
        proof {
            assert(72340172838076673u64 == 0x0101010101010101u64);
            assert forall|t: Square| b.spec_contains(t) == (t.0 == file) by {
                lemma_square_ranges(t);
                lemma_bv_file_mask(file.as_int() as u64, t.idx() as u64);
                lemma_div_mod8(t.r(), t.f());
            }
        }
        b
    }

    pub fn square(square: Square) -> (r: Self)
        ensures
            r.0 == mask_of(square),
            forall|t: Square| r.spec_contains(t) == (t == square),
    {
        let b = Self::file(square.0).bit_and(Self::rank(square.1));
        proof {
            lemma_square_ranges(square);
            lemma_bv_square_mask(square.f() as u64, square.r() as u64);
            assert(b.0 == mask_of(square));
            assert forall|t: Square| b.spec_contains(t) == (t == square) by {
                lemma_square_ranges(t);
                lemma_bv_single(square.idx() as u64, t.idx() as u64);
                if b.spec_contains(t) {
                    lemma_idx_injective(t, square);
                }
            }
        }
        b
    }

    /// Union of the two square sets.
    pub fn bit_or(self, rhs: Self) -> (r: Self)
        ensures
            r.0 == self.0 | rhs.0,
            forall|s: Square|
                r.spec_contains(s) == (self.spec_contains(s) || rhs.spec_contains(s)),
    {
        proof {
            assert forall|s: Square|
                Bitboard(self.0 | rhs.0).spec_contains(s) == (self.spec_contains(s)
                    || rhs.spec_contains(s)) by {
                lemma_bv_or(self.0, rhs.0, mask_of(s));
            }
        }
        Bitboard(self.0 | rhs.0)
    }

    /// Intersection of the two square sets.
    pub fn bit_and(self, rhs: Self) -> (r: Self)
        ensures
            r.0 == self.0 & rhs.0,
            forall|s: Square|
                r.spec_contains(s) == (self.spec_contains(s) && rhs.spec_contains(s)),
    {
        proof {
            assert forall|s: Square|
                Bitboard(self.0 & rhs.0).spec_contains(s) == (self.spec_contains(s)
                    && rhs.spec_contains(s)) by {
                lemma_square_ranges(s);
                lemma_bv_and(self.0, rhs.0, s.idx() as u64);
            }
        }
        Bitboard(self.0 & rhs.0)
    }

    /// Complement: every square not in this set.
    pub fn get_inverse(&self) -> (r: Self)
        ensures
            r.0 == !self.0,
            forall|s: Square| r.spec_contains(s) == !self.spec_contains(s),
    {
        proof {
            assert forall|s: Square| Bitboard(!self.0).spec_contains(s) == !self.spec_contains(s) by {
                lemma_square_ranges(s);
                lemma_bv_not(self.0, s.idx() as u64);
            }
        }
        Bitboard(!self.0)
    }

    pub fn is_empty(&self) -> (r: bool)
        ensures
            r == (self.0 == 0),
            r == (forall|s: Square| !self.spec_contains(s)),
    {
        proof {
            if self.0 == 0 {
                assert forall|s: Square| !self.spec_contains(s) by {
                    lemma_bv_zero(mask_of(s));
                }
            } else {
                lemma_bv_nonzero(self.0);
                let k = choose|k: u64| k < 64 && #[trigger] (self.0 & (1u64 << k)) != 0;
                lemma_of_key(k as int);
                let s = Square(
                    File::spec_from_int((k as int) % 8),
                    Rank::spec_from_int((k as int) / 8),
                );
                assert(s.idx() == k) by {
                    lemma_div_mod8((k as int) / 8, (k as int) % 8);
                }
                assert(self.spec_contains(s));
            }
        }
        self.0 == 0
    }

    pub fn has_pieces(&self) -> (r: bool)
        ensures
            r == (self.0 != 0),
            r == (exists|s: Square| self.spec_contains(s)),
    {
        !self.is_empty()
    }

    pub fn contains(&self, square: Square) -> (r: bool)
        ensures
            r == self.spec_contains(square),
    {
        self.bit_and(Self::square(square)).0 > 0
    }

    pub fn is_occupied(&self, square: Square) -> (r: bool)
        ensures
            r == self.spec_contains(square),
    {
        self.contains(square)
    }

    pub fn from_squares(squares: Vec<Square>) -> (r: Self)
        ensures
            forall|t: Square| r.spec_contains(t) == squares@.contains(t),
    {
        let mut acc = Self::empty();
        let mut i: usize = 0;
        while i < squares.len()
            invariant
                i <= squares@.len(),
                forall|t: Square| acc.spec_contains(t) == squares@.take(i as int).contains(t),
            decreases squares@.len() - i,
        {
            let ghost prev = acc;
            acc = acc.bit_or(Self::square(squares[i]));
            proof {
                assert forall|t: Square|
                    acc.spec_contains(t) == squares@.take(i + 1).contains(t) by {
                    assert(squares@.take(i + 1) =~= squares@.take(i as int).push(
                        squares@[i as int],
                    ));
                    if acc.spec_contains(t) {
                        if t == squares@[i as int] {
                            assert(squares@.take(i + 1)[i as int] == t);
                        } else {
                            let j = choose|j: int|
                                0 <= j < squares@.take(i as int).len() && squares@.take(i as int)[j]
                                    == t;
                            assert(squares@.take(i + 1)[j] == t);
                        }
                    } else {
                        if squares@.take(i + 1).contains(t) {
                            let j = choose|j: int|
                                0 <= j < squares@.take(i + 1).len() && #[trigger] squares@.take(
                                    i + 1,
                                )[j] == t;
                            if j < i {
                                assert(squares@.take(i as int)[j] == t);
                            }
                        }
                    }
                }
            }
            i = i + 1;
        }
        proof {
            assert(squares@.take(squares@.len() as int) =~= squares@);
        }
        acc
    }

    /// Relocate the bit at the move's source to the move's destination.
    pub open spec fn spec_transform(self, m: Move) -> Bitboard {
        Bitboard((self.0 & !mask_of(m.0)) | mask_of(m.1))
    }

    pub fn transform(&self, m: Move) -> (r: Self)
        requires
            self.spec_contains(m.0),
        ensures
            r == self.spec_transform(m),
            forall|t: Square|
                r.spec_contains(t) == (t == m.1 || (self.spec_contains(t) && t != m.0)),
    {
        let r = self.bit_and(Self::square(m.0).get_inverse()).bit_or(Self::square(m.1));
        proof {
            assert(r == self.spec_transform(m));
        }
        r
    }

    /// The members of this set in file-major ascending order.
    pub fn to_squares(&self) -> (v: Vec<Square>)
        ensures
            v@ == self.spec_to_squares(),
    {
        let files = File::all();
        let ranks = Rank::all();
        let mut v: Vec<Square> = Vec::new();
        let mut fi: usize = 0;
        while fi < 8
            invariant
                files@.len() == 8,
                ranks@.len() == 8,
                forall|i: int| 0 <= i < 8 ==> (#[trigger] files@[i]).as_int() == i,
                forall|i: int| 0 <= i < 8 ==> (#[trigger] ranks@[i]).as_int() == i,
                fi <= 8,
                v@ == self.squares_below((8 * fi) as nat),
            decreases 8 - fi,
        {
            let mut ri: usize = 0;
            while ri < 8
                invariant
                    files@.len() == 8,
                    ranks@.len() == 8,
                    forall|i: int| 0 <= i < 8 ==> (#[trigger] files@[i]).as_int() == i,
                    forall|i: int| 0 <= i < 8 ==> (#[trigger] ranks@[i]).as_int() == i,
                    fi < 8,
                    ri <= 8,
                    v@ == self.squares_below((8 * fi + ri) as nat),
                decreases 8 - ri,
            {
                let s = Square(files[fi], ranks[ri]);
                proof {
                    lemma_div_mod8(fi as int, ri as int);
                    assert(Square::of_key(8 * fi + ri) == s);
                    assert(self.squares_below((8 * fi + ri + 1) as nat) == self.squares_below(
                        (8 * fi + ri) as nat,
                    ) + if self.spec_contains(s) {
                        seq![s]
                    } else {
                        Seq::<Square>::empty()
                    });
                }
                if self.contains(s) {
                    v.push(s);
                    proof {
                        assert(v@ =~= self.squares_below((8 * fi + ri + 1) as nat));
                    }
                } else {
                    proof {
                        assert(v@ =~= self.squares_below((8 * fi + ri + 1) as nat));
                    }
                }
                ri = ri + 1;
            }
            fi = fi + 1;
        }
        v
    }
}

/// The members of a square set with enumeration key below `k`, ascending.
pub open spec fn set_squares_below(s: Set<Square>, k: nat) -> Seq<Square>
    decreases k,
{
    if k == 0 {
        Seq::empty()
    } else {
        let q = Square::of_key(k - 1);
        set_squares_below(s, (k - 1) as nat) + if s.contains(q) {
            seq![q]
        } else {
            Seq::empty()
        }
    }
}

/// The members of a square set in file-major ascending order.
pub open spec fn asc_squares(s: Set<Square>) -> Seq<Square> {
    set_squares_below(s, 64)
}

/// A bitboard with the same members as a set enumerates the same squares.
pub proof fn lemma_asc_matches_bitboard(b: Bitboard, s: Set<Square>)
    requires
        forall|t: Square| b.spec_contains(t) == s.contains(t),
    ensures
        b.spec_to_squares() == asc_squares(s),
{
    lemma_asc_matches_below(b, s, 64);
}

proof fn lemma_asc_matches_below(b: Bitboard, s: Set<Square>, k: nat)
    requires
        k <= 64,
        forall|t: Square| b.spec_contains(t) == s.contains(t),
    ensures
        b.squares_below(k) == set_squares_below(s, k),
    decreases k,
{
    if k > 0 {
        lemma_asc_matches_below(b, s, (k - 1) as nat);
    }
}

/// Membership in the difference of two square sets, `a` minus `b`.
pub proof fn lemma_and_not_membership(a: Bitboard, b: Bitboard)
    ensures
        forall|s: Square|
            Bitboard(a.0 & !b.0).spec_contains(s) == (a.spec_contains(s) && !b.spec_contains(s)),
{
    assert forall|s: Square|
        Bitboard(a.0 & !b.0).spec_contains(s) == (a.spec_contains(s) && !b.spec_contains(s)) by {
        lemma_square_ranges(s);
        lemma_bv_and(a.0, !b.0, s.idx() as u64);
        lemma_bv_not(b.0, s.idx() as u64);
    }
}

/// Membership after relocating one bit: the destination joins the set, the
/// source leaves it, everything else stays.
pub proof fn lemma_transform_membership(a: Bitboard, m: Move)
    ensures
        forall|s: Square|
            (#[trigger] a.spec_transform(m).spec_contains(s)) == (s == m.1 || (a.spec_contains(s)
                && s != m.0)),
{
    assert forall|s: Square|
        (#[trigger] a.spec_transform(m).spec_contains(s)) == (s == m.1 || (a.spec_contains(s) && s
        != m.0)) by {
        lemma_square_ranges(s);
        lemma_square_ranges(m.0);
        lemma_square_ranges(m.1);
        lemma_bv_or(a.0 & !mask_of(m.0), mask_of(m.1), mask_of(s));
        lemma_bv_and(a.0, !mask_of(m.0), s.idx() as u64);
        lemma_bv_not(mask_of(m.0), s.idx() as u64);
        lemma_bv_single(m.1.idx() as u64, s.idx() as u64);
        lemma_bv_single(m.0.idx() as u64, s.idx() as u64);
        if s == m.1 {
            assert(a.spec_transform(m).spec_contains(s));
        } else {
            lemma_idx_injective_contra(m.1, s);
            if a.spec_contains(s) && s != m.0 {
                lemma_idx_injective_contra(m.0, s);
            }
        }
    }
}

proof fn lemma_idx_injective_contra(a: Square, b: Square)
    requires
        a != b,
    ensures
        a.idx() != b.idx(),
{
    if a.idx() == b.idx() {
        lemma_idx_injective(a, b);
    }
}

/// What `squares_below` holds: exactly the members with key below `k`,
/// in strictly ascending key order.
pub proof fn lemma_squares_below_props(b: Bitboard, k: nat)
    requires
        k <= 64,
    ensures
        forall|i: int|
            0 <= i < b.squares_below(k).len() ==> b.spec_contains(#[trigger] b.squares_below(k)[i])
                && 0 <= b.squares_below(k)[i].key() < k,
        forall|t: Square| b.spec_contains(t) && t.key() < k ==> b.squares_below(k).contains(t),
        forall|i: int, j: int|
            0 <= i < j < b.squares_below(k).len() ==> b.squares_below(k)[i].key() < b.squares_below(
                k,
            )[j].key(),
    decreases k,
{
    if k > 0 {
        lemma_squares_below_props(b, (k - 1) as nat);
        lemma_of_key(k - 1);
        let s = Square::of_key(k - 1);
        let prev = b.squares_below((k - 1) as nat);
        let cur = b.squares_below(k);
        assert(cur == prev + if b.spec_contains(s) {
            seq![s]
        } else {
            Seq::<Square>::empty()
        });
        assert(forall|i: int| 0 <= i < prev.len() ==> cur[i] == prev[i]);
        if b.spec_contains(s) {
            assert(cur.len() == prev.len() + 1);
            assert(cur[prev.len() as int] == s);
        } else {
            assert(cur =~= prev);
        }
        assert forall|t: Square| b.spec_contains(t) && t.key() < k implies cur.contains(t) by {
            if t.key() < k - 1 {
                let j = choose|j: int| 0 <= j < prev.len() && #[trigger] prev[j] == t;
                assert(cur[j] == t);
            } else {
                lemma_key_injective(t, s);
                assert(cur[prev.len() as int] == t);
            }
        }
    }
}

/// What `to_squares` returns: exactly the members of the set, each once,
/// in strictly ascending file-major order.
pub proof fn lemma_to_squares_props(b: Bitboard)
    ensures
        forall|t: Square| b.spec_to_squares().contains(t) == b.spec_contains(t),
        forall|i: int|
            0 <= i < b.spec_to_squares().len() ==> b.spec_contains(
                #[trigger] b.spec_to_squares()[i],
            ),
        forall|i: int, j: int|
            0 <= i < j < b.spec_to_squares().len() ==> b.spec_to_squares()[i].key()
                < b.spec_to_squares()[j].key(),
{
    lemma_squares_below_props(b, 64);
    assert forall|t: Square| b.spec_to_squares().contains(t) == b.spec_contains(t) by {
        lemma_square_ranges(t);
        if b.spec_to_squares().contains(t) {
            let j = choose|j: int|
                0 <= j < b.spec_to_squares().len() && b.spec_to_squares()[j] == t;
            assert(b.spec_contains(b.spec_to_squares()[j]));
        }
    }
}

} // verus!
