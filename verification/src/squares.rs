use vstd::prelude::*;

use vstd::string::StrSliceExecFns;
use vstd::string::StringExecFns;

use crate::coords::Direction;
use crate::coords::File;
use crate::coords::Rank;
use crate::coords::Side;
use crate::coords::SquareColor;

verus! {

/// One square of the board: a (file, rank) pair.
#[derive(Debug, PartialEq, Eq, Structural, Copy, Clone, Hash)]
pub struct Square(pub File, pub Rank);

impl Square {
    /// The square's file ordinal, 0 through 7.
    pub open spec fn f(self) -> int {
        self.0.as_int()
    }

    /// The square's rank ordinal, 0 through 7.
    pub open spec fn r(self) -> int {
        self.1.as_int()
    }

    /// The square's bit position in a bitboard: rank * 8 + file.
    pub open spec fn idx(self) -> int {
        self.r() * 8 + self.f()
    }

    /// The square's position in the file-major enumeration used by
    /// `Square::all` and `Bitboard::to_squares`.
    pub open spec fn key(self) -> int {
        self.f() * 8 + self.r()
    }

    /// The square whose file-major enumeration position is `k`.
    pub open spec fn of_key(k: int) -> Square {
        Square(File::spec_from_int(k / 8), Rank::spec_from_int(k % 8))
    }

    pub open spec fn spec_new(f: int, r: int) -> Square {
        Square(File::spec_from_int(f), Rank::spec_from_int(r))
    }

    pub fn new(file: File, rank: Rank) -> (s: Self)
        ensures
            s == Square(file, rank),
    {
        Square(file, rank)
    }

    /// The square's two-character algebraic name.
    pub open spec fn spec_chars(self) -> Seq<char> {
        seq![self.0.spec_char(), self.1.spec_char()]
    }

    pub fn to_string(&self) -> (r: String)
        ensures
            r@ == self.spec_chars(),
    {
        let mut s = self.0.to_string();
        s.append(self.1.to_string().as_str());
        proof {
            assert(s@ =~= self.spec_chars());
        }
        s
    }

    pub fn file(&self) -> (r: File)
        ensures
            r == self.0,
    {
        self.0
    }

    pub fn rank(&self) -> (r: Rank)
        ensures
            r == self.1,
    {
        self.1
    }

    /// All 64 squares in file-major order: a1, a2, ..., a8, b1, ..., h8.
    pub fn all() -> (v: Vec<Self>)
        ensures
            v@.len() == 64,
            forall|i: int| 0 <= i < 64 ==> (#[trigger] v@[i]).key() == i,
            forall|s: Square| v@.contains(s),
    {
        let files = File::all();
        let ranks = Rank::all();
        let mut v: Vec<Square> = Vec::new();
        let mut fi: usize = 0;
        while fi < 8
            invariant
                files@.len() == 8,
                ranks@.len() == 8,
                forall|i: int| 0 <= i < 8 ==> (#[trigger] files@[i]).as_int() == i,
                forall|i: int| 0 <= i < 8 ==> (#[trigger] ranks@[i]).as_int() == i,
                fi <= 8,
                v@.len() == 8 * fi,
                forall|i: int| 0 <= i < v@.len() ==> (#[trigger] v@[i]).key() == i,
            decreases 8 - fi,
        {
            let mut ri: usize = 0;
            while ri < 8
                invariant
                    files@.len() == 8,
                    ranks@.len() == 8,
                    forall|i: int| 0 <= i < 8 ==> (#[trigger] files@[i]).as_int() == i,
                    forall|i: int| 0 <= i < 8 ==> (#[trigger] ranks@[i]).as_int() == i,
                    fi < 8,
                    ri <= 8,
                    v@.len() == 8 * fi + ri,
                    forall|i: int| 0 <= i < v@.len() ==> (#[trigger] v@[i]).key() == i,
                decreases 8 - ri,
            {
                v.push(Square(files[fi], ranks[ri]));
                ri = ri + 1;
            }
            fi = fi + 1;
        }
        proof {
            assert forall|s: Square| v@.contains(s) by {
                assert(v@[s.key()] == s) by {
                    assert(v@[s.key()].key() == s.key());
                    lemma_key_injective(v@[s.key()], s);
                }
            }
        }
        v
    }

    /// The shade of the square: a1 is dark, h1 is light.
    pub open spec fn spec_color(self) -> SquareColor {
        if (self.f() + self.r()) % 2 == 0 {
            SquareColor::Dark
        } else {
            SquareColor::Light
        }
    }

    pub fn get_color(&self) -> (r: SquareColor)
        ensures
            r == self.spec_color(),
    {
        let sum = self.0.index() + self.1.index();
        if sum % 2 == 0 {
            SquareColor::Dark
        } else {
            SquareColor::Light
        }
    }

    /// The neighbouring square one step away, or None past the board's edge.
    pub open spec fn spec_adjacent(self, d: Direction) -> Option<Square> {
        let f = self.f() + d.df();
        let r = self.r() + d.dr();
        if 0 <= f < 8 && 0 <= r < 8 {
            Some(Square::spec_new(f, r))
        } else {
            None
        }
    }

    pub fn get_adjacent(&self, direction: Direction) -> (r: Option<Self>)
        ensures
            r == self.spec_adjacent(direction),
    {
        let file = match direction {
            Direction::Up | Direction::Down => Some(self.0),
            Direction::Left | Direction::UpLeft | Direction::DownLeft => self.0.previous(),
            Direction::Right | Direction::UpRight | Direction::DownRight => self.0.next(),
        };
        let rank = match direction {
            Direction::Left | Direction::Right => Some(self.1),
            Direction::Up | Direction::UpLeft | Direction::UpRight => self.1.next(),
            Direction::Down | Direction::DownLeft | Direction::DownRight => self.1.previous(),
        };
        match (file, rank) {
            (Some(f), Some(r)) => Some(Square(f, r)),
            _ => None,
        }
    }

    /// Following a whole list of steps, failing if any intermediate square
    /// leaves the board.
    pub open spec fn spec_relative(self, ds: Seq<Direction>) -> Option<Square>
        decreases ds.len(),
    {
        if ds.len() == 0 {
            Some(self)
        } else {
            match self.spec_relative(ds.drop_last()) {
                Some(t) => t.spec_adjacent(ds.last()),
                None => None,
            }
        }
    }

    pub fn get_relative(&self, directions: Vec<Direction>) -> (r: Option<Self>)
        ensures
            r == self.spec_relative(directions@),
    {
        let mut acc: Option<Square> = Some(*self);
        let mut i: usize = 0;
        while i < directions.len()
            invariant
                i <= directions@.len(),
                acc == self.spec_relative(directions@.take(i as int)),
            decreases directions@.len() - i,
        {
            proof {
                assert(directions@.take(i + 1).drop_last() =~= directions@.take(i as int));
                assert(directions@.take(i + 1).last() == directions@[i as int]);
            }
            acc = match acc {
                Some(t) => t.get_adjacent(directions[i]),
                None => None,
            };
            i = i + 1;
        }
        proof {
            assert(directions@.take(directions@.len() as int) =~= directions@);
        }
        acc
    }
}

/// A square built from in-range ordinals has exactly those ordinals.
pub proof fn lemma_spec_new_coords(f: int, r: int)
    requires
        0 <= f < 8,
        0 <= r < 8,
    ensures
        Square::spec_new(f, r).f() == f,
        Square::spec_new(f, r).r() == r,
{
}

/// Rebuilding a square from its own ordinals gives the square back.
pub proof fn lemma_square_coords(s: Square)
    ensures
        Square::spec_new(s.f(), s.r()) == s,
{
}

/// Two squares with equal file-major keys are the same square.
pub proof fn lemma_key_injective(a: Square, b: Square)
    requires
        a.key() == b.key(),
    ensures
        a == b,
{
}

/// Two squares with equal bit positions are the same square.
pub proof fn lemma_idx_injective(a: Square, b: Square)
    requires
        a.idx() == b.idx(),
    ensures
        a == b,
{
}

/// A move: a source square and a destination square.
#[derive(Debug, PartialEq, Eq, Structural, Copy, Clone, Hash)]
pub struct Move(pub Square, pub Square);

impl Move {
    pub fn new(from: Square, to: Square) -> (m: Self)
        ensures
            m == Move(from, to),
    {
        Move(from, to)
    }
}

/// The two wings a king may castle to.
#[derive(Debug, PartialEq, Eq, Structural, Copy, Clone)]
pub enum Castle {
    Kingside,
    Queenside,
}

impl Castle {
    /// The home rank of the given side, where all castling happens.
    pub open spec fn spec_rank(side: Side) -> Rank {
        match side {
            Side::White => Rank::One,
            Side::Black => Rank::Eight,
        }
    }

    pub fn get_rank(side: Side) -> (r: Rank)
        ensures
            r == Self::spec_rank(side),
    {
        match side {
            Side::White => Rank::One,
            Side::Black => Rank::Eight,
        }
    }

    pub open spec fn spec_king_destination(self, side: Side) -> Square {
        Square(
            match self {
                Castle::Kingside => File::G,
                Castle::Queenside => File::C,
            },
            Self::spec_rank(side),
        )
    }

    pub fn get_king_destination(&self, side: Side) -> (r: Square)
        ensures
            r == self.spec_king_destination(side),
    {
        let rank = Self::get_rank(side);
        let file = match self {
            Castle::Kingside => File::G,
            Castle::Queenside => File::C,
        };
        Square(file, rank)
    }

    pub open spec fn spec_rook_source(self, side: Side) -> Square {
        Square(
            match self {
                Castle::Kingside => File::H,
                Castle::Queenside => File::A,
            },
            Self::spec_rank(side),
        )
    }

    pub fn get_rook_source(&self, side: Side) -> (r: Square)
        ensures
            r == self.spec_rook_source(side),
    {
        let rank = Self::get_rank(side);
        let file = match self {
            Castle::Kingside => File::H,
            Castle::Queenside => File::A,
        };
        Square(file, rank)
    }

    pub open spec fn spec_rook_destination(self, side: Side) -> Square {
        Square(
            match self {
                Castle::Kingside => File::F,
                Castle::Queenside => File::D,
            },
            Self::spec_rank(side),
        )
    }

    pub fn get_rook_destination(&self, side: Side) -> (r: Square)
        ensures
            r == self.spec_rook_destination(side),
    {
        let rank = Self::get_rank(side);
        let file = match self {
            Castle::Kingside => File::F,
            Castle::Queenside => File::D,
        };
        Square(file, rank)
    }

    /// The king's move that performs this castle for the given side.
    pub open spec fn spec_king_move(self, side: Side) -> Move {
        Move(Square(File::E, Self::spec_rank(side)), self.spec_king_destination(side))
    }

    pub fn get_king_move(&self, side: Side) -> (m: Move)
        ensures
            m == self.spec_king_move(side),
    {
        let source = Square(File::E, Self::get_rank(side));
        let destination = self.get_king_destination(side);
        Move(source, destination)
    }

    /// The rook's half of this castle for the given side.
    pub open spec fn spec_rook_move(self, side: Side) -> Move {
        Move(self.spec_rook_source(side), self.spec_rook_destination(side))
    }

    pub fn get_rook_move(&self, side: Side) -> (m: Move)
        ensures
            m == self.spec_rook_move(side),
    {
        Move(self.get_rook_source(side), self.get_rook_destination(side))
    }
}

} // verus!
