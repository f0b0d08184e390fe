use vstd::prelude::*;

verus! {

/// One of the two players.
#[derive(Debug, PartialEq, Eq, Structural, Copy, Clone, Hash)]
pub enum Side {
    White,
    Black,
}

impl Side {
    pub open spec fn spec_opponent(self) -> Side {
        match self {
            Side::White => Side::Black,
            Side::Black => Side::White,
        }
    }

    pub fn get_opponent(side: Side) -> (r: Self)
        ensures
            r == side.spec_opponent(),
    {
        match side {
            Side::White => Side::Black,
            Side::Black => Side::White,
        }
    }

    pub fn all() -> (r: Vec<Self>)
        ensures
            r@ == seq![Side::White, Side::Black],
    {
        let mut v: Vec<Side> = Vec::new();
        v.push(Side::White);
        v.push(Side::Black);
        proof {
            assert(v@ =~= seq![Side::White, Side::Black]);
        }
        v
    }
}

/// The two players are each other's opponents: taking the opponent of the
/// opponent comes back to the side one started from.
pub proof fn lemma_opponent_involution(s: Side)
    ensures
        s.spec_opponent().spec_opponent() == s,
{
}

/// The six kinds of chessmen.
#[derive(Debug, PartialEq, Eq, Structural, Copy, Clone, Hash)]
pub enum Piece {
    Pawn,
    Knight,
    Bishop,
    Rook,
    Queen,
    King,
}

impl Piece {
    pub fn all() -> (r: Vec<Self>)
        ensures
            r@ == Self::all_spec(),
    {
        let mut v: Vec<Piece> = Vec::new();
        v.push(Piece::Pawn);
        v.push(Piece::Knight);
        v.push(Piece::Bishop);
        v.push(Piece::Rook);
        v.push(Piece::Queen);
        v.push(Piece::King);
        proof {
            assert(v@ =~= Self::all_spec());
        }
        v
    }

    pub open spec fn all_spec() -> Seq<Piece> {
        seq![Piece::Pawn, Piece::Knight, Piece::Bishop, Piece::Rook, Piece::Queen, Piece::King]
    }

    pub fn all_non_pawn() -> (r: Vec<Self>)
        ensures
            r@ == seq![Piece::Knight, Piece::Bishop, Piece::Rook, Piece::Queen, Piece::King],
    {
        let mut v: Vec<Piece> = Vec::new();
        v.push(Piece::Knight);
        v.push(Piece::Bishop);
        v.push(Piece::Rook);
        v.push(Piece::Queen);
        v.push(Piece::King);
        proof {
            assert(v@ =~= seq![Piece::Knight, Piece::Bishop, Piece::Rook, Piece::Queen, Piece::King]);
        }
        v
    }

    pub open spec fn spec_is_piece_char(c: char) -> bool {
        c == 'P' || c == 'N' || c == 'B' || c == 'R' || c == 'Q' || c == 'K'
    }

    pub fn is_piece_char(c: char) -> (r: bool)
        ensures
            r == Self::spec_is_piece_char(c),
    {
        match c {
            'P' | 'N' | 'B' | 'R' | 'Q' | 'K' => true,
            _ => false,
        }
    }

    pub open spec fn spec_from_char(c: char) -> Piece {
        if c == 'P' {
            Piece::Pawn
        } else if c == 'N' {
            Piece::Knight
        } else if c == 'B' {
            Piece::Bishop
        } else if c == 'R' {
            Piece::Rook
        } else if c == 'Q' {
            Piece::Queen
        } else {
            Piece::King
        }
    }

    pub fn from_char(c: char) -> (r: Self)
        requires
            Self::spec_is_piece_char(c),
        ensures
            r == Self::spec_from_char(c),
    {
        match c {
            'P' => Piece::Pawn,
            'N' => Piece::Knight,
            'B' => Piece::Bishop,
            'R' => Piece::Rook,
            'Q' => Piece::Queen,
            _ => Piece::King,
        }
    }

    pub fn from_str(s: &str) -> (r: Self)
        requires
            s@.len() == 1,
            Self::spec_is_piece_char(s@[0]),
        ensures
            r == Self::spec_from_char(s@[0]),
    {
        let c = s.get_char(0);
        Self::from_char(c)
    }

    /// The one-letter algebraic name of the piece.
    pub open spec fn spec_char(self) -> char {
        match self {
            Piece::Pawn => 'P',
            Piece::Knight => 'N',
            Piece::Bishop => 'B',
            Piece::Rook => 'R',
            Piece::Queen => 'Q',
            Piece::King => 'K',
        }
    }

    pub fn to_string(&self) -> (r: String)
        ensures
            r@ == seq![self.spec_char()],
    {
        let s: &str = match self {
            Piece::Pawn => "P",
            Piece::Knight => "N",
            Piece::Bishop => "B",
            Piece::Rook => "R",
            Piece::Queen => "Q",
            Piece::King => "K",
        };
        proof {
            reveal_strlit("P");
            reveal_strlit("N");
            reveal_strlit("B");
            reveal_strlit("R");
            reveal_strlit("Q");
            reveal_strlit("K");
            assert(s@ =~= seq![self.spec_char()]);
        }
        s.to_owned()
    }

    pub open spec fn spec_long_chars(self) -> Seq<char> {
        match self {
            Piece::Pawn => seq!['P', 'a', 'w', 'n'],
            Piece::Knight => seq!['K', 'n', 'i', 'g', 'h', 't'],
            Piece::Bishop => seq!['B', 'i', 's', 'h', 'o', 'p'],
            Piece::Rook => seq!['R', 'o', 'o', 'k'],
            Piece::Queen => seq!['Q', 'u', 'e', 'e', 'n'],
            Piece::King => seq!['K', 'i', 'n', 'g'],
        }
    }

    pub fn to_long_string(&self) -> (r: String)
        ensures
            r@ == self.spec_long_chars(),
    {
        let s: &str = match self {
            Piece::Pawn => "Pawn",
            Piece::Knight => "Knight",
            Piece::Bishop => "Bishop",
            Piece::Rook => "Rook",
            Piece::Queen => "Queen",
            Piece::King => "King",
        };
        proof {
            reveal_strlit("Pawn");
            reveal_strlit("Knight");
            reveal_strlit("Bishop");
            reveal_strlit("Rook");
            reveal_strlit("Queen");
            reveal_strlit("King");
            assert(s@ =~= self.spec_long_chars());
        }
        s.to_owned()
    }
}

/// The shade of a square on the two-colored board.
#[derive(Debug, PartialEq, Eq, Structural, Copy, Clone)]
pub enum SquareColor {
    Light,
    Dark,
}

impl SquareColor {
    pub fn to_string(&self) -> (r: String)
        ensures
            self == SquareColor::Light ==> r@ == "Light"@,
            self == SquareColor::Dark ==> r@ == "Dark"@,
    {
        match self {
            SquareColor::Light => "Light".to_owned(),
            SquareColor::Dark => "Dark".to_owned(),
        }
    }
}

/// The eight columns of the board, a through h.
#[derive(Debug, PartialEq, Eq, Structural, Copy, Clone, Hash)]
pub enum File {
    A,
    B,
    C,
    D,
    E,
    F,
    G,
    H,
}

impl File {
    /// The column's ordinal, 0 for a up to 7 for h.
    pub open spec fn as_int(self) -> int {
        match self {
            File::A => 0,
            File::B => 1,
            File::C => 2,
            File::D => 3,
            File::E => 4,
            File::F => 5,
            File::G => 6,
            File::H => 7,
        }
    }

    pub open spec fn spec_from_int(i: int) -> File {
        if i == 0 {
            File::A
        } else if i == 1 {
            File::B
        } else if i == 2 {
            File::C
        } else if i == 3 {
            File::D
        } else if i == 4 {
            File::E
        } else if i == 5 {
            File::F
        } else if i == 6 {
            File::G
        } else {
            File::H
        }
    }

    pub fn index(self) -> (r: u8)
        ensures
            r == self.as_int(),
    {
        match self {
            File::A => 0,
            File::B => 1,
            File::C => 2,
            File::D => 3,
            File::E => 4,
            File::F => 5,
            File::G => 6,
            File::H => 7,
        }
    }

    pub fn from_u64(i: u64) -> (r: Self)
        requires
            i < 8,
        ensures
            r == Self::spec_from_int(i as int),
            r.as_int() == i,
    {
        match i {
            0 => File::A,
            1 => File::B,
            2 => File::C,
            3 => File::D,
            4 => File::E,
            5 => File::F,
            6 => File::G,
            _ => File::H,
        }
    }

    pub fn all() -> (r: Vec<Self>)
        ensures
            r@.len() == 8,
            forall|i: int| 0 <= i < 8 ==> (#[trigger] r@[i]).as_int() == i,
    {
        let mut v: Vec<File> = Vec::new();
        v.push(File::A);
        v.push(File::B);
        v.push(File::C);
        v.push(File::D);
        v.push(File::E);
        v.push(File::F);
        v.push(File::G);
        v.push(File::H);
        v
    }

    pub fn previous(&self) -> (r: Option<Self>)
        ensures
            self.as_int() == 0 ==> r is None,
            self.as_int() > 0 ==> r == Some(Self::spec_from_int(self.as_int() - 1)),
    {
        match *self {
            File::A => None,
            f => Some(File::from_u64((f.index() as u64) - 1)),
        }
    }

    pub fn next(&self) -> (r: Option<Self>)
        ensures
            self.as_int() == 7 ==> r is None,
            self.as_int() < 7 ==> r == Some(Self::spec_from_int(self.as_int() + 1)),
    {
        match *self {
            File::H => None,
            f => Some(File::from_u64((f.index() as u64) + 1)),
        }
    }

    pub open spec fn spec_distance(a: File, b: File) -> int {
        if a.as_int() >= b.as_int() {
            a.as_int() - b.as_int()
        } else {
            b.as_int() - a.as_int()
        }
    }

    pub fn distance(from: &Self, to: &Self) -> (r: usize)
        ensures
            r == Self::spec_distance(*from, *to),
    {
        let f = from.index();
        let t = to.index();
        if f >= t {
            (f - t) as usize
        } else {
            (t - f) as usize
        }
    }

    pub fn to_number(&self) -> (r: i8)
        ensures
            r == self.as_int() + 1,
    {
        (self.index() + 1) as i8
    }

    pub open spec fn spec_is_file_char(c: char) -> bool {
        c == 'a' || c == 'b' || c == 'c' || c == 'd' || c == 'e' || c == 'f' || c == 'g'
            || c == 'h'
    }

    pub fn is_file_char(c: char) -> (r: bool)
        ensures
            r == Self::spec_is_file_char(c),
    {
        match c {
            'a' | 'b' | 'c' | 'd' | 'e' | 'f' | 'g' | 'h' => true,
            _ => false,
        }
    }

    pub open spec fn spec_from_char(c: char) -> File {
        if c == 'a' {
            File::A
        } else if c == 'b' {
            File::B
        } else if c == 'c' {
            File::C
        } else if c == 'd' {
            File::D
        } else if c == 'e' {
            File::E
        } else if c == 'f' {
            File::F
        } else if c == 'g' {
            File::G
        } else {
            File::H
        }
    }

    pub fn from_char(c: char) -> (r: Self)
        requires
            Self::spec_is_file_char(c),
        ensures
            r == Self::spec_from_char(c),
    {
        match c {
            'a' => File::A,
            'b' => File::B,
            'c' => File::C,
            'd' => File::D,
            'e' => File::E,
            'f' => File::F,
            'g' => File::G,
            _ => File::H,
        }
    }

    pub fn from_str(s: &str) -> (r: Self)
        requires
            s@.len() == 1,
            Self::spec_is_file_char(s@[0]),
        ensures
            r == Self::spec_from_char(s@[0]),
    {
        Self::from_char(s.get_char(0))
    }

    pub fn from_string(s: String) -> (r: Self)
        requires
            s@.len() == 1,
            Self::spec_is_file_char(s@[0]),
        ensures
            r == Self::spec_from_char(s@[0]),
    {
        Self::from_char(s.as_str().get_char(0))
    }

    /// The column's lower-case letter in algebraic notation.
    pub open spec fn spec_char(self) -> char {
        match self {
            File::A => 'a',
            File::B => 'b',
            File::C => 'c',
            File::D => 'd',
            File::E => 'e',
            File::F => 'f',
            File::G => 'g',
            File::H => 'h',
        }
    }

    pub fn to_char(self) -> (r: char)
        ensures
            r == self.spec_char(),
    {
        match self {
            File::A => 'a',
            File::B => 'b',
            File::C => 'c',
            File::D => 'd',
            File::E => 'e',
            File::F => 'f',
            File::G => 'g',
            File::H => 'h',
        }
    }

    pub fn to_string(&self) -> (r: String)
        ensures
            r@ == seq![self.spec_char()],
    {
        let s: &str = match self {
            File::A => "a",
            File::B => "b",
            File::C => "c",
            File::D => "d",
            File::E => "e",
            File::F => "f",
            File::G => "g",
            File::H => "h",
        };
        proof {
            reveal_strlit("a");
            reveal_strlit("b");
            reveal_strlit("c");
            reveal_strlit("d");
            reveal_strlit("e");
            reveal_strlit("f");
            reveal_strlit("g");
            reveal_strlit("h");
            assert(s@ =~= seq![self.spec_char()]);
        }
        s.to_owned()
    }
}

/// The eight rows of the board, 1 (White's home row) through 8.
#[derive(Debug, PartialEq, Eq, Structural, Copy, Clone, Hash)]
pub enum Rank {
    One,
    Two,
    Three,
    Four,
    Five,
    Six,
    Seven,
    Eight,
}

impl Rank {
    /// The row's ordinal, 0 for rank 1 up to 7 for rank 8.
    pub open spec fn as_int(self) -> int {
        match self {
            Rank::One => 0,
            Rank::Two => 1,
            Rank::Three => 2,
            Rank::Four => 3,
            Rank::Five => 4,
            Rank::Six => 5,
            Rank::Seven => 6,
            Rank::Eight => 7,
        }
    }

    pub open spec fn spec_from_int(i: int) -> Rank {
        if i == 0 {
            Rank::One
        } else if i == 1 {
            Rank::Two
        } else if i == 2 {
            Rank::Three
        } else if i == 3 {
            Rank::Four
        } else if i == 4 {
            Rank::Five
        } else if i == 5 {
            Rank::Six
        } else if i == 6 {
            Rank::Seven
        } else {
            Rank::Eight
        }
    }

    pub fn index(self) -> (r: u8)
        ensures
            r == self.as_int(),
    {
        match self {
            Rank::One => 0,
            Rank::Two => 1,
            Rank::Three => 2,
            Rank::Four => 3,
            Rank::Five => 4,
            Rank::Six => 5,
            Rank::Seven => 6,
            Rank::Eight => 7,
        }
    }

    pub fn from_u64(i: u64) -> (r: Self)
        requires
            i < 8,
        ensures
            r == Self::spec_from_int(i as int),
            r.as_int() == i,
    {
        match i {
            0 => Rank::One,
            1 => Rank::Two,
            2 => Rank::Three,
            3 => Rank::Four,
            4 => Rank::Five,
            5 => Rank::Six,
            6 => Rank::Seven,
            _ => Rank::Eight,
        }
    }

    pub fn all() -> (r: Vec<Self>)
        ensures
            r@.len() == 8,
            forall|i: int| 0 <= i < 8 ==> (#[trigger] r@[i]).as_int() == i,
    {
        let mut v: Vec<Rank> = Vec::new();
        v.push(Rank::One);
        v.push(Rank::Two);
        v.push(Rank::Three);
        v.push(Rank::Four);
        v.push(Rank::Five);
        v.push(Rank::Six);
        v.push(Rank::Seven);
        v.push(Rank::Eight);
        v
    }

    pub fn previous(&self) -> (r: Option<Self>)
        ensures
            self.as_int() == 0 ==> r is None,
            self.as_int() > 0 ==> r == Some(Self::spec_from_int(self.as_int() - 1)),
    {
        match *self {
            Rank::One => None,
            r => Some(Rank::from_u64((r.index() as u64) - 1)),
        }
    }

    pub fn next(&self) -> (r: Option<Self>)
        ensures
            self.as_int() == 7 ==> r is None,
            self.as_int() < 7 ==> r == Some(Self::spec_from_int(self.as_int() + 1)),
    {
        match *self {
            Rank::Eight => None,
            r => Some(Rank::from_u64((r.index() as u64) + 1)),
        }
    }

    pub open spec fn spec_distance(a: Rank, b: Rank) -> int {
        if a.as_int() >= b.as_int() {
            a.as_int() - b.as_int()
        } else {
            b.as_int() - a.as_int()
        }
    }

    pub fn distance(source: Rank, destination: Rank) -> (r: u64)
        ensures
            r == Self::spec_distance(source, destination),
    {
        let s = source.index();
        let d = destination.index();
        if s >= d {
            ((s - d) as u64)
        } else {
            ((d - s) as u64)
        }
    }

    /// The row a pawn of the given side starts on.
    pub open spec fn spec_first_pawn_move(side: Side) -> Rank {
        match side {
            Side::White => Rank::Two,
            Side::Black => Rank::Seven,
        }
    }

    pub fn first_pawn_move(side: Side) -> (r: Self)
        ensures
            r == Self::spec_first_pawn_move(side),
    {
        match side {
            Side::White => Rank::Two,
            Side::Black => Rank::Seven,
        }
    }

    pub open spec fn spec_is_rank_char(c: char) -> bool {
        c == '1' || c == '2' || c == '3' || c == '4' || c == '5' || c == '6' || c == '7'
            || c == '8'
    }

    pub fn is_rank_char(c: char) -> (r: bool)
        ensures
            r == Self::spec_is_rank_char(c),
    {
        match c {
            '1' | '2' | '3' | '4' | '5' | '6' | '7' | '8' => true,
            _ => false,
        }
    }

    pub open spec fn spec_from_char(c: char) -> Rank {
        if c == '1' {
            Rank::One
        } else if c == '2' {
            Rank::Two
        } else if c == '3' {
            Rank::Three
        } else if c == '4' {
            Rank::Four
        } else if c == '5' {
            Rank::Five
        } else if c == '6' {
            Rank::Six
        } else if c == '7' {
            Rank::Seven
        } else {
            Rank::Eight
        }
    }

    pub fn from_char(c: char) -> (r: Self)
        requires
            Self::spec_is_rank_char(c),
        ensures
            r == Self::spec_from_char(c),
    {
        match c {
            '1' => Rank::One,
            '2' => Rank::Two,
            '3' => Rank::Three,
            '4' => Rank::Four,
            '5' => Rank::Five,
            '6' => Rank::Six,
            '7' => Rank::Seven,
            _ => Rank::Eight,
        }
    }

    pub fn from_str(s: &str) -> (r: Self)
        requires
            s@.len() == 1,
            Self::spec_is_rank_char(s@[0]),
        ensures
            r == Self::spec_from_char(s@[0]),
    {
        Self::from_char(s.get_char(0))
    }

    pub fn from_string(s: String) -> (r: Self)
        requires
            s@.len() == 1,
            Self::spec_is_rank_char(s@[0]),
        ensures
            r == Self::spec_from_char(s@[0]),
    {
        Self::from_char(s.as_str().get_char(0))
    }

    /// The row's digit in algebraic notation.
    pub open spec fn spec_char(self) -> char {
        match self {
            Rank::One => '1',
            Rank::Two => '2',
            Rank::Three => '3',
            Rank::Four => '4',
            Rank::Five => '5',
            Rank::Six => '6',
            Rank::Seven => '7',
            Rank::Eight => '8',
        }
    }

    pub fn to_char(self) -> (r: char)
        ensures
            r == self.spec_char(),
    {
        match self {
            Rank::One => '1',
            Rank::Two => '2',
            Rank::Three => '3',
            Rank::Four => '4',
            Rank::Five => '5',
            Rank::Six => '6',
            Rank::Seven => '7',
            Rank::Eight => '8',
        }
    }

    pub fn to_string(&self) -> (r: String)
        ensures
            r@ == seq![self.spec_char()],
    {
        let s: &str = match self {
            Rank::One => "1",
            Rank::Two => "2",
            Rank::Three => "3",
            Rank::Four => "4",
            Rank::Five => "5",
            Rank::Six => "6",
            Rank::Seven => "7",
            Rank::Eight => "8",
        };
        proof {
            reveal_strlit("1");
            reveal_strlit("2");
            reveal_strlit("3");
            reveal_strlit("4");
            reveal_strlit("5");
            reveal_strlit("6");
            reveal_strlit("7");
            reveal_strlit("8");
            assert(s@ =~= seq![self.spec_char()]);
        }
        s.to_owned()
    }
}

/// The eight one-step directions on the board, seen from White's side.
#[derive(Debug, PartialEq, Eq, Structural, Copy, Clone)]
pub enum Direction {
    Up,
    Down,
    Left,
    Right,
    UpLeft,
    UpRight,
    DownLeft,
    DownRight,
}

impl Direction {
    /// Change in file ordinal for one step in this direction.
    pub open spec fn df(self) -> int {
        match self {
            Direction::Up => 0,
            Direction::Down => 0,
            Direction::Left => -1,
            Direction::Right => 1,
            Direction::UpLeft => -1,
            Direction::UpRight => 1,
            Direction::DownLeft => -1,
            Direction::DownRight => 1,
        }
    }

    /// Change in rank ordinal for one step in this direction.
    pub open spec fn dr(self) -> int {
        match self {
            Direction::Up => 1,
            Direction::Down => -1,
            Direction::Left => 0,
            Direction::Right => 0,
            Direction::UpLeft => 1,
            Direction::UpRight => 1,
            Direction::DownLeft => -1,
            Direction::DownRight => -1,
        }
    }

    pub fn all() -> (r: Vec<Self>)
        ensures
            r@ == Self::all_spec(),
    {
        let mut v: Vec<Direction> = Vec::new();
        v.push(Direction::Up);
        v.push(Direction::Down);
        v.push(Direction::Left);
        v.push(Direction::Right);
        v.push(Direction::UpLeft);
        v.push(Direction::UpRight);
        v.push(Direction::DownLeft);
        v.push(Direction::DownRight);
        proof {
            assert(v@ =~= Self::all_spec());
        }
        v
    }

    pub open spec fn all_spec() -> Seq<Direction> {
        seq![
            Direction::Up,
            Direction::Down,
            Direction::Left,
            Direction::Right,
            Direction::UpLeft,
            Direction::UpRight,
            Direction::DownLeft,
            Direction::DownRight,
        ]
    }

    pub fn diagonals() -> (r: Vec<Self>)
        ensures
            r@ == Self::diagonals_spec(),
    {
        let mut v: Vec<Direction> = Vec::new();
        v.push(Direction::UpLeft);
        v.push(Direction::UpRight);
        v.push(Direction::DownLeft);
        v.push(Direction::DownRight);
        proof {
            assert(v@ =~= Self::diagonals_spec());
        }
        v
    }

    pub open spec fn diagonals_spec() -> Seq<Direction> {
        seq![Direction::UpLeft, Direction::UpRight, Direction::DownLeft, Direction::DownRight]
    }

    /// The eight two-step composites a knight jumps along.
    pub open spec fn knight_moves_spec() -> Seq<Seq<Direction>> {
        seq![
            seq![Direction::Up, Direction::UpLeft],
            seq![Direction::Up, Direction::UpRight],
            seq![Direction::Right, Direction::UpRight],
            seq![Direction::Right, Direction::DownRight],
            seq![Direction::Down, Direction::DownRight],
            seq![Direction::Down, Direction::DownLeft],
            seq![Direction::Left, Direction::DownLeft],
            seq![Direction::Left, Direction::UpLeft],
        ]
    }

    pub fn knight_moves() -> (r: Vec<Vec<Self>>)
        ensures
            r@.len() == 8,
            forall|i: int| 0 <= i < 8 ==> (#[trigger] r@[i])@ == Self::knight_moves_spec()[i],
    {
        let mut v: Vec<Vec<Direction>> = Vec::new();
        let mut m0: Vec<Direction> = Vec::new();
        m0.push(Direction::Up);
        m0.push(Direction::UpLeft);
        proof {
            assert(m0@ =~= Self::knight_moves_spec()[0]);
        }
        v.push(m0);
        let mut m1: Vec<Direction> = Vec::new();
        m1.push(Direction::Up);
        m1.push(Direction::UpRight);
        proof {
            assert(m1@ =~= Self::knight_moves_spec()[1]);
        }
        v.push(m1);
        let mut m2: Vec<Direction> = Vec::new();
        m2.push(Direction::Right);
        m2.push(Direction::UpRight);
        proof {
            assert(m2@ =~= Self::knight_moves_spec()[2]);
        }
        v.push(m2);
        let mut m3: Vec<Direction> = Vec::new();
        m3.push(Direction::Right);
        m3.push(Direction::DownRight);
        proof {
            assert(m3@ =~= Self::knight_moves_spec()[3]);
        }
        v.push(m3);
        let mut m4: Vec<Direction> = Vec::new();
        m4.push(Direction::Down);
        m4.push(Direction::DownRight);
        proof {
            assert(m4@ =~= Self::knight_moves_spec()[4]);
        }
        v.push(m4);
        let mut m5: Vec<Direction> = Vec::new();
        m5.push(Direction::Down);
        m5.push(Direction::DownLeft);
        proof {
            assert(m5@ =~= Self::knight_moves_spec()[5]);
        }
        v.push(m5);
        let mut m6: Vec<Direction> = Vec::new();
        m6.push(Direction::Left);
        m6.push(Direction::DownLeft);
        proof {
            assert(m6@ =~= Self::knight_moves_spec()[6]);
        }
        v.push(m6);
        let mut m7: Vec<Direction> = Vec::new();
        m7.push(Direction::Left);
        m7.push(Direction::UpLeft);
        proof {
            assert(m7@ =~= Self::knight_moves_spec()[7]);
        }
        v.push(m7);
        v
    }

    /// The direction a pawn of the given side advances in.
    pub open spec fn spec_forward(side: Side) -> Direction {
        match side {
            Side::White => Direction::Up,
            Side::Black => Direction::Down,
        }
    }

    pub fn get_forward(side: Side) -> (r: Self)
        ensures
            r == Self::spec_forward(side),
    {
        match side {
            Side::White => Direction::Up,
            Side::Black => Direction::Down,
        }
    }

    pub open spec fn spec_backward(side: Side) -> Direction {
        match side {
            Side::White => Direction::Down,
            Side::Black => Direction::Up,
        }
    }

    pub fn get_backward(side: Side) -> (r: Self)
        ensures
            r == Self::spec_backward(side),
    {
        match side {
            Side::White => Direction::Down,
            Side::Black => Direction::Up,
        }
    }

    /// The two capturing directions of a pawn of the given side.
    pub open spec fn spec_forward_diagonals(side: Side) -> (Direction, Direction) {
        match side {
            Side::White => (Direction::UpLeft, Direction::UpRight),
            Side::Black => (Direction::DownLeft, Direction::DownRight),
        }
    }

    pub fn get_forward_diagonals(side: Side) -> (r: (Self, Self))
        ensures
            r == Self::spec_forward_diagonals(side),
    {
        match side {
            Side::White => (Direction::UpLeft, Direction::UpRight),
            Side::Black => (Direction::DownLeft, Direction::DownRight),
        }
    }
}

} // verus!
