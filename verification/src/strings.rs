use vstd::prelude::*;

use vstd::string::StrSliceExecFns;
use vstd::string::StringExecFns;

use crate::coords::File;
use crate::coords::Piece;
use crate::coords::Rank;
use crate::coords::SquareColor;
use crate::squares::Move;
use crate::squares::Square;

verus! {

/// The layout characters stripped from square lists before parsing.
pub open spec fn is_layout_char(c: char) -> bool {
    c == '\n' || c == '\t' || c == ' '
}

/// The characters stripped from move lists: layout plus the capture,
/// check and mate marks of algebraic notation.
pub open spec fn is_move_mark(c: char) -> bool {
    is_layout_char(c) || c == 'x' || c == '+' || c == '#'
}

/// The pieces of a character sequence between its commas, in order; a
/// sequence without commas is one piece, and each comma adds one.
pub open spec fn split_commas(s: Seq<char>) -> Seq<Seq<char>>
    decreases s.len(),
{
    if s.len() == 0 {
        seq![s]
    } else if s[0] == ',' {
        seq![Seq::<char>::empty()] + split_commas(s.skip(1))
    } else {
        let rest = split_commas(s.skip(1));
        seq![seq![s[0]] + rest[0]] + rest.skip(1)
    }
}

/// Splitting always yields at least one piece.
pub proof fn lemma_split_nonempty(s: Seq<char>)
    ensures
        split_commas(s).len() >= 1,
    decreases s.len(),
{
    if s.len() > 0 {
        lemma_split_nonempty(s.skip(1));
    }
}

/// The sequence without its layout characters.
pub open spec fn strip_layout(s: Seq<char>) -> Seq<char> {
    s.filter(|c: char| !is_layout_char(c))
}

/// The sequence without layout characters nor the x, + and # marks.
pub open spec fn strip_move_marks(s: Seq<char>) -> Seq<char> {
    s.filter(|c: char| !is_move_mark(c))
}

/// The views of a list of owned strings.
pub open spec fn string_views(ts: Seq<String>) -> Seq<Seq<char>> {
    Seq::new(ts.len(), |i: int| ts[i]@)
}

/// The string without its layout characters.
fn strip_layout_exec(s: &str) -> (r: String)
    ensures
        r@ == strip_layout(s@),
{
    let n = s.unicode_len();
    let mut cleaned = String::new();
    let mut i: usize = 0;
    while i < n
        invariant
            n == s@.len(),
            i <= n,
            cleaned@ == strip_layout(s@.take(i as int)),
        decreases n - i,
    {
        let c = s.get_char(i);
        proof {
            assert(s@.take(i + 1).drop_last() =~= s@.take(i as int));
            assert(s@.take(i + 1).last() == s@[i as int]);
            reveal_with_fuel(Seq::filter, 2);
        }
        if !(c == '\n' || c == '\t' || c == ' ') {
            cleaned.push(c);
        }
        i = i + 1;
    }
    proof {
        assert(s@.take(n as int) =~= s@);
    }
    cleaned
}

/// The string without layout characters nor the x, + and # marks.
fn strip_marks_exec(s: &str) -> (r: String)
    ensures
        r@ == strip_move_marks(s@),
{
    let n = s.unicode_len();
    let mut cleaned = String::new();
    let mut i: usize = 0;
    while i < n
        invariant
            n == s@.len(),
            i <= n,
            cleaned@ == strip_move_marks(s@.take(i as int)),
        decreases n - i,
    {
        let c = s.get_char(i);
        proof {
            assert(s@.take(i + 1).drop_last() =~= s@.take(i as int));
            assert(s@.take(i + 1).last() == s@[i as int]);
            reveal_with_fuel(Seq::filter, 2);
        }
        if !(c == '\n' || c == '\t' || c == ' ' || c == 'x' || c == '+' || c == '#') {
            cleaned.push(c);
        }
        i = i + 1;
    }
    proof {
        assert(s@.take(n as int) =~= s@);
    }
    cleaned
}

/// Cut a string apart at its commas.
fn split_commas_exec(cleaned: &str) -> (r: Vec<String>)
    ensures
        string_views(r@) == split_commas(cleaned@),
{
    let cn = cleaned.unicode_len();
    let ghost cs = cleaned@;
    let mut tokens: Vec<String> = Vec::new();
    let mut cur = String::new();
    proof {
        lemma_split_nonempty(cs);
        assert(cs.skip(0) =~= cs);
        assert(split_commas(cs) =~= seq![split_commas(cs)[0]] + split_commas(cs).skip(1));
        assert(cur@ + split_commas(cs)[0] =~= split_commas(cs)[0]);
        assert(string_views(tokens@) =~= Seq::<Seq<char>>::empty());
        assert(split_commas(cs) =~= string_views(tokens@) + seq![
            cur@ + split_commas(cs.skip(0))[0],
        ] + split_commas(cs.skip(0)).skip(1));
    }
    let mut j: usize = 0;
    while j < cn
        invariant
            cn == cs.len(),
            cleaned@ == cs,
            j <= cn,
            split_commas(cs) == string_views(tokens@) + seq![
                cur@ + split_commas(cs.skip(j as int))[0],
            ] + split_commas(cs.skip(j as int)).skip(1),
        decreases cn - j,
    {
        let c = cleaned.get_char(j);
        let ghost rem = cs.skip(j as int);
        let ghost rem2 = cs.skip(j + 1);
        proof {
            lemma_split_nonempty(rem2);
            assert(rem[0] == cs[j as int]);
            assert(rem.skip(1) =~= rem2);
        }
        if c == ',' {
            let done = cur;
            cur = String::new();
            let ghost done_view = done@;
            tokens.push(done);
            proof {
                assert(split_commas(rem) == seq![Seq::<char>::empty()] + split_commas(rem2));
                assert(split_commas(rem)[0] =~= Seq::<char>::empty());
                assert(done_view + split_commas(rem)[0] =~= done_view);
                assert(string_views(tokens@) =~= string_views(tokens@.drop_last()) + seq![
                    done_view,
                ]);
                assert(split_commas(rem2) =~= seq![split_commas(rem2)[0]] + split_commas(
                    rem2,
                ).skip(1));
                assert(split_commas(rem).skip(1) =~= split_commas(rem2));
                assert(cur@ + split_commas(rem2)[0] =~= split_commas(rem2)[0]);
                assert(split_commas(cs) =~= string_views(tokens@) + seq![
                    cur@ + split_commas(rem2)[0],
                ] + split_commas(rem2).skip(1));
            }
        } else {
            proof {
                assert(split_commas(rem) == seq![seq![cs[j as int]] + split_commas(rem2)[0]]
                    + split_commas(rem2).skip(1));
                assert(split_commas(rem)[0] == seq![cs[j as int]] + split_commas(rem2)[0]);
                assert(split_commas(rem).skip(1) =~= split_commas(rem2).skip(1));
            }
            let ghost cur_old = cur@;
            cur.push(c);
            proof {
                assert(cur@ + split_commas(rem2)[0] =~= cur_old + split_commas(rem)[0]);
                assert(split_commas(cs) =~= string_views(tokens@) + seq![
                    cur@ + split_commas(rem2)[0],
                ] + split_commas(rem2).skip(1));
            }
        }
        j = j + 1;
    }
    proof {
        assert(cs.skip(cn as int) =~= Seq::<char>::empty());
        assert(split_commas(Seq::<char>::empty()) == seq![Seq::<char>::empty()]);
        assert(cur@ + split_commas(cs.skip(cn as int))[0] =~= cur@);
    }
    let ghost cur_view = cur@;
    tokens.push(cur);
    proof {
        assert(string_views(tokens@) =~= string_views(tokens@.drop_last()) + seq![cur_view]);
        assert(split_commas(cs.skip(cn as int)).skip(1) =~= Seq::<Seq<char>>::empty());
        assert(string_views(tokens@) =~= split_commas(cs));
    }
    tokens
}

/// What a two-character token names, if it is a well-formed square name.
pub open spec fn spec_token_square(t: Seq<char>) -> Option<Square> {
    if t.len() == 2 && File::spec_is_file_char(t[0]) && Rank::spec_is_rank_char(t[1]) {
        Some(Square(File::spec_from_char(t[0]), Rank::spec_from_char(t[1])))
    } else {
        None
    }
}

impl Square {
    /// Parse a square name such as "e4"; malformed names are errors.
    pub fn try_parse(s: &str) -> (r: Result<Self, String>)
        ensures
            r is Ok <==> spec_token_square(s@) is Some,
            r is Ok ==> r->Ok_0 == spec_token_square(s@)->Some_0,
    {
        let n = s.unicode_len();
        if n != 2 {
            return Err("A square name is two characters long.".to_owned());
        }
        let file_char = s.get_char(0);
        let rank_char = s.get_char(1);
        if !File::is_file_char(file_char) {
            return Err("A square name starts with a file letter.".to_owned());
        }
        if !Rank::is_rank_char(rank_char) {
            return Err("A square name ends with a rank digit.".to_owned());
        }
        Ok(Square(File::from_char(file_char), Rank::from_char(rank_char)))
    }

    /// Parse a square name known to be well formed.
    pub fn from_string(s: &str) -> (r: Self)
        requires
            spec_token_square(s@) is Some,
        ensures
            r == spec_token_square(s@)->Some_0,
    {
        Self::try_parse(s).unwrap()
    }

    /// Parse a comma-separated list of square names, ignoring whitespace;
    /// the first malformed name is the error.
    pub fn squares_from_string(s: String) -> (r: Result<Vec<Self>, String>)
        ensures
            ({
                let toks = split_commas(strip_layout(s@));
                &&& (r is Ok <==> (forall|i: int|
                    0 <= i < toks.len() ==> spec_token_square(#[trigger] toks[i]) is Some))
                &&& (r is Ok ==> r->Ok_0@.len() == toks.len() && (forall|i: int|
                    0 <= i < toks.len() ==> r->Ok_0@[i] == spec_token_square(
                        #[trigger] toks[i],
                    )->Some_0))
            }),
    {
        let ghost toks = split_commas(strip_layout(s@));
        let cleaned = strip_layout_exec(s.as_str());
        let tokens = split_commas_exec(cleaned.as_str());
        proof {
            assert(string_views(tokens@) == toks);
        }
        let mut out: Vec<Square> = Vec::new();
        let mut i: usize = 0;
        while i < tokens.len()
            invariant
                toks == split_commas(strip_layout(s@)),
                string_views(tokens@) == toks,
                tokens@.len() == toks.len(),
                i <= toks.len(),
                out@.len() == i,
                forall|j: int| 0 <= j < i ==> spec_token_square(#[trigger] toks[j]) is Some,
                forall|j: int|
                    0 <= j < i ==> out@[j] == spec_token_square(#[trigger] toks[j])->Some_0,
            decreases toks.len() - i,
        {
            proof {
                assert(toks[i as int] == tokens@[i as int]@);
            }
            match Self::try_parse(tokens[i].as_str()) {
                Ok(sq) => {
                    out.push(sq);
                },
                Err(e) => {
                    proof {
                        assert(spec_token_square(toks[i as int]) is None);
                        assert(!(forall|k: int|
                            0 <= k < toks.len() ==> spec_token_square(#[trigger] toks[k])
                                is Some));
                    }
                    return Err(e);
                },
            }
            i = i + 1;
        }
        Ok(out)
    }

    /// The square names joined with commas: "a8,f6,h1".
    pub open spec fn spec_squares_join(v: Seq<Square>) -> Seq<char>
        decreases v.len(),
    {
        if v.len() == 0 {
            Seq::empty()
        } else if v.len() == 1 {
            v[0].spec_chars()
        } else {
            Self::spec_squares_join(v.drop_last()) + seq![','] + v.last().spec_chars()
        }
    }

    pub fn squares_to_string(squares: Vec<Square>) -> (r: String)
        ensures
            r@ == Self::spec_squares_join(squares@),
    {
        let mut out = String::new();
        let mut i: usize = 0;
        while i < squares.len()
            invariant
                i <= squares@.len(),
                out@ == Self::spec_squares_join(squares@.take(i as int)),
            decreases squares@.len() - i,
        {
            proof {
                assert(squares@.take(i + 1).drop_last() =~= squares@.take(i as int));
                assert(squares@.take(i + 1).last() == squares@[i as int]);
                assert(squares@.take(i + 1)[0] == squares@[0]);
            }
            if i > 0 {
                out.push(',');
            }
            out.append(squares[i].to_string().as_str());
            proof {
                assert(out@ =~= Self::spec_squares_join(squares@.take(i + 1)));
            }
            i = i + 1;
        }
        proof {
            assert(squares@.take(squares@.len() as int) =~= squares@);
        }
        out
    }
}

impl Move {
    /// Cut a comma-separated list of move strings apart, dropping
    /// whitespace and the x, + and # marks.
    pub fn parse_move_strings(s: String) -> (r: Vec<String>)
        ensures
            string_views(r@) == split_commas(strip_move_marks(s@)),
    {
        let cleaned = strip_marks_exec(s.as_str());
        split_commas_exec(cleaned.as_str())
    }
}

/// Lower-case folding for the ASCII letters; everything else is unchanged.
pub open spec fn spec_lower(c: char) -> char {
    if c == 'A' {
        'a'
    } else if c == 'B' {
        'b'
    } else if c == 'C' {
        'c'
    } else if c == 'D' {
        'd'
    } else if c == 'E' {
        'e'
    } else if c == 'F' {
        'f'
    } else if c == 'G' {
        'g'
    } else if c == 'H' {
        'h'
    } else if c == 'I' {
        'i'
    } else if c == 'J' {
        'j'
    } else if c == 'K' {
        'k'
    } else if c == 'L' {
        'l'
    } else if c == 'M' {
        'm'
    } else if c == 'N' {
        'n'
    } else if c == 'O' {
        'o'
    } else if c == 'P' {
        'p'
    } else if c == 'Q' {
        'q'
    } else if c == 'R' {
        'r'
    } else if c == 'S' {
        's'
    } else if c == 'T' {
        't'
    } else if c == 'U' {
        'u'
    } else if c == 'V' {
        'v'
    } else if c == 'W' {
        'w'
    } else if c == 'X' {
        'x'
    } else if c == 'Y' {
        'y'
    } else if c == 'Z' {
        'z'
    } else {
        c
    }
}

fn lower_char(c: char) -> (r: char)
    ensures
        r == spec_lower(c),
{
    match c {
        'A' => 'a',
        'B' => 'b',
        'C' => 'c',
        'D' => 'd',
        'E' => 'e',
        'F' => 'f',
        'G' => 'g',
        'H' => 'h',
        'I' => 'i',
        'J' => 'j',
        'K' => 'k',
        'L' => 'l',
        'M' => 'm',
        'N' => 'n',
        'O' => 'o',
        'P' => 'p',
        'Q' => 'q',
        'R' => 'r',
        'S' => 's',
        'T' => 't',
        'U' => 'u',
        'V' => 'v',
        'W' => 'w',
        'X' => 'x',
        'Y' => 'y',
        'Z' => 'z',
        _ => c,
    }
}

/// The sequence folded to lower case, character by character.
pub open spec fn spec_lower_seq(s: Seq<char>) -> Seq<char> {
    s.map_values(|c: char| spec_lower(c))
}

fn lower_string(s: &str) -> (r: String)
    ensures
        r@ == spec_lower_seq(s@),
{
    let n = s.unicode_len();
    let mut out = String::new();
    let mut i: usize = 0;
    while i < n
        invariant
            n == s@.len(),
            i <= n,
            out@ == spec_lower_seq(s@.take(i as int)),
        decreases n - i,
    {
        out.push(lower_char(s.get_char(i)));
        proof {
            assert(out@ =~= spec_lower_seq(s@.take(i + 1)));
        }
        i = i + 1;
    }
    proof {
        assert(s@.take(n as int) =~= s@);
    }
    out
}

fn str_matches(a: &str, b: &str) -> (r: bool)
    ensures
        r == (a@ == b@),
{
    let n = a.unicode_len();
    if n != b.unicode_len() {
        return false;
    }
    let mut i: usize = 0;
    while i < n
        invariant
            n == a@.len(),
            a@.len() == b@.len(),
            i <= n,
            forall|j: int| 0 <= j < i ==> a@[j] == b@[j],
        decreases n - i,
    {
        if a.get_char(i) != b.get_char(i) {
            return false;
        }
        i = i + 1;
    }
    proof {
        assert(a@ =~= b@);
    }
    true
}

impl SquareColor {
    /// The shade a word names, case-insensitively: "white" and "light"
    /// are the light shade, "black" and "dark" the dark one.
    pub open spec fn spec_parse(s: Seq<char>) -> Option<SquareColor> {
        let l = spec_lower_seq(s);
        if l == seq!['w', 'h', 'i', 't', 'e'] || l == seq!['l', 'i', 'g', 'h', 't'] {
            Some(SquareColor::Light)
        } else if l == seq!['b', 'l', 'a', 'c', 'k'] || l == seq!['d', 'a', 'r', 'k'] {
            Some(SquareColor::Dark)
        } else {
            None
        }
    }

    pub fn try_parse(s: String) -> (r: Result<Self, String>)
        ensures
            r is Ok <==> Self::spec_parse(s@) is Some,
            r is Ok ==> r->Ok_0 == Self::spec_parse(s@)->Some_0,
    {
        let low = lower_string(s.as_str());
        proof {
            reveal_strlit("white");
            reveal_strlit("light");
            reveal_strlit("black");
            reveal_strlit("dark");
            assert("white"@ =~= seq!['w', 'h', 'i', 't', 'e']);
            assert("light"@ =~= seq!['l', 'i', 'g', 'h', 't']);
            assert("black"@ =~= seq!['b', 'l', 'a', 'c', 'k']);
            assert("dark"@ =~= seq!['d', 'a', 'r', 'k']);
        }
        if str_matches(low.as_str(), "white") || str_matches(low.as_str(), "light") {
            Ok(SquareColor::Light)
        } else if str_matches(low.as_str(), "black") || str_matches(low.as_str(), "dark") {
            Ok(SquareColor::Dark)
        } else {
            Err("That is not a valid square color.".to_owned())
        }
    }
}

/// Upper-case folding for the ASCII letters; everything else is unchanged.
pub open spec fn spec_upper(c: char) -> char {
    if c == 'a' {
        'A'
    } else if c == 'b' {
        'B'
    } else if c == 'c' {
        'C'
    } else if c == 'd' {
        'D'
    } else if c == 'e' {
        'E'
    } else if c == 'f' {
        'F'
    } else if c == 'g' {
        'G'
    } else if c == 'h' {
        'H'
    } else if c == 'i' {
        'I'
    } else if c == 'j' {
        'J'
    } else if c == 'k' {
        'K'
    } else if c == 'l' {
        'L'
    } else if c == 'm' {
        'M'
    } else if c == 'n' {
        'N'
    } else if c == 'o' {
        'O'
    } else if c == 'p' {
        'P'
    } else if c == 'q' {
        'Q'
    } else if c == 'r' {
        'R'
    } else if c == 's' {
        'S'
    } else if c == 't' {
        'T'
    } else if c == 'u' {
        'U'
    } else if c == 'v' {
        'V'
    } else if c == 'w' {
        'W'
    } else if c == 'x' {
        'X'
    } else if c == 'y' {
        'Y'
    } else if c == 'z' {
        'Z'
    } else {
        c
    }
}

fn upper_char(c: char) -> (r: char)
    ensures
        r == spec_upper(c),
{
    match c {
        'a' => 'A',
        'b' => 'B',
        'c' => 'C',
        'd' => 'D',
        'e' => 'E',
        'f' => 'F',
        'g' => 'G',
        'h' => 'H',
        'i' => 'I',
        'j' => 'J',
        'k' => 'K',
        'l' => 'L',
        'm' => 'M',
        'n' => 'N',
        'o' => 'O',
        'p' => 'P',
        'q' => 'Q',
        'r' => 'R',
        's' => 'S',
        't' => 'T',
        'u' => 'U',
        'v' => 'V',
        'w' => 'W',
        'x' => 'X',
        'y' => 'Y',
        'z' => 'Z',
        _ => c,
    }
}

/// The sequence folded to upper case, character by character.
pub open spec fn spec_upper_seq(s: Seq<char>) -> Seq<char> {
    s.map_values(|c: char| spec_upper(c))
}

fn upper_string(s: &str) -> (r: String)
    ensures
        r@ == spec_upper_seq(s@),
{
    let n = s.unicode_len();
    let mut out = String::new();
    let mut i: usize = 0;
    while i < n
        invariant
            n == s@.len(),
            i <= n,
            out@ == spec_upper_seq(s@.take(i as int)),
        decreases n - i,
    {
        out.push(upper_char(s.get_char(i)));
        proof {
            assert(out@ =~= spec_upper_seq(s@.take(i + 1)));
        }
        i = i + 1;
    }
    proof {
        assert(s@.take(n as int) =~= s@);
    }
    out
}

impl Piece {
    /// The piece a word names after upper-casing: the empty string is an
    /// error, "KNIGHT" is the knight, and any other word is read by its
    /// first letter.
    pub open spec fn spec_parse(s: Seq<char>) -> Option<Piece> {
        let u = spec_upper_seq(s);
        if s.len() == 0 {
            None
        } else if u == seq!['K', 'N', 'I', 'G', 'H', 'T'] {
            Some(Piece::Knight)
        } else if Piece::spec_is_piece_char(u[0]) {
            Some(Piece::spec_from_char(u[0]))
        } else {
            None
        }
    }

    pub fn try_parse(s: String) -> (r: Result<Self, String>)
        ensures
            r is Ok <==> Self::spec_parse(s@) is Some,
            r is Ok ==> r->Ok_0 == Self::spec_parse(s@)->Some_0,
    {
        let up = upper_string(s.as_str());
        proof {
            reveal_strlit("KNIGHT");
            assert("KNIGHT"@ =~= seq!['K', 'N', 'I', 'G', 'H', 'T']);
        }
        if s.as_str().unicode_len() == 0 {
            return Err("Expected a piece but got an empty string.".to_owned());
        }
        if str_matches(up.as_str(), "KNIGHT") {
            return Ok(Piece::Knight);
        }
        let c = up.as_str().get_char(0);
        if Piece::is_piece_char(c) {
            Ok(Piece::from_char(c))
        } else {
            Err("That is not a valid piece.".to_owned())
        }
    }
}

} // verus!
