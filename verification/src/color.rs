use vstd::prelude::*;

use vstd::string::StrSliceExecFns;
use vstd::string::StringExecFns;

use crate::coords::Side;

verus! {

/// The terminal colors the board printer uses.
#[derive(Debug, PartialEq, Eq, Structural, Copy, Clone)]
pub enum Color {
    White,
    Red,
    Green,
}

impl Color {
    /// The escape code that switches the terminal to this color.
    pub open spec fn spec_code(self) -> Seq<char> {
        match self {
            Color::White => "\x1b[37m"@,
            Color::Red => "\x1b[31m"@,
            Color::Green => "\x1b[32m"@,
        }
    }

    /// The escape code that restores the terminal's own color.
    pub open spec fn spec_reset() -> Seq<char> {
        "\x1b[0m"@
    }

    /// The text wrapped in this color's escape codes.
    pub open spec fn spec_format(self, s: Seq<char>) -> Seq<char> {
        self.spec_code() + s + Self::spec_reset()
    }

    pub fn format(&self, s: String) -> (r: String)
        ensures
            r@ == self.spec_format(s@),
    {
        let code: &str = match self {
            Color::White => "\x1b[37m",
            Color::Red => "\x1b[31m",
            Color::Green => "\x1b[32m",
        };
        let mut out = code.to_owned();
        out.append(s.as_str());
        out.append("\x1b[0m");
        proof {
            assert(out@ =~= self.spec_format(s@));
        }
        out
    }
}

impl Side {
    /// The color this side's pieces are printed in.
    pub open spec fn spec_color_of_side(self) -> Color {
        match self {
            Side::White => Color::White,
            Side::Black => Color::Red,
        }
    }

    /// The text wrapped in the side's display color.
    pub fn colorize(&self, s: String) -> (r: String)
        ensures
            r@ == self.spec_color_of_side().spec_format(s@),
    {
        let color = match self {
            Side::White => Color::White,
            Side::Black => Color::Red,
        };
        color.format(s)
    }

    pub open spec fn spec_name(self) -> Seq<char> {
        match self {
            Side::White => "White"@,
            Side::Black => "Black"@,
        }
    }

    pub fn to_string(&self) -> (r: String)
        ensures
            r@ == self.spec_name(),
    {
        match self {
            Side::White => "White".to_owned(),
            Side::Black => "Black".to_owned(),
        }
    }
}

} // verus!
