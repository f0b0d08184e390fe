use vstd::prelude::*;

use vstd::string::StrSliceExecFns;
use vstd::string::StringExecFns;

use crate::bitboard::Bitboard;
use crate::board::Board;
use crate::coords::File;
use crate::coords::Rank;
use crate::coords::Side;
use crate::paths::Path;
use crate::squares::Move;
use crate::squares::Square;

verus! {

/// The horizontal border line of the ASCII board.
pub open spec fn border_chars() -> Seq<char> {
    "+---+---+---+---+---+---+---+---+\n"@
}

/// The file shown in the `i`-th column, from the given side's seat.
pub open spec fn file_at(side: Side, i: int) -> File {
    match side {
        Side::White => File::spec_from_int(i),
        Side::Black => File::spec_from_int(7 - i),
    }
}

/// The rank shown in the `i`-th row, from the given side's seat.
pub open spec fn rank_at(side: Side, i: int) -> Rank {
    match side {
        Side::White => Rank::spec_from_int(7 - i),
        Side::Black => Rank::spec_from_int(i),
    }
}

/// One cell of the printed board: a blank for an empty square, else the
/// piece's letter in its side's color.
pub open spec fn cell_chars(b: Board, s: Square) -> Seq<char> {
    match b.spec_get(s) {
        None => seq![' '],
        Some((side, piece)) => side.spec_color_of_side().spec_format(seq![piece.spec_char()]),
    }
}

/// The rest of one printed row, from column `i` on.
pub open spec fn row_from(b: Board, side: Side, r: Rank, i: int) -> Seq<char>
    decreases 8 - i,
{
    if i >= 8 {
        seq!['|', '\n']
    } else {
        seq!['|', ' '] + cell_chars(b, Square(file_at(side, i), r)) + seq![' '] + row_from(
            b,
            side,
            r,
            i + 1,
        )
    }
}

/// The printed rows from the `i`-th downward, each closed with a border.
pub open spec fn rows_from(b: Board, side: Side, i: int) -> Seq<char>
    decreases 8 - i,
{
    if i >= 8 {
        Seq::empty()
    } else {
        row_from(b, side, rank_at(side, i), 0) + border_chars() + rows_from(b, side, i + 1)
    }
}

/// The whole printed board from one side's seat.
pub open spec fn spec_pretty(b: Board, side: Side) -> Seq<char> {
    border_chars() + rows_from(b, side, 0)
}

impl Board {
    /// The ASCII board from White's seat.
    pub fn pretty_print(&self) -> (r: String)
        requires
            self.wf(),
        ensures
            r@ == spec_pretty(*self, Side::White),
    {
        self.pretty_print_from_perspective(Side::White)
    }

    /// The ASCII board as the given side sees it: its own home rank at
    /// the bottom.
    #[verifier::rlimit(60)]
    pub fn pretty_print_from_perspective(&self, side: Side) -> (r: String)
        requires
            self.wf(),
        ensures
            r@ == spec_pretty(*self, side),
    {
        let mut out = "+---+---+---+---+---+---+---+---+\n".to_owned();
        let mut i: usize = 0;
        while i < 8
            invariant
                self.wf(),
                i <= 8,
                out@ + rows_from(*self, side, i as int) == spec_pretty(*self, side),
            decreases 8 - i,
        {
            let rank = match side {
                Side::White => Rank::from_u64(7 - (i as u64)),
                Side::Black => Rank::from_u64(i as u64),
            };
            let ghost row_base = out@;
            let mut j: usize = 0;
            while j < 8
                invariant
                    self.wf(),
                    i < 8,
                    j <= 8,
                    rank == rank_at(side, i as int),
                    out@ + row_from(*self, side, rank, j as int) == row_base + row_from(
                        *self,
                        side,
                        rank,
                        0,
                    ),
                decreases 8 - j,
            {
                let file = match side {
                    Side::White => File::from_u64(j as u64),
                    Side::Black => File::from_u64(7 - (j as u64)),
                };
                proof {
                    assert(file == file_at(side, j as int));
                }
                out.push('|');
                out.push(' ');
                match self.get(Square(file, rank)) {
                    None => {
                        out.push(' ');
                    },
                    Some((s2, piece)) => {
                        out.append(s2.colorize(piece.to_string()).as_str());
                    },
                }
                out.push(' ');
                proof {
                    assert(out@ + row_from(*self, side, rank, j + 1) =~= row_base + row_from(
                        *self,
                        side,
                        rank,
                        0,
                    ));
                }
                j = j + 1;
            }
            out.push('|');
            out.push('\n');
            proof {
                assert(row_from(*self, side, rank, 8) =~= seq!['|', '\n']);
                assert(out@ =~= row_base + row_from(*self, side, rank, 0));
            }
            out.append("+---+---+---+---+---+---+---+---+\n");
            proof {
                assert(out@ + rows_from(*self, side, i + 1) =~= row_base + rows_from(
                    *self,
                    side,
                    i as int,
                ));
            }
            i = i + 1;
        }
        proof {
            assert(rows_from(*self, side, 8) =~= Seq::<char>::empty());
            assert(out@ + rows_from(*self, side, 8) =~= out@);
        }
        out
    }
}

/// The rest of one printed bitboard row, from column `i` on: a hash for a
/// member square, a blank otherwise.
pub open spec fn bb_row_from(b: Bitboard, r: Rank, i: int) -> Seq<char>
    decreases 8 - i,
{
    if i >= 8 {
        seq!['|', '\n']
    } else {
        seq!['|', ' '] + (if b.spec_contains(Square(File::spec_from_int(i), r)) {
            seq!['#']
        } else {
            seq![' ']
        }) + seq![' '] + bb_row_from(b, r, i + 1)
    }
}

/// The printed bitboard rows from the `i`-th downward, rank 8 at the top.
pub open spec fn bb_rows_from(b: Bitboard, i: int) -> Seq<char>
    decreases 8 - i,
{
    if i >= 8 {
        Seq::empty()
    } else {
        bb_row_from(b, Rank::spec_from_int(7 - i), 0) + border_chars() + bb_rows_from(b, i + 1)
    }
}

/// The whole printed bitboard grid.
pub open spec fn spec_bb_print(b: Bitboard) -> Seq<char> {
    border_chars() + bb_rows_from(b, 0)
}

impl Bitboard {
    /// An ASCII grid of the set, rank 8 at the top, members marked '#'.
    #[verifier::rlimit(60)]
    pub fn print(&self) -> (r: String)
        ensures
            r@ == spec_bb_print(*self),
    {
        let mut out = "+---+---+---+---+---+---+---+---+\n".to_owned();
        let mut i: usize = 0;
        while i < 8
            invariant
                i <= 8,
                out@ + bb_rows_from(*self, i as int) == spec_bb_print(*self),
            decreases 8 - i,
        {
            let rank = Rank::from_u64(7 - (i as u64));
            let ghost row_base = out@;
            let mut j: usize = 0;
            while j < 8
                invariant
                    i < 8,
                    j <= 8,
                    rank == Rank::spec_from_int(7 - i as int),
                    out@ + bb_row_from(*self, rank, j as int) == row_base + bb_row_from(
                        *self,
                        rank,
                        0,
                    ),
                decreases 8 - j,
            {
                let file = File::from_u64(j as u64);
                out.push('|');
                out.push(' ');
                if self.contains(Square(file, rank)) {
                    out.push('#');
                } else {
                    out.push(' ');
                }
                out.push(' ');
                proof {
                    assert(out@ + bb_row_from(*self, rank, j + 1) =~= row_base + bb_row_from(
                        *self,
                        rank,
                        0,
                    ));
                }
                j = j + 1;
            }
            out.push('|');
            out.push('\n');
            proof {
                assert(bb_row_from(*self, rank, 8) =~= seq!['|', '\n']);
                assert(out@ =~= row_base + bb_row_from(*self, rank, 0));
            }
            out.append("+---+---+---+---+---+---+---+---+\n");
            proof {
                assert(out@ + bb_rows_from(*self, i + 1) =~= row_base + bb_rows_from(
                    *self,
                    i as int,
                ));
            }
            i = i + 1;
        }
        proof {
            assert(bb_rows_from(*self, 8) =~= Seq::<char>::empty());
            assert(out@ + bb_rows_from(*self, 8) =~= out@);
        }
        out
    }
}

impl Board {
    /// Each walk move is printable where it is played, and legal.
    pub open spec fn spec_walk_strings_ok(self, ms: Seq<Move>) -> bool
        decreases ms.len(),
    {
        if ms.len() == 0 {
            true
        } else {
            &&& self.spec_move_string_ok(ms[0])
            &&& self.spec_occupied(ms[0].0)
            &&& self.spec_legal_moves(ms[0].0).contains(ms[0])
            &&& self.spec_force_make(ms[0]).spec_walk_strings_ok(ms.subrange(1, ms.len() as int))
        }
    }

    /// The walk's move strings, written against the successive positions
    /// and joined with commas.
    pub open spec fn spec_walk_strings(self, ms: Seq<Move>) -> Seq<char>
        decreases ms.len(),
    {
        if ms.len() == 0 {
            Seq::empty()
        } else if ms.len() == 1 {
            self.spec_move_string(ms[0])
        } else {
            self.spec_move_string(ms[0]) + seq![','] + self.spec_force_make(
                ms[0],
            ).spec_walk_strings(ms.subrange(1, ms.len() as int))
        }
    }
}

impl Path {
    /// The walk's moves in algebraic notation, comma separated, each
    /// written against the position it is played from.
    pub fn to_move_strings(&self, board: &Board) -> (r: String)
        requires
            board.wf(),
            board.spec_walk_strings_ok(self.moves()),
        ensures
            r@ == board.spec_walk_strings(self.moves()),
    {
        let mut temp_board = board.clone();
        let mut out = String::new();
        let mut i: usize = 0;
        proof {
            assert(self.0@.skip(0) =~= self.0@);
            assert(out@ + Seq::<char>::empty() + board.spec_walk_strings(self.0@)
                =~= board.spec_walk_strings(self.0@));
        }
        while i < self.0.len()
            invariant
                i <= self.0@.len(),
                temp_board.wf(),
                temp_board.spec_walk_strings_ok(self.0@.skip(i as int)),
                board.spec_walk_strings(self.0@) == out@ + (if i == 0 || i
                    == self.0@.len() as int {
                    Seq::<char>::empty()
                } else {
                    seq![',']
                }) + temp_board.spec_walk_strings(self.0@.skip(i as int)),
            decreases self.0@.len() - i,
        {
            let m = self.0[i];
            let ghost rem = self.0@.skip(i as int);
            proof {
                assert(rem[0] == self.0@[i as int]);
                assert(rem.subrange(1, rem.len() as int) =~= self.0@.skip(i + 1));
            }
            if i > 0 {
                out.push(',');
            }
            out.append(temp_board.get_move_string(m).as_str());
            temp_board.make_move(m);
            proof {
                assert(board.spec_walk_strings(self.0@) =~= out@ + (if i + 1 == 0 || i + 1
                    == self.0@.len() as int {
                    Seq::<char>::empty()
                } else {
                    seq![',']
                }) + temp_board.spec_walk_strings(self.0@.skip(i + 1)));
            }
            i = i + 1;
        }
        proof {
            assert(self.0@.skip(self.0@.len() as int) =~= Seq::<Move>::empty());
            assert(board.spec_walk_strings(self.0@) =~= out@);
        }
        out
    }
}

} // verus!
