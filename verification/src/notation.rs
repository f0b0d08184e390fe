use vstd::prelude::*;

use vstd::string::StrSliceExecFns;
use vstd::string::StringExecFns;

use crate::bitboard::Bitboard;
use crate::bitboard::asc_squares;
use crate::bitboard::lemma_asc_matches_bitboard;
use crate::board::Board;
use crate::coords::Direction;
use crate::coords::File;
use crate::coords::Piece;
use crate::coords::Rank;
use crate::coords::Side;
use crate::squares::Castle;
use crate::squares::Move;
use crate::squares::Square;
use crate::vision::is_king_step;
use crate::vision::is_knight_jump;
use crate::vision::pawn_dir;

verus! {

/// The upper-case letters naming a piece in a notation string.
pub open spec fn is_piece_letter(c: char) -> bool {
    c == 'N' || c == 'B' || c == 'R' || c == 'Q' || c == 'K'
}

fn piece_letter(c: char) -> (r: bool)
    ensures
        r == is_piece_letter(c),
{
    match c {
        'N' | 'B' | 'R' | 'Q' | 'K' => true,
        _ => false,
    }
}

/// A plain pawn destination such as "e5".
pub open spec fn is_forward_pawn_str(s: Seq<char>) -> bool {
    s.len() == 2 && File::spec_is_file_char(s[0]) && Rank::spec_is_rank_char(s[1])
}

/// A pawn capture naming its source file, such as "fe4".
pub open spec fn is_dis_pawn_str(s: Seq<char>) -> bool {
    s.len() == 3 && File::spec_is_file_char(s[0]) && File::spec_is_file_char(s[1])
        && Rank::spec_is_rank_char(s[2])
}

/// A piece move such as "Nf3".
pub open spec fn is_piece_str(s: Seq<char>) -> bool {
    s.len() == 3 && is_piece_letter(s[0]) && File::spec_is_file_char(s[1])
        && Rank::spec_is_rank_char(s[2])
}

/// A disambiguated piece move such as "Rab8" or "Q4d4".
pub open spec fn is_dis_piece_str(s: Seq<char>) -> bool {
    s.len() == 4 && is_piece_letter(s[0]) && (File::spec_is_file_char(s[1])
        || Rank::spec_is_rank_char(s[1])) && File::spec_is_file_char(s[2])
        && Rank::spec_is_rank_char(s[3])
}

pub open spec fn castle_kingside_str() -> Seq<char> {
    seq!['O', '-', 'O']
}

pub open spec fn castle_queenside_str() -> Seq<char> {
    seq!['O', '-', 'O', '-', 'O']
}

impl Board {
    /// The pawn that could step onto `front`: one square behind it, or,
    /// only when that square is empty, two squares behind it.
    pub open spec fn spec_pawn_source_from_front(self, side: Side, front: Square) -> Option<
        Square,
    > {
        let d = pawn_dir(side);
        if !(0 <= front.r() - d < 8) {
            None
        } else {
            let one = Square::spec_new(front.f(), front.r() - d);
            if self.has_side_piece(side, Piece::Pawn, one) {
                Some(one)
            } else if self.spec_occupied(one) {
                None
            } else if !(0 <= front.r() - 2 * d < 8) {
                None
            } else {
                let two = Square::spec_new(front.f(), front.r() - 2 * d);
                if self.has_side_piece(side, Piece::Pawn, two) {
                    Some(two)
                } else {
                    None
                }
            }
        }
    }

    pub fn get_pawn_move_from_square_in_front(&self, side: Side, destination: Square) -> (r:
        Result<Square, String>)
        ensures
            r is Ok <==> self.spec_pawn_source_from_front(side, destination) is Some,
            r is Ok ==> r->Ok_0 == self.spec_pawn_source_from_front(side, destination)->Some_0,
    {
        let backwards = Direction::get_backward(side);
        let one_back = destination.get_adjacent(backwards);
        proof {
            crate::bitboard::lemma_square_ranges(destination);
            assert(backwards.df() == 0 && backwards.dr() == -pawn_dir(side));
        }
        match one_back {
            None => Err("The pawn's destination has no square behind it.".to_owned()),
            Some(s) => {
                let pawns = self.get_side_pieces_bitboard(side, Piece::Pawn);
                if pawns.is_occupied(s) {
                    Ok(s)
                } else if self.is_occupied(s) {
                    Err("The square behind the destination holds another piece.".to_owned())
                } else {
                    let two_back = s.get_adjacent(backwards);
                    match two_back {
                        None => Err(
                            "The pawn's destination is too close to the board's edge.".to_owned(),
                        ),
                        Some(t) => {
                            if pawns.is_occupied(t) {
                                Ok(t)
                            } else {
                                Err("There are no pawns behind the destination square.".to_owned())
                            }
                        },
                    }
                }
            },
        }
    }

    /// The side's pieces of the given kind whose characteristic vision
    /// reaches the destination: the candidate sources of a piece move.
    pub open spec fn spec_potential_sources(
        self,
        side: Side,
        piece: Piece,
        destination: Square,
    ) -> Set<Square> {
        Set::new(
            |t: Square|
                self.has_side_piece(side, piece, t) && match piece {
                    Piece::Knight => is_knight_jump(destination, t),
                    Piece::Bishop => self.spec_diagonal_vision(destination).contains(t),
                    Piece::Rook => self.spec_lateral_vision(destination).contains(t),
                    Piece::Queen => self.spec_diagonal_vision(destination).contains(t)
                        || self.spec_lateral_vision(destination).contains(t),
                    Piece::King => is_king_step(destination, t),
                    Piece::Pawn => false,
                },
        )
    }

    pub fn get_potential_sources(&self, side: Side, piece: Piece, destination: Square) -> (v:
        Bitboard)
        requires
            piece != Piece::Pawn,
        ensures
            forall|t: Square|
                v.spec_contains(t) == self.spec_potential_sources(
                    side,
                    piece,
                    destination,
                ).contains(t),
    {
        let pieces = self.get_side_pieces_bitboard(side, piece);
        let vision = match piece {
            Piece::Knight => self.get_knight_vision(destination),
            Piece::Bishop => self.get_diagonal_vision(destination),
            Piece::Rook => self.get_lateral_vision(destination),
            Piece::Queen => self.get_diagonal_vision(destination).bit_or(
                self.get_lateral_vision(destination),
            ),
            _ => self.get_adjacent_vision(destination),
        };
        vision.bit_and(pieces)
    }

    /// Resolve a candidate list: empty and more-than-two are errors; one
    /// or two candidates resolve to the first in enumeration order.
    pub open spec fn spec_resolve_sources(srcs: Seq<Square>) -> Option<Square> {
        if srcs.len() == 0 || srcs.len() > 2 {
            None
        } else {
            Some(srcs[0])
        }
    }

    fn get_unambiguous_source_from_potential_sources(
        &self,
        side: Side,
        piece: Piece,
        destination: Square,
        potential_sources: Vec<Square>,
    ) -> (r: Result<Square, String>)
        ensures
            r is Ok <==> Self::spec_resolve_sources(potential_sources@) is Some,
            r is Ok ==> r->Ok_0 == Self::spec_resolve_sources(potential_sources@)->Some_0,
    {
        if potential_sources.len() == 0 {
            Err("No piece of that kind can reach the destination.".to_owned())
        } else if potential_sources.len() > 2 {
            Err("Ambiguous potential sources for the move.".to_owned())
        } else {
            Ok(potential_sources[0])
        }
    }

    /// The resolution of a piece move without a disambiguating hint.
    pub open spec fn spec_unambiguous_piece_source(
        self,
        side: Side,
        piece: Piece,
        destination: Square,
    ) -> Option<Square> {
        Self::spec_resolve_sources(asc_squares(self.spec_potential_sources(side, piece, destination)))
    }

    fn get_unambiguous_piece_source(&self, side: Side, piece: Piece, destination: Square) -> (r:
        Result<Square, String>)
        requires
            piece != Piece::Pawn,
        ensures
            r is Ok <==> self.spec_unambiguous_piece_source(side, piece, destination) is Some,
            r is Ok ==> r->Ok_0 == self.spec_unambiguous_piece_source(
                side,
                piece,
                destination,
            )->Some_0,
    {
        let bb = self.get_potential_sources(side, piece, destination);
        let potential_sources = bb.to_squares();
        proof {
            lemma_asc_matches_bitboard(bb, self.spec_potential_sources(side, piece, destination));
        }
        self.get_unambiguous_source_from_potential_sources(side, piece, destination, potential_sources)
    }

    /// The resolution of a piece move whose hint names the source file.
    pub open spec fn spec_piece_source_on_file(
        self,
        side: Side,
        piece: Piece,
        destination: Square,
        source_file: File,
    ) -> Option<Square> {
        Self::spec_resolve_sources(
            asc_squares(
                self.spec_potential_sources(side, piece, destination).intersect(
                    Set::new(|t: Square| t.0 == source_file),
                ),
            ),
        )
    }

    fn get_piece_source_on_file(
        &self,
        side: Side,
        piece: Piece,
        destination: Square,
        source_file: File,
    ) -> (r: Result<Square, String>)
        requires
            piece != Piece::Pawn,
        ensures
            r is Ok <==> self.spec_piece_source_on_file(side, piece, destination, source_file)
                is Some,
            r is Ok ==> r->Ok_0 == self.spec_piece_source_on_file(
                side,
                piece,
                destination,
                source_file,
            )->Some_0,
    {
        let bb = self.get_potential_sources(side, piece, destination).bit_and(
            Bitboard::file(source_file),
        );
        let potential_sources = bb.to_squares();
        proof {
            lemma_asc_matches_bitboard(
                bb,
                self.spec_potential_sources(side, piece, destination).intersect(
                    Set::new(|t: Square| t.0 == source_file),
                ),
            );
        }
        self.get_unambiguous_source_from_potential_sources(side, piece, destination, potential_sources)
    }

    /// The resolution of a piece move whose hint names the source rank.
    pub open spec fn spec_piece_source_on_rank(
        self,
        side: Side,
        piece: Piece,
        destination: Square,
        source_rank: Rank,
    ) -> Option<Square> {
        Self::spec_resolve_sources(
            asc_squares(
                self.spec_potential_sources(side, piece, destination).intersect(
                    Set::new(|t: Square| t.1 == source_rank),
                ),
            ),
        )
    }

    fn get_piece_source_on_rank(
        &self,
        side: Side,
        piece: Piece,
        destination: Square,
        source_rank: Rank,
    ) -> (r: Result<Square, String>)
        requires
            piece != Piece::Pawn,
        ensures
            r is Ok <==> self.spec_piece_source_on_rank(side, piece, destination, source_rank)
                is Some,
            r is Ok ==> r->Ok_0 == self.spec_piece_source_on_rank(
                side,
                piece,
                destination,
                source_rank,
            )->Some_0,
    {
        let bb = self.get_potential_sources(side, piece, destination).bit_and(
            Bitboard::rank(source_rank),
        );
        let potential_sources = bb.to_squares();
        proof {
            lemma_asc_matches_bitboard(
                bb,
                self.spec_potential_sources(side, piece, destination).intersect(
                    Set::new(|t: Square| t.1 == source_rank),
                ),
            );
        }
        self.get_unambiguous_source_from_potential_sources(side, piece, destination, potential_sources)
    }

    /// What an algebraic-notation string resolves to on this board for the
    /// given side, following the grammar precedence: castle keywords, plain
    /// pawn destination, pawn capture with source file, piece move, then
    /// disambiguated piece move. None stands for a rejected string.
    pub open spec fn spec_parse_move(self, side: Side, s: Seq<char>) -> Option<Move> {
        if s == castle_queenside_str() {
            if self.spec_can_castle(side, Castle::Queenside) {
                Some(Castle::Queenside.spec_king_move(side))
            } else {
                None
            }
        } else if s == castle_kingside_str() {
            if self.spec_can_castle(side, Castle::Kingside) {
                Some(Castle::Kingside.spec_king_move(side))
            } else {
                None
            }
        } else if is_forward_pawn_str(s) {
            let destination = Square(File::spec_from_char(s[0]), Rank::spec_from_char(s[1]));
            if self.spec_occupied(destination) {
                None
            } else {
                match self.spec_pawn_source_from_front(side, destination) {
                    Some(source) => Some(Move(source, destination)),
                    None => None,
                }
            }
        } else if is_dis_pawn_str(s) {
            let destination = Square(File::spec_from_char(s[1]), Rank::spec_from_char(s[2]));
            let source_file = File::spec_from_char(s[0]);
            if File::spec_distance(source_file, destination.0) != 1 {
                None
            } else {
                let square_in_front = Square(source_file, destination.1);
                match self.spec_pawn_source_from_front(side, square_in_front) {
                    Some(source) => Some(Move(source, destination)),
                    None => None,
                }
            }
        } else if is_piece_str(s) {
            let piece = Piece::spec_from_char(s[0]);
            let destination = Square(File::spec_from_char(s[1]), Rank::spec_from_char(s[2]));
            if self.spec_side_bb(side).spec_contains(destination) {
                None
            } else {
                match self.spec_unambiguous_piece_source(side, piece, destination) {
                    Some(source) => Some(Move(source, destination)),
                    None => None,
                }
            }
        } else if is_dis_piece_str(s) {
            let piece = Piece::spec_from_char(s[0]);
            let destination = Square(File::spec_from_char(s[2]), Rank::spec_from_char(s[3]));
            if self.spec_side_bb(side).spec_contains(destination) {
                None
            } else {
                let resolved = if Rank::spec_is_rank_char(s[1]) {
                    self.spec_piece_source_on_rank(
                        side,
                        piece,
                        destination,
                        Rank::spec_from_char(s[1]),
                    )
                } else {
                    self.spec_piece_source_on_file(
                        side,
                        piece,
                        destination,
                        File::spec_from_char(s[1]),
                    )
                };
                match resolved {
                    Some(source) => Some(Move(source, destination)),
                    None => None,
                }
            }
        } else {
            None
        }
    }

    /// Parse an algebraic-notation move for the given side, or describe
    /// why the string is rejected.
    pub fn try_parse_move(&self, side: Side, move_str: &str) -> (r: Result<Move, String>)
        ensures
            r is Ok <==> self.spec_parse_move(side, move_str@) is Some,
            r is Ok ==> r->Ok_0 == self.spec_parse_move(side, move_str@)->Some_0,
    {
        let n = move_str.unicode_len();
        let is_queenside = n == 5 && move_str.get_char(0) == 'O' && move_str.get_char(1) == '-'
            && move_str.get_char(2) == 'O' && move_str.get_char(3) == '-' && move_str.get_char(4)
            == 'O';
        proof {
            if n == 5 {
                assert((move_str@ =~= castle_queenside_str()) == is_queenside);
            }
            assert((move_str@ == castle_queenside_str()) == is_queenside);
        }
        if is_queenside {
            let castles = self.get_castles(side);
            if castles.len() > 0 && (castles[0] == Castle::Queenside || (castles.len() > 1
                && castles[1] == Castle::Queenside)) {
                proof {
                    assert(self.spec_can_castle(side, Castle::Queenside));
                }
                return Ok(Castle::Queenside.get_king_move(side));
            } else {
                proof {
                    assert(!self.spec_can_castle(side, Castle::Queenside));
                }
                return Err("Queenside castling is invalid in this position!".to_owned());
            }
        }
        let is_kingside = n == 3 && move_str.get_char(0) == 'O' && move_str.get_char(1) == '-'
            && move_str.get_char(2) == 'O';
        proof {
            if n == 3 {
                assert((move_str@ =~= castle_kingside_str()) == is_kingside);
            }
            assert((move_str@ == castle_kingside_str()) == is_kingside);
        }
        if is_kingside {
            let castles = self.get_castles(side);
            if castles.len() > 0 && castles[0] == Castle::Kingside {
                proof {
                    assert(self.spec_can_castle(side, Castle::Kingside));
                }
                return Ok(Castle::Kingside.get_king_move(side));
            } else {
                proof {
                    assert(!self.spec_can_castle(side, Castle::Kingside));
                }
                return Err("Kingside castling is invalid in this position!".to_owned());
            }
        }

        if n == 2 && File::is_file_char(move_str.get_char(0)) && Rank::is_rank_char(
            move_str.get_char(1),
        ) {
            let destination = Square(
                File::from_char(move_str.get_char(0)),
                Rank::from_char(move_str.get_char(1)),
            );
            if self.is_occupied(destination) {
                return Err("Pawn cannot move forward onto an occupied space!".to_owned());
            }
            let source_result = self.get_pawn_move_from_square_in_front(side, destination);
            return match source_result {
                Ok(source) => Ok(Move(source, destination)),
                Err(e) => Err(e),
            };
        }

        if n == 3 && File::is_file_char(move_str.get_char(0)) && File::is_file_char(
            move_str.get_char(1),
        ) && Rank::is_rank_char(move_str.get_char(2)) {
            let destination = Square(
                File::from_char(move_str.get_char(1)),
                Rank::from_char(move_str.get_char(2)),
            );
            let source_file = File::from_char(move_str.get_char(0));
            if File::distance(&source_file, &destination.file()) != 1 {
                return Err("The source file and the destination are not adjacent.".to_owned());
            }
            let square_in_front = Square(source_file, destination.rank());
            let source_result = self.get_pawn_move_from_square_in_front(side, square_in_front);
            return match source_result {
                Ok(source) => Ok(Move(source, destination)),
                Err(e) => Err(e),
            };
        }

        if n == 3 && piece_letter(move_str.get_char(0)) && File::is_file_char(move_str.get_char(1))
            && Rank::is_rank_char(move_str.get_char(2)) {
            let piece = Piece::from_char(move_str.get_char(0));
            let destination = Square(
                File::from_char(move_str.get_char(1)),
                Rank::from_char(move_str.get_char(2)),
            );
            if self.get_side_bitboard(side).contains(destination) {
                return Err("The piece cannot move to an occupied square.".to_owned());
            }
            let source_result = self.get_unambiguous_piece_source(side, piece, destination);
            return match source_result {
                Ok(source) => Ok(Move(source, destination)),
                Err(e) => Err(e),
            };
        }

        if n == 4 && piece_letter(move_str.get_char(0)) && (File::is_file_char(move_str.get_char(1))
            || Rank::is_rank_char(move_str.get_char(1))) && File::is_file_char(move_str.get_char(2))
            && Rank::is_rank_char(move_str.get_char(3)) {
            let piece = Piece::from_char(move_str.get_char(0));
            let destination = Square(
                File::from_char(move_str.get_char(2)),
                Rank::from_char(move_str.get_char(3)),
            );
            if self.get_side_bitboard(side).contains(destination) {
                return Err("The piece cannot move to an occupied square.".to_owned());
            }
            let hint = move_str.get_char(1);
            let source_result = if Rank::is_rank_char(hint) {
                self.get_piece_source_on_rank(side, piece, destination, Rank::from_char(hint))
            } else {
                self.get_piece_source_on_file(side, piece, destination, File::from_char(hint))
            };
            return match source_result {
                Ok(source) => Ok(Move(source, destination)),
                Err(e) => Err(e),
            };
        }

        Err("Invalid or unsupported move.".to_owned())
    }

    /// Parse a move that the caller knows to be well-formed and resolvable.
    pub fn force_parse_move(&self, side: Side, move_str: &str) -> (m: Move)
        requires
            self.spec_parse_move(side, move_str@) is Some,
        ensures
            m == self.spec_parse_move(side, move_str@)->Some_0,
    {
        self.try_parse_move(side, move_str).unwrap()
    }

    /// The algebraic string the printer writes for a move: pawns print the
    /// destination alone, or their source file first when capturing; pieces
    /// print their letter, then the mover's own file or rank when several
    /// same-kind pieces reach the destination, then the destination.
    pub open spec fn spec_move_string(self, m: Move) -> Seq<char> {
        let side = self.spec_get(m.0)->Some_0.0;
        let piece = self.spec_get(m.0)->Some_0.1;
        if piece == Piece::Pawn {
            if m.0.0 == m.1.0 {
                m.1.spec_chars()
            } else {
                seq![m.0.0.spec_char()] + m.1.spec_chars()
            }
        } else {
            let srcs = asc_squares(self.spec_potential_sources(side, piece, m.1));
            if srcs.len() == 1 {
                seq![piece.spec_char()] + m.1.spec_chars()
            } else {
                if srcs.filter(|x: Square| x.0 == m.0.0).len() == 1 {
                    seq![piece.spec_char(), m.0.0.spec_char()] + m.1.spec_chars()
                } else {
                    seq![piece.spec_char(), m.0.1.spec_char()] + m.1.spec_chars()
                }
            }
        }
    }

    /// The printer succeeds: a piece move has a candidate source, and when
    /// several candidates reach the destination, the mover is among them
    /// and its own file or rank narrows them to the mover alone; anything
    /// needing more is refused rather than written ambiguously.
    pub open spec fn spec_move_string_ok(self, m: Move) -> bool {
        &&& self.spec_get(m.0) is Some
        &&& {
            let side = self.spec_get(m.0)->Some_0.0;
            let piece = self.spec_get(m.0)->Some_0.1;
            piece != Piece::Pawn ==> {
                let srcs = asc_squares(self.spec_potential_sources(side, piece, m.1));
                &&& srcs.len() >= 1
                &&& (srcs.len() > 1 ==> srcs.contains(m.0) && (srcs.filter(
                    |x: Square| x.0 == m.0.0,
                ).len() == 1 || srcs.filter(|x: Square| x.1 == m.0.1).len() == 1))
            }
        }
    }

    pub fn get_move_string(&self, m: Move) -> (r: String)
        requires
            self.wf(),
            self.spec_move_string_ok(m),
        ensures
            r@ == self.spec_move_string(m),
    {
        let source = m.0;
        let destination = m.1;
        let (side, piece) = self.get(source).unwrap();
        if piece == Piece::Pawn {
            if source.file() == destination.file() {
                destination.to_string()
            } else {
                let mut out = source.file().to_string();
                out.append(destination.to_string().as_str());
                proof {
                    assert(out@ =~= self.spec_move_string(m));
                }
                out
            }
        } else {
            let bb = self.get_potential_sources(side, piece, destination);
            let potential_sources = bb.to_squares();
            proof {
                lemma_asc_matches_bitboard(
                    bb,
                    self.spec_potential_sources(side, piece, destination),
                );
            }
            if potential_sources.len() == 1 {
                let mut out = piece.to_string();
                out.append(destination.to_string().as_str());
                proof {
                    assert(out@ =~= self.spec_move_string(m));
                }
                out
            } else {
                let file = source.file();
                let rank = source.rank();

                let file_count = Self::count_on_file(&potential_sources, file);
                if file_count == 1 {
                    let mut out = piece.to_string();
                    out.append(file.to_string().as_str());
                    out.append(destination.to_string().as_str());
                    proof {
                        assert(out@ =~= self.spec_move_string(m));
                    }
                    out
                } else {
                    let rank_count = Self::count_on_rank(&potential_sources, rank);
                    proof {
                        assert(rank_count == 1);
                    }
                    let mut out = piece.to_string();
                    out.append(rank.to_string().as_str());
                    out.append(destination.to_string().as_str());
                    proof {
                        assert(out@ =~= self.spec_move_string(m));
                    }
                    out
                }
            }
        }
    }

    fn count_on_file(v: &Vec<Square>, file: File) -> (n: usize)
        ensures
            n == v@.filter(|x: Square| x.0 == file).len(),
    {
        let mut n: usize = 0;
        let mut i: usize = 0;
        while i < v.len()
            invariant
                i <= v@.len(),
                n <= i,
                n == v@.take(i as int).filter(|x: Square| x.0 == file).len(),
            decreases v@.len() - i,
        {
            proof {
                assert(v@.take(i + 1).drop_last() =~= v@.take(i as int));
                assert(v@.take(i + 1).last() == v@[i as int]);
                reveal_with_fuel(Seq::filter, 2);
                v@.take(i as int).lemma_filter_len(|x: Square| x.0 == file);
            }
            if v[i].file() == file {
                n = n + 1;
            }
            i = i + 1;
        }
        proof {
            assert(v@.take(v@.len() as int) =~= v@);
        }
        n
    }

    fn count_on_rank(v: &Vec<Square>, rank: Rank) -> (n: usize)
        ensures
            n == v@.filter(|x: Square| x.1 == rank).len(),
    {
        let mut n: usize = 0;
        let mut i: usize = 0;
        while i < v.len()
            invariant
                i <= v@.len(),
                n <= i,
                n == v@.take(i as int).filter(|x: Square| x.1 == rank).len(),
            decreases v@.len() - i,
        {
            proof {
                assert(v@.take(i + 1).drop_last() =~= v@.take(i as int));
                assert(v@.take(i + 1).last() == v@[i as int]);
                reveal_with_fuel(Seq::filter, 2);
                v@.take(i as int).lemma_filter_len(|x: Square| x.1 == rank);
            }
            if v[i].rank() == rank {
                n = n + 1;
            }
            i = i + 1;
        }
        proof {
            assert(v@.take(v@.len() as int) =~= v@);
        }
        n
    }
}

} // verus!
