pub mod bitboard;
pub mod board;
pub mod color;
pub mod coords;
pub mod display;
pub mod fen;
pub mod laws;
pub mod moves;
pub mod notation;
pub mod paths;
pub mod randoms;
pub mod squares;
pub mod state;
pub mod strings;
pub mod text;
pub mod vision;

pub use bitboard::Bitboard;
pub use board::Board;
pub use color::Color;
pub use coords::Direction;
pub use coords::File;
pub use coords::Piece;
pub use coords::Rank;
pub use coords::Side;
pub use coords::SquareColor;
pub use coords::lemma_opponent_involution;
pub use laws::lemma_move_string_round_trip;
pub use paths::Path;
pub use paths::ShortestPathCalculator;
pub use squares::Castle;
pub use squares::Move;
pub use squares::Square;
pub use state::lemma_legal_moves_safe;
pub use state::lemma_no_double_occupancy;
