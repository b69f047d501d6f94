pub mod bitboard;
pub mod board;
pub mod color;
pub mod movegen;
pub mod movement;
pub mod piece;
pub mod position;
pub mod square;

pub use bitboard::BitBoard;
pub use color::Color;
pub use movement::{ChessMove, RelativeChessMove, RelativeMoveTable};
pub use piece::Piece;
pub use position::{File, Position, Rank};
pub use square::Square;
pub use board::Board;
