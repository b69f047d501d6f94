use vstd::prelude::*;
use super::movement::{RelativeChessMove, RelativeMoveTable};

verus! {

/// Kind of a chess piece.
#[derive(Debug, Clone, Copy, Hash, PartialEq, Eq, Structural)]
pub enum Piece {
    King,
    Queen,
    Rook,
    Bishop,
    Knight,
    Pawn,
}

/// Every kind of piece, pawn first.
pub const ALL_PIECES: [Piece; 6] = [
    Piece::Pawn,
    Piece::Knight,
    Piece::Bishop,
    Piece::Rook,
    Piece::Queen,
    Piece::King,
];

/// The piece named by a FEN letter, in either case.
pub open spec fn piece_of_fen_char(c: char) -> Option<Piece> {
    if c == 'k' || c == 'K' {
        Some(Piece::King)
    } else if c == 'q' || c == 'Q' {
        Some(Piece::Queen)
    } else if c == 'r' || c == 'R' {
        Some(Piece::Rook)
    } else if c == 'b' || c == 'B' {
        Some(Piece::Bishop)
    } else if c == 'n' || c == 'N' {
        Some(Piece::Knight)
    } else if c == 'p' || c == 'P' {
        Some(Piece::Pawn)
    } else {
        None
    }
}

impl Piece {
    /// The moves of this piece relative to its position, as listed in
    /// `table` for a white piece.
    pub fn relative_moves(&self, table: &RelativeMoveTable) -> (r: Vec<RelativeChessMove>)
        ensures
            r@ == table.moves_of(*self),
    {
        table.get(*self)
    }

    /// The piece named by a FEN letter (`k q r b n p`, either case).
    pub fn from_fen_char(c: char) -> (r: Option<Piece>)
        ensures
            r == piece_of_fen_char(c),
    {
        if c == 'k' || c == 'K' {
            Some(Piece::King)
        } else if c == 'q' || c == 'Q' {
            Some(Piece::Queen)
        } else if c == 'r' || c == 'R' {
            Some(Piece::Rook)
        } else if c == 'b' || c == 'B' {
            Some(Piece::Bishop)
        } else if c == 'n' || c == 'N' {
            Some(Piece::Knight)
        } else if c == 'p' || c == 'P' {
            Some(Piece::Pawn)
        } else {
            None
        }
    }
}

} // verus!
