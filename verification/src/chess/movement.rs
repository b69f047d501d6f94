use vstd::prelude::*;
use super::board::Board;
use super::color::Color;
use super::movegen::{all_legals, legal_moves};
use super::piece::Piece;
use super::position::{file_index, rank_index, Position};

verus! {

/// A move: the piece of `color` on `origin` goes to `target`.
#[derive(Debug, Clone, Copy, Hash, PartialEq, Eq, Structural)]
pub struct ChessMove {
    pub origin: Position,
    pub target: Position,
    pub piece: Piece,
    pub color: Color,
}

/// A displacement on the board: `x` files and `y` ranks.
#[derive(Debug, Clone, Copy, Hash, PartialEq, Eq, Structural)]
pub struct RelativeChessMove {
    pub x: i8,
    pub y: i8,
}

/// For every kind of piece, the displacements it may make, seen from the
/// white side (a black piece makes them upside down).
pub struct RelativeMoveTable {
    king: Vec<RelativeChessMove>,
    queen: Vec<RelativeChessMove>,
    rook: Vec<RelativeChessMove>,
    bishop: Vec<RelativeChessMove>,
    knight: Vec<RelativeChessMove>,
    pawn: Vec<RelativeChessMove>,
}

fn copy_moves(v: &Vec<RelativeChessMove>) -> (r: Vec<RelativeChessMove>)
    ensures
        r@ == v@,
{
    let mut out: Vec<RelativeChessMove> = Vec::new();
    let mut i: usize = 0;
    while i < v.len()
        invariant
            i <= v.len(),
            out@ == v@.take(i as int),
        decreases v.len() - i,
    {
        out.push(v[i]);
        i = i + 1;
        assert(out@ =~= v@.take(i as int));
    }
    assert(v@.take(v.len() as int) =~= v@);
    out
}

impl RelativeMoveTable {
    /// The displacements listed for `piece`.
    pub closed spec fn moves_of(&self, piece: Piece) -> Seq<RelativeChessMove> {
        match piece {
            Piece::King => self.king@,
            Piece::Queen => self.queen@,
            Piece::Rook => self.rook@,
            Piece::Bishop => self.bishop@,
            Piece::Knight => self.knight@,
            Piece::Pawn => self.pawn@,
        }
    }

    /// A table with the given displacements for each kind of piece.
    pub fn new(
        king: Vec<RelativeChessMove>,
        queen: Vec<RelativeChessMove>,
        rook: Vec<RelativeChessMove>,
        bishop: Vec<RelativeChessMove>,
        knight: Vec<RelativeChessMove>,
        pawn: Vec<RelativeChessMove>,
    ) -> (r: RelativeMoveTable)
        ensures
            r.moves_of(Piece::King) == king@,
            r.moves_of(Piece::Queen) == queen@,
            r.moves_of(Piece::Rook) == rook@,
            r.moves_of(Piece::Bishop) == bishop@,
            r.moves_of(Piece::Knight) == knight@,
            r.moves_of(Piece::Pawn) == pawn@,
    {
        RelativeMoveTable { king, queen, rook, bishop, knight, pawn }
    }

    /// A copy of the displacements listed for `piece`.
    pub fn get(&self, piece: Piece) -> (r: Vec<RelativeChessMove>)
        ensures
            r@ == self.moves_of(piece),
    {
        match piece {
            Piece::King => copy_moves(&self.king),
            Piece::Queen => copy_moves(&self.queen),
            Piece::Rook => copy_moves(&self.rook),
            Piece::Bishop => copy_moves(&self.bishop),
            Piece::Knight => copy_moves(&self.knight),
            Piece::Pawn => copy_moves(&self.pawn),
        }
    }

    /// The number of displacements listed for `piece`.
    pub fn len_of(&self, piece: Piece) -> (r: usize)
        ensures
            r == self.moves_of(piece).len(),
    {
        match piece {
            Piece::King => self.king.len(),
            Piece::Queen => self.queen.len(),
            Piece::Rook => self.rook.len(),
            Piece::Bishop => self.bishop.len(),
            Piece::Knight => self.knight.len(),
            Piece::Pawn => self.pawn.len(),
        }
    }

    /// The `i`-th displacement listed for `piece`.
    pub fn nth(&self, piece: Piece, i: usize) -> (r: RelativeChessMove)
        requires
            i < self.moves_of(piece).len(),
        ensures
            r == self.moves_of(piece)[i as int],
    {
        match piece {
            Piece::King => self.king[i],
            Piece::Queen => self.queen[i],
            Piece::Rook => self.rook[i],
            Piece::Bishop => self.bishop[i],
            Piece::Knight => self.knight[i],
            Piece::Pawn => self.pawn[i],
        }
    }
}

/// The displacement of a move, seen from the side of the player who makes
/// it: target minus origin, turned upside down for black.
pub open spec fn relative_of(mv: ChessMove) -> (int, int) {
    let dx = file_index(mv.target.file) - file_index(mv.origin.file);
    let dy = rank_index(mv.target.rank) - rank_index(mv.origin.rank);
    if mv.color == Color::Black {
        (-dx, -dy)
    } else {
        (dx, dy)
    }
}

impl ChessMove {
    pub fn new(origin: Position, target: Position, piece: Piece, color: Color) -> (r: ChessMove)
        ensures
            r == (ChessMove { origin, target, piece, color }),
    {
        ChessMove { origin, target, color, piece }
    }

    /// Every legal move of the `piece` standing on `piece_pos` (see
    /// `movegen::all_legals`).
    pub fn get_all_legals(
        piece: Piece,
        piece_pos: Position,
        board: &Board,
        table: &RelativeMoveTable,
    ) -> (r: Option<Vec<ChessMove>>)
        requires
            board.wf(),
        ensures
            match (r, legal_moves(*table, piece, piece_pos, *board)) {
                (None, None) => true,
                (Some(v), Some(s)) => v@ == s,
                _ => false,
            },
    {
        all_legals(piece, piece_pos, board, table)
    }

    /// Whether this move is among the legal moves of its piece.
    pub fn is_legal(&self, board: &Board, table: &RelativeMoveTable) -> (r: bool)
        requires
            board.wf(),
        ensures
            r == (legal_moves(*table, self.piece, self.origin, *board) matches Some(s) && s.contains(
                *self,
            )),
    {
        let legals = match ChessMove::get_all_legals(self.piece, self.origin, board, table) {
            Some(v) => v,
            None => Vec::new(),
        };
        let mut i: usize = 0;
        while i < legals.len()
            invariant
                i <= legals.len(),
                forall|j: int| 0 <= j < i ==> legals@[j] != *self,
                match legal_moves(*table, self.piece, self.origin, *board) {
                    Some(s) => legals@ == s,
                    None => legals@.len() == 0,
                },
            decreases legals.len() - i,
        {
            if legals[i] == *self {
                assert(legals@[i as int] == *self);
                assert(legals@.contains(*self));
                return true;
            }
            i = i + 1;
        }
        false
    }

    /// The displacement of the move from the point of view of its player.
    pub fn relative(&self) -> (r: RelativeChessMove)
        ensures
            (r.x as int, r.y as int) == relative_of(*self),
    {
        let dx: i8 = self.target.file.to_index() as i8 - self.origin.file.to_index() as i8;
        let dy: i8 = self.target.rank.to_index() as i8 - self.origin.rank.to_index() as i8;
        if self.color == Color::Black {
            RelativeChessMove { x: -dx, y: -dy }
        } else {
            RelativeChessMove { x: dx, y: dy }
        }
    }
}

impl RelativeChessMove {
    pub fn new(x: i8, y: i8) -> (r: RelativeChessMove)
        ensures
            r.x == x,
            r.y == y,
    {
        RelativeChessMove { x, y }
    }
}

impl From<(i8, i8)> for RelativeChessMove {
    fn from(value: (i8, i8)) -> (r: RelativeChessMove) {
        RelativeChessMove { x: value.0, y: value.1 }
    }
}

impl vstd::std_specs::convert::FromSpecImpl<(i8, i8)> for RelativeChessMove {
    open spec fn obeys_from_spec() -> bool {
        true
    }

    open spec fn from_spec(value: (i8, i8)) -> RelativeChessMove {
        RelativeChessMove { x: value.0, y: value.1 }
    }
}

impl From<RelativeChessMove> for (i8, i8) {
    fn from(mv: RelativeChessMove) -> (r: (i8, i8)) {
        (mv.x, mv.y)
    }
}

impl vstd::std_specs::convert::FromSpecImpl<RelativeChessMove> for (i8, i8) {
    open spec fn obeys_from_spec() -> bool {
        true
    }

    open spec fn from_spec(mv: RelativeChessMove) -> (i8, i8) {
        (mv.x, mv.y)
    }
}

} // verus!
