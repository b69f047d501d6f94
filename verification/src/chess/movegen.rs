use vstd::prelude::*;
use super::board::Board;
use super::color::Color;
use super::movement::{ChessMove, RelativeChessMove, RelativeMoveTable};
use super::piece::Piece;
use super::position::{file_index, position_at, rank_index, square_index, Position, Rank};

verus! {

/// Whether `(x, y)` is a square of the board.
pub open spec fn in_board(x: int, y: int) -> bool {
    0 <= x < 8 && 0 <= y < 8
}

/// Sign of `d`: -1, 0 or 1.
pub open spec fn sign(d: int) -> int {
    if d > 0 {
        1
    } else if d < 0 {
        -1
    } else {
        0
    }
}

pub open spec fn abs(d: int) -> int {
    if d < 0 {
        -d
    } else {
        d
    }
}

/// Coordinate reached from `o` after `k` steps of direction `s` (-1, 0 or 1).
pub open spec fn walk(o: int, s: int, k: int) -> int {
    if s > 0 {
        o + k
    } else if s < 0 {
        o - k
    } else {
        o
    }
}

/// The origin and target of `mv` lie on one rank, file or diagonal.
pub open spec fn on_line(mv: ChessMove) -> bool {
    let dx = file_index(mv.target.file) - file_index(mv.origin.file);
    let dy = rank_index(mv.target.rank) - rank_index(mv.origin.rank);
    dx == 0 || dy == 0 || dx == dy || dx == -dy
}

/// Number of steps from the origin of `mv` to its target along the line.
pub open spec fn line_length(mv: ChessMove) -> int {
    let dx = abs(file_index(mv.target.file) - file_index(mv.origin.file));
    let dy = abs(rank_index(mv.target.rank) - rank_index(mv.origin.rank));
    if dx >= dy {
        dx
    } else {
        dy
    }
}

/// The square `k` steps from the origin of `mv` towards its target.
pub open spec fn line_square(mv: ChessMove, k: int) -> int {
    let ox = file_index(mv.origin.file);
    let oy = rank_index(mv.origin.rank);
    let sx = sign(file_index(mv.target.file) - ox);
    let sy = sign(rank_index(mv.target.rank) - oy);
    walk(oy, sy, k) * 8 + walk(ox, sx, k)
}

/// Line of sight: a knight jumps; any other piece needs its target on a
/// straight line or diagonal from its origin, every square strictly between
/// them empty, and the target empty or held by the other side.
pub open spec fn line_of_sight(mv: ChessMove, board: Board) -> bool {
    mv.piece == Piece::Knight || {
        &&& on_line(mv)
        &&& forall|k: int|
            1 <= k < line_length(mv) ==> #[trigger] board.square(line_square(mv, k)) is None
        &&& board.square(square_index(mv.target)) matches Some((c, _)) ==> c != mv.color
    }
}

/// The moves given by the displacements `rel` from `pos` that stay on the
/// board; a black piece makes them upside down.
pub open spec fn basic_candidates(
    rel: Seq<RelativeChessMove>,
    piece: Piece,
    pos: Position,
    color: Color,
) -> Seq<ChessMove>
    decreases rel.len(),
{
    if rel.len() == 0 {
        Seq::empty()
    } else {
        let prev = basic_candidates(rel.drop_last(), piece, pos, color);
        let m = rel.last();
        let dy = if color == Color::Black {
            -(m.y as int)
        } else {
            m.y as int
        };
        let x = file_index(pos.file) + m.x;
        let y = rank_index(pos.rank) + dy;
        if in_board(x, y) {
            prev.push(ChessMove { origin: pos, target: position_at(x, y), piece, color })
        } else {
            prev
        }
    }
}

/// The double step of a pawn from its starting rank.
pub open spec fn pawn_first_candidates(piece: Piece, pos: Position, color: Color) -> Seq<ChessMove> {
    if pos.rank == Rank::Two && color == Color::White {
        seq![ChessMove { origin: pos, target: position_at(file_index(pos.file), 3), piece, color }]
    } else if pos.rank == Rank::Seven && color == Color::Black {
        seq![ChessMove { origin: pos, target: position_at(file_index(pos.file), 4), piece, color }]
    } else {
        Seq::empty()
    }
}

/// A diagonal capture of a pawn towards file `x`, if it is on the board and
/// holds a piece of the other side.
pub open spec fn pawn_eat_candidate(
    piece: Piece,
    pos: Position,
    color: Color,
    board: Board,
    x: int,
) -> Seq<ChessMove> {
    let y = rank_index(pos.rank) + (if color == Color::White {
        1int
    } else {
        -1int
    });
    if in_board(x, y) && (board.square(y * 8 + x) matches Some((c, _)) && c != color) {
        seq![ChessMove { origin: pos, target: position_at(x, y), piece, color }]
    } else {
        Seq::empty()
    }
}

/// The diagonal captures of a pawn, left one first.
pub open spec fn pawn_eat_candidates(piece: Piece, pos: Position, color: Color, board: Board) -> Seq<
    ChessMove,
> {
    pawn_eat_candidate(piece, pos, color, board, file_index(pos.file) - 1) + pawn_eat_candidate(
        piece,
        pos,
        color,
        board,
        file_index(pos.file) + 1,
    )
}

/// Every move considered for `piece` of `color` on `pos`, before filtering.
pub open spec fn candidates(
    table: RelativeMoveTable,
    piece: Piece,
    pos: Position,
    color: Color,
    board: Board,
) -> Seq<ChessMove> {
    let basic = basic_candidates(table.moves_of(piece), piece, pos, color);
    if piece == Piece::Pawn {
        basic + pawn_first_candidates(piece, pos, color) + pawn_eat_candidates(
            piece,
            pos,
            color,
            board,
        )
    } else {
        basic
    }
}

/// A candidate move is kept when it is the turn of its side, its origin
/// holds its piece, it does not take a piece of its own side, it has line
/// of sight, and it is not a pawn taking straight ahead.
pub open spec fn legal_filter(mv: ChessMove, board: Board) -> bool {
    &&& board.active() == mv.color
    &&& board.square(square_index(mv.origin)) == Some((mv.color, mv.piece))
    &&& !(board.square(square_index(mv.target)) matches Some((c, _)) && c == mv.color)
    &&& line_of_sight(mv, board)
    &&& !(mv.piece == Piece::Pawn && board.square(square_index(mv.target)) is Some && mv.origin.file
        == mv.target.file)
}

/// The moves of `s` that pass `legal_filter`, in order.
pub open spec fn keep_legal(s: Seq<ChessMove>, board: Board) -> Seq<ChessMove>
    decreases s.len(),
{
    if s.len() == 0 {
        Seq::empty()
    } else {
        let prev = keep_legal(s.drop_last(), board);
        if legal_filter(s.last(), board) {
            prev.push(s.last())
        } else {
            prev
        }
    }
}

/// The legal moves of the piece on `piece_pos`, or `None` when that square
/// does not hold a `piece`.
pub open spec fn legal_moves(
    table: RelativeMoveTable,
    piece: Piece,
    piece_pos: Position,
    board: Board,
) -> Option<Seq<ChessMove>> {
    match board.square(square_index(piece_pos)) {
        None => None,
        Some((c, p)) => if p != piece {
            None
        } else {
            Some(keep_legal(candidates(table, piece, piece_pos, c, board), board))
        },
    }
}

/// Every legal move of the `piece` standing on `piece_pos`, in the order:
/// moves from the displacement table, then for a pawn its double step and
/// its captures. `None` when `piece_pos` does not hold a `piece`.
pub fn all_legals(
    piece: Piece,
    piece_pos: Position,
    board: &Board,
    table: &RelativeMoveTable,
) -> (r: Option<Vec<ChessMove>>)
    requires
        board.wf(),
    ensures
        match (r, legal_moves(*table, piece, piece_pos, *board)) {
            (None, None) => true,
            (Some(v), Some(s)) => v@ == s,
            _ => false,
        },
{
    let (read_color, read_piece) = match board.read(piece_pos) {
        Some(x) => x,
        None => return None,
    };
    if read_piece != piece {
        return None;
    }
    let piece_color = read_color;
    let mut out = basic_moves(piece, piece_pos, piece_color, table);
    match piece {
        Piece::Pawn => {
            let mut first = pawn_first_move(piece, piece_pos, piece_color);
            let mut eat = pawn_eat(piece, piece_pos, piece_color, board);
            out.append(&mut first);
            out.append(&mut eat);
        },
        _ => {},
    }
    let ghost cands = candidates(*table, piece, piece_pos, piece_color, *board);
    assert(out@ =~= cands);
    let mut kept: Vec<ChessMove> = Vec::new();
    let mut i: usize = 0;
    while i < out.len()
        invariant
            i <= out.len(),
            out@ == cands,
            board.wf(),
            kept@ == keep_legal(cands.take(i as int), *board),
        decreases out.len() - i,
    {
        let mv = out[i];
        assert(cands.take(i + 1).drop_last() =~= cands.take(i as int));
        if keep_move(&mv, board) {
            kept.push(mv);
        }
        i = i + 1;
    }
    assert(cands.take(out.len() as int) =~= cands);
    Some(kept)
}

/// Whether a candidate move passes the filter of `all_legals`.
fn keep_move(mv: &ChessMove, board: &Board) -> (r: bool)
    requires
        board.wf(),
    ensures
        r == legal_filter(*mv, *board),
{
    if board.next_to_play() != mv.color {
        return false;
    }
    match board.read(mv.origin) {
        Some((c, p)) => {
            if c != mv.color || p != mv.piece {
                return false;
            }
        },
        None => return false,
    }
    let target = board.read(mv.target);
    match target {
        Some((c, _)) => {
            if c == mv.color {
                return false;
            }
        },
        None => {},
    }
    if !los_filter(*mv, board) {
        return false;
    }
    if mv.piece == Piece::Pawn {
        if target.is_some() && mv.origin.file == mv.target.file {
            return false;
        }
    }
    true
}

/// The moves given by the displacement table that stay on the board.
fn basic_moves(piece: Piece, piece_pos: Position, piece_color: Color, table: &RelativeMoveTable) -> (r:
    Vec<ChessMove>)
    ensures
        r@ == basic_candidates(table.moves_of(piece), piece, piece_pos, piece_color),
{
    let mut out: Vec<ChessMove> = Vec::new();
    let n = table.len_of(piece);
    let ghost rel = table.moves_of(piece);
    let mut i: usize = 0;
    while i < n
        invariant
            i <= n,
            n == rel.len(),
            rel == table.moves_of(piece),
            out@ == basic_candidates(rel.take(i as int), piece, piece_pos, piece_color),
        decreases n - i,
    {
        let rmv = table.nth(piece, i);
        assert(rel.take(i + 1).drop_last() =~= rel.take(i as int));
        assert(rel.take(i + 1).last() == rmv);
        let dy: i16 = if piece_color == Color::Black {
            -(rmv.y as i16)
        } else {
            rmv.y as i16
        };
        let x: i16 = piece_pos.file.to_index() as i16 + rmv.x as i16;
        let y: i16 = piece_pos.rank.to_index() as i16 + dy;
        if 0 <= x && x < 8 && 0 <= y && y < 8 {
            let target = Position::from_index(x as u8, y as u8);
            match target {
                Some(t) => out.push(ChessMove::new(piece_pos, t, piece, piece_color)),
                None => {},
            }
        }
        i = i + 1;
    }
    assert(rel.take(n as int) =~= rel);
    out
}

/// The double step of a pawn still on its starting rank.
fn pawn_first_move(piece: Piece, piece_pos: Position, piece_color: Color) -> (r: Vec<ChessMove>)
    ensures
        r@ == pawn_first_candidates(piece, piece_pos, piece_color),
{
    let y: u8 = if piece_pos.rank == Rank::Two && piece_color == Color::White {
        3
    } else if piece_pos.rank == Rank::Seven && piece_color == Color::Black {
        4
    } else {
        return Vec::new();
    };
    let mut out: Vec<ChessMove> = Vec::new();
    match Position::from_index(piece_pos.file.to_index(), y) {
        Some(target) => out.push(ChessMove::new(piece_pos, target, piece, piece_color)),
        None => {},
    }
    assert(out@ =~= pawn_first_candidates(piece, piece_pos, piece_color));
    out
}

/// The capture of a pawn towards file `x`, if any.
fn pawn_eat_towards(piece: Piece, piece_pos: Position, piece_color: Color, board: &Board, x: i16) -> (r:
    Vec<ChessMove>)
    requires
        board.wf(),
        -1 <= x <= 8,
    ensures
        r@ == pawn_eat_candidate(piece, piece_pos, piece_color, *board, x as int),
{
    let flip: i16 = if piece_color == Color::White {
        1
    } else {
        -1
    };
    let y: i16 = piece_pos.rank.to_index() as i16 + flip;
    let mut out: Vec<ChessMove> = Vec::new();
    if 0 <= x && x < 8 && 0 <= y && y < 8 {
        match Position::from_index(x as u8, y as u8) {
            Some(target) => {
                proof {
                    super::position::lemma_index_roundtrip(x as int);
                    super::position::lemma_index_roundtrip(y as int);
                }
                match board.read(target) {
                    Some((c, _)) => {
                        if c != piece_color {
                            out.push(ChessMove::new(piece_pos, target, piece, piece_color));
                        }
                    },
                    None => {},
                }
            },
            None => {},
        }
    }
    assert(out@ =~= pawn_eat_candidate(piece, piece_pos, piece_color, *board, x as int));
    out
}

/// The diagonal captures of a pawn: towards the left file, then the right.
fn pawn_eat(piece: Piece, piece_pos: Position, piece_color: Color, board: &Board) -> (r: Vec<
    ChessMove,
>)
    requires
        board.wf(),
    ensures
        r@ == pawn_eat_candidates(piece, piece_pos, piece_color, *board),
{
    let f: i16 = piece_pos.file.to_index() as i16;
    let mut out = pawn_eat_towards(piece, piece_pos, piece_color, board, f - 1);
    let mut right = pawn_eat_towards(piece, piece_pos, piece_color, board, f + 1);
    out.append(&mut right);
    out
}

fn sign_of(d: i16) -> (r: i16)
    ensures
        r == sign(d as int),
{
    if d > 0 {
        1
    } else if d < 0 {
        -1
    } else {
        0
    }
}

/// Whether a piece may go from the origin of `mv` to its target without
/// passing over another piece (see `line_of_sight`).
pub fn los_filter(mv: ChessMove, board: &Board) -> (r: bool)
    requires
        board.wf(),
    ensures
        r == line_of_sight(mv, *board),
{
    if mv.piece == Piece::Knight {
        return true;
    }
    let tx: i16 = mv.target.file.to_index() as i16;
    let ty: i16 = mv.target.rank.to_index() as i16;
    let ox: i16 = mv.origin.file.to_index() as i16;
    let oy: i16 = mv.origin.rank.to_index() as i16;
    let sx = sign_of(tx - ox);
    let sy = sign_of(ty - oy);
    let mut x: i16 = ox;
    let mut y: i16 = oy;
    let mut k: i16 = 0;
    let ghost n = line_length(mv);
    proof {
        super::position::lemma_square_index_bijective(mv.target, 0);
        super::position::lemma_square_index_bijective(mv.origin, 0);
    }
    loop
        invariant
            0 <= k < 8,
            0 <= ox < 8,
            0 <= oy < 8,
            0 <= tx < 8,
            0 <= ty < 8,
            tx == file_index(mv.target.file),
            ty == rank_index(mv.target.rank),
            ox == file_index(mv.origin.file),
            oy == rank_index(mv.origin.rank),
            sx == sign(tx - ox),
            sy == sign(ty - oy),
            mv.piece != Piece::Knight,
            board.wf(),
            x == walk(ox as int, sx as int, k as int),
            y == walk(oy as int, sy as int, k as int),
            k > 0 ==> (sx != 0 || sy != 0),
            k > 0 ==> 0 <= x < 8 && 0 <= y < 8,
            forall|j: int|
                1 <= j <= k ==> #[trigger] board.square(line_square(mv, j)) is None && line_square(
                    mv,
                    j,
                ) != square_index(mv.target),
            forall|j: int|
                1 <= j <= k ==> in_board(
                    walk(ox as int, sx as int, j),
                    walk(oy as int, sy as int, j),
                ) && #[trigger] line_square(mv, j) == walk(oy as int, sy as int, j) * 8 + walk(
                    ox as int,
                    sx as int,
                    j,
                ),
        decreases 8 - k,
    {
        x = x + sx;
        y = y + sy;
        k = k + 1;
        let ghost cur = line_square(mv, k as int);
        assert(cur == walk(oy as int, sy as int, k as int) * 8 + walk(ox as int, sx as int, k as int));
        if x < 0 || x > 7 || y < 0 || y > 7 {
            proof {
                lemma_los_blocked_off_board(mv, *board, k as int);
            }
            return false;
        }
        let pos = match Position::from_index(x as u8, y as u8) {
            Some(p) => p,
            None => {
                return false;
            },
        };
        proof {
            super::position::lemma_index_roundtrip(x as int);
            super::position::lemma_index_roundtrip(y as int);
            assert(square_index(pos) == cur);
        }
        let at_target = x == tx && y == ty;
        assert(at_target <==> cur == square_index(mv.target));
        match board.read(pos) {
            Some((read_color, _)) => {
                proof {
                    lemma_los_stop(mv, *board, k as int);
                }
                return read_color != mv.color && at_target;
            },
            None => {},
        }
        if at_target {
            proof {
                lemma_los_stop(mv, *board, k as int);
            }
            return true;
        }
        assert(sx != 0 || sy != 0);
        assert(k < 8);
    }
}

/// The square `k` steps along the line is the target exactly when `k` is the
/// length of the line (for a move on a line).
proof fn lemma_line_hits_target(mv: ChessMove, k: int)
    requires
        k >= 1,
    ensures
        (line_square(mv, k) == square_index(mv.target) && in_board(
            walk(file_index(mv.origin.file), sign(file_index(mv.target.file) - file_index(mv.origin.file)), k),
            walk(rank_index(mv.origin.rank), sign(rank_index(mv.target.rank) - rank_index(mv.origin.rank)), k),
        )) <==> (on_line(mv) && (line_length(mv) == k || line_length(mv) == 0)),
{
    super::position::lemma_file_roundtrip(mv.origin.file);
    super::position::lemma_rank_roundtrip(mv.origin.rank);
    super::position::lemma_file_roundtrip(mv.target.file);
    super::position::lemma_rank_roundtrip(mv.target.rank);
    let ox = file_index(mv.origin.file);
    let oy = rank_index(mv.origin.rank);
    let tx = file_index(mv.target.file);
    let ty = rank_index(mv.target.rank);
    let x = walk(ox, sign(tx - ox), k);
    let y = walk(oy, sign(ty - oy), k);
    if in_board(x, y) {
        assert(y * 8 + x == ty * 8 + tx <==> (x == tx && y == ty));
    }
    if on_line(mv) && (line_length(mv) == k || line_length(mv) == 0) {
        assert(x == tx && y == ty);
    }
    if x == tx && y == ty {
        assert(on_line(mv));
    }
}

/// Steps up to the length of the line stay on the board.
proof fn lemma_line_in_board(mv: ChessMove, j: int)
    requires
        on_line(mv),
        0 <= j <= line_length(mv),
    ensures
        in_board(
            walk(file_index(mv.origin.file), sign(file_index(mv.target.file) - file_index(mv.origin.file)), j),
            walk(rank_index(mv.origin.rank), sign(rank_index(mv.target.rank) - rank_index(mv.origin.rank)), j),
        ),
{
    super::position::lemma_file_roundtrip(mv.origin.file);
    super::position::lemma_rank_roundtrip(mv.origin.rank);
    super::position::lemma_file_roundtrip(mv.target.file);
    super::position::lemma_rank_roundtrip(mv.target.rank);
}

proof fn lemma_los_blocked_off_board(mv: ChessMove, board: Board, k: int)
    requires
        mv.piece != Piece::Knight,
        k >= 1,
        !in_board(
            walk(file_index(mv.origin.file), sign(file_index(mv.target.file) - file_index(mv.origin.file)), k),
            walk(rank_index(mv.origin.rank), sign(rank_index(mv.target.rank) - rank_index(mv.origin.rank)), k),
        ),
        forall|j: int| 1 <= j < k ==> #[trigger] line_square(mv, j) != square_index(mv.target),
    ensures
        !line_of_sight(mv, board),
{
    if on_line(mv) {
        let n = line_length(mv);
        if n >= k {
            lemma_line_in_board(mv, k);
        } else if n >= 1 {
            lemma_line_hits_target(mv, n);
            lemma_line_in_board(mv, n);
            assert(line_square(mv, n) != square_index(mv.target));
        } else {
            lemma_line_in_board(mv, k);
            super::position::lemma_file_roundtrip(mv.origin.file);
            super::position::lemma_rank_roundtrip(mv.origin.rank);
            super::position::lemma_file_roundtrip(mv.target.file);
            super::position::lemma_rank_roundtrip(mv.target.rank);
        }
    }
}

proof fn lemma_los_stop(mv: ChessMove, board: Board, k: int)
    requires
        mv.piece != Piece::Knight,
        k >= 1,
        in_board(
            walk(file_index(mv.origin.file), sign(file_index(mv.target.file) - file_index(mv.origin.file)), k),
            walk(rank_index(mv.origin.rank), sign(rank_index(mv.target.rank) - rank_index(mv.origin.rank)), k),
        ),
        forall|j: int|
            1 <= j < k ==> #[trigger] board.square(line_square(mv, j)) is None && line_square(mv, j)
                != square_index(mv.target),
        board.square(line_square(mv, k)) is Some || line_square(mv, k) == square_index(mv.target),
    ensures
        line_of_sight(mv, board) == (line_square(mv, k) == square_index(mv.target) && (board.square(
            square_index(mv.target),
        ) matches Some((c, _)) ==> c != mv.color)),
{
    lemma_line_hits_target(mv, k);
    if on_line(mv) {
        let n = line_length(mv);
        if n > k {
            lemma_line_hits_target(mv, n);
            lemma_line_in_board(mv, k);
        } else if n < k {
            if n >= 1 {
                lemma_line_hits_target(mv, n);
                lemma_line_in_board(mv, n);
                assert(line_square(mv, n) != square_index(mv.target));
            } else {
                super::position::lemma_file_roundtrip(mv.origin.file);
                super::position::lemma_rank_roundtrip(mv.origin.rank);
                super::position::lemma_file_roundtrip(mv.target.file);
                super::position::lemma_rank_roundtrip(mv.target.rank);
            }
        }
    }
}

/// How many ranks `mv` goes forward for its side: up the board for white,
/// down the board for black.
pub open spec fn advance(mv: ChessMove) -> int {
    if mv.color == Color::White {
        rank_index(mv.target.rank) - rank_index(mv.origin.rank)
    } else {
        rank_index(mv.origin.rank) - rank_index(mv.target.rank)
    }
}

/// The rank the pawns of `color` start on.
pub open spec fn pawn_start_rank(color: Color) -> Rank {
    if color == Color::White {
        Rank::Two
    } else {
        Rank::Seven
    }
}

/// The rank one step ahead of the starting rank of the pawns of `color`.
pub open spec fn pawn_step_rank(color: Color) -> Rank {
    if color == Color::White {
        Rank::Three
    } else {
        Rank::Six
    }
}

/// The rank two steps ahead of the starting rank of the pawns of `color`.
pub open spec fn pawn_double_rank(color: Color) -> Rank {
    if color == Color::White {
        Rank::Four
    } else {
        Rank::Five
    }
}

/// What `keep_legal` keeps is taken from its input and passes the filter.
proof fn lemma_keep_legal_sound(s: Seq<ChessMove>, board: Board)
    ensures
        forall|i: int|
            0 <= i < keep_legal(s, board).len() ==> legal_filter(#[trigger] keep_legal(s, board)[i], board)
                && exists|j: int| 0 <= j < s.len() && s[j] == keep_legal(s, board)[i],
    decreases s.len(),
{
    if s.len() > 0 {
        let d = s.drop_last();
        lemma_keep_legal_sound(d, board);
        let prev = keep_legal(d, board);
        let out = keep_legal(s, board);
        assert forall|i: int| 0 <= i < out.len() implies legal_filter(#[trigger] out[i], board) && exists|j: int|
            0 <= j < s.len() && s[j] == out[i] by {
            if i < prev.len() {
                assert(out[i] == prev[i]);
                let j = choose|j: int| 0 <= j < d.len() && d[j] == prev[i];
                assert(s[j] == out[i]);
            } else {
                assert(out[i] == s.last());
                assert(s[s.len() - 1] == out[i]);
            }
        }
    }
}

/// A move of the input that passes the filter is kept.
proof fn lemma_keep_legal_complete(s: Seq<ChessMove>, board: Board, j: int)
    requires
        0 <= j < s.len(),
        legal_filter(s[j], board),
    ensures
        keep_legal(s, board).contains(s[j]),
    decreases s.len(),
{
    let out = keep_legal(s, board);
    if j == s.len() - 1 {
        assert(out[out.len() - 1] == s[j]);
    } else {
        let d = s.drop_last();
        assert(d[j] == s[j]);
        lemma_keep_legal_complete(d, board, j);
        let prev = keep_legal(d, board);
        let k = choose|k: int| 0 <= k < prev.len() && prev[k] == s[j];
        assert(out[k] == prev[k]);
    }
}

/// The moves from the displacement table start on `pos` with `piece` of
/// `color`; when every displacement goes one rank up, each goes one rank
/// forward for its side.
proof fn lemma_basic_candidates_shape(rel: Seq<RelativeChessMove>, piece: Piece, pos: Position, color: Color)
    ensures
        forall|i: int|
            0 <= i < basic_candidates(rel, piece, pos, color).len() ==> {
                let m = #[trigger] basic_candidates(rel, piece, pos, color)[i];
                &&& m.origin == pos
                &&& m.piece == piece
                &&& m.color == color
            },
        (forall|j: int| 0 <= j < rel.len() ==> #[trigger] rel[j].y == 1) ==> forall|i: int|
            0 <= i < basic_candidates(rel, piece, pos, color).len() ==> advance(
                #[trigger] basic_candidates(rel, piece, pos, color)[i],
            ) == 1,
    decreases rel.len(),
{
    if rel.len() > 0 {
        let d = rel.drop_last();
        lemma_basic_candidates_shape(d, piece, pos, color);
        let m = rel.last();
        let dy = if color == Color::Black {
            -(m.y as int)
        } else {
            m.y as int
        };
        let y = rank_index(pos.rank) + dy;
        let x = file_index(pos.file) + m.x;
        if in_board(x, y) {
            super::position::lemma_index_roundtrip(y);
        }
        if forall|j: int| 0 <= j < rel.len() ==> #[trigger] rel[j].y == 1 {
            assert forall|j: int| 0 <= j < d.len() implies #[trigger] d[j].y == 1 by {
                assert(d[j] == rel[j]);
            }
            assert(rel[rel.len() - 1].y == 1);
        }
    }
}

/// Every candidate of a pawn starts on `pos`, is a pawn move of `color`,
/// and, when the displacements of the pawn all go one rank up, goes one
/// rank forward, or two from the starting rank along its file.
proof fn lemma_pawn_candidates_shape(table: RelativeMoveTable, pos: Position, color: Color, board: Board)
    ensures
        forall|i: int|
            0 <= i < candidates(table, Piece::Pawn, pos, color, board).len() ==> {
                let m = #[trigger] candidates(table, Piece::Pawn, pos, color, board)[i];
                &&& m.origin == pos
                &&& m.piece == Piece::Pawn
                &&& m.color == color
                &&& (forall|j: int|
                    0 <= j < table.moves_of(Piece::Pawn).len() ==> #[trigger] table.moves_of(Piece::Pawn)[j].y
                        == 1) ==> (advance(m) == 1 || (advance(m) == 2 && m.origin.rank == pawn_start_rank(
                    m.color,
                ) && m.target.file == m.origin.file))
            },
{
    let rel = table.moves_of(Piece::Pawn);
    lemma_basic_candidates_shape(rel, Piece::Pawn, pos, color);
    let basic = basic_candidates(rel, Piece::Pawn, pos, color);
    let first = pawn_first_candidates(Piece::Pawn, pos, color);
    let eat = pawn_eat_candidates(Piece::Pawn, pos, color, board);
    let cands = candidates(table, Piece::Pawn, pos, color, board);
    assert(cands == basic + first + eat);
    super::position::lemma_file_roundtrip(pos.file);
    super::position::lemma_rank_roundtrip(pos.rank);
    super::position::lemma_index_roundtrip(3);
    super::position::lemma_index_roundtrip(4);
    let y = rank_index(pos.rank) + (if color == Color::White {
        1int
    } else {
        -1int
    });
    if 0 <= y < 8 {
        super::position::lemma_index_roundtrip(y);
    }
    assert forall|i: int| 0 <= i < cands.len() implies {
        let m = #[trigger] cands[i];
        &&& m.origin == pos
        &&& m.piece == Piece::Pawn
        &&& m.color == color
        &&& (forall|j: int| 0 <= j < rel.len() ==> #[trigger] rel[j].y == 1) ==> (advance(m) == 1 || (advance(m)
            == 2 && m.origin.rank == pawn_start_rank(m.color) && m.target.file == m.origin.file))
    } by {
        if i < basic.len() {
            assert(cands[i] == basic[i]);
        } else if i < basic.len() + first.len() {
            assert(cands[i] == first[i - basic.len()]);
        } else {
            assert(cands[i] == eat[i - basic.len() - first.len()]);
        }
    }
}

/// A pawn never takes straight ahead: among the legal moves of a pawn,
/// every move that stays on its file goes to an empty square.
pub proof fn lemma_pawn_never_takes_ahead(table: RelativeMoveTable, pos: Position, board: Board)
    ensures
        legal_moves(table, Piece::Pawn, pos, board) matches Some(s) ==> forall|i: int|
            0 <= i < s.len() && (#[trigger] s[i]).target.file == s[i].origin.file ==> board.square(
                square_index(s[i].target),
            ) is None,
{
    if let Some((c, p)) = board.square(square_index(pos)) {
        if p == Piece::Pawn {
            let cands = candidates(table, Piece::Pawn, pos, c, board);
            lemma_pawn_candidates_shape(table, pos, c, board);
            lemma_keep_legal_sound(cands, board);
            let s = keep_legal(cands, board);
            assert forall|i: int|
                0 <= i < s.len() && (#[trigger] s[i]).target.file == s[i].origin.file implies board.square(
                square_index(s[i].target),
            ) is None by {
                let j = choose|j: int| 0 <= j < cands.len() && cands[j] == s[i];
                assert(cands[j].piece == Piece::Pawn);
                assert(legal_filter(s[i], board));
            }
        }
    }
}

/// Every legal move of a pawn goes forward for its side: one rank, or two
/// ranks along its file from its starting rank, when the displacements of
/// the pawn in the table are all one rank up. Each starts on the pawn's
/// square, which holds a pawn of the move's side.
pub proof fn lemma_pawn_moves_go_forward(table: RelativeMoveTable, pos: Position, board: Board)
    requires
        forall|j: int| 0 <= j < table.moves_of(Piece::Pawn).len() ==> #[trigger] table.moves_of(Piece::Pawn)[j].y == 1,
    ensures
        legal_moves(table, Piece::Pawn, pos, board) matches Some(s) ==> forall|i: int|
            0 <= i < s.len() ==> {
                let m = #[trigger] s[i];
                &&& m.origin == pos
                &&& m.piece == Piece::Pawn
                &&& board.square(square_index(pos)) == Some((m.color, Piece::Pawn))
                &&& (advance(m) == 1 || (advance(m) == 2 && m.origin.rank == pawn_start_rank(m.color)
                    && m.target.file == m.origin.file))
            },
{
    if let Some((c, p)) = board.square(square_index(pos)) {
        if p == Piece::Pawn {
            let cands = candidates(table, Piece::Pawn, pos, c, board);
            lemma_pawn_candidates_shape(table, pos, c, board);
            lemma_keep_legal_sound(cands, board);
            let s = keep_legal(cands, board);
            assert forall|i: int| 0 <= i < s.len() implies {
                let m = #[trigger] s[i];
                &&& m.origin == pos
                &&& m.piece == Piece::Pawn
                &&& board.square(square_index(pos)) == Some((m.color, Piece::Pawn))
                &&& (advance(m) == 1 || (advance(m) == 2 && m.origin.rank == pawn_start_rank(m.color)
                    && m.target.file == m.origin.file))
            } by {
                let j = choose|j: int| 0 <= j < cands.len() && cands[j] == s[i];
                assert(cands[j] == s[i]);
                assert(legal_filter(s[i], board));
            }
        }
    }
}

/// A pawn on its starting rank, whose side is to play, with the two squares
/// ahead of it on its file empty, may step two ranks forward: that move is
/// among its legal moves, whatever the displacement table.
pub proof fn lemma_pawn_double_step(table: RelativeMoveTable, pos: Position, board: Board, color: Color)
    requires
        board.square(square_index(pos)) == Some((color, Piece::Pawn)),
        board.active() == color,
        pos.rank == pawn_start_rank(color),
        board.square(square_index(Position { file: pos.file, rank: pawn_step_rank(color) })) is None,
        board.square(square_index(Position { file: pos.file, rank: pawn_double_rank(color) })) is None,
    ensures
        legal_moves(table, Piece::Pawn, pos, board) matches Some(s) && s.contains(
            ChessMove {
                origin: pos,
                target: Position { file: pos.file, rank: pawn_double_rank(color) },
                piece: Piece::Pawn,
                color,
            },
        ),
{
    let mv = ChessMove {
        origin: pos,
        target: Position { file: pos.file, rank: pawn_double_rank(color) },
        piece: Piece::Pawn,
        color,
    };
    let rel = table.moves_of(Piece::Pawn);
    let basic = basic_candidates(rel, Piece::Pawn, pos, color);
    let first = pawn_first_candidates(Piece::Pawn, pos, color);
    let eat = pawn_eat_candidates(Piece::Pawn, pos, color, board);
    let cands = candidates(table, Piece::Pawn, pos, color, board);
    assert(cands == basic + first + eat);
    super::position::lemma_file_roundtrip(pos.file);
    assert(first[0] == mv);
    assert(cands[basic.len() as int] == mv);
    let f = file_index(pos.file);
    assert(on_line(mv));
    assert(line_length(mv) == 2);
    assert(line_square(mv, 1) == square_index(Position { file: pos.file, rank: pawn_step_rank(color) }));
    assert forall|k: int| 1 <= k < line_length(mv) implies #[trigger] board.square(line_square(mv, k)) is None by {
        assert(k == 1);
    }
    assert(line_of_sight(mv, board));
    assert(legal_filter(mv, board));
    lemma_keep_legal_complete(cands, board, basic.len() as int);
}

/// Every legal move of a piece starts on its square, is made by the side
/// to play with the piece that stands there, and never lands on a piece of
/// its own side.
pub proof fn lemma_legal_moves_sound(table: RelativeMoveTable, piece: Piece, pos: Position, board: Board)
    ensures
        legal_moves(table, piece, pos, board) matches Some(s) ==> forall|i: int|
            0 <= i < s.len() ==> {
                let m = #[trigger] s[i];
                &&& m.origin == pos
                &&& m.piece == piece
                &&& m.color == board.active()
                &&& board.square(square_index(pos)) == Some((m.color, piece))
                &&& !(board.square(square_index(m.target)) matches Some((c, _)) && c == m.color)
            },
{
    if let Some((c, p)) = board.square(square_index(pos)) {
        if p == piece {
            let rel = table.moves_of(piece);
            let cands = candidates(table, piece, pos, c, board);
            lemma_basic_candidates_shape(rel, piece, pos, c);
            if piece == Piece::Pawn {
                lemma_pawn_candidates_shape(table, pos, c, board);
            }
            lemma_keep_legal_sound(cands, board);
            let s = keep_legal(cands, board);
            assert forall|i: int| 0 <= i < s.len() implies {
                let m = #[trigger] s[i];
                &&& m.origin == pos
                &&& m.piece == piece
                &&& m.color == board.active()
                &&& board.square(square_index(pos)) == Some((m.color, piece))
                &&& !(board.square(square_index(m.target)) matches Some((c, _)) && c == m.color)
            } by {
                let j = choose|j: int| 0 <= j < cands.len() && cands[j] == s[i];
                assert(cands[j] == s[i]);
                assert(legal_filter(s[i], board));
            }
        }
    }
}

/// A pawn whose side is to play takes a piece of the other side standing
/// one file to its left or right on the rank just ahead of it: that capture
/// is among its legal moves, whatever the displacement table.
pub proof fn lemma_pawn_takes_diagonally(
    table: RelativeMoveTable,
    pos: Position,
    board: Board,
    color: Color,
    target: Position,
)
    requires
        board.square(square_index(pos)) == Some((color, Piece::Pawn)),
        board.active() == color,
        file_index(target.file) == file_index(pos.file) - 1 || file_index(target.file) == file_index(pos.file) + 1,
        rank_index(target.rank) == rank_index(pos.rank) + (if color == Color::White {
            1int
        } else {
            -1int
        }),
        board.square(square_index(target)) matches Some((c, _)) && c != color,
    ensures
        legal_moves(table, Piece::Pawn, pos, board) matches Some(s) && s.contains(
            ChessMove { origin: pos, target, piece: Piece::Pawn, color },
        ),
{
    let mv = ChessMove { origin: pos, target, piece: Piece::Pawn, color };
    let rel = table.moves_of(Piece::Pawn);
    let basic = basic_candidates(rel, Piece::Pawn, pos, color);
    let first = pawn_first_candidates(Piece::Pawn, pos, color);
    let left = pawn_eat_candidate(Piece::Pawn, pos, color, board, file_index(pos.file) - 1);
    let right = pawn_eat_candidate(Piece::Pawn, pos, color, board, file_index(pos.file) + 1);
    let cands = candidates(table, Piece::Pawn, pos, color, board);
    assert(cands == basic + first + (left + right));
    super::position::lemma_file_roundtrip(target.file);
    super::position::lemma_rank_roundtrip(target.rank);
    super::position::lemma_file_roundtrip(pos.file);
    super::position::lemma_rank_roundtrip(pos.rank);
    let x = file_index(target.file);
    let y = rank_index(target.rank);
    assert(position_at(x, y) == target);
    assert(square_index(target) == y * 8 + x);
    let k: int = if x == file_index(pos.file) - 1 {
        (basic.len() + first.len()) as int
    } else {
        (basic.len() + first.len() + left.len()) as int
    };
    if x == file_index(pos.file) - 1 {
        assert(left[0] == mv);
    } else {
        assert(right[0] == mv);
    }
    assert(cands[k] == mv);
    assert(on_line(mv));
    assert(line_length(mv) == 1);
    assert(line_of_sight(mv, board));
    assert(legal_filter(mv, board));
    lemma_keep_legal_complete(cands, board, k);
}

} // verus!
