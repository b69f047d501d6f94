use vstd::prelude::*;
use super::bitboard::{mirror, BitBoard};
use super::color::{is_ascii_upper, opposite, Color};
use super::movement::ChessMove;
use super::piece::{piece_of_fen_char, Piece};
use super::position::{file_index, rank_index, square_index, File, Position};

verus! {

/// What stands on a square: nothing, or a piece of some color.
pub type Occupant = Option<(Color, Piece)>;

/// A chess position: whose turn it is, one bitboard per color and one per
/// kind of piece.
#[derive(Debug, Clone, Copy, PartialEq, Eq, Structural)]
pub struct Board {
    active_player: Color,
    white_bb: BitBoard,
    black_bb: BitBoard,
    king_bb: BitBoard,
    queen_bb: BitBoard,
    rook_bb: BitBoard,
    bishop_bb: BitBoard,
    knight_bb: BitBoard,
    pawn_bb: BitBoard,
}

proof fn lemma_differ_somewhere(x: u64, y: u64)
    requires
        x != y,
    ensures
        exists|i: int| BitBoard(x)@.contains(i) != BitBoard(y)@.contains(i),
{
    if forall|i: int| BitBoard(x)@.contains(i) == BitBoard(y)@.contains(i) {
        assert(BitBoard(x)@ =~= BitBoard(y)@);
        super::bitboard::lemma_view_injective(BitBoard(x), BitBoard(y));
    }
}

/// The kind of piece of bitboard `j` when they are listed king, queen,
/// rook, bishop, knight, pawn.
pub open spec fn kind_at(j: int) -> Piece {
    if j == 0 {
        Piece::King
    } else if j == 1 {
        Piece::Queen
    } else if j == 2 {
        Piece::Rook
    } else if j == 3 {
        Piece::Bishop
    } else if j == 4 {
        Piece::Knight
    } else {
        Piece::Pawn
    }
}

/// The board with no piece at all.
pub open spec fn empty_squares() -> Seq<Occupant> {
    Seq::new(64, |i: int| None)
}

/// The color of a FEN piece letter.
pub open spec fn color_of_fen_char(c: char) -> Color {
    if is_ascii_upper(c) {
        Color::White
    } else {
        Color::Black
    }
}

/// The value of an ASCII decimal digit.
pub open spec fn digit_value(c: char) -> int {
    c as int - '0' as int
}

/// State of the reader of the placement field of a FEN string: file index,
/// rank index and the squares filled so far.
pub type FenCursor = (int, int, Seq<Occupant>);

/// One character of the placement field: `/` goes to the start of the rank
/// below, a digit skips that many files, a piece letter puts the piece on
/// the current square and moves one file right (files wrap around). The
/// same piece of the same color put again on a square it already holds
/// leaves the square as it is. A letter that names no piece makes the field
/// invalid, and so does a piece put on a square that holds another piece or
/// the other color, as a square holds at most one piece.
pub open spec fn fen_step(st: FenCursor, c: char) -> Option<FenCursor> {
    let (x, y, sq) = st;
    if c == '/' {
        Some((0, (y - 1) % 8, sq))
    } else if '0' <= c <= '9' {
        Some(((x + digit_value(c)) % 8, y, sq))
    } else {
        match piece_of_fen_char(c) {
            None => None,
            Some(p) => {
                let i = y * 8 + x;
                let placed = Some((color_of_fen_char(c), p));
                if sq[i] is Some && sq[i] != placed {
                    None
                } else {
                    Some(((x + 1) % 8, y, sq.update(i, placed)))
                }
            },
        }
    }
}

/// Reading of a whole placement field, starting on file A of rank 8.
pub open spec fn fen_placement(cs: Seq<char>) -> Option<FenCursor>
    decreases cs.len(),
{
    if cs.len() == 0 {
        Some((0, 7, empty_squares()))
    } else {
        match fen_placement(cs.drop_last()) {
            None => None,
            Some(st) => fen_step(st, cs.last()),
        }
    }
}

/// State of the reader of the placement field, as bitboards: file index,
/// rank index, the squares marked white, those marked black, and the pairs
/// of a square and a kind of piece marked so far.
pub type FenMarks = (int, int, Set<int>, Set<int>, Set<(int, Piece)>);

/// One character of the placement field, as the bitboards see it: as in
/// `fen_step`, but a piece letter marks its square with its color and its
/// kind whatever the square held, so that a square can end up with two
/// colors or two kinds. Only a letter that names no piece makes the field
/// invalid.
pub open spec fn fen_mark_step(st: FenMarks, c: char) -> Option<FenMarks> {
    let (x, y, w, b, ps) = st;
    if c == '/' {
        Some((0, (y - 1) % 8, w, b, ps))
    } else if '0' <= c <= '9' {
        Some(((x + digit_value(c)) % 8, y, w, b, ps))
    } else {
        match piece_of_fen_char(c) {
            None => None,
            Some(p) => {
                let i = y * 8 + x;
                if color_of_fen_char(c) == Color::White {
                    Some(((x + 1) % 8, y, w.insert(i), b, ps.insert((i, p))))
                } else {
                    Some(((x + 1) % 8, y, w, b.insert(i), ps.insert((i, p))))
                }
            },
        }
    }
}

/// Marks of a whole placement field, starting on file A of rank 8.
pub open spec fn fen_marks(cs: Seq<char>) -> Option<FenMarks>
    decreases cs.len(),
{
    if cs.len() == 0 {
        Some((0, 7, Set::<int>::empty(), Set::<int>::empty(), Set::<(int, Piece)>::empty()))
    } else {
        match fen_marks(cs.drop_last()) {
            None => None,
            Some(st) => fen_mark_step(st, cs.last()),
        }
    }
}

/// What a FEN string sets, as bitboards: the side to move, the squares of
/// each color and the (square, kind) pairs; `None` with fewer than four
/// fields, a letter that names no piece, or a side to move other than `w`
/// or `b`.
pub open spec fn fen_layout(s: Seq<char>) -> Option<(Color, Set<int>, Set<int>, Set<(int, Piece)>)> {
    let t = split_spaces(s);
    if t.len() < 4 {
        None
    } else {
        match fen_marks(t[0]) {
            None => None,
            Some(st) => if t[1] == seq!['w'] {
                Some((Color::White, st.2, st.3, st.4))
            } else if t[1] == seq!['b'] {
                Some((Color::Black, st.2, st.3, st.4))
            } else {
                None
            },
        }
    }
}

/// The bitboards of `b` are exactly these marks: `w` the white squares,
/// `bl` the black ones, and each kind's board the squares paired with it
/// in `ps`.
pub open spec fn has_marks(b: Board, w: Set<int>, bl: Set<int>, ps: Set<(int, Piece)>) -> bool {
    &&& b.white_board()@ == w
    &&& b.black_board()@ == bl
    &&& forall|i: int, p: Piece| #[trigger] b.piece_board(p)@.contains(i) == ps.contains((i, p))
}

/// Square `i` of `b` can be read: it is not marked with both colors, and
/// a square marked with a color is marked with some kind of piece.
pub open spec fn readable(b: Board, i: int) -> bool {
    &&& !(b.white_board()@.contains(i) && b.black_board()@.contains(i))
    &&& (b.white_board()@.contains(i) || b.black_board()@.contains(i)) ==> exists|p: Piece|
        #[trigger] b.piece_board(p)@.contains(i)
}

/// Once the marks of the placement field are invalid, reading more of it
/// does not help.
pub proof fn lemma_marks_none_prefix(cs: Seq<char>, k: int)
    requires
        0 <= k <= cs.len(),
        fen_marks(cs.take(k)) is None,
    ensures
        fen_marks(cs) is None,
    decreases cs.len() - k,
{
    if k < cs.len() {
        assert(cs.take(k + 1).drop_last() =~= cs.take(k));
        lemma_marks_none_prefix(cs, k + 1);
    } else {
        assert(cs.take(k) =~= cs);
    }
}

/// The pieces of `s` cut at every space, empty pieces included (as
/// `str::split(' ')` does).
pub open spec fn split_spaces(s: Seq<char>) -> Seq<Seq<char>>
    decreases s.len(),
{
    if s.len() == 0 {
        seq![Seq::<char>::empty()]
    } else {
        let r = split_spaces(s.drop_last());
        if s.last() == ' ' {
            r.push(Seq::<char>::empty())
        } else {
            r.update(r.len() - 1, r.last().push(s.last()))
        }
    }
}

/// The position described by a FEN string: at least four space separated
/// fields, a valid placement field and `w` or `b` as the side to move.
pub open spec fn fen_board(s: Seq<char>) -> Option<(Color, Seq<Occupant>)> {
    let t = split_spaces(s);
    if t.len() < 4 {
        None
    } else {
        match fen_placement(t[0]) {
            None => None,
            Some(st) => if t[1] == seq!['w'] {
                Some((Color::White, st.2))
            } else if t[1] == seq!['b'] {
                Some((Color::Black, st.2))
            } else {
                None
            },
        }
    }
}

pub proof fn lemma_split_nonempty(s: Seq<char>)
    ensures
        split_spaces(s).len() >= 1,
    decreases s.len(),
{
    if s.len() > 0 {
        lemma_split_nonempty(s.drop_last());
    }
}

pub proof fn lemma_placement_len(cs: Seq<char>)
    ensures
        fen_placement(cs) matches Some(st) ==> st.2.len() == 64 && 0 <= st.0 < 8 && 0 <= st.1 < 8,
    decreases cs.len(),
{
    if cs.len() > 0 {
        lemma_placement_len(cs.drop_last());
    }
}

/// Once the placement field is invalid, reading more of it does not help.
pub proof fn lemma_placement_none_prefix(cs: Seq<char>, k: int)
    requires
        0 <= k <= cs.len(),
        fen_placement(cs.take(k)) is None,
    ensures
        fen_placement(cs) is None,
    decreases cs.len() - k,
{
    if k < cs.len() {
        assert(cs.take(k + 1).drop_last() =~= cs.take(k));
        lemma_placement_none_prefix(cs, k + 1);
    } else {
        assert(cs.take(k) =~= cs);
    }
}

impl Board {
    /// The side to move.
    pub closed spec fn active(&self) -> Color {
        self.active_player
    }

    /// The squares of the white pieces.
    pub closed spec fn white_board(&self) -> BitBoard {
        self.white_bb
    }

    /// The squares of the black pieces.
    pub closed spec fn black_board(&self) -> BitBoard {
        self.black_bb
    }

    /// The squares of the white pieces.
    pub fn white_bb(&self) -> (r: BitBoard)
        ensures
            r == self.white_board(),
    {
        self.white_bb
    }

    /// The squares of the black pieces.
    pub fn black_bb(&self) -> (r: BitBoard)
        ensures
            r == self.black_board(),
    {
        self.black_bb
    }

    /// The squares of one kind of piece, of both colors.
    pub fn piece_bb(&self, p: Piece) -> (r: BitBoard)
        ensures
            r == self.piece_board(p),
    {
        self.piece_bb_ref(p)
    }

    /// The bitboard of one kind of piece.
    pub closed spec fn piece_board(&self, p: Piece) -> BitBoard {
        match p {
            Piece::King => self.king_bb,
            Piece::Queen => self.queen_bb,
            Piece::Rook => self.rook_bb,
            Piece::Bishop => self.bishop_bb,
            Piece::Knight => self.knight_bb,
            Piece::Pawn => self.pawn_bb,
        }
    }

    /// The kind of piece on square `i`, if any.
    pub closed spec fn piece_at(&self, i: int) -> Option<Piece> {
        if self.king_bb@.contains(i) {
            Some(Piece::King)
        } else if self.queen_bb@.contains(i) {
            Some(Piece::Queen)
        } else if self.rook_bb@.contains(i) {
            Some(Piece::Rook)
        } else if self.bishop_bb@.contains(i) {
            Some(Piece::Bishop)
        } else if self.knight_bb@.contains(i) {
            Some(Piece::Knight)
        } else if self.pawn_bb@.contains(i) {
            Some(Piece::Pawn)
        } else {
            None
        }
    }

    /// What stands on square `i` (`0 <= i < 64`).
    pub closed spec fn square(&self, i: int) -> Occupant {
        match self.piece_at(i) {
            None => None,
            Some(p) => if self.white_bb@.contains(i) {
                Some((Color::White, p))
            } else {
                Some((Color::Black, p))
            },
        }
    }

    /// The bitboards agree: no square is both white and black, the piece
    /// boards do not overlap, and a square has a piece exactly when it has
    /// a color.
    pub closed spec fn wf(&self) -> bool {
        &&& forall|i: int| !(#[trigger] self.white_bb@.contains(i) && self.black_bb@.contains(i))
        &&& forall|i: int|
            (#[trigger] self.white_bb@.contains(i) || self.black_bb@.contains(i)) <==> self.piece_at(
                i,
            ) is Some
        &&& forall|i: int, p: Piece, q: Piece|
            p != q ==> !(#[trigger] self.piece_board(p)@.contains(i) && #[trigger] self.piece_board(
                q,
            )@.contains(i))
    }

    /// The squares of the board, indexed by `square_index`.
    pub open spec fn squares(&self) -> Seq<Occupant> {
        Seq::new(64, |i: int| self.square(i))
    }

    proof fn lemma_piece_board_contains(&self, i: int, p: Piece)
        requires
            self.wf(),
            self.piece_board(p)@.contains(i),
        ensures
            self.piece_at(i) == Some(p),
    {
        assert(self.piece_board(Piece::King) == self.king_bb);
        assert(self.piece_board(Piece::Queen) == self.queen_bb);
        assert(self.piece_board(Piece::Rook) == self.rook_bb);
        assert(self.piece_board(Piece::Bishop) == self.bishop_bb);
        assert(self.piece_board(Piece::Knight) == self.knight_bb);
        assert(self.piece_board(Piece::Pawn) == self.pawn_bb);
    }

    /// A board with no piece and white to move.
    pub fn empty() -> (r: Board)
        ensures
            r.wf(),
            r.active() == Color::White,
            r.squares() == empty_squares(),
            r.white_board()@ == Set::<int>::empty(),
            r.black_board()@ == Set::<int>::empty(),
            forall|p: Piece| #[trigger] r.piece_board(p)@ == Set::<int>::empty(),
    {
        proof {
            super::bitboard::lemma_empty_view();
        }
        let b = Board {
            active_player: Color::White,
            white_bb: BitBoard(0),
            black_bb: BitBoard(0),
            king_bb: BitBoard(0),
            queen_bb: BitBoard(0),
            rook_bb: BitBoard(0),
            bishop_bb: BitBoard(0),
            knight_bb: BitBoard(0),
            pawn_bb: BitBoard(0),
        };
        assert(b.squares() =~= empty_squares());
        b
    }

    /// The board made of these bitboards, whether they agree or not.
    pub closed spec fn assemble(
        active: Color,
        white: BitBoard,
        black: BitBoard,
        king: BitBoard,
        queen: BitBoard,
        rook: BitBoard,
        bishop: BitBoard,
        knight: BitBoard,
        pawn: BitBoard,
    ) -> Board {
        Board {
            active_player: active,
            white_bb: white,
            black_bb: black,
            king_bb: king,
            queen_bb: queen,
            rook_bb: rook,
            bishop_bb: bishop,
            knight_bb: knight,
            pawn_bb: pawn,
        }
    }

    /// The board made of these bitboards, or `None` if they do not agree
    /// (a square of both colors, a square with two pieces, a piece without
    /// a color or a color without a piece).
    #[verifier::spinoff_prover]
    #[verifier::rlimit(30)]
    pub fn from_bitboards(
        active: Color,
        white: BitBoard,
        black: BitBoard,
        king: BitBoard,
        queen: BitBoard,
        rook: BitBoard,
        bishop: BitBoard,
        knight: BitBoard,
        pawn: BitBoard,
    ) -> (r: Option<Board>)
        ensures
            r is Some <==> Board::assemble(active, white, black, king, queen, rook, bishop, knight, pawn).wf(),
            r matches Some(b) ==> b == Board::assemble(active, white, black, king, queen, rook, bishop, knight, pawn),
            r matches Some(b) ==> b.active() == active && b.white_board() == white && b.black_board() == black
                && b.piece_board(Piece::King) == king && b.piece_board(Piece::Queen) == queen
                && b.piece_board(Piece::Rook) == rook && b.piece_board(Piece::Bishop) == bishop
                && b.piece_board(Piece::Knight) == knight && b.piece_board(Piece::Pawn) == pawn,
    {
        let b = Board {
            active_player: active,
            white_bb: white,
            black_bb: black,
            king_bb: king,
            queen_bb: queen,
            rook_bb: rook,
            bishop_bb: bishop,
            knight_bb: knight,
            pawn_bb: pawn,
        };
        let kinds: [BitBoard; 6] = [king, queen, rook, bishop, knight, pawn];
        proof {
            super::bitboard::lemma_empty_view();
            assert forall|j: int| 0 <= j < 6 implies #[trigger] kinds[j] == b.piece_board(kind_at(j)) by {}
        }
        let mut ok = white.0 & black.0 == 0;
        proof {
            super::bitboard::lemma_ops_view(white, black);
            if !ok {
                lemma_differ_somewhere(white.0 & black.0, 0);
                let i = choose|i: int| BitBoard(white.0 & black.0)@.contains(i) != BitBoard(0)@.contains(i);
                assert(BitBoard(white.0 & black.0)@.contains(i));
                assert(b.white_bb@.contains(i) && b.black_bb@.contains(i));
                assert(!b.wf());
                assert(white@.contains(i) && black@.contains(i));
            }
        }
        let mut occupied: u64 = 0;
        let mut j: usize = 0;
        while j < 6
            invariant
                j <= 6,
                ok ==> white.0 & black.0 == 0,
                !ok ==> !b.wf(),
                BitBoard(occupied)@ == Set::new(|i: int| exists|k: int| 0 <= k < j && #[trigger] kinds[k]@.contains(i)),
                ok ==> forall|k: int, l: int, i: int|
                    0 <= k < l < j ==> !(#[trigger] kinds[k]@.contains(i) && #[trigger] kinds[l]@.contains(i)),
                forall|k: int| 0 <= k < 6 ==> #[trigger] kinds[k] == b.piece_board(kind_at(k)),
                b == Board::assemble(active, white, black, king, queen, rook, bishop, knight, pawn),
            decreases 6 - j,
        {
            let kind = kinds[j];
            let clash = occupied & kind.0;
            proof {
                super::bitboard::lemma_empty_view();
                super::bitboard::lemma_ops_view(BitBoard(occupied), kind);
                if clash != 0 {
                    lemma_differ_somewhere(clash, 0);
                    let i = choose|i: int| BitBoard(clash)@.contains(i) != BitBoard(0)@.contains(i);
                    assert(BitBoard(clash)@.contains(i));
                    assert(kind@.contains(i) && BitBoard(occupied)@.contains(i));
                    let k = choose|k: int| 0 <= k < j && #[trigger] kinds[k]@.contains(i);
                    assert(b.piece_board(kind_at(k))@.contains(i) && b.piece_board(kind_at(j as int))@.contains(i));
                    assert(kind_at(k) != kind_at(j as int));
                }
            }
            if clash != 0 {
                ok = false;
            }
            let ghost before = occupied;
            occupied = occupied | kind.0;
            proof {
                assert(BitBoard(occupied)@ =~= Set::new(|i: int| exists|k: int| 0 <= k < j + 1 && #[trigger] kinds[k]@.contains(i))) by {
                    assert forall|i: int| BitBoard(occupied)@.contains(i) implies exists|k: int| 0 <= k < j + 1 && #[trigger] kinds[k]@.contains(i) by {
                        if kind@.contains(i) {
                            assert(kinds[j as int]@.contains(i));
                        }
                    }
                }
                if ok {
                    assert forall|k: int, l: int, i: int|
                        0 <= k < l < j + 1 implies !(#[trigger] kinds[k]@.contains(i) && #[trigger] kinds[l]@.contains(i)) by {
                        if l == j && kinds[k]@.contains(i) && kinds[l]@.contains(i) {
                            assert(BitBoard(before)@.contains(i));
                            assert(BitBoard(clash)@.contains(i));
                            assert(BitBoard(clash) == BitBoard(0));
                            assert(false);
                        }
                    }
                }
            }
            j = j + 1;
        }
        let colored = white.0 | black.0;
        proof {
            super::bitboard::lemma_ops_view(white, black);
            assert forall|i: int| BitBoard(occupied)@.contains(i) == (b.piece_at(i) is Some) by {
                if b.piece_at(i) is Some {
                    let p = b.piece_at(i).unwrap();
                    let k: int = match p {
                        Piece::King => 0,
                        Piece::Queen => 1,
                        Piece::Rook => 2,
                        Piece::Bishop => 3,
                        Piece::Knight => 4,
                        Piece::Pawn => 5,
                    };
                    assert(kinds[k]@.contains(i));
                }
                if BitBoard(occupied)@.contains(i) {
                    let k = choose|k: int| 0 <= k < 6 && #[trigger] kinds[k]@.contains(i);
                    assert(b.piece_board(kind_at(k))@.contains(i));
                }
            }
            if colored != occupied {
                lemma_differ_somewhere(colored, occupied);
                let i = choose|i: int| BitBoard(colored)@.contains(i) != BitBoard(occupied)@.contains(i);
                assert(BitBoard(colored)@.contains(i) == (b.white_bb@.contains(i) || b.black_bb@.contains(i)));
                assert(BitBoard(occupied)@.contains(i) == (b.piece_at(i) is Some));
                assert(!b.wf());
            }
            if ok && colored == occupied {
                assert forall|i: int, p: Piece, q: Piece|
                    p != q implies !(#[trigger] b.piece_board(p)@.contains(i) && #[trigger] b.piece_board(q)@.contains(i)) by {
                    let kp: int = match p {
                        Piece::King => 0,
                        Piece::Queen => 1,
                        Piece::Rook => 2,
                        Piece::Bishop => 3,
                        Piece::Knight => 4,
                        Piece::Pawn => 5,
                    };
                    let kq: int = match q {
                        Piece::King => 0,
                        Piece::Queen => 1,
                        Piece::Rook => 2,
                        Piece::Bishop => 3,
                        Piece::Knight => 4,
                        Piece::Pawn => 5,
                    };
                    assert(kinds[kp] == b.piece_board(p));
                    assert(kinds[kq] == b.piece_board(q));
                    if kp < kq {
                        assert(!(kinds[kp]@.contains(i) && kinds[kq]@.contains(i)));
                    } else {
                        assert(!(kinds[kq]@.contains(i) && kinds[kp]@.contains(i)));
                    }
                }
                assert forall|i: int| !(#[trigger] b.white_bb@.contains(i) && b.black_bb@.contains(i)) by {
                    assert(!BitBoard(white.0 & black.0)@.contains(i));
                }
                assert forall|i: int|
                    (#[trigger] b.white_bb@.contains(i) || b.black_bb@.contains(i)) <==> b.piece_at(i) is Some by {
                    assert(BitBoard(colored)@.contains(i) == BitBoard(occupied)@.contains(i));
                }
            }
        }
        if ok && colored == occupied {
            Some(b)
        } else {
            None
        }
    }

    /// Reads a position in Forsyth-Edwards notation. Only the placement and
    /// side-to-move fields are used; the castling and en-passant fields must
    /// be present. `None` when the string does not describe a position
    /// (`fen_layout`). A piece placed on a square already taken sets its
    /// bits beside those there: the board then holds the marks of
    /// `fen_layout`, and its bitboards agree (one piece of one color on each
    /// square, `wf`) exactly when `fen_board` describes it.
    pub fn from_fen(fen: &str) -> (r: Option<Board>)
        ensures
            match (r, fen_layout(fen@)) {
                (None, None) => true,
                (Some(b), Some((c, w, bl, ps))) => b.active() == c && has_marks(b, w, bl, ps),
                _ => false,
            },
            fen_board(fen@) matches Some((c, sq)) ==> (r matches Some(b) && b.wf() && b.active() == c
                && b.squares() == sq),
    {
        let chars = chars_of(fen);
        let tokens = split_tokens(&chars);
        if tokens.len() < 4 {
            return None;
        }
        let pieces: &Vec<char> = &tokens[0];
        let active: &Vec<char> = &tokens[1];
        let mut board = match Board::place_pieces(pieces) {
            Some(b) => b,
            None => return None,
        };
        if active.len() != 1 {
            assert(active@ != seq!['w']);
            assert(active@ != seq!['b']);
            return None;
        }
        if active[0] == 'w' {
            assert(active@ =~= seq!['w']);
            board.set_active(Color::White);
        } else if active[0] == 'b' {
            assert(active@ =~= seq!['b']);
            board.set_active(Color::Black);
        } else {
            assert(active@ != seq!['w']);
            assert(active@ != seq!['b']);
            return None;
        }
        Some(board)
    }

    /// Reads the placement field of a FEN string onto an empty board, white
    /// to move.
    fn place_pieces(pieces: &Vec<char>) -> (r: Option<Board>)
        ensures
            match (r, fen_marks(pieces@)) {
                (None, None) => true,
                (Some(b), Some(st)) => b.active() == Color::White && has_marks(b, st.2, st.3, st.4),
                _ => false,
            },
            fen_placement(pieces@) matches Some(st) ==> (r matches Some(b) && b.wf() && b.squares() == st.2),
    {
        let mut board = Board::empty();
        let mut pos = Position::from_file_rank(File::A, super::position::Rank::Eight);
        let mut k: usize = 0;
        let ghost mut clean: bool = true;
        proof {
            assert(pieces@.take(0) =~= Seq::<char>::empty());
        }
        while k < pieces.len()
            invariant
                k <= pieces.len(),
                board.active() == Color::White,
                fen_marks(pieces@.take(k as int)) matches Some(st) && st.0 == file_index(pos.file) && st.1
                    == rank_index(pos.rank) && has_marks(board, st.2, st.3, st.4),
                clean == (fen_placement(pieces@.take(k as int)) is Some),
                clean ==> board.wf() && fen_placement(pieces@.take(k as int)) == Some(
                    (file_index(pos.file), rank_index(pos.rank), board.squares()),
                ),
            decreases pieces.len() - k,
        {
            let c = pieces[k];
            let ghost prev = pieces@.take(k as int);
            assert(pieces@.take(k + 1).drop_last() =~= prev);
            assert(pieces@.take(k + 1).last() == c);
            proof {
                super::position::lemma_file_roundtrip(pos.file);
                super::position::lemma_rank_roundtrip(pos.rank);
            }
            if c == '/' {
                pos.set_file(File::A);
                pos.move_down(1);
            } else if '0' <= c && c <= '9' {
                let d: u8 = (c as u32 - '0' as u32) as u8;
                pos.move_right(d);
            } else {
                match Piece::from_fen_char(c) {
                    None => {
                        proof {
                            lemma_marks_none_prefix(pieces@, k + 1);
                            lemma_placement_none_prefix(pieces@, k + 1);
                        }
                        return None;
                    },
                    Some(piece) => {
                        proof {
                            super::position::lemma_square_index_bijective(pos, 0);
                        }
                        let ghost idx = square_index(pos);
                        let color = Color::from_fen_char(c);
                        let ghost before = board;
                        board.put(piece, color, pos);
                        proof {
                            let placed = Some((color, piece));
                            if clean {
                                assert(before.squares()[idx] == before.square(idx));
                                if before.square(idx) == placed {
                                    assert(before.squares().update(idx, placed) =~= before.squares());
                                }
                                clean = before.square(idx) is None || before.square(idx) == placed;
                            }
                            let st = fen_marks(prev).unwrap();
                            assert forall|i: int, p: Piece| #[trigger] board.piece_board(p)@.contains(i)
                                == st.4.insert((idx, piece)).contains((i, p)) by {
                                if p == piece {
                                    assert(board.piece_board(p)@ == before.piece_board(p)@.insert(idx));
                                } else {
                                    assert(board.piece_board(p)@ == before.piece_board(p)@);
                                }
                            }
                        }
                        pos.move_right(1);
                    },
                }
            }
            k = k + 1;
        }
        assert(pieces@.take(pieces.len() as int) =~= pieces@);
        Some(board)
    }

    /// The side to move.
    pub fn next_to_play(&self) -> (r: Color)
        ensures
            r == self.active(),
    {
        self.active_player
    }

    fn piece_bb_ref(&self, p: Piece) -> (r: BitBoard)
        ensures
            r == self.piece_board(p),
    {
        match p {
            Piece::King => self.king_bb,
            Piece::Queen => self.queen_bb,
            Piece::Rook => self.rook_bb,
            Piece::Bishop => self.bishop_bb,
            Piece::Knight => self.knight_bb,
            Piece::Pawn => self.pawn_bb,
        }
    }

    /// Plays `mv`: the moving piece leaves its origin, whatever stood on the
    /// target is taken, and the turn passes to the other side. `Err` when it
    /// is not the turn of the move's color or the origin does not hold the
    /// move's piece of that color; the board is then unchanged.
    pub fn make_move(&mut self, mv: &ChessMove) -> (r: Result<(), ()>)
        requires
            old(self).wf(),
        ensures
            final(self).wf(),
            r is Err <==> (mv.color != old(self).active() || old(self).square(
                square_index(mv.origin),
            ) != Some((mv.color, mv.piece))),
            r is Err ==> *final(self) == *old(self),
            r is Ok ==> final(self).active() == opposite(old(self).active()),
            r is Ok ==> final(self).squares() == old(self).squares().update(
                square_index(mv.origin),
                None,
            ).update(square_index(mv.target), Some((mv.color, mv.piece))),
    {
        proof {
            super::position::lemma_square_index_bijective(mv.origin, 0);
            super::position::lemma_square_index_bijective(mv.target, 0);
        }
        if mv.color != self.active_player {
            return Err(());
        }
        let color_bb = match mv.color {
            Color::Black => self.black_bb,
            Color::White => self.white_bb,
        };
        let pbb = self.piece_bb_ref(mv.piece);
        let bb = pbb & color_bb;
        proof {
            super::bitboard::lemma_ops_view(pbb, color_bb);
            let o = square_index(mv.origin);
            if pbb@.contains(o) {
                self.lemma_piece_board_contains(o, mv.piece);
            }
        }
        if !bb.read(mv.origin) {
            return Err(());
        }
        let ghost s0 = self.squares();
        self.unset(mv.piece, mv.color, mv.origin);
        let ghost s1 = self.squares();
        if let Some((color, piece)) = self.read(mv.target) {
            self.unset(piece, color, mv.target);
        }
        let ghost s2 = self.squares();
        assert(s2 =~= s0.update(square_index(mv.origin), None).update(square_index(mv.target), None));
        assert(self.square(square_index(mv.target)) is None) by {
            assert(s2[square_index(mv.target)] is None);
        }
        self.set(mv.piece, mv.color, mv.target);
        let next = match self.active_player {
            Color::White => Color::Black,
            Color::Black => Color::White,
        };
        self.set_active(next);
        assert(self.squares() =~= s0.update(square_index(mv.origin), None).update(
            square_index(mv.target),
            Some((mv.color, mv.piece)),
        ));
        Ok(())
    }

    /// Gives the turn to `c`.
    fn set_active(&mut self, c: Color)
        ensures
            final(self).active() == c,
            old(self).wf() ==> final(self).wf(),
            final(self).squares() == old(self).squares(),
            forall|i: int| #[trigger] final(self).square(i) == old(self).square(i),
            final(self).white_board() == old(self).white_board(),
            final(self).black_board() == old(self).black_board(),
            forall|p: Piece| #[trigger] final(self).piece_board(p) == old(self).piece_board(p),
    {
        let ghost before = *self;
        self.active_player = c;
        assert forall|i: int| #[trigger] self.square(i) == before.square(i) by {
            assert(self.piece_at(i) == before.piece_at(i));
        }
        assert forall|p: Piece| #[trigger] self.piece_board(p) == before.piece_board(p) by {}
        assert(self.squares() =~= before.squares());
        proof {
            if before.wf() {
                assert forall|i: int, p: Piece, q: Piece|
                    p != q implies !(#[trigger] self.piece_board(p)@.contains(i)
                    && #[trigger] self.piece_board(q)@.contains(i)) by {
                    assert(self.piece_board(p) == before.piece_board(p));
                    assert(self.piece_board(q) == before.piece_board(q));
                }
                assert forall|i: int|
                    (#[trigger] self.white_bb@.contains(i) || self.black_bb@.contains(i))
                        <==> self.piece_at(i) is Some by {
                    assert(self.piece_at(i) == before.piece_at(i));
                }
            }
        }
    }

    /// Sets the bits of a `piece` of `color` on `pos`, whatever stands
    /// there: the color's board and the piece's board get the square.
    fn put(&mut self, piece: Piece, color: Color, pos: Position)
        ensures
            final(self).active() == old(self).active(),
            final(self).white_board()@ == if color == Color::White {
                old(self).white_board()@.insert(square_index(pos))
            } else {
                old(self).white_board()@
            },
            final(self).black_board()@ == if color == Color::Black {
                old(self).black_board()@.insert(square_index(pos))
            } else {
                old(self).black_board()@
            },
            forall|p: Piece| #[trigger] final(self).piece_board(p)@ == if p == piece {
                old(self).piece_board(p)@.insert(square_index(pos))
            } else {
                old(self).piece_board(p)@
            },
            old(self).wf() && old(self).square(square_index(pos)) is None ==> final(self).wf()
                && final(self).squares() == old(self).squares().update(square_index(pos), Some((color, piece))),
            old(self).wf() && old(self).square(square_index(pos)) == Some((color, piece)) ==> final(self).wf()
                && final(self).squares() == old(self).squares(),
    {
        let ghost old_self = *self;
        let ghost idx = square_index(pos);
        proof {
            super::position::lemma_square_index_bijective(pos, 0);
            assert(old_self.piece_board(Piece::King) == old_self.king_bb);
            assert(old_self.piece_board(Piece::Queen) == old_self.queen_bb);
            assert(old_self.piece_board(Piece::Rook) == old_self.rook_bb);
            assert(old_self.piece_board(Piece::Bishop) == old_self.bishop_bb);
            assert(old_self.piece_board(Piece::Knight) == old_self.knight_bb);
            assert(old_self.piece_board(Piece::Pawn) == old_self.pawn_bb);
        }
        match color {
            Color::Black => self.black_bb.set(pos),
            Color::White => self.white_bb.set(pos),
        }
        match piece {
            Piece::King => self.king_bb.set(pos),
            Piece::Queen => self.queen_bb.set(pos),
            Piece::Rook => self.rook_bb.set(pos),
            Piece::Bishop => self.bishop_bb.set(pos),
            Piece::Knight => self.knight_bb.set(pos),
            Piece::Pawn => self.pawn_bb.set(pos),
        }
        proof {
            assert forall|p: Piece| #[trigger] self.piece_board(p)@ == if p == piece {
                old_self.piece_board(p)@.insert(idx)
            } else {
                old_self.piece_board(p)@
            } by {}
            if old_self.wf() && old_self.square(idx) is None {
                self.lemma_put_empty(old_self, piece, color, idx);
            }
            if old_self.wf() && old_self.square(idx) == Some((color, piece)) {
                old_self.lemma_piece_board_contains_at(idx);
                assert(self.white_bb@ =~= old_self.white_bb@);
                assert(self.black_bb@ =~= old_self.black_bb@);
                assert(self.king_bb@ =~= old_self.king_bb@);
                assert(self.queen_bb@ =~= old_self.queen_bb@);
                assert(self.rook_bb@ =~= old_self.rook_bb@);
                assert(self.bishop_bb@ =~= old_self.bishop_bb@);
                assert(self.knight_bb@ =~= old_self.knight_bb@);
                assert(self.pawn_bb@ =~= old_self.pawn_bb@);
                self.lemma_same_bits(old_self);
            }
        }
    }

    /// Setting the bits of a piece on an empty square of a board whose
    /// bitboards agree keeps them agreeing, with that piece on the square.
    proof fn lemma_put_empty(&self, old_self: Board, piece: Piece, color: Color, idx: int)
        requires
            old_self.wf(),
            0 <= idx < 64,
            old_self.square(idx) is None,
            self.white_bb@ == if color == Color::White { old_self.white_bb@.insert(idx) } else { old_self.white_bb@ },
            self.black_bb@ == if color == Color::Black { old_self.black_bb@.insert(idx) } else { old_self.black_bb@ },
            forall|p: Piece| #[trigger] self.piece_board(p)@ == if p == piece {
                old_self.piece_board(p)@.insert(idx)
            } else {
                old_self.piece_board(p)@
            },
        ensures
            self.wf(),
            self.squares() == old_self.squares().update(idx, Some((color, piece))),
    {
        assert(self.piece_board(Piece::King) == self.king_bb);
        assert(self.piece_board(Piece::Queen) == self.queen_bb);
        assert(self.piece_board(Piece::Rook) == self.rook_bb);
        assert(self.piece_board(Piece::Bishop) == self.bishop_bb);
        assert(self.piece_board(Piece::Knight) == self.knight_bb);
        assert(self.piece_board(Piece::Pawn) == self.pawn_bb);
        assert(old_self.piece_board(Piece::King) == old_self.king_bb);
        assert(old_self.piece_board(Piece::Queen) == old_self.queen_bb);
        assert(old_self.piece_board(Piece::Rook) == old_self.rook_bb);
        assert(old_self.piece_board(Piece::Bishop) == old_self.bishop_bb);
        assert(old_self.piece_board(Piece::Knight) == old_self.knight_bb);
        assert(old_self.piece_board(Piece::Pawn) == old_self.pawn_bb);
        assert(!old_self.white_bb@.contains(idx) && !old_self.black_bb@.contains(idx));
        assert forall|i: int, p: Piece, q: Piece|
            p != q implies !(#[trigger] self.piece_board(p)@.contains(i) && #[trigger] self.piece_board(
                q,
            )@.contains(i)) by {
            assert(old_self.piece_board(p)@.contains(i) ==> old_self.piece_at(i) is Some);
            assert(old_self.piece_board(q)@.contains(i) ==> old_self.piece_at(i) is Some);
        }
        assert forall|i: int|
            (#[trigger] self.white_bb@.contains(i) || self.black_bb@.contains(i)) <==> self.piece_at(
                i,
            ) is Some by {
            if i != idx {
                assert(self.white_bb@.contains(i) == old_self.white_bb@.contains(i));
                assert(self.black_bb@.contains(i) == old_self.black_bb@.contains(i));
                assert(self.piece_at(i) == old_self.piece_at(i));
            } else {
                assert(self.piece_board(piece)@.contains(i));
            }
        }
        assert forall|i: int| !(#[trigger] self.white_bb@.contains(i) && self.black_bb@.contains(i)) by {}
        assert forall|i: int| 0 <= i < 64 implies #[trigger] self.square(i) == old_self.squares().update(
            idx,
            Some((color, piece)),
        )[i] by {
            if i != idx {
                assert(self.piece_at(i) == old_self.piece_at(i));
            } else {
                assert(self.piece_board(piece)@.contains(i));
                self.lemma_piece_board_contains(i, piece);
            }
        }
        assert(self.squares() =~= old_self.squares().update(idx, Some((color, piece))));
    }

    /// On a board whose bitboards agree, what stands on a square is what
    /// the bitboards mark there: an empty square has no bit set, and the
    /// piece on a taken square has the bit of its color, not the other's,
    /// and of its kind, no other.
    pub proof fn lemma_square_bits(&self, i: int)
        requires
            self.wf(),
        ensures
            self.square(i) is None <==> !(self.white_board()@.contains(i) || self.black_board()@.contains(i)),
            self.square(i) is None ==> forall|q: Piece| !(#[trigger] self.piece_board(q)@.contains(i)),
            self.square(i) matches Some((c, p)) ==> {
                &&& self.piece_board(p)@.contains(i)
                &&& forall|q: Piece| q != p ==> !(#[trigger] self.piece_board(q)@.contains(i))
                &&& (c == Color::White <==> self.white_board()@.contains(i))
                &&& (c == Color::Black <==> self.black_board()@.contains(i))
            },
            readable(*self, i),
    {
        assert(self.piece_board(Piece::King) == self.king_bb);
        assert(self.piece_board(Piece::Queen) == self.queen_bb);
        assert(self.piece_board(Piece::Rook) == self.rook_bb);
        assert(self.piece_board(Piece::Bishop) == self.bishop_bb);
        assert(self.piece_board(Piece::Knight) == self.knight_bb);
        assert(self.piece_board(Piece::Pawn) == self.pawn_bb);
        if self.square(i) is None {
            assert forall|q: Piece| !(#[trigger] self.piece_board(q)@.contains(i)) by {
                if self.piece_board(q)@.contains(i) {
                    assert(self.piece_at(i) is Some);
                }
            }
        }
        if let Some((c, p)) = self.square(i) {
            assert forall|q: Piece| q != p implies !(#[trigger] self.piece_board(q)@.contains(i)) by {
                assert(self.piece_board(p)@.contains(i));
            }
        }
        if self.white_board()@.contains(i) || self.black_board()@.contains(i) {
            let p = self.piece_at(i).unwrap();
            assert(self.piece_board(p)@.contains(i));
        }
    }

    /// A board with the same bitboards as a board whose bitboards agree
    /// has agreeing bitboards too, and the same squares.
    proof fn lemma_same_bits(&self, other: Board)
        requires
            other.wf(),
            self.white_bb@ == other.white_bb@,
            self.black_bb@ == other.black_bb@,
            self.king_bb@ == other.king_bb@,
            self.queen_bb@ == other.queen_bb@,
            self.rook_bb@ == other.rook_bb@,
            self.bishop_bb@ == other.bishop_bb@,
            self.knight_bb@ == other.knight_bb@,
            self.pawn_bb@ == other.pawn_bb@,
        ensures
            self.wf(),
            self.squares() == other.squares(),
    {
        assert forall|i: int| #[trigger] self.piece_at(i) == other.piece_at(i) by {}
        assert forall|i: int| #[trigger] self.square(i) == other.square(i) by {}
        assert(self.squares() =~= other.squares());
        assert forall|q: Piece| #[trigger] self.piece_board(q)@ == other.piece_board(q)@ by {}
        assert forall|i: int, p: Piece, q: Piece|
            p != q implies !(#[trigger] self.piece_board(p)@.contains(i) && #[trigger] self.piece_board(
                q,
            )@.contains(i)) by {
            assert(self.piece_board(p)@ == other.piece_board(p)@);
            assert(self.piece_board(q)@ == other.piece_board(q)@);
        }
        assert forall|i: int|
            (#[trigger] self.white_bb@.contains(i) || self.black_bb@.contains(i)) <==> self.piece_at(i) is Some by {
            assert(self.piece_at(i) == other.piece_at(i));
        }
        assert forall|i: int| !(#[trigger] self.white_bb@.contains(i) && self.black_bb@.contains(i)) by {
            assert(!(other.white_bb@.contains(i) && other.black_bb@.contains(i)));
        }
    }

    /// The piece standing on a square of a board whose bitboards agree has
    /// its bit set in its color's board and in its piece's board.
    proof fn lemma_piece_board_contains_at(&self, i: int)
        requires
            self.wf(),
        ensures
            self.square(i) matches Some((c, p)) ==> self.piece_board(p)@.contains(i) && (c == Color::White
                ==> self.white_bb@.contains(i)) && (c == Color::Black ==> self.black_bb@.contains(i)),
    {
        assert(self.piece_board(Piece::King) == self.king_bb);
        assert(self.piece_board(Piece::Queen) == self.queen_bb);
        assert(self.piece_board(Piece::Rook) == self.rook_bb);
        assert(self.piece_board(Piece::Bishop) == self.bishop_bb);
        assert(self.piece_board(Piece::Knight) == self.knight_bb);
        assert(self.piece_board(Piece::Pawn) == self.pawn_bb);
    }

    /// Puts a piece on an empty square.
    fn set(&mut self, piece: Piece, color: Color, pos: Position)
        requires
            old(self).wf(),
            old(self).square(square_index(pos)) is None,
        ensures
            final(self).wf(),
            final(self).active() == old(self).active(),
            final(self).squares() == old(self).squares().update(
                square_index(pos),
                Some((color, piece)),
            ),
    {
        self.put(piece, color, pos);
    }

    /// Takes a known piece off its square.
    fn unset(&mut self, piece: Piece, color: Color, pos: Position)
        requires
            old(self).wf(),
            old(self).square(square_index(pos)) == Some((color, piece)),
        ensures
            final(self).wf(),
            final(self).active() == old(self).active(),
            final(self).squares() == old(self).squares().update(square_index(pos), None),
    {
        let ghost old_self = *self;
        let ghost idx = square_index(pos);
        proof {
            super::position::lemma_square_index_bijective(pos, 0);
            assert(old_self.piece_board(Piece::King) == old_self.king_bb);
            assert(old_self.piece_board(Piece::Queen) == old_self.queen_bb);
            assert(old_self.piece_board(Piece::Rook) == old_self.rook_bb);
            assert(old_self.piece_board(Piece::Bishop) == old_self.bishop_bb);
            assert(old_self.piece_board(Piece::Knight) == old_self.knight_bb);
            assert(old_self.piece_board(Piece::Pawn) == old_self.pawn_bb);
        }
        match color {
            Color::Black => self.black_bb.unset(pos),
            Color::White => self.white_bb.unset(pos),
        }
        match piece {
            Piece::King => self.king_bb.unset(pos),
            Piece::Queen => self.queen_bb.unset(pos),
            Piece::Rook => self.rook_bb.unset(pos),
            Piece::Bishop => self.bishop_bb.unset(pos),
            Piece::Knight => self.knight_bb.unset(pos),
            Piece::Pawn => self.pawn_bb.unset(pos),
        }
        assert forall|i: int, p: Piece, q: Piece|
            p != q implies !(#[trigger] self.piece_board(p)@.contains(i) && #[trigger] self.piece_board(
                q,
            )@.contains(i)) by {
            assert(old_self.piece_board(p)@.contains(i) ==> old_self.piece_at(i) is Some);
            assert(old_self.piece_board(q)@.contains(i) ==> old_self.piece_at(i) is Some);
        }
        assert(self.squares() =~= old_self.squares().update(idx, None));
    }

    /// What stands on `pos`: the color and kind of the piece there, if any.
    /// On a board whose bitboards overlap, as a FEN string can make, a
    /// square marked with one color and several kinds reads as one of those
    /// kinds; a square marked with both colors, or with a color and no
    /// kind, cannot be read.
    pub fn read(&self, pos: Position) -> (r: Option<(Color, Piece)>)
        requires
            self.wf() || readable(*self, square_index(pos)),
        ensures
            self.wf() ==> r == self.square(square_index(pos)),
            r is None <==> !(self.white_board()@.contains(square_index(pos)) || self.black_board()@.contains(
                square_index(pos),
            )),
            r matches Some((c, p)) ==> self.piece_board(p)@.contains(square_index(pos)) && (c == Color::White
                <==> self.white_board()@.contains(square_index(pos))),
    {
        proof {
            if self.wf() {
                self.lemma_square_bits(square_index(pos));
            }
            assert(self.piece_board(Piece::King) == self.king_bb);
            assert(self.piece_board(Piece::Queen) == self.queen_bb);
            assert(self.piece_board(Piece::Rook) == self.rook_bb);
            assert(self.piece_board(Piece::Bishop) == self.bishop_bb);
            assert(self.piece_board(Piece::Knight) == self.knight_bb);
            assert(self.piece_board(Piece::Pawn) == self.pawn_bb);
        }
        let ghost idx = square_index(pos);
        let occupied = self.white_bb | self.black_bb;
        proof {
            super::bitboard::lemma_ops_view(self.white_bb, self.black_bb);
        }
        if !occupied.read(pos) {
            return None;
        }
        let piece = if self.king_bb.read(pos) {
            Piece::King
        } else if self.queen_bb.read(pos) {
            Piece::Queen
        } else if self.rook_bb.read(pos) {
            Piece::Rook
        } else if self.bishop_bb.read(pos) {
            Piece::Bishop
        } else if self.knight_bb.read(pos) {
            Piece::Knight
        } else {
            Piece::Pawn
        };
        let color = if self.white_bb.read(pos) {
            Color::White
        } else {
            Color::Black
        };
        Some((color, piece))
    }

    /// Turns the board around to see it from the other side: square `i`
    /// becomes square `63 - i`. The side to move is unchanged.
    pub fn flip(&mut self)
        ensures
            old(self).wf() ==> final(self).wf(),
            final(self).active() == old(self).active(),
            forall|i: int| 0 <= i < 64 ==> #[trigger] final(self).square(i) == old(self).square(63 - i),
            final(self).white_board()@ == mirror(old(self).white_board()@),
            final(self).black_board()@ == mirror(old(self).black_board()@),
    {
        let ghost old_self = *self;
        self.white_bb.flip();
        self.black_bb.flip();
        self.king_bb.flip();
        self.queen_bb.flip();
        self.rook_bb.flip();
        self.bishop_bb.flip();
        self.knight_bb.flip();
        self.pawn_bb.flip();
        proof {
            assert forall|i: int| 0 <= i < 64 implies #[trigger] self.square(i) == old_self.square(63 - i) by {
                assert(self.piece_at(i) == old_self.piece_at(63 - i));
            }
            if old_self.wf() {
                assert forall|i: int, p: Piece, q: Piece|
                    p != q implies !(#[trigger] self.piece_board(p)@.contains(i)
                    && #[trigger] self.piece_board(q)@.contains(i)) by {
                    assert(self.piece_board(p)@ == mirror(old_self.piece_board(p)@));
                    assert(self.piece_board(q)@ == mirror(old_self.piece_board(q)@));
                    if 0 <= i < 64 {
                        assert(!(old_self.piece_board(p)@.contains(63 - i) && old_self.piece_board(
                            q,
                        )@.contains(63 - i)));
                    }
                }
                assert forall|i: int|
                    (#[trigger] self.white_bb@.contains(i) || self.black_bb@.contains(i))
                        <==> self.piece_at(i) is Some by {
                    if 0 <= i < 64 {
                        assert(old_self.white_bb@.contains(63 - i) || old_self.black_bb@.contains(
                            63 - i,
                        ) <==> old_self.piece_at(63 - i) is Some);
                    }
                }
                assert forall|i: int| !(#[trigger] self.white_bb@.contains(i) && self.black_bb@.contains(i)) by {
                    if 0 <= i < 64 {
                        assert(!(old_self.white_bb@.contains(63 - i) && old_self.black_bb@.contains(
                            63 - i,
                        )));
                    }
                }
            }
        }
    }
}

/// The pieces of `chars` cut at every space, empty pieces included.
fn split_tokens(chars: &Vec<char>) -> (r: Vec<Vec<char>>)
    ensures
        r.len() == split_spaces(chars@).len(),
        forall|j: int| 0 <= j < r.len() ==> #[trigger] r[j]@ == split_spaces(chars@)[j],
{
    let mut done: Vec<Vec<char>> = Vec::new();
    let mut cur: Vec<char> = Vec::new();
    let mut i: usize = 0;
    let ghost mut toks: Seq<Seq<char>> = Seq::empty();
    while i < chars.len()
        invariant
            i <= chars.len(),
            done.len() == toks.len(),
            forall|j: int| 0 <= j < done.len() ==> #[trigger] done[j]@ == toks[j],
            toks.push(cur@) == split_spaces(chars@.take(i as int)),
        decreases chars.len() - i,
    {
        let c = chars[i];
        let ghost prev = chars@.take(i as int);
        assert(chars@.take(i + 1).drop_last() =~= prev);
        proof {
            lemma_split_nonempty(prev);
        }
        if c == ' ' {
            done.push(cur);
            cur = Vec::new();
            proof {
                toks = toks.push(done[done.len() - 1]@);
            }
            assert(toks.push(cur@) =~= split_spaces(prev).push(Seq::<char>::empty()));
        } else {
            cur.push(c);
            assert(toks.push(cur@) =~= split_spaces(prev).update(
                split_spaces(prev).len() - 1,
                split_spaces(prev).last().push(c),
            ));
        }
        i = i + 1;
    }
    assert(chars@.take(chars.len() as int) =~= chars@);
    done.push(cur);
    proof {
        toks = toks.push(done[done.len() - 1]@);
    }
    done
}

/// The characters of a string.
pub fn chars_of(s: &str) -> (r: Vec<char>)
    ensures
        r@ == s@,
{
    let mut out: Vec<char> = Vec::new();
    for c in it: s.chars()
        invariant
            out@ == it.seq().take(it.index() as int),
    {
        out.push(c);
    }
    out
}

/// The usual starting position of a game.
pub const START_FEN: &'static str = "rnbqkbnr/pppppppp/8/8/8/8/PPPPPPPP/RNBQKBNR w KQkq - 0 1";

/// The placement field read from the state `st` on, character after
/// character.
spec fn fen_run(st: FenCursor, cs: Seq<char>) -> Option<FenCursor>
    decreases cs.len(),
{
    if cs.len() == 0 {
        Some(st)
    } else {
        match fen_step(st, cs[0]) {
            None => None,
            Some(next) => fen_run(next, cs.drop_first()),
        }
    }
}

proof fn lemma_fen_run_push(st: FenCursor, a: Seq<char>, c: char)
    ensures
        fen_run(st, a.push(c)) == match fen_run(st, a) {
            None => None,
            Some(s) => fen_step(s, c),
        },
    decreases a.len(),
{
    if a.len() == 0 {
        lemma_fen_run_one(st, c);
        assert(a.push(c) =~= seq![c]);
    } else {
        assert(a.push(c).drop_first() =~= a.drop_first().push(c));
        assert(a.push(c)[0] == a[0]);
        match fen_step(st, a[0]) {
            None => {},
            Some(next) => lemma_fen_run_push(next, a.drop_first(), c),
        }
    }
}

proof fn lemma_fen_run_one(st: FenCursor, c: char)
    ensures
        fen_run(st, seq![c]) == fen_step(st, c),
{
    assert(seq![c].drop_first() =~= Seq::<char>::empty());
    match fen_step(st, c) {
        None => {},
        Some(next) => {
            assert(fen_run(next, Seq::<char>::empty()) == Some(next));
        },
    }
}

/// Four empty ranks below rank `y + 4`, each closed by a slash.
proof fn lemma_fen_gap(sq: Seq<Occupant>)
    ensures
        fen_run((0, 6, sq), seq!['/', '8', '/', '8', '/', '8', '/', '8', '/']) == Some((0int, 1int, sq)),
{
    let gap: Seq<char> = seq!['/', '8', '/', '8', '/', '8', '/', '8', '/'];
    let mut k: int = 0;
    let mut st: FenCursor = (0, 6, sq);
    assert(gap =~= seq!['/'] + seq!['8'] + seq!['/'] + seq!['8'] + seq!['/'] + seq!['8'] + seq!['/'] + seq!['8'] + seq!['/']);
    lemma_fen_run_one((0, 6, sq), '/');
    assert(digit_value('8') == 8);
    lemma_fen_run_one((0, 5, sq), '8');
    lemma_fen_run_one((0, 5, sq), '/');
    lemma_fen_run_one((0, 4, sq), '8');
    lemma_fen_run_one((0, 4, sq), '/');
    lemma_fen_run_one((0, 3, sq), '8');
    lemma_fen_run_one((0, 3, sq), '/');
    lemma_fen_run_one((0, 2, sq), '8');
    lemma_fen_run_one((0, 2, sq), '/');
    let p1 = seq!['/'];
    let rest1 = seq!['8', '/', '8', '/', '8', '/', '8', '/'];
    assert(gap =~= p1 + rest1);
    lemma_fen_run_concat((0, 6, sq), p1, rest1);
    let p2 = seq!['8'];
    let rest2 = seq!['/', '8', '/', '8', '/', '8', '/'];
    assert(rest1 =~= p2 + rest2);
    lemma_fen_run_concat((0, 5, sq), p2, rest2);
    let rest3 = seq!['8', '/', '8', '/', '8', '/'];
    assert(rest2 =~= p1 + rest3);
    lemma_fen_run_concat((0, 5, sq), p1, rest3);
    let rest4 = seq!['/', '8', '/', '8', '/'];
    assert(rest3 =~= p2 + rest4);
    lemma_fen_run_concat((0, 4, sq), p2, rest4);
    let rest5 = seq!['8', '/', '8', '/'];
    assert(rest4 =~= p1 + rest5);
    lemma_fen_run_concat((0, 4, sq), p1, rest5);
    let rest6 = seq!['/', '8', '/'];
    assert(rest5 =~= p2 + rest6);
    lemma_fen_run_concat((0, 3, sq), p2, rest6);
    let rest7 = seq!['8', '/'];
    assert(rest6 =~= p1 + rest7);
    lemma_fen_run_concat((0, 3, sq), p1, rest7);
    assert(rest7 =~= p2 + p1);
    lemma_fen_run_concat((0, 2, sq), p2, p1);
}

proof fn lemma_placement_is_run(cs: Seq<char>)
    ensures
        fen_placement(cs) == fen_run((0, 7, empty_squares()), cs),
    decreases cs.len(),
{
    if cs.len() > 0 {
        lemma_placement_is_run(cs.drop_last());
        lemma_fen_run_push((0, 7, empty_squares()), cs.drop_last(), cs.last());
        assert(cs.drop_last().push(cs.last()) =~= cs);
    }
}

proof fn lemma_fen_run_concat(st: FenCursor, a: Seq<char>, b: Seq<char>)
    ensures
        fen_run(st, a + b) == match fen_run(st, a) {
            None => None,
            Some(s) => fen_run(s, b),
        },
    decreases a.len(),
{
    if a.len() == 0 {
        assert(a + b =~= b);
    } else {
        assert((a + b).drop_first() =~= a.drop_first() + b);
        match fen_step(st, a[0]) {
            None => {},
            Some(next) => lemma_fen_run_concat(next, a.drop_first(), b),
        }
    }
}

/// A FEN letter that names a piece.
spec fn piece_letter(c: char) -> bool {
    &&& piece_of_fen_char(c) is Some
    &&& c != '/'
    &&& !('0' <= c <= '9')
}

/// A rank filled with pieces from file `x` on, starting on a part of the
/// board that is empty, ends on file A of the same rank and changes no
/// other rank.
proof fn lemma_fen_rank(x: int, y: int, sq: Seq<Occupant>, r: Seq<char>)
    requires
        0 <= y < 8,
        0 <= x,
        r.len() >= 1,
        x + r.len() == 8,
        sq.len() == 64,
        forall|j: int| x <= j < 8 ==> (#[trigger] sq[y * 8 + j]) is None,
        forall|k: int| 0 <= k < r.len() ==> piece_letter(#[trigger] r[k]),
    ensures
        fen_run((x, y, sq), r) matches Some((x2, y2, sq2)) && x2 == 0 && y2 == y && sq2.len() == 64
            && forall|i: int| 0 <= i < 64 && !(y * 8 <= i < y * 8 + 8) ==> #[trigger] sq2[i] == sq[i],
    decreases r.len(),
{
    assert(piece_letter(r[0]));
    let i = y * 8 + x;
    assert(sq[i] is None);
    let next = ((x + 1) % 8, y, sq.update(i, Some((color_of_fen_char(r[0]), piece_of_fen_char(r[0]).unwrap()))));
    assert(fen_step((x, y, sq), r[0]) == Some(next));
    if r.len() == 1 {
        lemma_fen_run_one((x, y, sq), r[0]);
        assert(r =~= seq![r[0]]);
    } else {
        let rest = r.drop_first();
        assert forall|k: int| 0 <= k < rest.len() implies piece_letter(#[trigger] rest[k]) by {
            assert(rest[k] == r[k + 1]);
        }
        assert forall|j: int| x + 1 <= j < 8 implies (#[trigger] next.2[y * 8 + j]) is None by {
            assert(sq[y * 8 + j] is None);
        }
        lemma_fen_rank(x + 1, y, next.2, rest);
    }
}

/// The placement field of the starting position can be read.
#[verifier::rlimit(50)]
proof fn lemma_start_placement()
    ensures
        fen_placement(
            "rnbqkbnr/pppppppp/8/8/8/8/PPPPPPPP/RNBQKBNR"@,
        ) is Some,
{
    reveal_strlit("rnbqkbnr/pppppppp/8/8/8/8/PPPPPPPP/RNBQKBNR");
    let r8: Seq<char> = seq!['r', 'n', 'b', 'q', 'k', 'b', 'n', 'r'];
    let r7: Seq<char> = seq!['p', 'p', 'p', 'p', 'p', 'p', 'p', 'p'];
    let r2: Seq<char> = seq!['P', 'P', 'P', 'P', 'P', 'P', 'P', 'P'];
    let r1: Seq<char> = seq!['R', 'N', 'B', 'Q', 'K', 'B', 'N', 'R'];
    let sl: Seq<char> = seq!['/'];
    let gap: Seq<char> = seq!['/', '8', '/', '8', '/', '8', '/', '8', '/'];
    let all = r8 + sl + r7 + gap + r2 + sl + r1;
    assert(all =~= "rnbqkbnr/pppppppp/8/8/8/8/PPPPPPPP/RNBQKBNR"@);
    assert forall|k: int| 0 <= k < 8 implies piece_letter(#[trigger] r8[k]) && piece_letter(r7[k])
        && piece_letter(r2[k]) && piece_letter(r1[k]) by {}
    lemma_placement_is_run(all);
    let e = empty_squares();
    // The eighth rank.
    lemma_fen_rank(0, 7, e, r8);
    let s1 = fen_run((0, 7, e), r8).unwrap().2;
    // Down to the seventh.
    lemma_fen_run_one((0, 7, s1), '/');
    assert forall|j: int| 0 <= j < 8 implies (#[trigger] s1[6 * 8 + j]) is None by {}
    lemma_fen_rank(0, 6, s1, r7);
    let s2 = fen_run((0, 6, s1), r7).unwrap().2;
    // Four empty ranks.
    lemma_fen_gap(s2);
    assert forall|j: int| 0 <= j < 8 implies (#[trigger] s2[1 * 8 + j]) is None by {
        assert(s2[8 + j] == s1[8 + j]);
    }
    lemma_fen_rank(0, 1, s2, r2);
    let s3 = fen_run((0, 1, s2), r2).unwrap().2;
    lemma_fen_run_one((0, 1, s3), '/');
    assert forall|j: int| 0 <= j < 8 implies (#[trigger] s3[0 * 8 + j]) is None by {
        assert(s3[j] == s2[j]);
        assert(s2[j] == s1[j]);
    }
    lemma_fen_rank(0, 0, s3, r1);
    let st0 = (0int, 7int, e);
    lemma_fen_run_concat(st0, r8, sl + (r7 + (gap + (r2 + (sl + r1)))));
    lemma_fen_run_concat((0, 7, s1), sl, r7 + (gap + (r2 + (sl + r1))));
    lemma_fen_run_concat((0, 6, s1), r7, gap + (r2 + (sl + r1)));
    lemma_fen_run_concat((0, 6, s2), gap, r2 + (sl + r1));
    lemma_fen_run_concat((0, 1, s2), r2, sl + r1);
    lemma_fen_run_concat((0, 1, s3), sl, r1);
    assert(fen_run((0, 0, s3), r1) is Some);
    assert(fen_run((0, 1, s3), sl + r1) is Some);
    assert(fen_run((0, 1, s2), r2 + (sl + r1)) is Some);
    assert(fen_run((0, 6, s2), gap + (r2 + (sl + r1))) is Some);
    assert(fen_run((0, 6, s1), r7 + (gap + (r2 + (sl + r1)))) is Some);
    assert(fen_run((0, 7, s1), sl + (r7 + (gap + (r2 + (sl + r1))))) is Some);
    assert(fen_run(st0, r8 + (sl + (r7 + (gap + (r2 + (sl + r1)))))) is Some);
    assert(all =~= r8 + (sl + (r7 + (gap + (r2 + (sl + r1))))));
}

proof fn lemma_split_space(a: Seq<char>)
    ensures
        split_spaces(a.push(' ')) == split_spaces(a).push(Seq::<char>::empty()),
{
    assert(a.push(' ').drop_last() =~= a);
}

proof fn lemma_split_word(a: Seq<char>, b: Seq<char>)
    requires
        forall|k: int| 0 <= k < b.len() ==> b[k] != ' ',
    ensures
        split_spaces(a + b) == split_spaces(a).update(
            split_spaces(a).len() - 1,
            split_spaces(a).last() + b,
        ),
        split_spaces(a + b).len() == split_spaces(a).len(),
    decreases b.len(),
{
    lemma_split_nonempty(a);
    if b.len() == 0 {
        assert(a + b =~= a);
        assert(split_spaces(a).last() + b =~= split_spaces(a).last());
        assert(split_spaces(a).update(split_spaces(a).len() - 1, split_spaces(a).last()) =~= split_spaces(a));
    } else {
        let c = b.last();
        assert(b[b.len() - 1] != ' ');
        lemma_split_word(a, b.drop_last());
        assert((a + b).drop_last() =~= a + b.drop_last());
        assert((a + b).last() == c);
        lemma_split_nonempty(a + b.drop_last());
        let sa = split_spaces(a);
        let r = split_spaces(a + b.drop_last());
        assert(r.len() == sa.len());
        assert(r.last() == sa.last() + b.drop_last());
        assert(split_spaces(a + b) == r.update(r.len() - 1, r.last().push(c)));
        assert(sa.last() + b.drop_last() + seq![c] =~= sa.last() + b);
        assert(r.last().push(c) =~= sa.last() + b);
        assert(split_spaces(a + b) =~= split_spaces(a).update(
            split_spaces(a).len() - 1,
            split_spaces(a).last() + b,
        ));
    }
}

/// The starting position is a valid FEN string, with white to move.
proof fn lemma_start_fen_valid()
    ensures
        fen_board(START_FEN@) matches Some((c, _)) && c == Color::White,
{
    reveal_strlit("rnbqkbnr/pppppppp/8/8/8/8/PPPPPPPP/RNBQKBNR w KQkq - 0 1");
    reveal_strlit("rnbqkbnr/pppppppp/8/8/8/8/PPPPPPPP/RNBQKBNR");
    let p: Seq<char> = "rnbqkbnr/pppppppp/8/8/8/8/PPPPPPPP/RNBQKBNR"@;
    lemma_start_placement();
    let w: Seq<char> = seq!['w'];
    let castle: Seq<char> = seq!['K', 'Q', 'k', 'q'];
    let dash: Seq<char> = seq!['-'];
    let zero: Seq<char> = seq!['0'];
    let one: Seq<char> = seq!['1'];
    let e = Seq::<char>::empty();
    assert forall|k: int| 0 <= k < p.len() implies p[k] != ' ' by {}
    lemma_split_word(e, p);
    assert(e + p =~= p);
    assert(split_spaces(e) =~= seq![e]);
    let a1 = p.push(' ');
    lemma_split_space(p);
    lemma_split_word(a1, w);
    let a2 = (a1 + w).push(' ');
    lemma_split_space(a1 + w);
    lemma_split_word(a2, castle);
    let a3 = (a2 + castle).push(' ');
    lemma_split_space(a2 + castle);
    lemma_split_word(a3, dash);
    let a4 = (a3 + dash).push(' ');
    lemma_split_space(a3 + dash);
    lemma_split_word(a4, zero);
    let a5 = (a4 + zero).push(' ');
    lemma_split_space(a4 + zero);
    lemma_split_word(a5, one);
    assert(START_FEN@ =~= a5 + one);
    let t = split_spaces(a5 + one);
    assert(t.len() == 6);
    assert(t[0] =~= p);
    assert(t[1] =~= w);
}

/// The starting position.
impl Default for Board {
    fn default() -> (r: Board)
        ensures
            r.wf(),
            r.active() == Color::White,
            fen_board(START_FEN@) matches Some((c, sq)) && r.active() == c && r.squares() == sq,
    {
        proof {
            lemma_start_fen_valid();
        }
        Board::from_fen(START_FEN).unwrap()
    }
}

/// Turning the board around twice gives back the same position: the same
/// side to move and the same piece on every square.
pub proof fn lemma_flip_twice(b: Board, c: Board, d: Board)
    requires
        c.active() == b.active(),
        d.active() == c.active(),
        forall|i: int| 0 <= i < 64 ==> #[trigger] c.square(i) == b.square(63 - i),
        forall|i: int| 0 <= i < 64 ==> #[trigger] d.square(i) == c.square(63 - i),
    ensures
        d.active() == b.active(),
        d.squares() == b.squares(),
{
    assert forall|i: int| 0 <= i < 64 implies #[trigger] d.square(i) == b.square(i) by {
        assert(c.square(63 - i) == b.square(63 - (63 - i)));
    }
    assert(d.squares() =~= b.squares());
}

/// After a move that was accepted, the target square holds the piece that
/// moved, the origin square is empty unless it is the target, every other
/// square is unchanged, and the other side is to play.
pub proof fn lemma_move_result(before: Seq<Occupant>, mv: ChessMove, after: Seq<Occupant>, i: int)
    requires
        before.len() == 64,
        after == before.update(square_index(mv.origin), None).update(
            square_index(mv.target),
            Some((mv.color, mv.piece)),
        ),
        0 <= i < 64,
    ensures
        after[square_index(mv.target)] == Some((mv.color, mv.piece)),
        mv.origin != mv.target ==> after[square_index(mv.origin)] is None,
        i != square_index(mv.origin) && i != square_index(mv.target) ==> after[i] == before[i],
{
    super::position::lemma_square_index_bijective(mv.origin, 0);
    super::position::lemma_square_index_bijective(mv.target, 0);
}

/// A board is given back whole by the bitboards it is made of: putting
/// them together again gives the same board, which they agree on.
pub proof fn lemma_bitboards_roundtrip(b: Board)
    requires
        b.wf(),
    ensures
        Board::assemble(
            b.active(),
            b.white_board(),
            b.black_board(),
            b.piece_board(Piece::King),
            b.piece_board(Piece::Queen),
            b.piece_board(Piece::Rook),
            b.piece_board(Piece::Bishop),
            b.piece_board(Piece::Knight),
            b.piece_board(Piece::Pawn),
        ) == b,
{
}

} // verus!
