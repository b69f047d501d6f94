use chess_game::chess::board::{Board, START_FEN};
use chess_game::chess::movegen::all_legals;
use chess_game::chess::{
    BitBoard, ChessMove, Color, File, Piece, Position, Rank, RelativeChessMove, RelativeMoveTable,
    Square,
};

fn pos(x: u8, y: u8) -> Position {
    Position::from_index(x, y).unwrap()
}

#[test]
fn set() {
    let mut b = BitBoard(0);

    b.set(pos(0, 0));

    assert_eq!(b, BitBoard(1));

    let p = pos(3, 6);

    b.set(p);

    assert_eq!(b, BitBoard(2251799813685249))
}

#[test]
fn unset() {
    let mut b = BitBoard(987654321987654321);

    b.unset(pos(0, 0));

    assert_eq!(b, BitBoard(987654321987654320));

    b.unset(pos(2, 4));

    assert_eq!(b, BitBoard(987654304807785136))
}

#[test]
fn display() {
    let mut b = BitBoard(0);

    b.set(Position::from_file_rank(File::F, Rank::Three));
    b.set(Position::from_file_rank(File::A, Rank::One));
    b.set(Position::from_file_rank(File::A, Rank::Four));
    b.set(Position::from_file_rank(File::H, Rank::Eight));

    assert!(b.read(Position::from_file_rank(File::F, Rank::Three)));
    assert!(b.read(Position::from_file_rank(File::H, Rank::Eight)));
    assert!(!b.read(Position::from_file_rank(File::B, Rank::Eight)));
    assert_eq!(
        b.to_text(),
        "BitBoard(9223372036873650177)\n\
         8 \u{2022} \u{2022} \u{2022} \u{2022} \u{2022} \u{2022} \u{2022} X \n\
         7 \u{2022} \u{2022} \u{2022} \u{2022} \u{2022} \u{2022} \u{2022} \u{2022} \n\
         6 \u{2022} \u{2022} \u{2022} \u{2022} \u{2022} \u{2022} \u{2022} \u{2022} \n\
         5 \u{2022} \u{2022} \u{2022} \u{2022} \u{2022} \u{2022} \u{2022} \u{2022} \n\
         4 X \u{2022} \u{2022} \u{2022} \u{2022} \u{2022} \u{2022} \u{2022} \n\
         3 \u{2022} \u{2022} \u{2022} \u{2022} \u{2022} X \u{2022} \u{2022} \n\
         2 \u{2022} \u{2022} \u{2022} \u{2022} \u{2022} \u{2022} \u{2022} \u{2022} \n\
         1 X \u{2022} \u{2022} \u{2022} \u{2022} \u{2022} \u{2022} \u{2022} \n  A B C D E F G H"
    );
}

#[test]
fn bitboard_flip() {
    let mut b = BitBoard(0);

    for i in 0..4 {
        let file = File::A;
        let rank = Rank::from_index(i).unwrap();
        b.set(Position::from_file_rank(file, rank));
    }

    assert_eq!(b, BitBoard(16843009));

    b.flip();

    assert_eq!(b, BitBoard(9259542121117908992));
}

#[test]
fn fen() {
    let b = Board::from_fen("rnbqkbnr/pppppppp/8/8/8/8/PPPPPPPP/RNBQKBNR w KQkq - 0 1").unwrap();

    assert_eq!(b.next_to_play(), Color::White);
}

#[test]
fn board_flip() {
    let mut b = Board::from_fen("rnbqkbnr/pppppppp/8/8/8/8/PPPPPPPP/RNBQKBNR w KQkq - 0 1").unwrap();

    assert_eq!(b.next_to_play(), Color::White);

    b.flip();

    assert_eq!(b.next_to_play(), Color::White);
    // The white king (E1) is now seen on D8.
    assert_eq!(
        b.read(Position::from_file_rank(File::D, Rank::Eight)),
        Some((Color::White, Piece::King))
    );
    assert_eq!(b.white_bb(), BitBoard(0xffff_0000_0000_0000));
}

#[test]
fn play() {
    let mut b = Board::default();
    let s = Position::from_file_rank(File::A, Rank::Two);
    let e = Position::from_file_rank(File::B, Rank::Three);
    b.make_move(&ChessMove::new(s, e, Piece::Pawn, Color::White)).unwrap();

    assert_eq!(b.read(s), None);
    assert_eq!(b.read(e), Some((Color::White, Piece::Pawn)));
    assert_eq!(b.next_to_play(), Color::Black);
}

#[test]
fn show() {
    let mut bb = BitBoard::from(35747322042318592);
    let black = BitBoard::from(18446462598732840960);
    let white = BitBoard::from(281474976775935);
    assert_eq!(bb & white, BitBoard(281474976775680));
    assert_eq!(bb & black, BitBoard(35747322042253312));
    bb.flip();
    assert_eq!(bb, BitBoard(35747322042318592u64.reverse_bits()));
}

#[test]
fn rank_add() {
    let r = Rank::One;

    assert_eq!(r + 5, Rank::Six);
    assert_eq!(r + 0, Rank::One);
    assert_eq!(r + 8, Rank::One);
}

#[test]
fn rank_sub() {
    let r = Rank::Eight;

    assert_eq!(r - 2, Rank::Six);
    assert_eq!(r - 0, Rank::Eight);
    assert_eq!(r - 8, Rank::Eight);
}

#[test]
fn file_add() {
    let f = File::A;

    assert_eq!(f + 5, File::F);

    assert_eq!(f + 0, File::A);

    assert_eq!(f + 8, File::A);
}

#[test]
fn file_sub() {
    let f = File::H;

    assert_eq!(f - 2, File::F);

    assert_eq!(f - 0, File::H);
    assert_eq!(f - 8, File::H);
}

#[test]
fn index() {
    assert_eq!(Position::from_index(2, 4).unwrap().to_index(), 34);

    assert_eq!(Position::from_index(3, 6).unwrap().to_index(), 51);

    assert_eq!(Position::from_index(0, 0).unwrap().to_index(), 0);

    assert_eq!(Position::from_index(7, 7).unwrap().to_index(), 63);

    assert_eq!(Position::from_index(8, 8), None)
}

#[test]
fn move_wraps() {
    let mut pos = Position::from_index(0, 7).unwrap();

    assert_eq!(pos.to_string(), "A8");
    pos.move_down(1);
    assert_eq!(pos, Position::from_index(0, 6).unwrap());
    assert_eq!(pos.to_string(), "A7");
    assert_eq!(File::C.to_string(), "C");
    assert_eq!(Rank::Five.to_string(), "5");
    pos.move_up(2);
    assert_eq!(pos, Position::from_index(0, 0).unwrap());
    pos.move_left(1);
    assert_eq!(pos, Position::from_index(7, 0).unwrap());
    pos.move_right(3);
    assert_eq!(pos, Position::from_index(2, 0).unwrap());
}

#[test]
fn to_pos() {
    let pos: Position = Square::E1.into();
    assert_eq!(pos, Position::from_file_rank(File::E, Rank::One));
    assert_eq!(Square::from(pos), Square::E1);
    assert_eq!(Square::H8.file(), File::H);
    assert_eq!(Square::C5.rank(), Rank::Five);
}

fn steps(v: &[(i8, i8)]) -> Vec<RelativeChessMove> {
    v.iter().map(|&(x, y)| RelativeChessMove::from((x, y))).collect()
}

fn table() -> RelativeMoveTable {
    let mut line = Vec::new();
    let mut diag = Vec::new();
    for d in 1..8i8 {
        line.extend_from_slice(&[(d, 0), (-d, 0), (0, d), (0, -d)]);
        diag.extend_from_slice(&[(d, d), (-d, d), (d, -d), (-d, -d)]);
    }
    let mut queen = line.clone();
    queen.extend_from_slice(&diag);
    RelativeMoveTable::new(
        steps(&[(1, 0), (-1, 0), (0, 1), (0, -1), (1, 1), (-1, 1), (1, -1), (-1, -1)]),
        steps(&queen),
        steps(&line),
        steps(&diag),
        steps(&[(1, 2), (2, 1), (-1, 2), (-2, 1), (1, -2), (2, -1), (-1, -2), (-2, -1)]),
        steps(&[(0, 1)]),
    )
}

#[test]
fn start_position_moves() {
    let b = Board::from_fen(START_FEN).unwrap();
    let t = table();
    // A pawn on its first rank may move one or two squares.
    let moves = all_legals(Piece::Pawn, Position::from_file_rank(File::E, Rank::Two), &b, &t).unwrap();
    let targets: Vec<Position> = moves.iter().map(|m| m.target).collect();
    assert_eq!(
        targets,
        vec![
            Position::from_file_rank(File::E, Rank::Three),
            Position::from_file_rank(File::E, Rank::Four)
        ]
    );
    // A knight jumps over its pawns.
    let moves = all_legals(Piece::Knight, Position::from_file_rank(File::B, Rank::One), &b, &t).unwrap();
    assert_eq!(moves.len(), 2);
    // Rooks, bishops and queens are blocked.
    assert_eq!(all_legals(Piece::Rook, Position::from_file_rank(File::A, Rank::One), &b, &t).unwrap().len(), 0);
    assert_eq!(all_legals(Piece::Queen, Position::from_file_rank(File::D, Rank::One), &b, &t).unwrap().len(), 0);
    // Wrong piece or empty square.
    assert!(all_legals(Piece::Queen, Position::from_file_rank(File::E, Rank::One), &b, &t).is_none());
    assert!(all_legals(Piece::Pawn, Position::from_file_rank(File::E, Rank::Four), &b, &t).is_none());
    // Not black's turn.
    assert_eq!(all_legals(Piece::Pawn, Position::from_file_rank(File::E, Rank::Seven), &b, &t).unwrap().len(), 0);
}

#[test]
fn pawn_captures_and_legality() {
    let b = Board::from_fen("8/8/8/3p4/4P3/8/8/8 w - - 0 1").unwrap();
    let t = table();
    let e4 = Position::from_file_rank(File::E, Rank::Four);
    let moves = all_legals(Piece::Pawn, e4, &b, &t).unwrap();
    let targets: Vec<Position> = moves.iter().map(|m| m.target).collect();
    assert_eq!(
        targets,
        vec![
            Position::from_file_rank(File::E, Rank::Five),
            Position::from_file_rank(File::D, Rank::Five)
        ]
    );
    let take = ChessMove::new(e4, Position::from_file_rank(File::D, Rank::Five), Piece::Pawn, Color::White);
    assert!(take.is_legal(&b, &t));
    let jump = ChessMove::new(e4, Position::from_file_rank(File::E, Rank::Six), Piece::Pawn, Color::White);
    assert!(!jump.is_legal(&b, &t));
    assert_eq!(
        ChessMove::get_all_legals(Piece::Pawn, e4, &b, &t).unwrap(),
        moves
    );
}

#[test]
fn rook_line_of_sight() {
    let b = Board::from_fen("8/8/8/8/R2p4/8/8/8 w - - 0 1").unwrap();
    let t = table();
    let a4 = Position::from_file_rank(File::A, Rank::Four);
    let moves = all_legals(Piece::Rook, a4, &b, &t).unwrap();
    // B4, C4, D4 (capture) to the right, 7 squares on the file.
    assert_eq!(moves.len(), 10);
    assert!(moves.iter().any(|m| m.target == Position::from_file_rank(File::D, Rank::Four)));
    assert!(!moves.iter().any(|m| m.target == Position::from_file_rank(File::E, Rank::Four)));
}

#[test]
fn fen_errors() {
    assert!(Board::from_fen("8/8/8/8/8/8/8/8 w -").is_none());
    assert!(Board::from_fen("8/8/8/8/8/8/8/8 x - -").is_none());
    assert!(Board::from_fen("8/8/8/8/8/8/8/8 ww - -").is_none());
    assert!(Board::from_fen("8/8/8/8/8/8/8/7z w - -").is_none());
    assert!(Board::from_fen("8/8/8/8/8/8/8/8 b - -").is_some());
}

#[test]
fn fen_overlapping_pieces() {
    let a8 = Position::from_file_rank(File::A, Rank::Eight);
    // A black pawn put where a white pawn stands: the square gets both colors.
    let b = Board::from_fen("P7p w - -").unwrap();
    assert!(b.white_bb().read(a8) && b.black_bb().read(a8));
    assert!(b.piece_bb(Piece::Pawn).read(a8));
    let b = Board::from_fen("PPPPPPPPp w - -").unwrap();
    assert!(b.white_bb().read(a8) && b.black_bb().read(a8));
    // A white knight put where a white pawn stands: both kinds, one color.
    let b = Board::from_fen("PPPPPPPPN w - -").unwrap();
    assert!(b.white_bb().read(a8) && !b.black_bb().read(a8));
    assert!(b.piece_bb(Piece::Pawn).read(a8) && b.piece_bb(Piece::Knight).read(a8));
    assert!(matches!(b.read(a8), Some((Color::White, p)) if p == Piece::Pawn || p == Piece::Knight));
}

#[test]
fn fen_same_piece_twice() {
    // The ninth letter wraps round to A8, which already holds that pawn.
    let b = Board::from_fen("p7p w - -").unwrap();
    let a8 = Position::from_file_rank(File::A, Rank::Eight);
    assert_eq!(b.read(a8), Some((Color::Black, Piece::Pawn)));
    let h8 = Position::from_file_rank(File::H, Rank::Eight);
    assert_eq!(b.read(h8), None);
    let twice = Board::from_fen("PPPPPPPPP w - -").unwrap();
    assert_eq!(twice.read(a8), Some((Color::White, Piece::Pawn)));
}

#[test]
fn make_move_errors() {
    let mut b = Board::default();
    let before = b;
    let e7 = Position::from_file_rank(File::E, Rank::Seven);
    let e5 = Position::from_file_rank(File::E, Rank::Five);
    // Not black's turn.
    assert!(b.make_move(&ChessMove::new(e7, e5, Piece::Pawn, Color::Black)).is_err());
    // No knight on E2.
    let e2 = Position::from_file_rank(File::E, Rank::Two);
    assert!(b.make_move(&ChessMove::new(e2, e5, Piece::Knight, Color::White)).is_err());
    assert_eq!(b, before);
}

#[test]
fn relative_move() {
    let mv = ChessMove::new(pos(1, 0), pos(2, 2), Piece::Knight, Color::White);
    assert_eq!(mv.relative(), RelativeChessMove::new(1, 2));
    let mv = ChessMove::new(pos(1, 7), pos(2, 5), Piece::Knight, Color::Black);
    assert_eq!(mv.relative(), RelativeChessMove::new(-1, 2));
    assert_eq!(<(i8, i8)>::from(RelativeChessMove::new(3, -4)), (3, -4));
}

#[test]
fn fen_chars() {
    assert_eq!(Piece::from_fen_char('n'), Some(Piece::Knight));
    assert_eq!(Piece::from_fen_char('Q'), Some(Piece::Queen));
    assert_eq!(Piece::from_fen_char('x'), None);
    assert_eq!(Color::from_fen_char('K'), Color::White);
    assert_eq!(Color::from_fen_char('k'), Color::Black);
    assert_eq!(!Color::White, Color::Black);
    assert_eq!(File::C.name(), "C");
    assert_eq!(Rank::Seven.name(), "7");
}

#[test]
fn board_from_bitboards() {
    let b = Board::from_fen(START_FEN).unwrap();
    let rebuilt = Board::from_bitboards(
        b.next_to_play(),
        b.white_bb(),
        b.black_bb(),
        b.piece_bb(Piece::King),
        b.piece_bb(Piece::Queen),
        b.piece_bb(Piece::Rook),
        b.piece_bb(Piece::Bishop),
        b.piece_bb(Piece::Knight),
        b.piece_bb(Piece::Pawn),
    );
    assert_eq!(rebuilt, Some(b));

    let z = BitBoard(0);
    // A square of both colors.
    assert_eq!(Board::from_bitboards(Color::White, BitBoard(1), BitBoard(1), BitBoard(1), z, z, z, z, z), None);
    // Two pieces on one square.
    assert_eq!(Board::from_bitboards(Color::White, BitBoard(1), z, BitBoard(1), BitBoard(1), z, z, z, z), None);
    // A colored square with no piece.
    assert_eq!(Board::from_bitboards(Color::White, BitBoard(2), z, z, z, z, z, z, z), None);
    // A piece with no color.
    assert_eq!(Board::from_bitboards(Color::White, z, z, z, z, z, z, z, BitBoard(4)), None);
    let lone = Board::from_bitboards(Color::Black, z, BitBoard(8), BitBoard(8), z, z, z, z, z).unwrap();
    assert_eq!(lone.read(Position::from_index(3, 0).unwrap()), Some((Color::Black, Piece::King)));
    assert_eq!(lone.next_to_play(), Color::Black);
}

#[test]
fn position_from_file_and_rank() {
    assert_eq!(Position::from((File::C, Rank::Five)), pos(2, 4));
    let p: Position = (File::H, Rank::One).into();
    assert_eq!(p.to_string(), "H1");
}

#[test]
fn file_and_rank_step_in_place() {
    let mut f = File::G;
    f += 3;
    assert_eq!(f, File::B);
    f -= 3;
    assert_eq!(f, File::G);
    f += 250;
    assert_eq!(f, File::A);
    let mut r = Rank::One;
    r -= 1;
    assert_eq!(r, Rank::Eight);
    r += 8;
    assert_eq!(r, Rank::Eight);
    r -= 255;
    assert_eq!(r, Rank::One);
}
