use chess_engine::board::Board;
use chess_engine::types::{ChessError, GameStatus, Square, BLACK, WHITE};

fn err(fen: &str) -> Option<ChessError> {
    Board::from_fen(fen).err()
}

#[test]
fn fen_fields_are_read() {
    let b = Board::from_fen("r3k2r/8/8/3pP3/8/8/8/R3K2R b Kq d6 12 34").expect("valid FEN");
    assert_eq!(b.current_turn, BLACK);
    assert_eq!(b.castling_rights, 0b1001);
    assert_eq!(b.en_passant_target, Some(Square(43)));
    assert_eq!(b.en_passant_pawn, Some(Square(35)));
    assert_eq!(b.half_move_clock, 12);
    assert_eq!(b.full_move_number, 34);
    assert_eq!(b.squares[0], 12);
    assert_eq!(b.squares[4], 14);
    assert_eq!(b.squares[63], 4);
    assert_eq!(b.squares[35], 1);
    assert_eq!(b.squares[36], 9);
    assert_eq!(b.game_status, GameStatus::InProgress);
    assert!(b.move_history.is_empty());
    assert_eq!(b.bitboards.white_rooks, 1 | (1 << 7));
    assert_eq!(b.bitboards.black_pawns, 1 << 35);
}

#[test]
fn fen_white_space_and_targets() {
    let b = Board::from_fen("  8/8/8/8/4P3/8/8/4K2k \t w  -  e3 +5 65535 \n").expect("valid FEN");
    assert_eq!(b.current_turn, WHITE);
    assert_eq!(b.castling_rights, 0);
    assert_eq!(b.en_passant_target, Some(Square(20)));
    assert_eq!(b.en_passant_pawn, Some(Square(28)));
    assert_eq!(b.half_move_clock, 5);
    assert_eq!(b.full_move_number, 65535);
    let zero = Board::from_fen("08/8/8/8/8/8/8/K6k w KK - 007 1").expect("valid FEN");
    assert_eq!(zero.castling_rights, 1);
    assert_eq!(zero.half_move_clock, 7);
}

#[test]
fn fen_errors() {
    let bad = Some(ChessError::InvalidFen);
    assert_eq!(err(""), bad);
    assert_eq!(err("rnbqkbnr/pppppppp/8/8/8/8/PPPPPPPP/RNBQKBNR w KQkq - 0"), bad);
    assert_eq!(err("rnbqkbnr/pppppppp/8/8/8/8/PPPPPPPP/RNBQKBNR w KQkq - 0 1 x"), bad);
    assert_eq!(err("rnbqkbnr/pppppppp/8/8/8/8/PPPPPPPP w KQkq - 0 1"), bad);
    assert_eq!(err("rnbqkbnr/pppppppp/8/8/8/8/PPPPPPPP/RNBQKBNR/8 w KQkq - 0 1"), bad);
    assert_eq!(err("rnbqkbnr/pppppppp/9/8/8/8/PPPPPPPP/RNBQKBNR w KQkq - 0 1"), bad);
    assert_eq!(err("rnbqkbnr/pppppppp/7/8/8/8/PPPPPPPP/RNBQKBNR w KQkq - 0 1"), bad);
    assert_eq!(err("rnbqkbnrr/pppppppp/8/8/8/8/PPPPPPPP/RNBQKBNR w KQkq - 0 1"), bad);
    assert_eq!(err("rnbqkbnx/pppppppp/8/8/8/8/PPPPPPPP/RNBQKBNR w KQkq - 0 1"), bad);
    assert_eq!(err("rnbqkbnr/pppppppp/8/8/8/8/PPPPPPPP/RNBQKBNR x KQkq - 0 1"), bad);
    assert_eq!(err("rnbqkbnr/pppppppp/8/8/8/8/PPPPPPPP/RNBQKBNR ww KQkq - 0 1"), bad);
    assert_eq!(err("rnbqkbnr/pppppppp/8/8/8/8/PPPPPPPP/RNBQKBNR w KQxq - 0 1"), bad);
    assert_eq!(err("rnbqkbnr/pppppppp/8/8/8/8/PPPPPPPP/RNBQKBNR w KQkq e 0 1"), bad);
    assert_eq!(err("rnbqkbnr/pppppppp/8/8/8/8/PPPPPPPP/RNBQKBNR w KQkq i3 0 1"), bad);
    assert_eq!(err("rnbqkbnr/pppppppp/8/8/8/8/PPPPPPPP/RNBQKBNR w KQkq e9 0 1"), bad);
    assert_eq!(err("rnbqkbnr/pppppppp/8/8/8/8/PPPPPPPP/RNBQKBNR w KQkq - x 1"), bad);
    assert_eq!(err("rnbqkbnr/pppppppp/8/8/8/8/PPPPPPPP/RNBQKBNR w KQkq - -1 1"), bad);
    assert_eq!(err("rnbqkbnr/pppppppp/8/8/8/8/PPPPPPPP/RNBQKBNR w KQkq - + 1"), bad);
    assert_eq!(err("rnbqkbnr/pppppppp/8/8/8/8/PPPPPPPP/RNBQKBNR w KQkq - 0 65536"), bad);
}
