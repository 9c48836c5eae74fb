use chess_engine::board::Board;
use chess_engine::perft::{perft, perft_checked};
use chess_engine::types::GameStatus;

fn perft_of(fen: &str, depth: u32) -> u64 {
    let mut board = Board::from_fen(fen).expect("valid FEN");
    perft(&mut board, depth)
}

const START: &str = "rnbqkbnr/pppppppp/8/8/8/8/PPPPPPPP/RNBQKBNR w KQkq - 0 1";
const KIWIPETE: &str = "r3k2r/p1ppqpb1/bn2pnp1/3PN3/1p2P3/2N2Q1p/PPPBBPPP/R3K2R w KQkq - 0 1";
const POSITION3: &str = "8/2p5/3p4/KP5r/1R3p1k/8/4P1P1/8 w - - 0 1";
const POSITION4: &str = "r3k2r/Pppp1ppp/1b3nbN/nP6/BBP1P3/q4N2/Pp1P2PP/R2Q1RK1 w kq - 0 1";
const POSITION5: &str = "rnbq1k1r/pp1Pbppp/2p5/8/2B5/8/PPP1NnPP/RNBQK2R w KQ - 1 8";
const POSITION6: &str = "r4rk1/1pp1qppp/p1np1n2/2b1p1B1/2B1P1b1/P1NP1N2/1PP1QPPP/R4RK1 w - - 0 10";

#[test]
fn perft_depth_zero_is_one() {
    let mut board = Board::new();
    assert_eq!(perft(&mut board, 0), 1);
}

#[test]
fn perft_start_depth_1() {
    let mut board = Board::new();
    assert_eq!(perft(&mut board, 1), 20);
}

#[test]
fn perft_start_depth_2() {
    let mut board = Board::new();
    assert_eq!(perft(&mut board, 2), 400);
}

#[test]
fn perft_start_depth_3() {
    let mut board = Board::new();
    assert_eq!(perft(&mut board, 3), 8902);
}

#[test]
fn perft_start_depth_4() {
    let mut board = Board::new();
    assert_eq!(perft(&mut board, 4), 197281);
}

#[test]
fn perft_start_from_fen() {
    assert_eq!(perft_of(START, 3), 8902);
}

#[test]
fn perft_kiwipete() {
    assert_eq!(perft_of(KIWIPETE, 1), 48);
    assert_eq!(perft_of(KIWIPETE, 2), 2039);
    assert_eq!(perft_of(KIWIPETE, 3), 97862);
}

#[test]
fn perft_position3() {
    assert_eq!(perft_of(POSITION3, 1), 14);
    assert_eq!(perft_of(POSITION3, 2), 191);
    assert_eq!(perft_of(POSITION3, 3), 2812);
    assert_eq!(perft_of(POSITION3, 4), 43238);
}

#[test]
fn perft_position4() {
    assert_eq!(perft_of(POSITION4, 1), 6);
    assert_eq!(perft_of(POSITION4, 2), 264);
    assert_eq!(perft_of(POSITION4, 3), 9467);
}

#[test]
fn perft_position5() {
    assert_eq!(perft_of(POSITION5, 1), 44);
    assert_eq!(perft_of(POSITION5, 2), 1486);
    assert_eq!(perft_of(POSITION5, 3), 62379);
}

#[test]
fn perft_position6() {
    assert_eq!(perft_of(POSITION6, 1), 46);
    assert_eq!(perft_of(POSITION6, 2), 2079);
    assert_eq!(perft_of(POSITION6, 3), 89890);
}

#[test]
fn perft_leaves_board_as_it_was() {
    let mut board = Board::from_fen(KIWIPETE).expect("valid FEN");
    let squares = board.squares;
    let rights = board.castling_rights;
    perft(&mut board, 2);
    assert_eq!(board.squares, squares);
    assert_eq!(board.castling_rights, rights);
    assert_eq!(board.move_history.len(), 0);
    assert_eq!(board.half_move_clock, 0);
    assert_eq!(board.full_move_number, 1);
}

#[test]
fn perft_with_checked_sums_gives_the_same_counts() {
    let mut board = Board::new();
    assert_eq!(perft_checked(&mut board, 0), Some(1));
    assert_eq!(perft_checked(&mut board, 1), Some(20));
    assert_eq!(perft_checked(&mut board, 2), Some(400));
    assert_eq!(perft_checked(&mut board, 3), Some(8902));
    assert_eq!(board.squares, Board::new().squares);
    assert_eq!(board.move_history.len(), 0);
    let mut ended = Board::new();
    ended.game_status = GameStatus::Draw;
    assert_eq!(perft_checked(&mut ended, 2), Some(0));
    assert_eq!(perft(&mut ended, 2), 0);
}
