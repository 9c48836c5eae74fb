use chess_engine::attacks::{cast_ray, is_square_attacked};
use chess_engine::board::Board;
use chess_engine::notation::{move_to_algebraic, move_to_string, square_to_algebraic};
use chess_engine::perft::{perft_detailed, perft_divide, PerftResult};
use chess_engine::types::{
    get_castling_rights_for_color, has_castling_right, is_black, is_empty, is_piece_color,
    is_white, make_piece, opposite_color, piece_color, piece_type, piece_type_name,
    remove_castling_right, ChessError, GameMove, GameStatus, Move, Square, ALL_CASTLING_RIGHTS,
    BISHOP, BLACK, BLACK_KINGSIDE, BLACK_QUEENSIDE, EMPTY, KING, KNIGHT, PAWN, QUEEN, ROOK, WHITE,
    WHITE_KINGSIDE, WHITE_QUEENSIDE,
};

fn sq(name: &str) -> Square {
    Square::from_algebraic(name)
}

fn mv(from: &str, to: &str) -> Move {
    Move::new(sq(from), sq(to))
}

fn board(fen: &str) -> Board {
    Board::from_fen(fen).expect("valid FEN")
}

fn targets(b: &Board, from: &str) -> Vec<String> {
    let mut names: Vec<String> = b
        .get_legal_moves(sq(from))
        .into_iter()
        .map(square_to_algebraic)
        .collect();
    names.sort();
    names
}

#[test]
fn squares_and_pieces() {
    let e4 = Square::new(4, 3);
    assert_eq!(e4, Square(28));
    assert_eq!(e4.file(), 4);
    assert_eq!(e4.rank(), 3);
    assert_eq!(sq("a1"), Square(0));
    assert_eq!(sq("h8"), Square(63));
    assert_eq!(make_piece(ROOK, WHITE), 12);
    assert_eq!(make_piece(PAWN, BLACK), 1);
    assert_eq!(piece_type(14), KING);
    assert_eq!(piece_color(14), WHITE);
    assert_eq!(piece_color(5), BLACK);
    assert!(is_white(9));
    assert!(!is_white(1));
    assert!(is_black(1));
    assert!(!is_black(EMPTY));
    assert!(is_empty(EMPTY));
    assert!(is_piece_color(9, WHITE));
    assert!(!is_piece_color(EMPTY, BLACK));
    assert_eq!(opposite_color(WHITE), BLACK);
    assert_eq!(opposite_color(BLACK), WHITE);
    assert_eq!(piece_type_name(PAWN), "Pawn");
    assert_eq!(piece_type_name(QUEEN), "Queen");
    assert_eq!(piece_type_name(0), "Unknown");
}

#[test]
fn castling_right_helpers() {
    assert!(has_castling_right(ALL_CASTLING_RIGHTS, BLACK_QUEENSIDE));
    assert!(!has_castling_right(WHITE_KINGSIDE, WHITE_QUEENSIDE));
    let mut rights = ALL_CASTLING_RIGHTS;
    remove_castling_right(&mut rights, WHITE_KINGSIDE);
    assert_eq!(rights, 0b1110);
    remove_castling_right(&mut rights, WHITE_KINGSIDE);
    assert_eq!(rights, 0b1110);
    assert_eq!(get_castling_rights_for_color(0b1110, WHITE), WHITE_QUEENSIDE);
    assert_eq!(
        get_castling_rights_for_color(0b1110, BLACK),
        BLACK_KINGSIDE | BLACK_QUEENSIDE
    );
}

#[test]
fn moves_and_records() {
    let m = Move::new(Square(12), Square(28));
    assert_eq!(m.promotion, None);
    assert!(!m.is_promotion());
    let p = Move::new_promotion(Square(52), Square(60), QUEEN);
    assert!(p.is_promotion());
    assert_eq!(p.promotion, Some(QUEEN));
    let record = GameMove::new(m);
    assert_eq!(record.captured_piece, EMPTY);
    assert!(!record.is_castling);
    let capture = GameMove::with_capture(m, 5);
    assert_eq!(capture.captured_piece, 5);
    let b = board("4k3/8/8/8/8/8/8/4K3 w Kq e3 7 9");
    let with_state = GameMove::new_with_state(m, &b);
    assert_eq!(with_state.previous_castling_rights, WHITE_KINGSIDE | BLACK_QUEENSIDE);
    assert_eq!(with_state.previous_en_passant_target, Some(Square(20)));
    assert_eq!(with_state.previous_en_passant_pawn, Some(Square(28)));
    assert_eq!(with_state.previous_half_move_clock, 7);
    assert_eq!(with_state.previous_full_move_number, 9);
    let both = GameMove::with_capture_and_state(m, 3, &b);
    assert_eq!(both.captured_piece, 3);
    assert_eq!(both.previous_half_move_clock, 7);
}

#[test]
fn notation() {
    assert_eq!(square_to_algebraic(Square(0)), "a1");
    assert_eq!(square_to_algebraic(Square(28)), "e4");
    assert_eq!(square_to_algebraic(Square(63)), "h8");
    assert_eq!(move_to_algebraic(mv("e2", "e4")), "e2e4");
    assert_eq!(
        move_to_algebraic(Move::new_promotion(sq("e7"), sq("e8"), QUEEN)),
        "e7e8q"
    );
    assert_eq!(
        move_to_algebraic(Move::new_promotion(sq("a2"), sq("a1"), KNIGHT)),
        "a2a1n"
    );
    assert_eq!(move_to_string(mv("g1", "f3")), "g1-f3");
    assert_eq!(
        move_to_string(Move::new_promotion(sq("e7"), sq("e8"), ROOK)),
        "e7-e8=R"
    );
    assert_eq!(
        move_to_string(Move::new_promotion(sq("e7"), sq("e8"), BISHOP)),
        "e7-e8=B"
    );
}

#[test]
fn starting_position() {
    let b = Board::new();
    assert_eq!(b.get_piece(sq("e1")), make_piece(KING, WHITE));
    assert_eq!(b.get_piece(sq("d8")), make_piece(QUEEN, BLACK));
    assert_eq!(b.get_piece(sq("a2")), make_piece(PAWN, WHITE));
    assert_eq!(b.get_piece(sq("e4")), EMPTY);
    assert_eq!(b.current_turn, WHITE);
    assert_eq!(b.castling_rights, ALL_CASTLING_RIGHTS);
    assert_eq!(b.full_move_number, 1);
    assert_eq!(b.bitboards.white_pawns, 0xFF00);
    assert_eq!(b.bitboards.black_pieces, 0xFFFF_0000_0000_0000);
    assert_eq!(b.get_all_legal_moves().len(), 20);
    assert!(b.can_player_move());
    assert!(!b.is_in_check());
    assert_eq!(b.find_king(WHITE), Some(sq("e1")));
    assert_eq!(b.find_king(BLACK), Some(sq("e8")));
    assert!(b.get_last_move().is_none());
    let same = board("rnbqkbnr/pppppppp/8/8/8/8/PPPPPPPP/RNBQKBNR w KQkq - 0 1");
    assert_eq!(same.squares, b.squares);
    assert_eq!(same.bitboards.all_pieces, b.bitboards.all_pieces);
    assert_eq!(same.castling_rights, b.castling_rights);
}

#[test]
fn set_piece_keeps_bitboards_in_step() {
    let mut b = Board::empty(0);
    b.set_piece(sq("c3"), make_piece(KNIGHT, BLACK));
    assert_eq!(b.get_piece(sq("c3")), 2);
    assert_eq!(b.bitboards.black_knights, 1 << 18);
    assert_eq!(b.bitboards.all_pieces, 1 << 18);
    b.set_piece(sq("c3"), EMPTY);
    assert_eq!(b.bitboards.all_pieces, 0);
}

#[test]
fn make_and_undo_restore_the_board() {
    let mut b = Board::new();
    let before = b.duplicate();
    let legal = b.get_all_legal_moves().len();
    let record = b.try_make_move(mv("e2", "e4")).expect("legal move");
    assert_eq!(record.mv, mv("e2", "e4"));
    assert_eq!(b.get_piece(sq("e4")), make_piece(PAWN, WHITE));
    assert_eq!(b.get_piece(sq("e2")), EMPTY);
    assert_eq!(b.current_turn, BLACK);
    assert_eq!(b.en_passant_target, Some(sq("e3")));
    assert_eq!(b.en_passant_pawn, Some(sq("e4")));
    assert_eq!(b.move_history.len(), 1);
    assert_eq!(b.get_last_move().map(|m| m.mv), Some(mv("e2", "e4")));
    let undone = b.undo_move().expect("a move to undo");
    assert_eq!(undone.mv, mv("e2", "e4"));
    assert_eq!(b.squares, before.squares);
    assert_eq!(b.bitboards.all_pieces, before.bitboards.all_pieces);
    assert_eq!(b.bitboards.white_pawns, before.bitboards.white_pawns);
    assert_eq!(b.castling_rights, before.castling_rights);
    assert_eq!(b.en_passant_target, before.en_passant_target);
    assert_eq!(b.en_passant_pawn, before.en_passant_pawn);
    assert_eq!(b.half_move_clock, before.half_move_clock);
    assert_eq!(b.full_move_number, before.full_move_number);
    assert_eq!(b.current_turn, before.current_turn);
    assert_eq!(b.move_history.len(), 0);
    assert_eq!(b.get_all_legal_moves().len(), legal);
}

fn round_trip(fen: &str, m: Move) {
    let mut b = board(fen);
    let before = b.duplicate();
    let count = b.get_all_legal_moves().len();
    b.try_make_move(m).expect("legal move");
    b.undo_move().expect("a move to undo");
    assert_eq!(b.squares, before.squares);
    assert_eq!(b.bitboards.white_pieces, before.bitboards.white_pieces);
    assert_eq!(b.bitboards.black_pieces, before.bitboards.black_pieces);
    assert_eq!(b.bitboards.all_pieces, before.bitboards.all_pieces);
    assert_eq!(b.castling_rights, before.castling_rights);
    assert_eq!(b.en_passant_target, before.en_passant_target);
    assert_eq!(b.en_passant_pawn, before.en_passant_pawn);
    assert_eq!(b.half_move_clock, before.half_move_clock);
    assert_eq!(b.full_move_number, before.full_move_number);
    assert_eq!(b.current_turn, before.current_turn);
    assert_eq!(b.get_all_legal_moves().len(), count);
}

#[test]
fn undo_round_trip_of_special_moves() {
    let kiwipete = "r3k2r/p1ppqpb1/bn2pnp1/3PN3/1p2P3/2N2Q1p/PPPBBPPP/R3K2R w KQkq - 0 1";
    round_trip(kiwipete, mv("e1", "g1"));
    round_trip(kiwipete, mv("e1", "c1"));
    round_trip(kiwipete, mv("e5", "f7"));
    round_trip(kiwipete, mv("a1", "b1"));
    round_trip(
        "rnbqkbnr/ppp1p1pp/8/3pPp2/8/8/PPPP1PPP/RNBQKBNR w KQkq f6 0 3",
        mv("e5", "f6"),
    );
    round_trip(
        "rnbq1k1r/pp1Pbppp/2p5/8/2B5/8/PPP1NnPP/RNBQK2R w KQ - 1 8",
        Move::new_promotion(sq("d7"), sq("c8"), KNIGHT),
    );
    round_trip(
        "4k3/8/8/8/8/8/1p6/4K3 b - - 0 1",
        Move::new_promotion(sq("b2"), sq("b1"), QUEEN),
    );
    round_trip("r3k2r/8/8/8/8/8/8/R3K2R b KQkq - 3 10", mv("e8", "c8"));
}

#[test]
fn undo_round_trip_over_a_line() {
    let mut b = Board::new();
    let before = b.duplicate();
    let line = [
        mv("e2", "e4"),
        mv("d7", "d5"),
        mv("e4", "d5"),
        mv("d8", "d5"),
        mv("g1", "f3"),
        mv("c8", "g4"),
        mv("f1", "e2"),
        mv("b8", "c6"),
        mv("e1", "g1"),
        mv("e8", "c8"),
    ];
    for m in line {
        b.try_make_move(m).expect("legal move");
    }
    assert_eq!(b.move_history.len(), 10);
    assert_eq!(b.full_move_number, 6);
    for _ in 0..line.len() {
        b.undo_move().expect("a move to undo");
    }
    assert_eq!(b.squares, before.squares);
    assert_eq!(b.castling_rights, before.castling_rights);
    assert_eq!(b.en_passant_target, None);
    assert_eq!(b.half_move_clock, 0);
    assert_eq!(b.full_move_number, 1);
    assert_eq!(b.current_turn, WHITE);
    assert_eq!(b.get_all_legal_moves().len(), 20);
    assert_eq!(b.undo_move().err(), Some(ChessError::EmptyHistory));
}

#[test]
fn refused_moves() {
    let mut b = Board::new();
    assert_eq!(b.try_make_move(mv("e2", "e5")).err(), Some(ChessError::InvalidMove));
    assert_eq!(b.try_make_move(mv("e7", "e5")).err(), Some(ChessError::InvalidMove));
    assert_eq!(b.try_make_move(mv("e4", "e5")).err(), Some(ChessError::InvalidMove));
    assert_eq!(b.try_make_move(mv("e1", "e2")).err(), Some(ChessError::InvalidMove));
    assert_eq!(
        b.try_make_move(Move::new_promotion(sq("e2"), sq("e4"), QUEEN)).err(),
        Some(ChessError::InvalidMove)
    );
    assert!(!b.is_valid_move(mv("e2", "e5")));
    assert!(b.is_valid_move(mv("e2", "e4")));
    assert_eq!(b.move_history.len(), 0);
    b.game_status = GameStatus::Checkmate(WHITE);
    assert_eq!(b.try_make_move(mv("e2", "e4")).err(), Some(ChessError::GameOver));
    assert_eq!(b.try_make_move(mv("e2", "e5")).err(), Some(ChessError::InvalidMove));
    b.game_status = GameStatus::Check(WHITE);
    assert!(b.try_make_move(mv("e2", "e4")).is_ok());
    assert_eq!(b.game_status, GameStatus::InProgress);
    let mut promo = board("4k3/1P6/8/8/8/8/8/4K3 w - - 0 1");
    assert_eq!(promo.try_make_move(mv("b7", "b8")).err(), Some(ChessError::InvalidMove));
    assert_eq!(
        promo.try_make_move(Move::new_promotion(sq("b7"), sq("b8"), KING)).err(),
        Some(ChessError::InvalidMove)
    );
    let record = promo
        .try_make_move(Move::new_promotion(sq("b7"), sq("b8"), ROOK))
        .expect("legal promotion");
    assert_eq!(record.promotion, Some(ROOK));
    assert_eq!(promo.get_piece(sq("b8")), make_piece(ROOK, WHITE));
}

#[test]
fn clocks_and_rights_follow_the_moves() {
    let mut b = board("r3k2r/8/8/8/8/8/8/R3K2R w KQkq - 0 1");
    b.try_make_move(mv("a1", "a2")).expect("legal");
    assert_eq!(b.castling_rights, 0b1101);
    assert_eq!(b.half_move_clock, 1);
    assert_eq!(b.full_move_number, 1);
    b.try_make_move(mv("h8", "h1")).expect("legal");
    assert_eq!(b.castling_rights, 0b1000);
    assert_eq!(b.half_move_clock, 0);
    assert_eq!(b.full_move_number, 2);
    b.try_make_move(mv("e1", "d2")).expect("legal");
    assert_eq!(b.castling_rights, 0b1000);
    let record = b.try_make_move(mv("e8", "c8")).expect("legal castling");
    assert!(record.is_castling);
    assert_eq!(b.castling_rights, 0);
    assert_eq!(b.get_piece(sq("c8")), make_piece(KING, BLACK));
    assert_eq!(b.get_piece(sq("d8")), make_piece(ROOK, BLACK));
    assert_eq!(b.get_piece(sq("a8")), EMPTY);
    assert_eq!(b.get_piece(sq("e8")), EMPTY);
}

#[test]
fn castling_rules() {
    let b = board("r3k2r/8/8/8/8/8/8/R3K2R w KQkq - 0 1");
    assert!(b.can_castle(WHITE, true));
    assert!(b.can_castle(WHITE, false));
    assert!(b.can_castle(BLACK, true));
    assert!(!b.can_castle(3, true));
    assert_eq!(b.is_castling_move(mv("e1", "g1")), Some(true));
    assert_eq!(b.is_castling_move(mv("e1", "c1")), Some(false));
    assert_eq!(b.is_castling_move(mv("e1", "f1")), None);
    assert_eq!(b.is_castling_move(mv("a1", "c1")), None);
    assert!(targets(&b, "e1").contains(&"g1".to_string()));
    let attacked = board("r3k2r/8/8/8/8/5r2/8/R3K2R w KQkq - 0 1");
    assert!(!attacked.can_castle(WHITE, true));
    assert!(attacked.can_castle(WHITE, false));
    let in_check = board("r3k2r/8/8/8/8/4r3/8/R3K2R w KQkq - 0 1");
    assert!(!in_check.can_castle(WHITE, true));
    assert!(!in_check.can_castle(WHITE, false));
    let blocked = board("r3k2r/8/8/8/8/8/8/RN2K2R w KQkq - 0 1");
    assert!(!blocked.can_castle(WHITE, false));
    let no_right = board("r3k2r/8/8/8/8/8/8/R3K2R w Qkq - 0 1");
    assert!(!no_right.can_castle(WHITE, true));
    assert!(!targets(&no_right, "e1").contains(&"g1".to_string()));
}

#[test]
fn en_passant_rules() {
    let b = board("rnbqkbnr/ppp1p1pp/8/3pPp2/8/8/PPPP1PPP/RNBQKBNR w KQkq f6 0 3");
    assert!(b.is_en_passant_move(mv("e5", "f6")));
    assert!(!b.is_en_passant_move(mv("e5", "d6")));
    assert!(!b.is_en_passant_move(mv("e5", "e6")));
    assert!(b.is_en_passant_legal(mv("e5", "f6")));
    assert_eq!(targets(&b, "e5"), vec!["e6", "f6"]);
    let mut played = b.duplicate();
    let record = played.try_make_move(mv("e5", "f6")).expect("legal capture");
    assert!(record.is_en_passant);
    assert_eq!(record.captured_piece, make_piece(PAWN, BLACK));
    assert_eq!(played.get_piece(sq("f5")), EMPTY);
    assert_eq!(played.get_piece(sq("f6")), make_piece(PAWN, WHITE));
    assert_eq!(played.en_passant_target, None);
    let pinned = board("8/8/8/K2pP2r/8/8/8/4k3 w - d6 0 1");
    assert!(pinned.is_en_passant_move(mv("e5", "d6")));
    assert!(!pinned.is_en_passant_legal(mv("e5", "d6")));
    assert_eq!(targets(&pinned, "e5"), vec!["e6"]);
    assert!(!pinned.is_valid_move(mv("e5", "d6")));
}

#[test]
fn check_pins_and_evasions() {
    let b = board("4k3/8/8/8/7b/8/5P2/4K3 w - - 0 1");
    assert_eq!(b.is_piece_pinned(sq("f2")), Some((-1, -1)));
    assert_eq!(b.is_piece_pinned(sq("e1")), None);
    assert!(targets(&b, "f2").is_empty());
    assert_eq!(
        b.get_pinned_piece_moves(sq("f2"), (-1, -1)),
        Vec::<Square>::new()
    );
    let rook_pin = board("4k3/4r3/8/8/8/8/4R3/4K3 w - - 0 1");
    assert_eq!(rook_pin.is_piece_pinned(sq("e2")), Some((0, -1)));
    assert_eq!(targets(&rook_pin, "e2"), vec!["e3", "e4", "e5", "e6", "e7"]);
    let check = board("4k3/8/8/8/8/8/3PrP2/R3K3 w - - 0 1");
    assert!(check.is_in_check());
    assert_eq!(check.find_checking_pieces(sq("e1"), WHITE), vec![sq("e2")]);
    assert_eq!(check.get_blocking_squares(sq("e1"), sq("e2")), vec![sq("e2")]);
    assert_eq!(targets(&check, "e1"), vec!["d1", "e2", "f1"]);
    assert!(targets(&check, "a1").is_empty());
    let far = board("4k3/8/8/8/4r3/8/3P1P2/R3K3 w - - 0 1");
    assert_eq!(
        far.get_blocking_squares(sq("e1"), sq("e4")),
        vec![sq("e4"), sq("e2"), sq("e3")]
    );
    assert_eq!(targets(&far, "d2"), Vec::<String>::new());
    assert_eq!(targets(&far, "a1"), Vec::<String>::new());
    let block = board("4k3/8/8/8/4r3/R7/8/4K3 w - - 0 1");
    assert_eq!(targets(&block, "a3"), vec!["e3"]);
    let double = board("4k3/8/8/8/4r3/8/3n4/R3K3 w - - 0 1");
    assert_eq!(double.find_checking_pieces(sq("e1"), WHITE).len(), 1);
    let knight_check = board("4k3/8/8/8/8/3n4/8/R3K3 w - - 0 1");
    assert_eq!(
        knight_check.find_checking_pieces(sq("e1"), WHITE),
        vec![sq("d3")]
    );
    let two = board("4k3/8/8/8/4r3/3n4/8/R3K3 w - - 0 1");
    assert_eq!(
        two.find_checking_pieces(sq("e1"), WHITE),
        vec![sq("d3"), sq("e4")]
    );
    assert!(targets(&two, "a1").is_empty());
    let pawn_check = board("4k3/8/8/8/8/8/3p4/4K3 w - - 0 1");
    assert_eq!(
        pawn_check.find_checking_pieces(sq("e1"), WHITE),
        vec![sq("d2")]
    );
}

#[test]
fn king_does_not_shelter_behind_itself() {
    let b = board("4k3/8/8/8/8/8/8/r3K3 w - - 0 1");
    assert!(b.is_in_check());
    assert_eq!(targets(&b, "e1"), vec!["d2", "e2", "f2"]);
    let kept = b.filter_king_moves_in_check(vec![sq("f1"), sq("e2")], BLACK, None);
    assert_eq!(kept, vec![sq("f1"), sq("e2")]);
    let lifted = b.filter_king_moves_in_check(vec![sq("f1"), sq("e2")], BLACK, Some(sq("e1")));
    assert_eq!(lifted, vec![sq("e2")]);
    let escape = b.filter_moves_to_escape_check(sq("e1"), vec![sq("a1"), sq("b1"), sq("h5")], sq("a1"));
    assert_eq!(escape, vec![sq("a1"), sq("b1")]);
}

#[test]
fn threats_and_rays() {
    let b = Board::new();
    assert!(b.is_under_threat(sq("e3"), WHITE));
    assert!(b.is_under_threat(sq("f3"), WHITE));
    assert!(!b.is_under_threat(sq("e4"), WHITE));
    assert!(b.is_under_threat(sq("a6"), BLACK));
    assert!(!b.is_under_threat(sq("e5"), BLACK));
    assert!(is_square_attacked(&b.squares, sq("d2"), WHITE));
    assert_eq!(cast_ray(&b.squares, 4, 1, 0, 1), Some(make_piece(PAWN, BLACK)));
    assert_eq!(cast_ray(&b.squares, 0, 2, 1, 0), None);
    assert!(b.is_clear_path(sq("e2"), sq("e7"), (0, 1)));
    assert!(!b.is_clear_path(sq("e1"), sq("e7"), (0, 1)));
    assert!(b.piece_attacks_square(sq("g1"), sq("f3")));
    assert!(!b.piece_attacks_square(sq("g1"), sq("g3")));
    assert!(b.piece_attacks_square(sq("e2"), sq("d3")));
    assert!(!b.piece_attacks_square(sq("e2"), sq("e3")));
    assert!(!b.piece_attacks_square(sq("a1"), sq("a3")));
    assert!(b.piece_attacks_square(sq("a1"), sq("a2")));
    assert!(b.piece_attacks_square(sq("e1"), sq("d2")));
    assert!(!b.piece_attacks_square(sq("c1"), sq("e3")));
    assert!(b.piece_attacks_square(sq("d1"), sq("c2")));
    assert!(!b.would_king_be_in_check_after_move(mv("e2", "e4")));
    assert!(!b.would_king_be_in_check_after_move(mv("e2", "e5")));
}

#[test]
fn pawn_and_pseudo_legal_moves() {
    let b = Board::new();
    assert_eq!(b.get_pawn_moves(sq("e2"), WHITE), vec![sq("e3"), sq("e4")]);
    assert_eq!(b.get_pseudo_legal_moves(sq("g1")), vec![sq("f3"), sq("h3")]);
    assert!(b.get_pseudo_legal_moves(sq("e7")).is_empty());
    assert!(b.get_pseudo_legal_moves(sq("e4")).is_empty());
    assert!(b.get_legal_moves(sq("a1")).is_empty());
    let stalemate = board("7k/5Q2/6K1/8/8/8/8/8 b - - 0 1");
    assert!(!stalemate.can_player_move());
    assert!(!stalemate.is_in_check());
    assert!(stalemate.get_all_legal_moves().is_empty());
    let promo = board("4k3/1P6/8/8/8/8/8/4K3 w - - 0 1");
    let all = promo.get_all_legal_moves();
    let promotions: Vec<Option<u8>> = all
        .iter()
        .filter(|m| m.from == sq("b7"))
        .map(|m| m.promotion)
        .collect();
    assert_eq!(
        promotions,
        vec![Some(QUEEN), Some(ROOK), Some(BISHOP), Some(KNIGHT)]
    );
}

#[test]
fn update_helpers() {
    let mut b = board("r3k2r/8/8/8/8/8/8/R3K2R w KQkq - 0 1");
    b.update_castling_rights(mv("h1", "h8"));
    assert_eq!(b.castling_rights, 0b1010);
    b.update_castling_rights_fixed(mv("e1", "e2"), make_piece(KING, WHITE), EMPTY);
    assert_eq!(b.castling_rights, 0b1000);
    b.game_status = GameStatus::Stalemate;
    b.update_game_status();
    assert_eq!(b.game_status, GameStatus::InProgress);
    let mut pawns = board("4k3/8/8/8/4P3/8/8/4K3 b - - 0 1");
    pawns.setup_en_passant_fixed(mv("e2", "e4"));
    assert_eq!(pawns.en_passant_target, Some(sq("e3")));
    assert_eq!(pawns.en_passant_pawn, Some(sq("e4")));
    let mut single = board("4k3/8/8/8/4P3/8/8/4K3 b - - 0 1");
    single.setup_en_passant_fixed(mv("e3", "e4"));
    assert_eq!(single.en_passant_target, None);
}

#[test]
fn detailed_and_divided_perft() {
    let empty = PerftResult::new();
    assert_eq!(empty.nodes, 0);
    assert_eq!(empty.nodes_per_second(), 0);
    let timed = PerftResult { nodes: 5000, time_ms: 250, ..empty };
    assert_eq!(timed.nodes_per_second(), 20000);
    let mut start = Board::new();
    let one = perft_detailed(&mut start, 1);
    assert_eq!((one.nodes, one.captures, one.en_passant, one.castles), (20, 0, 0, 0));
    let three = perft_detailed(&mut start, 3);
    assert_eq!((three.nodes, three.captures), (8902, 34));
    let mut kiwipete =
        board("r3k2r/p1ppqpb1/bn2pnp1/3PN3/1p2P3/2N2Q1p/PPPBBPPP/R3K2R w KQkq - 0 1");
    let k1 = perft_detailed(&mut kiwipete, 1);
    assert_eq!((k1.nodes, k1.captures, k1.en_passant, k1.castles), (48, 8, 0, 2));
    let k2 = perft_detailed(&mut kiwipete, 2);
    assert_eq!((k2.nodes, k2.captures, k2.en_passant, k2.castles), (2039, 351, 1, 91));
    assert_eq!(k2.promotions, 0);
    assert_eq!(k2.time_ms, 0);
    let divided = perft_divide(&mut start, 2);
    assert_eq!(divided.len(), 20);
    assert!(divided.iter().all(|entry| entry.1 == 20));
    let counts: Vec<u64> = perft_divide(&mut kiwipete, 2).iter().map(|e| e.1).collect();
    assert_eq!(counts.len(), 48);
    assert_eq!(counts.iter().sum::<u64>(), 2039);
    assert!(counts.windows(2).all(|w| w[0] >= w[1]));
    assert_eq!(kiwipete.move_history.len(), 0);
}
