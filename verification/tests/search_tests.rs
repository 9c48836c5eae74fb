use chess_engine::board::Board;
use chess_engine::evaluation::{
    calculate_material_for_color, evaluate_material, evaluate_position,
    evaluate_position_with_pst, get_enemy_king_penalty,
};
use chess_engine::piece_square_tables::{
    calculate_game_phase, calculate_total_material, count_pieces, detect_endgame_pattern, get_pst,
    total_pieces, EndgamePattern, PreCalculatedPST,
};
use chess_engine::search::{contains_move, SearchEngine};
use chess_engine::search_types::{DRAW_SCORE, MATE_SCORE, MAX_DEPTH, PIECE_VALUES};
use chess_engine::transposition::{NodeType, TranspositionTable, ZobristKeys};
use chess_engine::types::{GameStatus, Move, Square, BLACK, WHITE};

const START: &str = "rnbqkbnr/pppppppp/8/8/8/8/PPPPPPPP/RNBQKBNR w KQkq - 0 1";
const FOOLS_MATE: &str = "rnb1kbnr/pppp1ppp/8/4p3/6Pq/5P2/PPPPP2P/RNBQKBNR w KQkq - 1 3";
const STALEMATE: &str = "7k/5Q2/6K1/8/8/8/8/8 b - - 0 1";

fn board(fen: &str) -> Board {
    Board::from_fen(fen).expect("valid FEN")
}

fn key(n: usize) -> u64 {
    let mut counter = 1u64;
    for _ in 0..n {
        counter = counter.wrapping_mul(1103515245).wrapping_add(12345);
    }
    counter
}

#[test]
fn constants() {
    assert_eq!(MATE_SCORE, 100000);
    assert_eq!(DRAW_SCORE, 0);
    assert_eq!(MAX_DEPTH, 8);
    assert_eq!(PIECE_VALUES, [0, 100, 320, 330, 500, 900, 20000]);
}

#[test]
fn table_values_blend_by_phase() {
    let pst = PreCalculatedPST::new();
    assert_eq!(pst.get_value(0, EndgamePattern::Opening, 0, 12), 50);
    assert_eq!(pst.get_value(0, EndgamePattern::GeneralEndgame, 255, 12), 80);
    assert_eq!(pst.get_value(0, EndgamePattern::GeneralEndgame, 128, 12), 65);
    assert_eq!(pst.get_value(1, EndgamePattern::GeneralEndgame, 200, 0), -50);
    assert_eq!(pst.get_value(5, EndgamePattern::GeneralEndgame, 100, 0), -37);
    assert_eq!(pst.get_value(4, EndgamePattern::KQvsK, 255, 27), 80);
    assert_eq!(pst.get_value(4, EndgamePattern::KRvsK, 255, 27), 5);
    assert_eq!(pst.get_value(3, EndgamePattern::KRvsK, 255, 0), 20);
    assert_eq!(pst.get_value(5, EndgamePattern::KQvsK, 255, 0), 20);
    assert_eq!(pst.get_value(9, EndgamePattern::Opening, 77, 5), 0);
    assert_eq!(get_pst().get_value(2, EndgamePattern::Middlegame, 0, 18), 5);
    assert_eq!(EndgamePattern::from_usize(2), EndgamePattern::KQvsK);
    assert_eq!(EndgamePattern::from_usize(99), EndgamePattern::GeneralEndgame);
    assert_eq!(EndgamePattern::KRvsK.index(), 3);
}

#[test]
fn material_phase_and_pattern() {
    let start = Board::new();
    assert_eq!(calculate_total_material(&start), 8000);
    assert_eq!(calculate_game_phase(&start), 0);
    assert_eq!(detect_endgame_pattern(&start), EndgamePattern::Opening);
    let (white, black) = count_pieces(&start);
    assert_eq!(white, (8, 2, 2, 2, 1, 1));
    assert_eq!(black, (8, 2, 2, 2, 1, 1));
    assert_eq!(total_pieces(&white), 16);
    assert_eq!(start.count_of(WHITE, 1), 8);
    assert_eq!(
        start.squares_with(BLACK, 6),
        vec![Square(60)]
    );
    let kq = board("4k3/8/8/8/8/8/8/3QK3 w - - 0 1");
    assert_eq!(detect_endgame_pattern(&kq), EndgamePattern::KQvsK);
    let kr = board("4k2r/8/8/8/8/8/8/4K3 w - - 0 1");
    assert_eq!(detect_endgame_pattern(&kr), EndgamePattern::KRvsK);
    let kings = board("4k3/8/8/8/8/8/8/4K3 w - - 0 1");
    assert_eq!(calculate_total_material(&kings), 0);
    assert_eq!(calculate_game_phase(&kings), 255);
    assert_eq!(detect_endgame_pattern(&kings), EndgamePattern::GeneralEndgame);
    let knight_gone = board("r1bqkbnr/pppppppp/8/8/8/8/PPPPPPPP/RNBQKBNR w KQkq - 0 1");
    assert_eq!(calculate_total_material(&knight_gone), 7680);
    assert_eq!(calculate_game_phase(&knight_gone), 4);
    assert_eq!(detect_endgame_pattern(&knight_gone), EndgamePattern::Opening);
    let rooks = board("r3k2r/pppppppp/8/8/8/8/PPPPPPPP/R3K2R w KQkq - 0 1");
    assert_eq!(calculate_total_material(&rooks), 3600);
    assert_eq!(detect_endgame_pattern(&rooks), EndgamePattern::Middlegame);
    let bare = board("8/8/8/8/8/8/8/8 w - - 0 1");
    assert_eq!(calculate_total_material(&bare), 0);
    assert_eq!(calculate_game_phase(&bare), 255);
    assert_eq!(detect_endgame_pattern(&bare), EndgamePattern::GeneralEndgame);
    let pawns = board("8/pppppppp/8/8/8/8/PPPPPPPP/8 w - - 0 1");
    assert_eq!(calculate_total_material(&pawns), 1600);
    assert_eq!(calculate_game_phase(&pawns), 203);
    let middle = board("8/pppppppp/8/8/8/8/PPPPPPPP/QQ6 w - - 0 1");
    assert_eq!(detect_endgame_pattern(&middle), EndgamePattern::Middlegame);
}

#[test]
fn evaluation_of_material_and_squares() {
    let start = Board::new();
    assert_eq!(evaluate_material(&start), 0);
    assert_eq!(evaluate_position_with_pst(&start), 0);
    assert_eq!(evaluate_position(&start), 0);
    assert_eq!(calculate_material_for_color(&start, WHITE), 3900);
    let white = board("4k3/8/8/8/8/8/4P3/4K3 w - - 0 1");
    assert_eq!(evaluate_material(&white), 100);
    assert_eq!(calculate_game_phase(&white), 252);
    assert_eq!(detect_endgame_pattern(&white), EndgamePattern::GeneralEndgame);
    assert_eq!(
        evaluate_position_with_pst(&white),
        get_pst().get_value(0, EndgamePattern::GeneralEndgame, 252, 12)
    );
    assert_eq!(evaluate_position_with_pst(&white), 79);
    assert_eq!(evaluate_position(&white), 179);
    let black = board("4k3/8/8/8/8/8/4P3/4K3 b - - 0 1");
    assert_eq!(evaluate_position(&black), -179);
    let queen_up = board("3qk3/8/8/8/8/8/8/4K3 b - - 0 1");
    assert_eq!(evaluate_material(&queen_up), 900);
    assert_eq!(
        get_enemy_king_penalty(&start, EndgamePattern::KQvsK, 27),
        0
    );
    assert_eq!(
        get_enemy_king_penalty(&start, EndgamePattern::KQvsK, 0),
        -150
    );
    assert_eq!(
        get_enemy_king_penalty(&start, EndgamePattern::KRvsK, 9),
        -60
    );
    assert_eq!(
        get_enemy_king_penalty(&start, EndgamePattern::Opening, 0),
        0
    );
}

#[test]
fn terminal_positions_evaluate_to_mate_or_draw() {
    let mated = board(FOOLS_MATE);
    assert!(mated.get_all_legal_moves().is_empty());
    assert!(mated.is_in_check());
    assert_eq!(evaluate_position(&mated), -MATE_SCORE);
    let stalemate = board(STALEMATE);
    assert!(stalemate.get_all_legal_moves().is_empty());
    assert!(!stalemate.is_in_check());
    assert_eq!(evaluate_position(&stalemate), DRAW_SCORE);
}

#[test]
fn zobrist_signature() {
    let keys = ZobristKeys::new();
    let kings = board("4k3/8/8/8/8/8/8/4K3 w - - 0 1");
    let expected = key(5 * 64 + 4 * 8) ^ key(11 * 64 + 4 * 8 + 7) ^ key(769);
    assert_eq!(keys.hash_position(&kings), expected);
    let black_to_move = board("4k3/8/8/8/8/8/8/4K3 b - - 0 1");
    assert_eq!(keys.hash_position(&black_to_move), expected ^ key(768));
    let with_rights = board("4k3/8/8/8/8/8/8/4K3 w Kq c6 0 1");
    assert_eq!(
        keys.hash_position(&with_rights),
        key(5 * 64 + 4 * 8) ^ key(11 * 64 + 4 * 8 + 7) ^ key(769 + 9) ^ key(785 + 2)
    );
    let table = TranspositionTable::new(1);
    assert_eq!(table.get_hash(&kings), expected);
    let clocks = board("4k3/8/8/8/8/8/8/4K3 w - - 30 40");
    assert_eq!(table.get_hash(&clocks), expected);
}

#[test]
fn table_probe_and_store() {
    let mut table = TranspositionTable::new(1);
    let best = Some(Move::new(Square(12), Square(28)));
    assert_eq!(table.size(), 0);
    assert_eq!(table.probe(7, 1, -10, 10), None);
    assert_eq!(table.probe_move(7), None);
    table.store(7, 3, 25, best, NodeType::Exact);
    assert_eq!(table.size(), 1);
    assert_eq!(table.probe(7, 3, -10, 10), Some((25, best)));
    assert_eq!(table.probe(7, 2, -10, 10), Some((25, best)));
    assert_eq!(table.probe(7, 4, -10, 10), None);
    assert_eq!(table.probe_move(7), best);
    table.store(7, 2, 99, None, NodeType::Exact);
    assert_eq!(table.probe(7, 2, -10, 10), Some((25, best)));
    table.store(7, 3, 40, None, NodeType::LowerBound);
    assert_eq!(table.probe(7, 3, -10, 50), None);
    assert_eq!(table.probe(7, 3, -10, 40), Some((40, None)));
    table.store(7, 5, -20, best, NodeType::UpperBound);
    assert_eq!(table.probe(7, 5, -30, 10), None);
    assert_eq!(table.probe(7, 5, -20, 10), Some((-20, best)));
    table.new_search();
    table.store(7, 1, 1, None, NodeType::Exact);
    assert_eq!(table.probe(7, 1, 0, 0), Some((1, None)));
    table.store(8, 1, 2, None, NodeType::Exact);
    assert_eq!(table.size(), 2);
    table.clear();
    assert_eq!(table.size(), 0);
    assert_eq!(table.probe(8, 0, 0, 0), None);
}

#[test]
fn full_table_drops_old_entries() {
    let mut table = TranspositionTable::new(0);
    table.store(1, 1, 10, None, NodeType::Exact);
    assert_eq!(table.size(), 1);
    table.new_search();
    table.store(2, 1, 20, None, NodeType::Exact);
    assert_eq!(table.size(), 2);
    table.new_search();
    table.store(3, 1, 30, None, NodeType::Exact);
    assert_eq!(table.size(), 2);
    assert_eq!(table.probe(1, 1, 0, 0), None);
    assert_eq!(table.probe(2, 1, 0, 0), Some((20, None)));
    assert_eq!(table.probe(3, 1, 0, 0), Some((30, None)));
}

#[test]
fn search_depth_one_from_the_start() {
    let mut board = board(START);
    let legal = board.get_all_legal_moves();
    assert_eq!(legal.len(), 20);
    let mut engine = SearchEngine::new();
    let result = engine.search(&mut board, 1);
    let best = result.best_move.expect("a best move");
    assert!(contains_move(&legal, best));
    assert_eq!(result.depth, 1);
    assert!(result.nodes_searched >= 20);
    assert_eq!(result.nodes_searched, engine.nodes_searched);
    assert!(result.evaluation.abs() < MATE_SCORE);
    assert_eq!(board.squares, Board::new().squares);
    assert_eq!(board.move_history.len(), 0);
    assert_eq!(board.current_turn, WHITE);
}

#[test]
fn search_returns_a_legal_move() {
    let positions = [
        START,
        "r3k2r/p1ppqpb1/bn2pnp1/3PN3/1p2P3/2N2Q1p/PPPBBPPP/R3K2R w KQkq - 0 1",
        "8/2p5/3p4/KP5r/1R3p1k/8/4P1P1/8 w - - 0 1",
        "r1bqkb1r/pppp1ppp/2n2n2/4p3/2B1P3/3P1N2/PPP2PPP/RNBQK2R w KQkq - 4 4",
        "4k3/8/8/8/8/8/1p6/4K3 b - - 0 1",
    ];
    let mut engine = SearchEngine::new();
    for fen in positions {
        for depth in 0..3u32 {
            let mut b = board(fen);
            let legal = b.get_all_legal_moves();
            let squares = b.squares;
            let result = engine.search(&mut b, depth);
            let best = result.best_move.expect("a best move");
            assert!(contains_move(&legal, best), "{} at depth {}", fen, depth);
            assert!(result.evaluation.abs() <= MATE_SCORE);
            assert_eq!(b.squares, squares);
            assert_eq!(b.move_history.len(), 0);
        }
    }
}

#[test]
fn search_without_legal_moves() {
    let mut engine = SearchEngine::new();
    let mut mated = board(FOOLS_MATE);
    let result = engine.search(&mut mated, 3);
    assert_eq!(result.best_move, None);
    assert_eq!(result.evaluation, -MATE_SCORE);
    assert_eq!(result.nodes_searched, 0);
    let mut stalemate = board(STALEMATE);
    let result = engine.search(&mut stalemate, 3);
    assert_eq!(result.best_move, None);
    assert_eq!(result.evaluation, 0);
}

#[test]
fn search_after_the_game_has_ended() {
    let mut engine = SearchEngine::new();
    let mut b = Board::new();
    b.game_status = GameStatus::Draw;
    let result = engine.search(&mut b, 2);
    assert_eq!(result.best_move, None);
    assert_eq!(result.evaluation, -MATE_SCORE - 1);
    assert_eq!(b.game_status, GameStatus::Draw);
}

#[test]
fn search_finds_mate_in_one() {
    let mut engine = SearchEngine::new();
    let mut b = board("6k1/5ppp/8/8/8/8/8/R3K3 w Q - 0 1");
    let result = engine.search(&mut b, 2);
    assert_eq!(
        result.best_move,
        Some(Move::new(Square(0), Square(56)))
    );
    assert_eq!(result.evaluation, MATE_SCORE - 1);
}

#[test]
fn search_takes_a_hanging_queen() {
    let mut engine = SearchEngine::new();
    let mut b = board("4k3/8/8/3q4/4P3/8/8/4K3 w - - 0 1");
    let result = engine.search(&mut b, 2);
    assert_eq!(
        result.best_move,
        Some(Move::new(Square(28), Square(35)))
    );
}

fn exchange_value(b: &Board, m: Move) -> i32 {
    let target = b.squares[m.to.0 as usize];
    if target == 0 {
        return 0;
    }
    let taker = b.squares[m.from.0 as usize];
    PIECE_VALUES[(target & 7) as usize] - PIECE_VALUES[(taker & 7) as usize] / 2
}

fn full_width_quiescence(b: &mut Board, qs_depth: i32) -> i32 {
    if qs_depth > 4 {
        return evaluate_position(b);
    }
    let checked = b.is_in_check();
    let stand_pat = if checked { -MATE_SCORE } else { evaluate_position(b) };
    let legal = b.get_all_legal_moves();
    let mut tactical: Vec<Move> = Vec::new();
    if checked {
        tactical = legal;
    } else {
        for m in legal.iter() {
            if b.squares[m.to.0 as usize] != 0 {
                tactical.push(*m);
            }
        }
        if qs_depth == 0 {
            for m in legal.iter() {
                if b.squares[m.to.0 as usize] == 0 {
                    b.try_make_move(*m).expect("legal move");
                    let gives_check = b.is_in_check() && exchange_value(b, *m) >= 0;
                    b.undo_move().expect("a move to undo");
                    if gives_check {
                        tactical.push(*m);
                    }
                }
            }
        }
    }
    let mut best = stand_pat;
    for m in tactical {
        if exchange_value(b, m) >= 0 {
            b.try_make_move(m).expect("legal move");
            let value = -full_width_quiescence(b, qs_depth + 1);
            b.undo_move().expect("a move to undo");
            if value > best {
                best = value;
            }
        }
    }
    best
}

const TACTICAL_POSITIONS: [&str; 6] = [
    START,
    "4k3/8/8/3q4/4P3/8/8/4K3 w - - 0 1",
    "r3k2r/p1ppqpb1/bn2pnp1/3PN3/1p2P3/2N2Q1p/PPPBBPPP/R3K2R w KQkq - 0 1",
    "r1bqkb1r/pppp1ppp/2n2n2/4p3/2B1P3/3P1N2/PPP2PPP/RNBQK2R w KQkq - 4 4",
    "rnbq1k1r/pp1Pbppp/2p5/8/2B5/8/PPP1NnPP/RNBQK2R w KQ - 1 8",
    "8/2p5/3p4/KP5r/1R3p1k/8/4P1P1/8 w - - 0 1",
];

#[test]
fn quiescence_on_a_quiet_position_stands_pat() {
    let mut b = board(START);
    let mut engine = SearchEngine::new();
    let score = engine.quiescence_search(&mut b, -MATE_SCORE - 1, MATE_SCORE + 1, 0);
    assert_eq!(score, evaluate_position(&b));
    assert_eq!(engine.nodes_searched, 1);
    assert_eq!(b.move_history.len(), 0);
}

#[test]
fn quiescence_takes_a_hanging_queen() {
    let mut b = board("4k3/8/8/3q4/4P3/8/8/4K3 w - - 0 1");
    let stand_pat = evaluate_position(&b);
    let mut after = board("4k3/8/8/3q4/4P3/8/8/4K3 w - - 0 1");
    after.try_make_move(Move::new(Square(28), Square(35))).expect("legal move");
    let taken = -evaluate_position(&after);
    assert!(taken > stand_pat);
    let mut engine = SearchEngine::new();
    let score = engine.quiescence_search(&mut b, -MATE_SCORE - 1, MATE_SCORE + 1, 0);
    assert_eq!(score, taken);
    assert_eq!(b.squares, board("4k3/8/8/3q4/4P3/8/8/4K3 w - - 0 1").squares);
}

#[test]
fn quiescence_within_the_widest_window_is_the_full_width_value() {
    for fen in TACTICAL_POSITIONS {
        let mut b = board(fen);
        let value = full_width_quiescence(&mut b, 0);
        let mut engine = SearchEngine::new();
        let score = engine.quiescence_search(&mut b, -MATE_SCORE - 1, MATE_SCORE + 1, 0);
        assert_eq!(score, value, "{}", fen);
        assert_eq!(b.squares, board(fen).squares);
        assert_eq!(b.move_history.len(), 0);
    }
}

#[test]
fn quiescence_within_a_window_bounds_the_full_width_value() {
    let windows = [(-50, 50), (-1, 0), (0, 1), (100, 400), (-900, -300), (-MATE_SCORE, 0)];
    for fen in TACTICAL_POSITIONS {
        let mut b = board(fen);
        let value = full_width_quiescence(&mut b, 0);
        for (alpha, beta) in windows {
            let mut engine = SearchEngine::new();
            let score = engine.quiescence_search(&mut b, alpha, beta, 0);
            if score >= beta {
                assert!(value >= score, "{} in ({}, {})", fen, alpha, beta);
            } else if score <= alpha {
                assert!(value <= score, "{} in ({}, {})", fen, alpha, beta);
            } else {
                assert_eq!(score, value, "{} in ({}, {})", fen, alpha, beta);
            }
        }
    }
}

#[test]
fn checking_moves_are_the_legal_moves_that_give_check() {
    let engine = SearchEngine::new();
    let mut b = board("6k1/5ppp/8/8/8/8/8/R3K3 w Q - 0 1");
    let checks = engine.get_checking_moves(&mut b);
    assert_eq!(checks, vec![Move::new(Square(0), Square(56))]);
    assert_eq!(b.move_history.len(), 0);
    let mut quiet = board(START);
    assert_eq!(engine.get_checking_moves(&mut quiet).len(), 0);
    let mut b = board("4k3/8/8/8/8/8/8/4KQ2 w - - 0 1");
    let legal = b.get_all_legal_moves();
    let mut expected: Vec<Move> = Vec::new();
    for m in legal {
        b.try_make_move(m).expect("legal move");
        if b.is_in_check() {
            expected.push(m);
        }
        b.undo_move().expect("a move to undo");
    }
    assert!(expected.len() >= 3);
    assert_eq!(engine.get_checking_moves(&mut b), expected);
}

fn extension_plies(after: &Board, m: Move, was_in_check: bool, used: i32, depth: i32) -> i32 {
    if used >= 1 || depth < 2 {
        return 0;
    }
    let mut plies = 0;
    if after.is_in_check() && exchange_value(after, m) >= 0 {
        plies += 1;
    }
    if was_in_check {
        plies += 1;
    }
    plies.min(1 - used)
}

fn full_width_search(b: &mut Board, depth: i32, used: i32, ply: i32) -> i32 {
    if ply >= 128 {
        return evaluate_position(b);
    }
    let checked = b.is_in_check();
    if depth <= 0 && !checked {
        return full_width_quiescence(b, 0);
    }
    let legal = b.get_all_legal_moves();
    if legal.is_empty() {
        return if checked { -MATE_SCORE + ply } else { 0 };
    }
    let mut best = -MATE_SCORE - 1;
    for m in legal {
        b.try_make_move(m).expect("legal move");
        let plies = extension_plies(b, m, checked, used, depth);
        let value = -full_width_search(b, depth - 1 + plies, used + plies, ply + 1);
        b.undo_move().expect("a move to undo");
        if value > best {
            best = value;
        }
    }
    best
}

fn full_width_line(b: &mut Board, m: Move, depth: i32) -> i32 {
    b.try_make_move(m).expect("legal move");
    let value = -full_width_search(b, depth - 1, 0, 1);
    b.undo_move().expect("a move to undo");
    value
}

fn search_matches_full_width(fen: &str, depth: u32) -> bool {
    let mut b = board(fen);
    let mut engine = SearchEngine::new();
    let result = engine.search(&mut b, depth);
    assert_eq!(engine.table_hits, 0, "{} at depth {}", fen, depth);
    let legal = b.get_all_legal_moves();
    let mut best = -MATE_SCORE - 1;
    for m in legal {
        let value = full_width_line(&mut b, m, depth as i32);
        if value > best {
            best = value;
        }
    }
    let chosen = result.best_move.expect("a best move");
    result.evaluation == best && full_width_line(&mut b, chosen, depth as i32) == best
}

#[test]
fn search_without_table_hits_is_the_full_width_value_at_depth_one() {
    assert!(search_matches_full_width(START, 1));
    assert!(search_matches_full_width("4k3/8/8/3q4/4P3/8/8/4K3 w - - 0 1", 1));
    assert!(search_matches_full_width("8/2p5/3p4/KP5r/1R3p1k/8/4P1P1/8 w - - 0 1", 1));
    assert!(search_matches_full_width("6k1/5ppp/8/8/8/8/8/R3K3 w Q - 0 1", 1));
}

#[test]
fn search_without_table_hits_is_the_full_width_value_at_depth_two() {
    assert!(search_matches_full_width("4k3/8/8/3q4/4P3/8/8/4K3 w - - 0 1", 2));
    assert!(search_matches_full_width("6k1/5ppp/8/8/8/8/8/R3K3 w Q - 0 1", 2));
    assert!(search_matches_full_width("4k3/8/8/8/8/8/1p6/4K3 b - - 0 1", 2));
}

#[test]
fn search_counts_the_positions_that_the_table_settles() {
    let mut b = board(START);
    let mut engine = SearchEngine::new();
    engine.search(&mut b, 1);
    assert_eq!(engine.table_hits, 0);
    engine.search(&mut b, 1);
    assert!(engine.table_hits > 0);
    let legal = b.get_all_legal_moves();
    let result = engine.search(&mut b, 1);
    assert!(contains_move(&legal, result.best_move.expect("a best move")));
}

#[test]
fn full_table_keeps_the_entries_of_the_search_under_way() {
    let mut table = TranspositionTable::new(0);
    table.new_search();
    table.store(1, 1, 10, None, NodeType::Exact);
    table.store(2, 1, 20, None, NodeType::Exact);
    assert_eq!(table.size(), 2);
    assert_eq!(table.probe(1, 1, 0, 0), Some((10, None)));
    assert_eq!(table.probe(2, 1, 0, 0), Some((20, None)));
    let mut turning = TranspositionTable::new(0);
    for _ in 0..255 {
        turning.new_search();
    }
    turning.store(1, 1, 10, None, NodeType::Exact);
    turning.new_search();
    turning.store(2, 1, 20, None, NodeType::Exact);
    assert_eq!(turning.size(), 2);
    turning.new_search();
    turning.store(3, 1, 30, None, NodeType::Exact);
    assert_eq!(turning.size(), 2);
    assert_eq!(turning.probe(1, 1, 0, 0), None);
}

#[test]
fn quiescence_never_scores_below_the_evaluation_when_not_in_check() {
    let windows = [(-50, 50), (-1, 0), (300, 400), (-900, -300), (-MATE_SCORE - 1, MATE_SCORE + 1)];
    for fen in TACTICAL_POSITIONS {
        let mut b = board(fen);
        assert!(!b.is_in_check());
        let floor = evaluate_position(&b);
        for (alpha, beta) in windows {
            let mut engine = SearchEngine::new();
            let score = engine.quiescence_search(&mut b, alpha, beta, 0);
            assert!(score >= floor, "{} in ({}, {})", fen, alpha, beta);
        }
    }
}

#[test]
fn search_depth_one_from_the_start_counts_two_positions_a_move_at_most() {
    let mut b = board(START);
    let mut engine = SearchEngine::new();
    let result = engine.search(&mut b, 1);
    assert!(result.nodes_searched >= 20);
    assert!(result.nodes_searched <= 40);
    assert_eq!(result.nodes_searched, 40);
}
