//! A chess engine core: board and legal move generation, position
//! evaluation, a transposition table and an alpha-beta search.

pub mod attack_laws;
pub mod attacks;
pub mod bitboard;
pub mod board;
pub mod evaluation;
pub mod fen;
pub mod laws;
pub mod legality_laws;
pub mod minimax;
pub mod move_list_laws;
pub mod movegen;
pub mod notation;
pub mod perft;
pub mod safety_laws;
pub mod search;
pub mod search_run;
pub mod search_types;
pub mod piece_square_tables;
pub mod quiescence;
pub mod seqs;
pub mod special;
pub mod state;
pub mod transposition;
pub mod types;
pub mod validation;
