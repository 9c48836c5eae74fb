//! The values and limits shared by evaluation and search.

use vstd::prelude::*;
use crate::types::Move;

verus! {

/// What a search found: the best move, if the side to move has one, its
/// score, the depth asked for and the number of positions visited.
#[derive(Debug, Clone, Copy)]
pub struct SearchResult {
    pub best_move: Option<Move>,
    pub evaluation: i32,
    pub depth: u32,
    pub nodes_searched: u64,
}

/// Centipawn values by kind: empty, pawn, knight, bishop, rook, queen, king.
pub const PIECE_VALUES: [i32; 7] = [0, 100, 320, 330, 500, 900, 20000];

/// The score of a side that is checkmated on the move, negated.
pub const MATE_SCORE: i32 = 100000;

pub const DRAW_SCORE: i32 = 0;

pub const MAX_DEPTH: u32 = 8;

} // verus!
