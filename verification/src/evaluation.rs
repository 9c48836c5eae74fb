//! The static evaluation of a position: material and piece-square values,
//! seen from the side to move.

use vstd::prelude::*;
use crate::bitboard::bit_pred;
use crate::bitboard::count_code_below;
use crate::bitboard::lemma_squares_where_ext;
use crate::bitboard::spec_get_bit;
use crate::bitboard::squares_where;
use crate::board::Board;
use crate::board::Position;
use crate::piece_square_tables::calculate_game_phase;
use crate::piece_square_tables::detect_endgame_pattern;
use crate::piece_square_tables::endgame_pattern;
use crate::piece_square_tables::game_phase;
use crate::piece_square_tables::get_pst;
use crate::piece_square_tables::piece_count;
use crate::piece_square_tables::spec_endgame_value;
use crate::piece_square_tables::spec_opening_value;
use crate::piece_square_tables::spec_pst_value;
use crate::piece_square_tables::EndgamePattern;
use crate::piece_square_tables::PreCalculatedPST;
use crate::search_types::{DRAW_SCORE, MATE_SCORE, PIECE_VALUES};
use crate::seqs::all_valid;
use crate::types::is_empty;
use crate::types::piece_color;
use crate::types::piece_type;
use crate::types::spec_piece_color;
use crate::types::spec_piece_type;
use crate::types::{Piece, Square};
use crate::types::{BISHOP, KING, KNIGHT, PAWN, QUEEN, ROOK};
use crate::types::{BLACK, EMPTY, WHITE};
use crate::validation::in_check;

verus! {

/// No static evaluation is beyond this, either way: 64 pieces at 900 for
/// the material and at 80 for their squares.
pub const STATIC_BOUND: i32 = 62720;

/// "Square `i` holds the piece `code`."
pub open spec fn code_pred(b: Seq<Piece>, code: Piece) -> spec_fn(int) -> bool {
    |i: int| b[i] == code
}

/// The squares that hold the piece `code`, lowest first.
pub open spec fn squares_of(b: Seq<Piece>, code: Piece) -> Seq<Square> {
    squares_where(code_pred(b, code), 64)
}

/// The index into a table for a piece on `square`: the square itself for
/// white, mirrored top to bottom for black.
pub open spec fn table_square(square: Square, flip: bool) -> int {
    if flip {
        (7 - square.0 as int / 8) * 8 + square.0 as int % 8
    } else {
        square.0 as int
    }
}

/// The sum of the table values of the first `n` squares of the list.
pub open spec fn list_pst_sum(
    list: Seq<Square>,
    n: int,
    piece: int,
    pattern: EndgamePattern,
    phase: int,
    flip: bool,
) -> int
    decreases n,
{
    if n <= 0 {
        0
    } else {
        list_pst_sum(list, n - 1, piece, pattern, phase, flip) + spec_pst_value(
            piece,
            pattern,
            phase,
            table_square(list[n - 1], flip),
        )
    }
}

/// White's table values for one kind of piece less black's.
pub open spec fn kind_pst_balance(b: Seq<Piece>, kind: u8, pattern: EndgamePattern, phase: int) -> int {
    let white = squares_of(b, (kind + WHITE) as u8);
    let black = squares_of(b, (kind + BLACK) as u8);
    list_pst_sum(white, white.len() as int, kind - 1, pattern, phase, false) - list_pst_sum(
        black,
        black.len() as int,
        kind - 1,
        pattern,
        phase,
        true,
    )
}

/// White's table values less black's, under the pattern and phase of the
/// position.
pub open spec fn pst_balance(b: Seq<Piece>) -> int {
    let pattern = endgame_pattern(b);
    let phase = game_phase(b);
    kind_pst_balance(b, PAWN, pattern, phase) + kind_pst_balance(b, KNIGHT, pattern, phase)
        + kind_pst_balance(b, BISHOP, pattern, phase) + kind_pst_balance(b, ROOK, pattern, phase)
        + kind_pst_balance(b, QUEEN, pattern, phase) + kind_pst_balance(b, KING, pattern, phase)
}

/// The material of a color in centipawns, the king left out.
pub open spec fn side_material(b: Seq<Piece>, color: u8) -> int {
    (piece_count(b, (PAWN + color) as u8) * 100 + piece_count(b, (KNIGHT + color) as u8) * 320
        + piece_count(b, (BISHOP + color) as u8) * 330 + piece_count(b, (ROOK + color) as u8) * 500
        + piece_count(b, (QUEEN + color) as u8) * 900) as int
}

/// White's material less black's.
pub open spec fn material_balance(b: Seq<Piece>) -> int {
    side_material(b, WHITE) - side_material(b, BLACK)
}

/// 1 when white is to move, -1 otherwise.
pub open spec fn side_sign(turn: u8) -> int {
    if turn == WHITE {
        1
    } else {
        -1
    }
}

/// Material and table values, seen from the side to move.
pub open spec fn static_score(s: Position) -> int {
    side_sign(s.turn) * material_balance(s.squares) + side_sign(s.turn) * pst_balance(s.squares)
}

/// The evaluation of a position, seen from the side to move: with no legal
/// move, the mate score against it if it is in check and the draw score if
/// not; else material and table values.
pub open spec fn spec_evaluate(s: Position) -> int {
    if s.all_legal_moves().len() == 0 {
        if in_check(s.squares, s.turn) {
            -MATE_SCORE as int
        } else {
            DRAW_SCORE as int
        }
    } else {
        static_score(s)
    }
}

/// The twelve kinds of piece stand on different squares: together they are
/// no more than the squares counted.
pub proof fn lemma_counts_bounded(b: Seq<Piece>, n: nat)
    ensures
        count_code_below(b, 1, n) + count_code_below(b, 2, n) + count_code_below(b, 3, n)
            + count_code_below(b, 4, n) + count_code_below(b, 5, n) + count_code_below(b, 6, n)
            + count_code_below(b, 9, n) + count_code_below(b, 10, n) + count_code_below(b, 11, n)
            + count_code_below(b, 12, n) + count_code_below(b, 13, n) + count_code_below(b, 14, n)
            <= n,
    decreases n,
{
    if n > 0 {
        lemma_counts_bounded(b, (n - 1) as nat);
    }
}

/// As many squares are selected as hold the piece.
pub proof fn lemma_squares_of_len(b: Seq<Piece>, code: Piece, n: int)
    requires
        0 <= n,
    ensures
        squares_where(code_pred(b, code), n).len() == count_code_below(b, code, n as nat),
    decreases n,
{
    if n > 0 {
        lemma_squares_of_len(b, code, n - 1);
    }
}

/// No table value is beyond 80, either way.
pub proof fn lemma_pst_value_bound(piece: int, pattern: EndgamePattern, phase: int, square: int)
    requires
        0 <= square < 64,
        0 <= phase <= 255,
    ensures
        -80 <= spec_pst_value(piece, pattern, phase, square) <= 80,
{
    let o = spec_opening_value(piece, square);
    let e = spec_endgame_value(piece, pattern, square);
    assert(-80 <= o <= 80);
    assert(-80 <= e <= 80);
    let total = o * (255 - phase) + e * phase;
    assert(-20400 <= total <= 20400) by (nonlinear_arith)
        requires
            -80 <= o <= 80,
            -80 <= e <= 80,
            0 <= phase <= 255,
            total == o * (255 - phase) + e * phase,
    ;
}

/// A sum of `n` table values is within `80 * n`.
pub proof fn lemma_list_sum_bound(
    list: Seq<Square>,
    n: int,
    piece: int,
    pattern: EndgamePattern,
    phase: int,
    flip: bool,
)
    requires
        0 <= n <= list.len(),
        all_valid(list),
        0 <= phase <= 255,
    ensures
        -80 * n <= list_pst_sum(list, n, piece, pattern, phase, flip) <= 80 * n,
    decreases n,
{
    if n > 0 {
        lemma_list_sum_bound(list, n - 1, piece, pattern, phase, flip);
        assert(list[n - 1].valid());
        lemma_pst_value_bound(piece, pattern, phase, table_square(list[n - 1], flip));
    }
}

proof fn lemma_kind_balance_bound(b: Seq<Piece>, kind: u8, pattern: EndgamePattern, phase: int)
    requires
        1 <= kind <= 6,
        0 <= phase <= 255,
    ensures
        -80 * (piece_count(b, (kind + WHITE) as u8) + piece_count(b, (kind + BLACK) as u8))
            <= kind_pst_balance(b, kind, pattern, phase) <= 80 * (piece_count(
            b,
            (kind + WHITE) as u8,
        ) + piece_count(b, (kind + BLACK) as u8)),
{
    let white = squares_of(b, (kind + WHITE) as u8);
    let black = squares_of(b, (kind + BLACK) as u8);
    crate::bitboard::lemma_squares_where_contains(code_pred(b, (kind + WHITE) as u8), 64);
    crate::bitboard::lemma_squares_where_contains(code_pred(b, (kind + BLACK) as u8), 64);
    assert(all_valid(white)) by {
        assert forall|k: int| 0 <= k < white.len() implies (#[trigger] white[k]).valid() by {
            assert(white.contains(white[k]));
        }
    }
    assert(all_valid(black)) by {
        assert forall|k: int| 0 <= k < black.len() implies (#[trigger] black[k]).valid() by {
            assert(black.contains(black[k]));
        }
    }
    lemma_squares_of_len(b, (kind + WHITE) as u8, 64);
    lemma_squares_of_len(b, (kind + BLACK) as u8, 64);
    lemma_list_sum_bound(white, white.len() as int, kind - 1, pattern, phase, false);
    lemma_list_sum_bound(black, black.len() as int, kind - 1, pattern, phase, true);
}

/// The static score of any position is within the static bound.
pub proof fn law_static_score_is_bounded(s: Position)
    ensures
        -STATIC_BOUND <= static_score(s) <= STATIC_BOUND,
{
    let b = s.squares;
    let pattern = endgame_pattern(b);
    let phase = game_phase(b);
    lemma_counts_bounded(b, 64);
    lemma_kind_balance_bound(b, PAWN, pattern, phase);
    lemma_kind_balance_bound(b, KNIGHT, pattern, phase);
    lemma_kind_balance_bound(b, BISHOP, pattern, phase);
    lemma_kind_balance_bound(b, ROOK, pattern, phase);
    lemma_kind_balance_bound(b, QUEEN, pattern, phase);
    lemma_kind_balance_bound(b, KING, pattern, phase);
    assert(-57600 <= material_balance(b) <= 57600);
    assert(-5120 <= pst_balance(b) <= 5120);
}

/// Sums the table values of the squares of the list.
fn pst_list_sum(
    pst: &PreCalculatedPST,
    list: &Vec<Square>,
    piece_index: usize,
    pattern: EndgamePattern,
    phase: u8,
    flip: bool,
) -> (sum: i32)
    requires
        all_valid(list@),
        list.len() <= 64,
    ensures
        sum == list_pst_sum(
            list@,
            list.len() as int,
            piece_index as int,
            pattern,
            phase as int,
            flip,
        ),
        -80 * list.len() <= sum <= 80 * list.len(),
{
    let mut sum: i32 = 0;
    let mut i: usize = 0;
    while i < list.len()
        invariant
            i <= list.len() <= 64,
            all_valid(list@),
            sum == list_pst_sum(list@, i as int, piece_index as int, pattern, phase as int, flip),
            -80 * i <= sum <= 80 * i,
        decreases list.len() - i,
    {
        let square = list[i];
        let rank: u8 = square.0 / 8;
        let file: u8 = square.0 % 8;
        let square_index: usize = if flip {
            ((7 - rank) * 8 + file) as usize
        } else {
            (rank * 8 + file) as usize
        };
        let pst_value = pst.get_value(piece_index, pattern, phase, square_index);
        sum = sum + pst_value;
        i = i + 1;
    }
    sum
}

impl Board {
    /// The squares that hold the pieces of a color and kind, lowest first.
    pub fn squares_with(&self, color: u8, kind: u8) -> (list: Vec<Square>)
        requires
            self.wf(),
            color == WHITE || color == BLACK,
            1 <= kind <= 6,
        ensures
            list@ == squares_of(self@.squares, (kind + color) as u8),
            all_valid(list@),
            list.len() == piece_count(self@.squares, (kind + color) as u8),
            list.len() <= 64,
    {
        let ghost b = self.squares@;
        let ghost code = (kind + color) as u8;
        proof {
            let bb = self.bitboards.spec_pieces(color, kind);
            let p = bit_pred(bb);
            let q = code_pred(b, code);
            assert forall|i: int| 0 <= i < 64 implies #[trigger] p(i) == q(i) by {
                let j = i as u8;
                assert(spec_get_bit(bb, j) == (b[i] == code));
            }
            lemma_squares_where_ext(p, q, 64);
            lemma_squares_of_len(b, code, 64);
            crate::bitboard::lemma_squares_where_contains(q, 64);
        }
        self.bitboards.find_pieces(color, kind)
    }
}

/// White's table values for one kind of piece less black's.
fn pst_kind_balance(board: &Board, pst: &PreCalculatedPST, kind: u8, pattern: EndgamePattern, phase: u8) -> (balance:
    i32)
    requires
        board.wf(),
        1 <= kind <= 6,
    ensures
        balance == kind_pst_balance(board@.squares, kind, pattern, phase as int),
        -10240 <= balance <= 10240,
{
    let piece_index: usize = (kind - 1) as usize;
    let white_pieces = board.squares_with(WHITE, kind);
    let white = pst_list_sum(pst, &white_pieces, piece_index, pattern, phase, false);
    let black_pieces = board.squares_with(BLACK, kind);
    let black = pst_list_sum(pst, &black_pieces, piece_index, pattern, phase, true);
    white - black
}

/// The material of a color counted square by square with round values:
/// 100 for a pawn, 300 for a knight or bishop, 500 for a rook, 900 for a
/// queen.
pub open spec fn round_material_below(b: Seq<Piece>, color: u8, n: int) -> int
    decreases n,
{
    if n <= 0 {
        0
    } else {
        round_material_below(b, color, n - 1) + if b[n - 1] != EMPTY && spec_piece_color(b[n - 1])
            == color {
            round_value(spec_piece_type(b[n - 1]))
        } else {
            0
        }
    }
}

pub open spec fn round_value(kind: u8) -> int {
    if kind == PAWN {
        100
    } else if kind == KNIGHT || kind == BISHOP {
        300
    } else if kind == ROOK {
        500
    } else if kind == QUEEN {
        900
    } else {
        0
    }
}

/// The material of a color with round values, for display.
pub fn calculate_material_for_color(board: &Board, color: u8) -> (material: i32)
    ensures
        material == round_material_below(board@.squares, color, 64),
        0 <= material <= 57600,
{
    let mut material: i32 = 0;
    let mut index: u8 = 0;
    while index < 64
        invariant
            index <= 64,
            material == round_material_below(board@.squares, color, index as int),
            0 <= material <= 900 * index,
        decreases 64 - index,
    {
        let piece = board.get_piece(Square(index));
        if !is_empty(piece) && piece_color(piece) == color {
            let kind = piece_type(piece);
            let value: i32 = if kind == PAWN {
                100
            } else if kind == KNIGHT || kind == BISHOP {
                300
            } else if kind == ROOK {
                500
            } else if kind == QUEEN {
                900
            } else {
                0
            };
            material = material + value;
        }
        index = index + 1;
    }
    material
}

/// White's material less black's, seen from the side to move.
pub fn evaluate_material(board: &Board) -> (score: i32)
    requires
        board.wf(),
    ensures
        score == side_sign(board@.turn) * material_balance(board@.squares),
        -57600 <= score <= 57600,
{
    let white_material: i32 = (board.count_of(WHITE, PAWN) as i32) * PIECE_VALUES[1] + (
    board.count_of(WHITE, KNIGHT) as i32) * PIECE_VALUES[2] + (board.count_of(WHITE, BISHOP) as i32)
        * PIECE_VALUES[3] + (board.count_of(WHITE, ROOK) as i32) * PIECE_VALUES[4] + (
    board.count_of(WHITE, QUEEN) as i32) * PIECE_VALUES[5];
    let black_material: i32 = (board.count_of(BLACK, PAWN) as i32) * PIECE_VALUES[1] + (
    board.count_of(BLACK, KNIGHT) as i32) * PIECE_VALUES[2] + (board.count_of(BLACK, BISHOP) as i32)
        * PIECE_VALUES[3] + (board.count_of(BLACK, ROOK) as i32) * PIECE_VALUES[4] + (
    board.count_of(BLACK, QUEEN) as i32) * PIECE_VALUES[5];
    proof {
        lemma_counts_bounded(board@.squares, 64);
    }
    if board.current_turn == WHITE {
        white_material - black_material
    } else {
        black_material - white_material
    }
}

/// White's table values less black's, seen from the side to move.
pub fn evaluate_position_with_pst(board: &Board) -> (score: i32)
    requires
        board.wf(),
    ensures
        score == side_sign(board@.turn) * pst_balance(board@.squares),
        -5120 <= score <= 5120,
{
    let pst = get_pst();
    let pattern = detect_endgame_pattern(board);
    let phase = calculate_game_phase(board);
    let pawns = pst_kind_balance(board, &pst, PAWN, pattern, phase);
    let knights = pst_kind_balance(board, &pst, KNIGHT, pattern, phase);
    let bishops = pst_kind_balance(board, &pst, BISHOP, pattern, phase);
    let rooks = pst_kind_balance(board, &pst, ROOK, pattern, phase);
    let queens = pst_kind_balance(board, &pst, QUEEN, pattern, phase);
    let kings = pst_kind_balance(board, &pst, KING, pattern, phase);
    let balance: i32 = pawns + knights + bishops + rooks + queens + kings;
    proof {
        let b = board@.squares;
        lemma_counts_bounded(b, 64);
        lemma_kind_balance_bound(b, PAWN, pattern, phase as int);
        lemma_kind_balance_bound(b, KNIGHT, pattern, phase as int);
        lemma_kind_balance_bound(b, BISHOP, pattern, phase as int);
        lemma_kind_balance_bound(b, ROOK, pattern, phase as int);
        lemma_kind_balance_bound(b, QUEEN, pattern, phase as int);
        lemma_kind_balance_bound(b, KING, pattern, phase as int);
    }
    if board.current_turn == WHITE {
        balance
    } else {
        -balance
    }
}

/// The evaluation of the board's position, seen from the side to move.
pub fn evaluate_position(board: &Board) -> (score: i32)
    requires
        board.wf(),
    ensures
        score == spec_evaluate(board@),
        -MATE_SCORE <= score <= MATE_SCORE,
        board@.all_legal_moves().len() > 0 ==> -STATIC_BOUND <= score <= STATIC_BOUND,
{
    let legal_moves = board.get_all_legal_moves();
    if legal_moves.len() == 0 {
        return if board.is_in_check() {
            -MATE_SCORE
        } else {
            DRAW_SCORE
        };
    }
    let material_score = evaluate_material(board);
    let pst_score = evaluate_position_with_pst(board);
    material_score + pst_score
}

/// How far a lone king is from the edge, as a penalty: in king and queen
/// against king 50 for each step of the first three away from the edge,
/// in king and rook against king 30, nothing under another pattern.
pub open spec fn enemy_king_penalty(pattern: EndgamePattern, square: int) -> int {
    let file = square % 8;
    let rank = square / 8;
    let side = if file <= 7 - file {
        file
    } else {
        7 - file
    };
    let end = if rank <= 7 - rank {
        rank
    } else {
        7 - rank
    };
    let distance = if side <= end {
        side
    } else {
        end
    };
    if pattern == EndgamePattern::KQvsK {
        -(50 * (3 - distance))
    } else if pattern == EndgamePattern::KRvsK {
        -(30 * (3 - distance))
    } else {
        0
    }
}

/// The penalty for the lone king on `enemy_king_square` under the pattern.
pub fn get_enemy_king_penalty(_board: &Board, pattern: EndgamePattern, enemy_king_square: usize) -> (penalty:
    i32)
    requires
        enemy_king_square < 64,
    ensures
        penalty == enemy_king_penalty(pattern, enemy_king_square as int),
{
    let file: usize = enemy_king_square % 8;
    let rank: usize = enemy_king_square / 8;
    let side: usize = if file <= 7 - file {
        file
    } else {
        7 - file
    };
    let end: usize = if rank <= 7 - rank {
        rank
    } else {
        7 - rank
    };
    let distance: i32 = if side <= end {
        side as i32
    } else {
        end as i32
    };
    match pattern {
        EndgamePattern::KQvsK => -(50 * (3 - distance)),
        EndgamePattern::KRvsK => -(30 * (3 - distance)),
        _ => 0,
    }
}

} // verus!
