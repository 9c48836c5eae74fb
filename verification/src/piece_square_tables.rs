//! Piece-square tables: a bonus for each kind of piece on each square, in
//! the opening and in the endgame, blended by the phase of the game.

use vstd::prelude::*;
use crate::bitboard::count_code_below;
use crate::bitboard::lemma_count_matches;
use crate::board::Board;
use crate::types::Piece;
use crate::types::{BISHOP, KING, KNIGHT, PAWN, QUEEN, ROOK};
use crate::types::{BLACK, WHITE};

verus! {

/// The kind of position, which selects the endgame tables.
#[derive(Debug, Clone, Copy, PartialEq, Eq, Structural)]
pub enum EndgamePattern {
    Opening,
    Middlegame,
    KQvsK,
    KRvsK,
    KPvsK,
    RookEndgame,
    QueenEndgame,
    PawnEndgame,
    GeneralEndgame,
}

pub const OPENING_PAWN_PST: [i32; 64] = [
    0, 0, 0, 0, 0, 0, 0, 0,
    50, 50, 50, 50, 50, 50, 50, 50,
    10, 10, 20, 30, 30, 20, 10, 10,
    5, 5, 10, 25, 25, 10, 5, 5,
    0, 0, 0, 20, 20, 0, 0, 0,
    5, -5, -10, 0, 0, -10, -5, 5,
    5, 10, 10, -20, -20, 10, 10, 5,
    0, 0, 0, 0, 0, 0, 0, 0,
];

pub const OPENING_KNIGHT_PST: [i32; 64] = [
    -50, -40, -30, -30, -30, -30, -40, -50,
    -40, -20, 0, 0, 0, 0, -20, -40,
    -30, 0, 10, 15, 15, 10, 0, -30,
    -30, 5, 15, 20, 20, 15, 5, -30,
    -30, 0, 15, 20, 20, 15, 0, -30,
    -30, 5, 10, 15, 15, 10, 5, -30,
    -40, -20, 0, 5, 5, 0, -20, -40,
    -50, -40, -30, -30, -30, -30, -40, -50,
];

pub const OPENING_BISHOP_PST: [i32; 64] = [
    -20, -10, -10, -10, -10, -10, -10, -20,
    -10, 0, 0, 0, 0, 0, 0, -10,
    -10, 0, 5, 10, 10, 5, 0, -10,
    -10, 5, 5, 10, 10, 5, 5, -10,
    -10, 0, 10, 10, 10, 10, 0, -10,
    -10, 10, 10, 10, 10, 10, 10, -10,
    -10, 5, 0, 0, 0, 0, 5, -10,
    -20, -10, -10, -10, -10, -10, -10, -20,
];

pub const OPENING_ROOK_PST: [i32; 64] = [
    0, 0, 0, 0, 0, 0, 0, 0,
    5, 10, 10, 10, 10, 10, 10, 5,
    -5, 0, 0, 0, 0, 0, 0, -5,
    -5, 0, 0, 0, 0, 0, 0, -5,
    -5, 0, 0, 0, 0, 0, 0, -5,
    -5, 0, 0, 0, 0, 0, 0, -5,
    -5, 0, 0, 0, 0, 0, 0, -5,
    0, 0, 0, 5, 5, 0, 0, 0,
];

pub const OPENING_QUEEN_PST: [i32; 64] = [
    -20, -10, -10, -5, -5, -10, -10, -20,
    -10, 0, 0, 0, 0, 0, 0, -10,
    -10, 0, 5, 5, 5, 5, 0, -10,
    -5, 0, 5, 5, 5, 5, 0, -5,
    0, 0, 5, 5, 5, 5, 0, -5,
    -10, 5, 5, 5, 5, 5, 0, -10,
    -10, 0, 5, 0, 0, 0, 0, -10,
    -20, -10, -10, -5, -5, -10, -10, -20,
];

pub const OPENING_KING_PST: [i32; 64] = [
    -30, -40, -40, -50, -50, -40, -40, -30,
    -30, -40, -40, -50, -50, -40, -40, -30,
    -30, -40, -40, -50, -50, -40, -40, -30,
    -30, -40, -40, -50, -50, -40, -40, -30,
    -20, -30, -30, -40, -40, -30, -30, -20,
    -10, -20, -20, -20, -20, -20, -20, -10,
    20, 20, 0, 0, 0, 0, 20, 20,
    20, 30, 10, 0, 0, 10, 30, 20,
];

pub const ENDGAME_PAWN_PST: [i32; 64] = [
    0, 0, 0, 0, 0, 0, 0, 0,
    80, 80, 80, 80, 80, 80, 80, 80,
    60, 60, 60, 60, 60, 60, 60, 60,
    40, 40, 40, 40, 40, 40, 40, 40,
    20, 20, 20, 20, 20, 20, 20, 20,
    10, 10, 10, 10, 10, 10, 10, 10,
    10, 10, 10, 10, 10, 10, 10, 10,
    0, 0, 0, 0, 0, 0, 0, 0,
];

pub const ENDGAME_KING_PST: [i32; 64] = [
    -50, -40, -30, -20, -20, -30, -40, -50,
    -30, -20, -10, 0, 0, -10, -20, -30,
    -30, -10, 20, 30, 30, 20, -10, -30,
    -30, -10, 30, 40, 40, 30, -10, -30,
    -30, -10, 30, 40, 40, 30, -10, -30,
    -30, -10, 20, 30, 30, 20, -10, -30,
    -30, -30, 0, 0, 0, 0, -30, -30,
    -50, -30, -30, -30, -30, -30, -30, -50,
];

pub const KQ_VS_K_OUR_KING: [i32; 64] = [
    20, 30, 40, 50, 50, 40, 30, 20,
    30, 40, 50, 60, 60, 50, 40, 30,
    40, 50, 60, 70, 70, 60, 50, 40,
    50, 60, 70, 80, 80, 70, 60, 50,
    50, 60, 70, 80, 80, 70, 60, 50,
    40, 50, 60, 70, 70, 60, 50, 40,
    30, 40, 50, 60, 60, 50, 40, 30,
    20, 30, 40, 50, 50, 40, 30, 20,
];

pub const KQ_VS_K_QUEEN: [i32; 64] = [
    10, 20, 30, 40, 40, 30, 20, 10,
    20, 30, 40, 50, 50, 40, 30, 20,
    30, 40, 60, 70, 70, 60, 40, 30,
    40, 50, 70, 80, 80, 70, 50, 40,
    40, 50, 70, 80, 80, 70, 50, 40,
    30, 40, 60, 70, 70, 60, 40, 30,
    20, 30, 40, 50, 50, 40, 30, 20,
    10, 20, 30, 40, 40, 30, 20, 10,
];

pub const KR_VS_K_OUR_KING: [i32; 64] = [
    10, 20, 30, 40, 40, 30, 20, 10,
    20, 30, 40, 50, 50, 40, 30, 20,
    30, 40, 50, 60, 60, 50, 40, 30,
    40, 50, 60, 70, 70, 60, 50, 40,
    40, 50, 60, 70, 70, 60, 50, 40,
    30, 40, 50, 60, 60, 50, 40, 30,
    20, 30, 40, 50, 50, 40, 30, 20,
    10, 20, 30, 40, 40, 30, 20, 10,
];

pub const KR_VS_K_ROOK: [i32; 64] = [
    20, 30, 40, 50, 50, 40, 30, 20,
    30, 40, 50, 60, 60, 50, 40, 30,
    40, 50, 60, 70, 70, 60, 50, 40,
    50, 60, 70, 80, 80, 70, 60, 50,
    50, 60, 70, 80, 80, 70, 60, 50,
    40, 50, 60, 70, 70, 60, 50, 40,
    30, 40, 50, 60, 60, 50, 40, 30,
    20, 30, 40, 50, 50, 40, 30, 20,
];

/// No table holds a value beyond this, either way.
pub const PST_BOUND: i32 = 80;

/// The table access; it holds no data of its own.
pub struct PreCalculatedPST {}

/// The opening value of a piece (0 for a pawn up to 5 for a king) on a
/// square, seen from white's side.
pub open spec fn spec_opening_value(piece: int, square: int) -> int {
    if piece == 0 {
        OPENING_PAWN_PST[square] as int
    } else if piece == 1 {
        OPENING_KNIGHT_PST[square] as int
    } else if piece == 2 {
        OPENING_BISHOP_PST[square] as int
    } else if piece == 3 {
        OPENING_ROOK_PST[square] as int
    } else if piece == 4 {
        OPENING_QUEEN_PST[square] as int
    } else if piece == 5 {
        OPENING_KING_PST[square] as int
    } else {
        0
    }
}

/// The endgame value where no special pattern applies: pawns and kings
/// have endgame tables, the other pieces keep their opening values.
pub open spec fn spec_general_endgame_value(piece: int, square: int) -> int {
    if piece == 0 {
        ENDGAME_PAWN_PST[square] as int
    } else if piece == 5 {
        ENDGAME_KING_PST[square] as int
    } else {
        spec_opening_value(piece, square)
    }
}

/// The endgame value under a pattern: queen and king in king and queen
/// against king, rook and king in king and rook against king, the general
/// value otherwise.
pub open spec fn spec_endgame_value(piece: int, pattern: EndgamePattern, square: int) -> int {
    if pattern == EndgamePattern::KQvsK && piece == 4 {
        KQ_VS_K_QUEEN[square] as int
    } else if pattern == EndgamePattern::KQvsK && piece == 5 {
        KQ_VS_K_OUR_KING[square] as int
    } else if pattern == EndgamePattern::KRvsK && piece == 3 {
        KR_VS_K_ROOK[square] as int
    } else if pattern == EndgamePattern::KRvsK && piece == 5 {
        KR_VS_K_OUR_KING[square] as int
    } else {
        spec_general_endgame_value(piece, square)
    }
}

/// The quotient rounded towards zero.
pub open spec fn div_toward_zero(a: int, b: int) -> int {
    if a >= 0 {
        a / b
    } else {
        -((-a) / b)
    }
}

/// The opening and endgame values blended by the phase, 0 for the opening
/// and 255 for the endgame: `(opening * (255 - phase) + endgame * phase) /
/// 255`, rounded towards zero.
pub open spec fn spec_interpolate(opening: int, endgame: int, phase: int) -> int {
    div_toward_zero(opening * (255 - phase) + endgame * phase, 255)
}

/// The value of a piece on a square under a pattern at a phase.
pub open spec fn spec_pst_value(piece: int, pattern: EndgamePattern, phase: int, square: int) -> int {
    spec_interpolate(
        spec_opening_value(piece, square),
        spec_endgame_value(piece, pattern, square),
        phase,
    )
}

pub open spec fn spec_pattern_from(value: int) -> EndgamePattern {
    if value == 0 {
        EndgamePattern::Opening
    } else if value == 1 {
        EndgamePattern::Middlegame
    } else if value == 2 {
        EndgamePattern::KQvsK
    } else if value == 3 {
        EndgamePattern::KRvsK
    } else if value == 4 {
        EndgamePattern::KPvsK
    } else if value == 5 {
        EndgamePattern::RookEndgame
    } else if value == 6 {
        EndgamePattern::QueenEndgame
    } else if value == 7 {
        EndgamePattern::PawnEndgame
    } else {
        EndgamePattern::GeneralEndgame
    }
}

impl EndgamePattern {
    /// The number of the pattern, from 0 for the opening to 8 for the
    /// general endgame.
    pub open spec fn spec_index(self) -> int {
        match self {
            EndgamePattern::Opening => 0,
            EndgamePattern::Middlegame => 1,
            EndgamePattern::KQvsK => 2,
            EndgamePattern::KRvsK => 3,
            EndgamePattern::KPvsK => 4,
            EndgamePattern::RookEndgame => 5,
            EndgamePattern::QueenEndgame => 6,
            EndgamePattern::PawnEndgame => 7,
            EndgamePattern::GeneralEndgame => 8,
        }
    }

    pub fn index(self) -> (value: usize)
        ensures
            value == self.spec_index(),
            spec_pattern_from(value as int) == self,
    {
        match self {
            EndgamePattern::Opening => 0,
            EndgamePattern::Middlegame => 1,
            EndgamePattern::KQvsK => 2,
            EndgamePattern::KRvsK => 3,
            EndgamePattern::KPvsK => 4,
            EndgamePattern::RookEndgame => 5,
            EndgamePattern::QueenEndgame => 6,
            EndgamePattern::PawnEndgame => 7,
            EndgamePattern::GeneralEndgame => 8,
        }
    }

    /// The pattern of a number; the general endgame for a number beyond 8.
    pub fn from_usize(value: usize) -> (pattern: EndgamePattern)
        ensures
            pattern == spec_pattern_from(value as int),
    {
        if value == 0 {
            EndgamePattern::Opening
        } else if value == 1 {
            EndgamePattern::Middlegame
        } else if value == 2 {
            EndgamePattern::KQvsK
        } else if value == 3 {
            EndgamePattern::KRvsK
        } else if value == 4 {
            EndgamePattern::KPvsK
        } else if value == 5 {
            EndgamePattern::RookEndgame
        } else if value == 6 {
            EndgamePattern::QueenEndgame
        } else if value == 7 {
            EndgamePattern::PawnEndgame
        } else {
            EndgamePattern::GeneralEndgame
        }
    }
}

/// The table access.
pub fn get_pst() -> (pst: PreCalculatedPST)
    ensures
        pst == (PreCalculatedPST {  }),
{
    PreCalculatedPST::new()
}

impl PreCalculatedPST {
    /// The tables hold no state of their own: their values are constants.
    pub fn new() -> (pst: PreCalculatedPST)
        ensures
            pst == (PreCalculatedPST {  }),
    {
        PreCalculatedPST {  }
    }

    /// The value of a piece on a square: its opening and endgame values
    /// blended by the phase.
    pub fn get_value(&self, piece_type: usize, pattern: EndgamePattern, phase: u8, square: usize) -> (value:
        i32)
        requires
            square < 64,
        ensures
            value == spec_pst_value(piece_type as int, pattern, phase as int, square as int),
            -PST_BOUND <= value <= PST_BOUND,
    {
        let opening_val: i32 = self.get_opening_pst_value(piece_type, square);
        let endgame_val: i32 = self.get_endgame_pst_value(piece_type, pattern.index(), square);
        let weight: i32 = phase as i32;
        assert(-20400 <= opening_val * (255 - weight) <= 20400 && -20400 <= endgame_val * weight
            <= 20400 && -20400 <= opening_val * (255 - weight) + endgame_val * weight <= 20400)
            by (nonlinear_arith)
            requires
                -80 <= opening_val <= 80,
                -80 <= endgame_val <= 80,
                0 <= weight <= 255,
        ;
        let total: i32 = opening_val * (255 - weight) + endgame_val * weight;
        if total >= 0 {
            total / 255
        } else {
            -((-total) / 255)
        }
    }

    fn get_opening_pst_value(&self, piece: usize, square: usize) -> (value: i32)
        requires
            square < 64,
        ensures
            value == spec_opening_value(piece as int, square as int),
            -PST_BOUND <= value <= PST_BOUND,
    {
        if piece == 0 {
            OPENING_PAWN_PST[square]
        } else if piece == 1 {
            OPENING_KNIGHT_PST[square]
        } else if piece == 2 {
            OPENING_BISHOP_PST[square]
        } else if piece == 3 {
            OPENING_ROOK_PST[square]
        } else if piece == 4 {
            OPENING_QUEEN_PST[square]
        } else if piece == 5 {
            OPENING_KING_PST[square]
        } else {
            0
        }
    }

    fn get_endgame_pst_value(&self, piece: usize, pattern: usize, square: usize) -> (value: i32)
        requires
            square < 64,
        ensures
            value == spec_endgame_value(
                piece as int,
                spec_pattern_from(pattern as int),
                square as int,
            ),
            -PST_BOUND <= value <= PST_BOUND,
    {
        match EndgamePattern::from_usize(pattern) {
            EndgamePattern::KQvsK => {
                if piece == 4 {
                    KQ_VS_K_QUEEN[square]
                } else if piece == 5 {
                    KQ_VS_K_OUR_KING[square]
                } else {
                    self.get_general_endgame_value(piece, square)
                }
            },
            EndgamePattern::KRvsK => {
                if piece == 3 {
                    KR_VS_K_ROOK[square]
                } else if piece == 5 {
                    KR_VS_K_OUR_KING[square]
                } else {
                    self.get_general_endgame_value(piece, square)
                }
            },
            _ => self.get_general_endgame_value(piece, square),
        }
    }

    fn get_general_endgame_value(&self, piece: usize, square: usize) -> (value: i32)
        requires
            square < 64,
        ensures
            value == spec_general_endgame_value(piece as int, square as int),
            -PST_BOUND <= value <= PST_BOUND,
    {
        if piece == 0 {
            ENDGAME_PAWN_PST[square]
        } else if piece == 5 {
            ENDGAME_KING_PST[square]
        } else {
            self.get_opening_pst_value(piece, square)
        }
    }
}

/// The material of both sides at the start, kings left out.
pub const STARTING_MATERIAL: i32 = 7800;

/// How many squares hold the piece `code`.
pub open spec fn piece_count(b: Seq<Piece>, code: Piece) -> nat {
    count_code_below(b, code, 64)
}

/// How many pieces the color has.
pub open spec fn side_count(b: Seq<Piece>, color: u8) -> nat {
    piece_count(b, (PAWN + color) as u8) + piece_count(b, (KNIGHT + color) as u8) + piece_count(
        b,
        (BISHOP + color) as u8,
    ) + piece_count(b, (ROOK + color) as u8) + piece_count(b, (QUEEN + color) as u8) + piece_count(
        b,
        (KING + color) as u8,
    )
}

/// The material of a color, its king left out: 100 for a pawn, 320 for a
/// knight, 330 for a bishop, 500 for a rook and 900 for a queen.
pub open spec fn side_total_material(b: Seq<Piece>, color: u8) -> int {
    (piece_count(b, (PAWN + color) as u8) * 100 + piece_count(b, (KNIGHT + color) as u8) * 320
        + piece_count(b, (BISHOP + color) as u8) * 330 + piece_count(b, (ROOK + color) as u8) * 500
        + piece_count(b, (QUEEN + color) as u8) * 900) as int
}

/// The material of both colors, the kings left out.
pub open spec fn total_material(b: Seq<Piece>) -> int {
    side_total_material(b, WHITE) + side_total_material(b, BLACK)
}

/// The phase of the game, from 0 with the full starting material to 255
/// with the kings alone: `255 - total * 255 / 7800` over the material
/// without the kings, kept within 0 and 255.
pub open spec fn game_phase(b: Seq<Piece>) -> int {
    let raw = 255 - (total_material(b) * 255) / 7800;
    if raw > 255 {
        255
    } else if raw < 0 {
        0
    } else {
        raw
    }
}

/// One color has a king and one piece of `code`'s kind, no pawn, and the
/// other color a lone piece.
pub open spec fn lone_piece_against_king(b: Seq<Piece>, color: u8, kind: u8, other: u8) -> bool {
    piece_count(b, (PAWN + color) as u8) == 0 && piece_count(b, (kind + color) as u8) == 1
        && side_count(b, color) == 2 && side_count(b, other) == 1
}

/// The pattern of the position: king and queen against king, king and rook
/// against king, or else opening, middlegame or endgame by the material
/// without the kings.
pub open spec fn endgame_pattern(b: Seq<Piece>) -> EndgamePattern {
    if lone_piece_against_king(b, WHITE, QUEEN, BLACK) || lone_piece_against_king(
        b,
        BLACK,
        QUEEN,
        WHITE,
    ) {
        EndgamePattern::KQvsK
    } else if lone_piece_against_king(b, WHITE, ROOK, BLACK) || lone_piece_against_king(
        b,
        BLACK,
        ROOK,
        WHITE,
    ) {
        EndgamePattern::KRvsK
    } else if total_material(b) > 6000 {
        EndgamePattern::Opening
    } else if total_material(b) > 2500 {
        EndgamePattern::Middlegame
    } else {
        EndgamePattern::GeneralEndgame
    }
}

impl Board {
    /// How many pieces of the color and kind stand on the board, counted on
    /// their bitboard.
    pub fn count_of(&self, color: u8, kind: u8) -> (count: u32)
        requires
            self.wf(),
            color == WHITE || color == BLACK,
            1 <= kind <= 6,
        ensures
            count == piece_count(self@.squares, (kind + color) as u8),
            count <= 64,
    {
        proof {
            lemma_count_matches(
                self.bitboards.spec_pieces(color, kind),
                self.squares@,
                (kind + color) as u8,
                64,
            );
        }
        self.bitboards.count_pieces(color, kind)
    }
}

/// The number of pieces of each kind, pawn to king, for white and for
/// black.
pub fn count_pieces(board: &Board) -> (counts: ((u8, u8, u8, u8, u8, u8), (u8, u8, u8, u8, u8, u8)))
    requires
        board.wf(),
    ensures
        counts.0.0 == piece_count(board@.squares, 9),
        counts.0.1 == piece_count(board@.squares, 10),
        counts.0.2 == piece_count(board@.squares, 11),
        counts.0.3 == piece_count(board@.squares, 12),
        counts.0.4 == piece_count(board@.squares, 13),
        counts.0.5 == piece_count(board@.squares, 14),
        counts.1.0 == piece_count(board@.squares, 1),
        counts.1.1 == piece_count(board@.squares, 2),
        counts.1.2 == piece_count(board@.squares, 3),
        counts.1.3 == piece_count(board@.squares, 4),
        counts.1.4 == piece_count(board@.squares, 5),
        counts.1.5 == piece_count(board@.squares, 6),
{
    let white_pieces = (
        board.count_of(WHITE, PAWN) as u8,
        board.count_of(WHITE, KNIGHT) as u8,
        board.count_of(WHITE, BISHOP) as u8,
        board.count_of(WHITE, ROOK) as u8,
        board.count_of(WHITE, QUEEN) as u8,
        board.count_of(WHITE, KING) as u8,
    );
    let black_pieces = (
        board.count_of(BLACK, PAWN) as u8,
        board.count_of(BLACK, KNIGHT) as u8,
        board.count_of(BLACK, BISHOP) as u8,
        board.count_of(BLACK, ROOK) as u8,
        board.count_of(BLACK, QUEEN) as u8,
        board.count_of(BLACK, KING) as u8,
    );
    (white_pieces, black_pieces)
}

/// The sum of the six counts.
pub fn total_pieces(pieces: &(u8, u8, u8, u8, u8, u8)) -> (total: u16)
    ensures
        total == pieces.0 + pieces.1 + pieces.2 + pieces.3 + pieces.4 + pieces.5,
{
    pieces.0 as u16 + pieces.1 as u16 + pieces.2 as u16 + pieces.3 as u16 + pieces.4 as u16
        + pieces.5 as u16
}

/// The material of both colors, the kings left out.
pub fn calculate_total_material(board: &Board) -> (total: i32)
    requires
        board.wf(),
    ensures
        total == total_material(board@.squares),
        0 <= total <= 2835200,
{
    let white: i32 = board.count_of(WHITE, PAWN) as i32 * 100 + board.count_of(WHITE, KNIGHT) as i32
        * 320 + board.count_of(WHITE, BISHOP) as i32 * 330 + board.count_of(WHITE, ROOK) as i32
        * 500 + board.count_of(WHITE, QUEEN) as i32 * 900;
    let black: i32 = board.count_of(BLACK, PAWN) as i32 * 100 + board.count_of(BLACK, KNIGHT) as i32
        * 320 + board.count_of(BLACK, BISHOP) as i32 * 330 + board.count_of(BLACK, ROOK) as i32
        * 500 + board.count_of(BLACK, QUEEN) as i32 * 900;
    white + black
}

/// The pattern of the board's position.
pub fn detect_endgame_pattern(board: &Board) -> (pattern: EndgamePattern)
    requires
        board.wf(),
    ensures
        pattern == endgame_pattern(board@.squares),
{
    let (white_pieces, black_pieces) = count_pieces(board);
    let white_total = total_pieces(&white_pieces);
    let black_total = total_pieces(&black_pieces);
    if (white_pieces.0 == 0 && white_pieces.4 == 1 && white_total == 2) && black_total == 1 {
        return EndgamePattern::KQvsK;
    }
    if (black_pieces.0 == 0 && black_pieces.4 == 1 && black_total == 2) && white_total == 1 {
        return EndgamePattern::KQvsK;
    }
    if (white_pieces.0 == 0 && white_pieces.3 == 1 && white_total == 2) && black_total == 1 {
        return EndgamePattern::KRvsK;
    }
    if (black_pieces.0 == 0 && black_pieces.3 == 1 && black_total == 2) && white_total == 1 {
        return EndgamePattern::KRvsK;
    }
    let total_material = calculate_total_material(board);
    if total_material > 6000 {
        EndgamePattern::Opening
    } else if total_material > 2500 {
        EndgamePattern::Middlegame
    } else {
        EndgamePattern::GeneralEndgame
    }
}

/// The phase of the game on the board, from 0 to 255.
pub fn calculate_game_phase(board: &Board) -> (phase: u8)
    requires
        board.wf(),
    ensures
        phase == game_phase(board@.squares),
{
    let total_material = calculate_total_material(board);
    let phase_raw: i32 = 255 - ((total_material * 255) / STARTING_MATERIAL);
    if phase_raw > 255 {
        255
    } else if phase_raw < 0 {
        0
    } else {
        phase_raw as u8
    }
}

} // verus!
