//! Castling and en passant: what they are and when they are allowed.

use vstd::prelude::*;
use crate::attacks::attacked;
use crate::attacks::is_square_attacked;
use crate::attacks::spec_find_king;
use crate::board::Board;
use crate::board::Position;
use crate::types::has_castling_right;
use crate::types::is_empty;
use crate::types::opposite_color;
use crate::types::piece_color;
use crate::types::piece_type;
use crate::types::spec_has_castling_right;
use crate::types::spec_opposite_color;
use crate::types::spec_piece_color;
use crate::types::spec_piece_type;
use crate::types::{Move, Piece, Square};
use crate::types::{BLACK, EMPTY, WHITE};
use crate::types::{BLACK_KINGSIDE, BLACK_QUEENSIDE, WHITE_KINGSIDE, WHITE_QUEENSIDE};
use crate::types::{KING, PAWN, ROOK};

verus! {

/// The rank on which the king and rooks of the color start.
pub open spec fn home_rank(color: u8) -> int {
    if color == WHITE {
        0
    } else {
        7
    }
}

/// The castling right of a color and side.
pub open spec fn castling_right(color: u8, kingside: bool) -> u8 {
    if color == WHITE {
        if kingside {
            WHITE_KINGSIDE
        } else {
            WHITE_QUEENSIDE
        }
    } else {
        if kingside {
            BLACK_KINGSIDE
        } else {
            BLACK_QUEENSIDE
        }
    }
}

impl Position {
    /// Castling is allowed: the right is still held, king and rook stand on
    /// their first squares, the squares between them are empty, and the
    /// king is not attacked where it stands, where it passes or where it
    /// lands.
    pub open spec fn can_castle(self, color: u8, kingside: bool) -> bool {
        let b = self.squares;
        let rank = home_rank(color);
        let king = b[rank * 8 + 4];
        let rook = if kingside {
            b[rank * 8 + 7]
        } else {
            b[rank * 8]
        };
        let opp = spec_opposite_color(color);
        &&& color == WHITE || color == BLACK
        &&& spec_has_castling_right(self.castling_rights, castling_right(color, kingside))
        &&& spec_piece_type(king) == KING && spec_piece_color(king) == color
        &&& spec_piece_type(rook) == ROOK && spec_piece_color(rook) == color
        &&& if kingside {
            b[rank * 8 + 5] == EMPTY && b[rank * 8 + 6] == EMPTY
        } else {
            b[rank * 8 + 1] == EMPTY && b[rank * 8 + 2] == EMPTY && b[rank * 8 + 3] == EMPTY
        }
        &&& !attacked(b, Square::at(4, rank), opp)
        &&& !attacked(
            b,
            Square::at(
                if kingside {
                    6
                } else {
                    2
                },
                rank,
            ),
            opp,
        )
        &&& !attacked(
            b,
            Square::at(
                if kingside {
                    5
                } else {
                    3
                },
                rank,
            ),
            opp,
        )
    }

    /// A king that leaves the e-file for the g-file or the c-file along its
    /// rank: `Some(true)` for the king's side, `Some(false)` for the
    /// queen's.
    pub open spec fn castling_side(self, mv: Move) -> Option<bool> {
        let from_piece = self.squares[mv.from.0 as int];
        if spec_piece_type(from_piece) != KING {
            None
        } else if mv.from.0 / 8 != mv.to.0 / 8 {
            None
        } else if mv.from.0 % 8 != 4 {
            None
        } else if mv.to.0 % 8 == 6 {
            Some(true)
        } else if mv.to.0 % 8 == 2 {
            Some(false)
        } else {
            None
        }
    }

    /// A pawn that steps diagonally onto the empty en-passant target.
    pub open spec fn is_en_passant(self, mv: Move) -> bool {
        let fd = mv.to.0 as int % 8 - mv.from.0 as int % 8;
        let rd = mv.to.0 as int / 8 - mv.from.0 as int / 8;
        &&& spec_piece_type(self.squares[mv.from.0 as int]) == PAWN
        &&& self.en_passant_target == Some(mv.to)
        &&& self.squares[mv.to.0 as int] == EMPTY
        &&& (fd == 1 || fd == -1)
        &&& (rd == 1 || rd == -1)
    }

    /// The squares after an en-passant capture: the pawn has moved and the
    /// pawn beside its origin, on the file of its destination, is gone.
    pub open spec fn squares_after_en_passant(self, mv: Move) -> Seq<Piece> {
        self.squares.update(mv.to.0 as int, self.squares[mv.from.0 as int]).update(
            mv.from.0 as int,
            EMPTY,
        ).update(en_passant_victim(mv).0 as int, EMPTY)
    }

    /// The capture leaves the capturing side's king unattacked.
    pub open spec fn en_passant_legal(self, mv: Move) -> bool {
        let our_color = spec_piece_color(self.squares[mv.from.0 as int]);
        match spec_find_king(self.squares, our_color) {
            Some(k) => !attacked(
                self.squares_after_en_passant(mv),
                k,
                spec_opposite_color(our_color),
            ),
            None => false,
        }
    }
}

/// The square of the pawn that an en-passant capture removes: on the file
/// of the destination and the rank of the origin.
pub open spec fn en_passant_victim(mv: Move) -> Square {
    Square::at(mv.to.0 as int % 8, mv.from.0 as int / 8)
}

/// The square of the pawn that the en-passant capture `mv` removes.
pub fn en_passant_victim_square(mv: Move) -> (victim: Square)
    requires
        mv.valid(),
    ensures
        victim == en_passant_victim(mv),
        victim.valid(),
{
    Square::new(mv.to.file(), mv.from.rank())
}

impl Board {
    /// Whether the color may castle on the given side now.
    pub fn can_castle(&self, color: u8, kingside: bool) -> (allowed: bool)
        requires
            self.wf(),
        ensures
            allowed == self@.can_castle(color, kingside),
    {
        if color != WHITE && color != BLACK {
            return false;
        }
        let castling_right: u8 = if color == WHITE {
            if kingside {
                WHITE_KINGSIDE
            } else {
                WHITE_QUEENSIDE
            }
        } else {
            if kingside {
                BLACK_KINGSIDE
            } else {
                BLACK_QUEENSIDE
            }
        };
        if !has_castling_right(self.castling_rights, castling_right) {
            return false;
        }
        let king_rank: u8 = if color == WHITE {
            0
        } else {
            7
        };
        let king_start = Square::new(4, king_rank);
        let king_end = if kingside {
            Square::new(6, king_rank)
        } else {
            Square::new(2, king_rank)
        };
        let rook_start = if kingside {
            Square::new(7, king_rank)
        } else {
            Square::new(0, king_rank)
        };
        let king_piece = self.get_piece(king_start);
        let rook_piece = self.get_piece(rook_start);
        if piece_type(king_piece) != KING || piece_color(king_piece) != color {
            return false;
        }
        if piece_type(rook_piece) != ROOK || piece_color(rook_piece) != color {
            return false;
        }
        if kingside {
            if !is_empty(self.get_piece(Square::new(5, king_rank))) || !is_empty(
                self.get_piece(Square::new(6, king_rank)),
            ) {
                return false;
            }
        } else {
            if !is_empty(self.get_piece(Square::new(1, king_rank))) || !is_empty(
                self.get_piece(Square::new(2, king_rank)),
            ) || !is_empty(self.get_piece(Square::new(3, king_rank))) {
                return false;
            }
        }
        let opponent_color = opposite_color(color);
        if self.is_under_threat(king_start, opponent_color) {
            return false;
        }
        if self.is_under_threat(king_end, opponent_color) {
            return false;
        }
        let king_path_square = if kingside {
            Square::new(5, king_rank)
        } else {
            Square::new(3, king_rank)
        };
        if self.is_under_threat(king_path_square, opponent_color) {
            return false;
        }
        true
    }

    /// Whether the move has the shape of castling, and on which side.
    pub fn is_castling_move(&self, mv: Move) -> (side: Option<bool>)
        requires
            mv.valid(),
        ensures
            side == self@.castling_side(mv),
    {
        let from_piece = self.get_piece(mv.from);
        if piece_type(from_piece) != KING {
            return None;
        }
        let from_file = mv.from.file();
        let to_file = mv.to.file();
        let from_rank = mv.from.rank();
        let to_rank = mv.to.rank();
        if from_rank != to_rank {
            return None;
        }
        if from_file != 4 {
            return None;
        }
        if to_file == 6 {
            Some(true)
        } else if to_file == 2 {
            Some(false)
        } else {
            None
        }
    }

    /// Whether the move has the shape of an en-passant capture.
    pub fn is_en_passant_move(&self, mv: Move) -> (en_passant: bool)
        requires
            mv.valid(),
        ensures
            en_passant == self@.is_en_passant(mv),
    {
        let moving_piece = self.get_piece(mv.from);
        if piece_type(moving_piece) != PAWN {
            return false;
        }
        let target = match self.en_passant_target {
            Some(square) => square,
            None => {
                return false;
            },
        };
        if mv.to != target {
            return false;
        }
        let target_piece = self.get_piece(mv.to);
        if !is_empty(target_piece) {
            return false;
        }
        let file_diff: i8 = mv.to.file() as i8 - mv.from.file() as i8;
        let rank_diff: i8 = mv.to.rank() as i8 - mv.from.rank() as i8;
        (file_diff == 1 || file_diff == -1) && (rank_diff == 1 || rank_diff == -1)
    }

    /// Whether the en-passant capture leaves the capturing side's king
    /// unattacked: the capture is played on a copy of the squares.
    pub fn is_en_passant_legal(&self, mv: Move) -> (legal: bool)
        requires
            self.wf(),
            mv.valid(),
        ensures
            legal == self@.en_passant_legal(mv),
    {
        let capturing_pawn_square = mv.from;
        let target_square = mv.to;
        let captured_pawn_square = en_passant_victim_square(mv);
        let capturing_pawn = self.get_piece(capturing_pawn_square);
        let our_color = piece_color(capturing_pawn);
        let opponent_color = opposite_color(our_color);
        let king_square = match self.find_king(our_color) {
            Some(square) => square,
            None => {
                return false;
            },
        };
        let mut after: [Piece; 64] = self.squares;
        after[target_square.0 as usize] = capturing_pawn;
        after[capturing_pawn_square.0 as usize] = EMPTY;
        after[captured_pawn_square.0 as usize] = EMPTY;
        !is_square_attacked(&after, king_square, opponent_color)
    }
}

} // verus!
