//! Playing a move and taking it back.

use vstd::prelude::*;
use crate::board::Board;
use crate::board::Position;
use crate::special::en_passant_victim;
use crate::special::en_passant_victim_square;
use crate::special::home_rank;
use crate::types::is_empty;
use crate::types::make_piece;
use crate::types::opposite_color;
use crate::types::piece_color;
use crate::types::piece_type;
use crate::types::remove_castling_right;
use crate::types::spec_make_piece;
use crate::types::spec_opposite_color;
use crate::types::spec_piece_color;
use crate::types::spec_piece_type;
use crate::types::spec_without_castling_right;
use crate::types::{ChessError, GameMove, GameStatus, Move, Piece, Square};
use crate::types::{EMPTY, WHITE};
use crate::types::{BLACK_KINGSIDE, BLACK_QUEENSIDE, WHITE_KINGSIDE, WHITE_QUEENSIDE};
use crate::types::{KING, PAWN, ROOK};

verus! {

/// The rights left once the color has lost both of its own.
pub open spec fn without_color_rights(rights: u8, color: u8) -> u8 {
    if color == WHITE {
        spec_without_castling_right(
            spec_without_castling_right(rights, WHITE_KINGSIDE),
            WHITE_QUEENSIDE,
        )
    } else {
        spec_without_castling_right(
            spec_without_castling_right(rights, BLACK_KINGSIDE),
            BLACK_QUEENSIDE,
        )
    }
}

/// The rights left once a rook has left, or was captured on, the square:
/// a corner costs the right that goes with it.
pub open spec fn without_corner_right(rights: u8, square: Square) -> u8 {
    if square.0 == 0 {
        spec_without_castling_right(rights, WHITE_QUEENSIDE)
    } else if square.0 == 7 {
        spec_without_castling_right(rights, WHITE_KINGSIDE)
    } else if square.0 == 56 {
        spec_without_castling_right(rights, BLACK_QUEENSIDE)
    } else if square.0 == 63 {
        spec_without_castling_right(rights, BLACK_KINGSIDE)
    } else {
        rights
    }
}

/// The rights after a plain move: a king's move costs both rights of its
/// color, a rook's move or capture the right of its corner.
pub open spec fn rights_after_move(rights: u8, mv: Move, moving: Piece, captured: Piece) -> u8 {
    let r1 = if spec_piece_type(moving) == KING {
        without_color_rights(rights, spec_piece_color(moving))
    } else {
        rights
    };
    let r2 = if spec_piece_type(moving) == ROOK {
        without_corner_right(r1, mv.from)
    } else {
        r1
    };
    if spec_piece_type(captured) == ROOK {
        without_corner_right(r2, mv.to)
    } else {
        r2
    }
}

/// The squares after the color castles: king and rook leave their first
/// squares for their castled ones.
pub open spec fn castled_squares(b: Seq<Piece>, color: u8, kingside: bool) -> Seq<Piece> {
    let rank = home_rank(color);
    let king_start = rank * 8 + 4;
    let king_end = if kingside {
        rank * 8 + 6
    } else {
        rank * 8 + 2
    };
    let rook_start = if kingside {
        rank * 8 + 7
    } else {
        rank * 8
    };
    let rook_end = if kingside {
        rank * 8 + 5
    } else {
        rank * 8 + 3
    };
    b.update(king_end, b[king_start]).update(rook_end, b[rook_start]).update(
        king_start,
        EMPTY,
    ).update(rook_start, EMPTY)
}

/// The squares after the castling move `mv` is taken back: king and rook
/// return to the e-file and to the corner, and their castled squares are
/// emptied.
pub open spec fn uncastled_squares(b: Seq<Piece>, mv: Move) -> Seq<Piece> {
    let rank = mv.to.0 as int / 8;
    if mv.to.0 % 8 == 6 {
        b.update(rank * 8 + 4, b[rank * 8 + 6]).update(rank * 8 + 7, b[rank * 8 + 5]).update(
            rank * 8 + 6,
            EMPTY,
        ).update(rank * 8 + 5, EMPTY)
    } else {
        b.update(rank * 8 + 4, b[rank * 8 + 2]).update(rank * 8, b[rank * 8 + 3]).update(
            rank * 8 + 2,
            EMPTY,
        ).update(rank * 8 + 3, EMPTY)
    }
}

/// The piece that arrives on the destination: the promoted piece, or the
/// piece that moved.
pub open spec fn arriving_piece(moving: Piece, promotion: Option<u8>) -> Piece {
    match promotion {
        Some(kind) => spec_make_piece(kind, spec_piece_color(moving)),
        None => moving,
    }
}

/// A pawn stands on the destination after a move of two ranks from its
/// first rank.
pub open spec fn double_pawn_push(b: Seq<Piece>, mv: Move) -> bool {
    let moving = b[mv.to.0 as int];
    let from_rank = mv.from.0 as int / 8;
    let to_rank = mv.to.0 as int / 8;
    &&& spec_piece_type(moving) == PAWN
    &&& (to_rank - from_rank == 2 || to_rank - from_rank == -2)
    &&& from_rank == (if spec_piece_color(moving) == WHITE {
        1int
    } else {
        6int
    })
}

/// The square that a pawn of the moving color skips on its double step
/// along the file of `mv.from`.
pub open spec fn skipped_square(b: Seq<Piece>, mv: Move) -> Square {
    Square::at(
        mv.from.0 as int % 8,
        if spec_piece_color(b[mv.to.0 as int]) == WHITE {
            2
        } else {
            5
        },
    )
}

impl Position {
    /// The record of the move `mv` played in this position.
    pub open spec fn record(self, mv: Move) -> GameMove {
        GameMove {
            mv,
            captured_piece: if self.is_en_passant(mv) {
                self.squares[en_passant_victim(mv).0 as int]
            } else {
                self.squares[mv.to.0 as int]
            },
            promotion: mv.promotion,
            is_castling: self.castling_side(mv) is Some,
            is_en_passant: self.is_en_passant(mv),
            previous_castling_rights: self.castling_rights,
            previous_en_passant_target: self.en_passant_target,
            previous_en_passant_pawn: self.en_passant_pawn,
            previous_half_move_clock: self.half_move_clock,
            previous_full_move_number: self.full_move_number,
        }
    }

    /// The squares after the move.
    pub open spec fn squares_after(self, mv: Move) -> Seq<Piece> {
        let b = self.squares;
        let moving = b[mv.from.0 as int];
        match self.castling_side(mv) {
            Some(kingside) => castled_squares(b, spec_piece_color(moving), kingside),
            None => if self.is_en_passant(mv) {
                self.squares_after_en_passant(mv)
            } else {
                b.update(mv.to.0 as int, arriving_piece(moving, mv.promotion)).update(
                    mv.from.0 as int,
                    EMPTY,
                )
            },
        }
    }

    /// The castling rights after the move.
    pub open spec fn rights_after(self, mv: Move) -> u8 {
        let b = self.squares;
        let moving = b[mv.from.0 as int];
        if self.castling_side(mv) is Some {
            without_color_rights(self.castling_rights, spec_piece_color(moving))
        } else if self.is_en_passant(mv) {
            self.castling_rights
        } else {
            rights_after_move(self.castling_rights, mv, moving, b[mv.to.0 as int])
        }
    }

    /// The en-passant target after the move: the skipped square after a
    /// double pawn step, nothing otherwise.
    pub open spec fn target_after(self, mv: Move) -> Option<Square> {
        if self.castling_side(mv) is None && !self.is_en_passant(mv) && double_pawn_push(
            self.squares_after(mv),
            mv,
        ) {
            Some(skipped_square(self.squares_after(mv), mv))
        } else {
            None
        }
    }

    /// The position after the move `mv`: the pieces have moved, the side to
    /// move has changed, rights, en-passant state and clocks are brought up
    /// to date, and the move's record ends the history.
    #[verifier::opaque]
    pub open spec fn apply(self, mv: Move) -> Position {
        let b = self.squares;
        let moving = b[mv.from.0 as int];
        let target = self.target_after(mv);
        let turn = spec_opposite_color(self.turn);
        Position {
            squares: self.squares_after(mv),
            turn,
            castling_rights: self.rights_after(mv),
            en_passant_target: target,
            en_passant_pawn: if target is Some {
                Some(mv.to)
            } else {
                None
            },
            half_move_clock: if spec_piece_type(moving) == PAWN || b[mv.to.0 as int] != EMPTY
                || self.is_en_passant(mv) {
                0
            } else {
                (self.half_move_clock + 1) as u16
            },
            full_move_number: if turn == WHITE {
                (self.full_move_number + 1) as u16
            } else {
                self.full_move_number
            },
            history: self.history.push(self.record(mv)),
            status: GameStatus::InProgress,
        }
    }

    /// The squares after the last move of the history is taken back.
    pub open spec fn squares_before(self, gm: GameMove) -> Seq<Piece> {
        let b = self.squares;
        let mv = gm.mv;
        if gm.is_castling {
            uncastled_squares(b, mv)
        } else if gm.is_en_passant {
            b.update(mv.from.0 as int, b[mv.to.0 as int]).update(mv.to.0 as int, EMPTY).update(
                en_passant_victim(mv).0 as int,
                gm.captured_piece,
            )
        } else if gm.promotion is Some {
            b.update(
                mv.from.0 as int,
                spec_make_piece(PAWN, spec_opposite_color(self.turn)),
            ).update(mv.to.0 as int, gm.captured_piece)
        } else {
            b.update(mv.from.0 as int, b[mv.to.0 as int]).update(mv.to.0 as int, gm.captured_piece)
        }
    }

    /// The position after the last move of the history is taken back: the
    /// pieces return, the side to move changes back, and rights,
    /// en-passant state and clocks are those that the record remembers.
    /// The status stays.
    #[verifier::opaque]
    pub open spec fn undo(self) -> Position {
        let gm = self.history.last();
        Position {
            squares: self.squares_before(gm),
            turn: spec_opposite_color(self.turn),
            castling_rights: gm.previous_castling_rights,
            en_passant_target: gm.previous_en_passant_target,
            en_passant_pawn: gm.previous_en_passant_pawn,
            half_move_clock: gm.previous_half_move_clock,
            full_move_number: gm.previous_full_move_number,
            history: self.history.drop_last(),
            status: self.status,
        }
    }
}

impl GameMove {
    /// A record of `mv` that remembers the board's rights, en-passant state
    /// and clocks.
    pub fn new_with_state(mv: Move, board: &Board) -> (gm: GameMove)
        ensures
            gm == (GameMove {
                previous_castling_rights: board@.castling_rights,
                previous_en_passant_target: board@.en_passant_target,
                previous_en_passant_pawn: board@.en_passant_pawn,
                previous_half_move_clock: board@.half_move_clock,
                previous_full_move_number: board@.full_move_number,
                ..GameMove::spec_new(mv)
            }),
    {
        GameMove {
            mv,
            captured_piece: EMPTY,
            promotion: None,
            is_castling: false,
            is_en_passant: false,
            previous_castling_rights: board.castling_rights,
            previous_en_passant_target: board.en_passant_target,
            previous_en_passant_pawn: board.en_passant_pawn,
            previous_half_move_clock: board.half_move_clock,
            previous_full_move_number: board.full_move_number,
        }
    }

    /// The same, with the captured piece.
    pub fn with_capture_and_state(mv: Move, captured: Piece, board: &Board) -> (gm: GameMove)
        ensures
            gm == (GameMove {
                captured_piece: captured,
                previous_castling_rights: board@.castling_rights,
                previous_en_passant_target: board@.en_passant_target,
                previous_en_passant_pawn: board@.en_passant_pawn,
                previous_half_move_clock: board@.half_move_clock,
                previous_full_move_number: board@.full_move_number,
                ..GameMove::spec_new(mv)
            }),
    {
        let mut game_move = GameMove::new_with_state(mv, board);
        game_move.captured_piece = captured;
        game_move
    }
}

fn remove_color_rights(castling_rights: &mut u8, color: u8)
    ensures
        *final(castling_rights) == without_color_rights(*old(castling_rights), color),
{
    if color == WHITE {
        remove_castling_right(castling_rights, WHITE_KINGSIDE);
        remove_castling_right(castling_rights, WHITE_QUEENSIDE);
    } else {
        remove_castling_right(castling_rights, BLACK_KINGSIDE);
        remove_castling_right(castling_rights, BLACK_QUEENSIDE);
    }
}

fn remove_corner_right(castling_rights: &mut u8, square: Square)
    requires
        square.valid(),
    ensures
        *final(castling_rights) == without_corner_right(*old(castling_rights), square),
{
    let file = square.file();
    let rank = square.rank();
    if file == 0 && rank == 0 {
        remove_castling_right(castling_rights, WHITE_QUEENSIDE);
    } else if file == 7 && rank == 0 {
        remove_castling_right(castling_rights, WHITE_KINGSIDE);
    } else if file == 0 && rank == 7 {
        remove_castling_right(castling_rights, BLACK_QUEENSIDE);
    } else if file == 7 && rank == 7 {
        remove_castling_right(castling_rights, BLACK_KINGSIDE);
    }
}

impl Board {
    /// Plays the move if it is legal and the game goes on, and returns its
    /// record; otherwise the board stays as it is.
    pub fn try_make_move(&mut self, mv: Move) -> (result: Result<GameMove, ChessError>)
        requires
            old(self).wf(),
            mv.valid(),
            old(self)@.clock_room() >= 1,
        ensures
            final(self).wf(),
            match result {
                Ok(gm) => {
                    &&& old(self)@.is_legal(mv)
                    &&& old(self)@.status.playable()
                    &&& final(self)@ == old(self)@.apply(mv)
                    &&& final(self)@.status is InProgress
                    &&& final(self)@.history.len() == old(self)@.history.len() + 1
                    &&& gm == old(self)@.record(mv)
                    &&& final(self)@.clock_room() >= old(self)@.clock_room() - 1
                },
                Err(e) => {
                    &&& *final(self) == *old(self)
                    &&& !(old(self)@.is_legal(mv) && old(self)@.status.playable())
                    &&& e == (if old(self)@.is_legal(mv) {
                        ChessError::GameOver
                    } else {
                        ChessError::InvalidMove
                    })
                },
            },
    {
        reveal(Position::is_legal);
        reveal(Position::apply);
        if !self.is_valid_move(mv) {
            return Err(ChessError::InvalidMove);
        }
        match self.game_status {
            GameStatus::InProgress => {},
            GameStatus::Check(_) => {},
            _ => {
                return Err(ChessError::GameOver);
            },
        }
        let captured_piece = self.get_piece(mv.to);
        let moving_piece = self.get_piece(mv.from);
        let castling = self.is_castling_move(mv);
        let is_castling = castling.is_some();
        let is_en_passant = self.is_en_passant_move(mv);
        let mut game_move = if is_en_passant {
            let captured_pawn = self.get_piece(en_passant_victim_square(mv));
            GameMove::with_capture_and_state(mv, captured_pawn, self)
        } else if is_empty(captured_piece) {
            GameMove::new_with_state(mv, self)
        } else {
            GameMove::with_capture_and_state(mv, captured_piece, self)
        };
        game_move.is_castling = is_castling;
        game_move.is_en_passant = is_en_passant;
        game_move.promotion = mv.promotion;
        self.en_passant_target = None;
        self.en_passant_pawn = None;
        if !is_castling && !is_en_passant {
            self.update_castling_rights_fixed(mv, moving_piece, captured_piece);
        }
        match castling {
            Some(kingside) => {
                self.execute_castling(piece_color(moving_piece), kingside);
            },
            None => {
                if is_en_passant {
                    self.execute_en_passant(mv);
                } else {
                    match mv.promotion {
                        Some(kind) => {
                            let promoted_piece = make_piece(kind, piece_color(moving_piece));
                            self.set_piece(mv.to, promoted_piece);
                        },
                        None => {
                            self.set_piece(mv.to, moving_piece);
                        },
                    }
                    self.set_piece(mv.from, EMPTY);
                }
            },
        }
        if !is_castling && !is_en_passant {
            self.setup_en_passant_fixed(mv);
        }
        self.move_history.push(game_move);
        self.current_turn = opposite_color(self.current_turn);
        if piece_type(moving_piece) == PAWN || !is_empty(captured_piece) || is_en_passant {
            self.half_move_clock = 0;
        } else {
            self.half_move_clock = self.half_move_clock + 1;
        }
        if self.current_turn == WHITE {
            self.full_move_number = self.full_move_number + 1;
        }
        self.update_game_status();
        proof {
            assert(self@.squares =~= old(self)@.apply(mv).squares);
            assert(self@.history =~= old(self)@.apply(mv).history);
        }
        Ok(game_move)
    }

    /// Brings the castling rights up to date for a plain move of
    /// `moving_piece` that captured `captured_piece`.
    pub fn update_castling_rights_fixed(&mut self, mv: Move, moving_piece: Piece, captured_piece: Piece)
        requires
            mv.valid(),
        ensures
            *final(self) == (Board {
                castling_rights: rights_after_move(
                    old(self).castling_rights,
                    mv,
                    moving_piece,
                    captured_piece,
                ),
                ..*old(self)
            }),
    {
        let piece_color_val = piece_color(moving_piece);
        let mut rights: u8 = self.castling_rights;
        if piece_type(moving_piece) == KING {
            remove_color_rights(&mut rights, piece_color_val);
        }
        if piece_type(moving_piece) == ROOK {
            remove_corner_right(&mut rights, mv.from);
        }
        if piece_type(captured_piece) == ROOK {
            remove_corner_right(&mut rights, mv.to);
        }
        self.castling_rights = rights;
    }

    /// Brings the castling rights up to date for the move `mv`, read on the
    /// board before the move is played: a king that leaves costs both
    /// rights of its color, and a move of a rook or onto a rook costs the
    /// rights of the corners it touches.
    pub fn update_castling_rights(&mut self, mv: Move)
        requires
            mv.valid(),
        ensures
            *final(self) == (Board {
                castling_rights: {
                    let from_piece = old(self)@.squares[mv.from.0 as int];
                    let to_piece = old(self)@.squares[mv.to.0 as int];
                    let r1 = if spec_piece_type(from_piece) == KING {
                        without_color_rights(
                            old(self).castling_rights,
                            spec_piece_color(from_piece),
                        )
                    } else {
                        old(self).castling_rights
                    };
                    if spec_piece_type(from_piece) == ROOK || spec_piece_type(to_piece) == ROOK {
                        without_corner_right(without_corner_right(r1, mv.from), mv.to)
                    } else {
                        r1
                    }
                },
                ..*old(self)
            }),
    {
        let from_piece = self.get_piece(mv.from);
        let to_piece = self.get_piece(mv.to);
        let piece_color_val = piece_color(from_piece);
        let mut rights: u8 = self.castling_rights;
        if piece_type(from_piece) == KING {
            remove_color_rights(&mut rights, piece_color_val);
        }
        if piece_type(from_piece) == ROOK || piece_type(to_piece) == ROOK {
            remove_corner_right(&mut rights, mv.from);
            remove_corner_right(&mut rights, mv.to);
        }
        self.castling_rights = rights;
    }

    /// Moves king and rook to their castled squares and drops the color's
    /// castling rights.
    fn execute_castling(&mut self, color: u8, kingside: bool)
        requires
            old(self).wf(),
        ensures
            final(self).wf(),
            final(self)@ == (Position {
                squares: castled_squares(old(self)@.squares, color, kingside),
                castling_rights: without_color_rights(old(self)@.castling_rights, color),
                ..old(self)@
            }),
    {
        let king_rank: u8 = if color == WHITE {
            0
        } else {
            7
        };
        let king_start = Square::new(4, king_rank);
        let king_end = if kingside {
            Square::new(6, king_rank)
        } else {
            Square::new(2, king_rank)
        };
        let rook_start = if kingside {
            Square::new(7, king_rank)
        } else {
            Square::new(0, king_rank)
        };
        let rook_end = if kingside {
            Square::new(5, king_rank)
        } else {
            Square::new(3, king_rank)
        };
        let king_piece = self.get_piece(king_start);
        let rook_piece = self.get_piece(rook_start);
        self.set_piece(king_end, king_piece);
        self.set_piece(rook_end, rook_piece);
        self.set_piece(king_start, EMPTY);
        self.set_piece(rook_start, EMPTY);
        let mut rights: u8 = self.castling_rights;
        remove_color_rights(&mut rights, color);
        self.castling_rights = rights;
    }

    /// Puts king and rook back where they stood before castling.
    fn undo_castling(&mut self, mv: Move)
        requires
            old(self).wf(),
            mv.valid(),
        ensures
            final(self).wf(),
            final(self)@ == (Position {
                squares: uncastled_squares(old(self)@.squares, mv),
                ..old(self)@
            }),
    {
        let king_rank: u8 = mv.to.rank();
        let is_kingside = mv.to.file() == 6;
        if is_kingside {
            let king = self.get_piece(Square::new(6, king_rank));
            let rook = self.get_piece(Square::new(5, king_rank));
            self.set_piece(Square::new(4, king_rank), king);
            self.set_piece(Square::new(7, king_rank), rook);
            self.set_piece(Square::new(6, king_rank), EMPTY);
            self.set_piece(Square::new(5, king_rank), EMPTY);
        } else {
            let king = self.get_piece(Square::new(2, king_rank));
            let rook = self.get_piece(Square::new(3, king_rank));
            self.set_piece(Square::new(4, king_rank), king);
            self.set_piece(Square::new(0, king_rank), rook);
            self.set_piece(Square::new(2, king_rank), EMPTY);
            self.set_piece(Square::new(3, king_rank), EMPTY);
        }
    }

    /// Whether a pawn now stands on `mv.to` after a step of two ranks from
    /// its first rank.
    fn is_double_pawn_push(&self, mv: Move) -> (double: bool)
        requires
            mv.valid(),
        ensures
            double == double_pawn_push(self@.squares, mv),
    {
        let moving_piece = self.get_piece(mv.to);
        if piece_type(moving_piece) != PAWN {
            return false;
        }
        let from_rank: i8 = mv.from.rank() as i8;
        let to_rank: i8 = mv.to.rank() as i8;
        let color = piece_color(moving_piece);
        let rank_diff: i8 = to_rank - from_rank;
        if rank_diff != 2 && rank_diff != -2 {
            return false;
        }
        let starting_rank: i8 = if color == WHITE {
            1
        } else {
            6
        };
        from_rank == starting_rank
    }

    /// After a double pawn step, played already, notes the skipped square
    /// as the en-passant target and the pawn as the one it exposes.
    pub fn setup_en_passant_fixed(&mut self, mv: Move)
        requires
            mv.valid(),
        ensures
            *final(self) == (if double_pawn_push(old(self)@.squares, mv) {
                Board {
                    en_passant_target: Some(skipped_square(old(self)@.squares, mv)),
                    en_passant_pawn: Some(mv.to),
                    ..*old(self)
                }
            } else {
                *old(self)
            }),
            skipped_square(old(self)@.squares, mv).valid(),
    {
        if self.is_double_pawn_push(mv) {
            let moving_piece = self.get_piece(mv.to);
            let color = piece_color(moving_piece);
            let en_passant_rank: u8 = if color == WHITE {
                2
            } else {
                5
            };
            self.en_passant_target = Some(Square::new(mv.from.file(), en_passant_rank));
            self.en_passant_pawn = Some(mv.to);
        }
    }

    /// Moves the capturing pawn and removes the pawn it captures.
    fn execute_en_passant(&mut self, mv: Move)
        requires
            old(self).wf(),
            mv.valid(),
        ensures
            final(self).wf(),
            final(self)@ == (Position {
                squares: old(self)@.squares_after_en_passant(mv),
                en_passant_target: None,
                en_passant_pawn: None,
                ..old(self)@
            }),
    {
        let moving_piece = self.get_piece(mv.from);
        let captured_pawn_square = en_passant_victim_square(mv);
        self.set_piece(mv.to, moving_piece);
        self.set_piece(mv.from, EMPTY);
        self.set_piece(captured_pawn_square, EMPTY);
        self.en_passant_target = None;
        self.en_passant_pawn = None;
    }

    /// Takes an en-passant capture back: the pawn returns and the captured
    /// pawn stands again beside it.
    fn undo_en_passant(&mut self, game_move: &GameMove)
        requires
            old(self).wf(),
            game_move.valid(),
        ensures
            final(self).wf(),
            final(self)@ == (Position {
                squares: {
                    let b = old(self)@.squares;
                    let mv = game_move.mv;
                    b.update(mv.from.0 as int, b[mv.to.0 as int]).update(
                        mv.to.0 as int,
                        EMPTY,
                    ).update(en_passant_victim(mv).0 as int, game_move.captured_piece)
                },
                ..old(self)@
            }),
    {
        let mv = game_move.mv;
        let our_pawn = self.get_piece(mv.to);
        self.set_piece(mv.from, our_pawn);
        self.set_piece(mv.to, EMPTY);
        let captured_pawn_square = en_passant_victim_square(mv);
        self.set_piece(captured_pawn_square, game_move.captured_piece);
    }

    /// Puts the pieces back where they stood before the move of the record.
    fn restore_pieces(&mut self, game_move: &GameMove)
        requires
            old(self).wf(),
            game_move.valid(),
        ensures
            final(self).wf(),
            final(self)@ == (Position {
                squares: old(self)@.squares_before(*game_move),
                ..old(self)@
            }),
    {
        let mv = game_move.mv;
        if game_move.is_castling {
            self.undo_castling(mv);
        } else if game_move.is_en_passant {
            self.undo_en_passant(game_move);
        } else if game_move.promotion.is_some() {
            let pawn_color = opposite_color(self.current_turn);
            let pawn = make_piece(PAWN, pawn_color);
            self.set_piece(mv.from, pawn);
            self.set_piece(mv.to, game_move.captured_piece);
        } else {
            let moving_piece = self.get_piece(mv.to);
            self.set_piece(mv.from, moving_piece);
            self.set_piece(mv.to, game_move.captured_piece);
        }
    }

    /// Takes the last move back and returns its record; fails when no move
    /// was played.
    pub fn undo_move(&mut self) -> (result: Result<GameMove, ChessError>)
        requires
            old(self).wf(),
        ensures
            final(self).wf(),
            match result {
                Ok(gm) => {
                    &&& old(self)@.history.len() > 0
                    &&& gm == old(self)@.history.last()
                    &&& final(self)@ == old(self)@.undo()
                },
                Err(e) => {
                    &&& old(self)@.history.len() == 0
                    &&& e == ChessError::EmptyHistory
                    &&& *final(self) == *old(self)
                },
            },
    {
        reveal(Position::undo);
        if self.move_history.len() == 0 {
            return Err(ChessError::EmptyHistory);
        }
        let last_move = self.move_history.pop().unwrap();
        proof {
            assert(self.move_history@ =~= old(self)@.history.drop_last());
            assert(last_move == old(self)@.history[old(self)@.history.len() - 1]);
        }
        self.restore_pieces(&last_move);
        self.castling_rights = last_move.previous_castling_rights;
        self.en_passant_target = last_move.previous_en_passant_target;
        self.en_passant_pawn = last_move.previous_en_passant_pawn;
        self.half_move_clock = last_move.previous_half_move_clock;
        self.full_move_number = last_move.previous_full_move_number;
        self.current_turn = opposite_color(self.current_turn);
        Ok(last_move)
    }

    /// Sets the status to "in progress": the board does not itself detect
    /// the end of the game.
    pub fn update_game_status(&mut self)
        ensures
            *final(self) == (Board { game_status: GameStatus::InProgress, ..*old(self) }),
    {
        self.game_status = GameStatus::InProgress;
    }
}

} // verus!
