//! The board: piece placement, side to move, castling rights, en-passant
//! state, clocks and the history of the moves played.

use vstd::prelude::*;
use crate::bitboard::BitboardManager;
use crate::types::piece_valid;
use crate::types::color_valid;
use crate::types::make_piece;
use crate::types::{GameMove, GameStatus, Piece, Square};
use crate::types::{ALL_CASTLING_RIGHTS, BLACK, EMPTY, WHITE};
use crate::types::{BISHOP, KING, KNIGHT, PAWN, QUEEN, ROOK};

verus! {

/// Whether the coordinates name a square of the board.
pub open spec fn on_board(file: int, rank: int) -> bool {
    0 <= file < 8 && 0 <= rank < 8
}

/// The 64 squares of the starting position.
pub open spec fn starting_squares() -> Seq<Piece> {
    seq![
        12u8, 10, 11, 13, 14, 11, 10, 12,
        9, 9, 9, 9, 9, 9, 9, 9,
        0, 0, 0, 0, 0, 0, 0, 0,
        0, 0, 0, 0, 0, 0, 0, 0,
        0, 0, 0, 0, 0, 0, 0, 0,
        0, 0, 0, 0, 0, 0, 0, 0,
        1, 1, 1, 1, 1, 1, 1, 1,
        4, 2, 3, 5, 6, 3, 2, 4,
    ]
}

impl GameMove {
    /// A record that can be taken back on a board: its squares lie on the
    /// board, what it captured is a piece encoding, and the en-passant
    /// squares it remembers come as a pair.
    pub open spec fn valid(self) -> bool {
        &&& self.mv.valid()
        &&& piece_valid(self.captured_piece)
        &&& en_passant_pair_valid(self.previous_en_passant_target, self.previous_en_passant_pawn)
    }
}

/// The en-passant target and the pawn it exposes are set together, and
/// both lie on the board.
pub open spec fn en_passant_pair_valid(target: Option<Square>, pawn: Option<Square>) -> bool {
    match target {
        Some(t) => t.valid() && pawn is Some && pawn.unwrap().valid(),
        None => pawn is None,
    }
}

/// The mathematical content of a board.
pub struct Position {
    pub squares: Seq<Piece>,
    pub turn: u8,
    pub castling_rights: u8,
    pub en_passant_target: Option<Square>,
    pub en_passant_pawn: Option<Square>,
    pub half_move_clock: u16,
    pub full_move_number: u16,
    pub history: Seq<GameMove>,
    pub status: GameStatus,
}

impl Position {
    /// Every square holds a piece encoding, the side to move is a color,
    /// the en-passant squares are paired, and each record of the history
    /// can be taken back.
    pub open spec fn wf(self) -> bool {
        &&& self.squares.len() == 64
        &&& forall|i: int| 0 <= i < 64 ==> piece_valid(#[trigger] self.squares[i])
        &&& color_valid(self.turn)
        &&& en_passant_pair_valid(self.en_passant_target, self.en_passant_pawn)
        &&& forall|k: int| 0 <= k < self.history.len() ==> (#[trigger] self.history[k]).valid()
    }

    pub open spec fn piece_at(self, square: Square) -> Piece {
        self.squares[square.0 as int]
    }

    /// How many more moves the clocks can count.
    pub open spec fn clock_room(self) -> int {
        if self.half_move_clock >= self.full_move_number {
            u16::MAX - self.half_move_clock
        } else {
            u16::MAX - self.full_move_number
        }
    }

    /// The same position with another status.
    pub open spec fn with_status(self, status: GameStatus) -> Position {
        Position { status, ..self }
    }
}

#[derive(Debug, Clone)]
pub struct Board {
    pub squares: [Piece; 64],
    pub bitboards: BitboardManager,
    pub current_turn: u8,
    pub move_history: Vec<GameMove>,
    pub game_status: GameStatus,
    pub half_move_clock: u16,
    pub full_move_number: u16,
    pub castling_rights: u8,
    pub en_passant_target: Option<Square>,
    pub en_passant_pawn: Option<Square>,
}

impl View for Board {
    type V = Position;

    open spec fn view(&self) -> Position {
        Position {
            squares: self.squares@,
            turn: self.current_turn,
            castling_rights: self.castling_rights,
            en_passant_target: self.en_passant_target,
            en_passant_pawn: self.en_passant_pawn,
            half_move_clock: self.half_move_clock,
            full_move_number: self.full_move_number,
            history: self.move_history@,
            status: self.game_status,
        }
    }
}

impl Board {
    /// The bitboards describe the squares.
    pub open spec fn consistent(&self) -> bool {
        self.bitboards.matches(self.squares@)
    }

    /// The board's invariant: a well-formed position whose bitboards
    /// describe its squares.
    pub open spec fn wf(&self) -> bool {
        self@.wf() && self.consistent()
    }

    /// An empty board with white to move and the given castling rights.
    pub fn empty(castling_rights: u8) -> (board: Board)
        ensures
            board.wf(),
            board@ == (Position {
                squares: Seq::new(64, |i: int| EMPTY),
                turn: WHITE,
                castling_rights,
                en_passant_target: None,
                en_passant_pawn: None,
                half_move_clock: 0,
                full_move_number: 1,
                history: Seq::empty(),
                status: GameStatus::InProgress,
            }),
    {
        let board = Board {
            squares: [EMPTY;64],
            bitboards: BitboardManager::new(),
            current_turn: WHITE,
            move_history: Vec::new(),
            game_status: GameStatus::InProgress,
            half_move_clock: 0,
            full_move_number: 1,
            castling_rights,
            en_passant_target: None,
            en_passant_pawn: None,
        };
        proof {
            assert(board.squares@ =~= Seq::new(64, |i: int| EMPTY));
            assert(board.move_history@ =~= Seq::empty());
        }
        board
    }

    /// The starting position: white to move, all castling rights, no move
    /// played.
    pub fn new() -> (board: Board)
        ensures
            board.wf(),
            board@ == (Position {
                squares: starting_squares(),
                turn: WHITE,
                castling_rights: ALL_CASTLING_RIGHTS,
                en_passant_target: None,
                en_passant_pawn: None,
                half_move_clock: 0,
                full_move_number: 1,
                history: Seq::empty(),
                status: GameStatus::InProgress,
            }),
    {
        let mut board = Board::empty(ALL_CASTLING_RIGHTS);
        board.setup_starting_position();
        board
    }

    fn setup_starting_position(&mut self)
        requires
            old(self).wf(),
            old(self).squares@ == Seq::new(64, |i: int| EMPTY),
        ensures
            final(self).wf(),
            final(self)@ == (Position { squares: starting_squares(), ..old(self)@ }),
    {
        self.set_piece(Square::new(0, 0), make_piece(ROOK, WHITE));
        self.set_piece(Square::new(1, 0), make_piece(KNIGHT, WHITE));
        self.set_piece(Square::new(2, 0), make_piece(BISHOP, WHITE));
        self.set_piece(Square::new(3, 0), make_piece(QUEEN, WHITE));
        self.set_piece(Square::new(4, 0), make_piece(KING, WHITE));
        self.set_piece(Square::new(5, 0), make_piece(BISHOP, WHITE));
        self.set_piece(Square::new(6, 0), make_piece(KNIGHT, WHITE));
        self.set_piece(Square::new(7, 0), make_piece(ROOK, WHITE));
        self.set_piece(Square::new(0, 7), make_piece(ROOK, BLACK));
        self.set_piece(Square::new(1, 7), make_piece(KNIGHT, BLACK));
        self.set_piece(Square::new(2, 7), make_piece(BISHOP, BLACK));
        self.set_piece(Square::new(3, 7), make_piece(QUEEN, BLACK));
        self.set_piece(Square::new(4, 7), make_piece(KING, BLACK));
        self.set_piece(Square::new(5, 7), make_piece(BISHOP, BLACK));
        self.set_piece(Square::new(6, 7), make_piece(KNIGHT, BLACK));
        self.set_piece(Square::new(7, 7), make_piece(ROOK, BLACK));
        let mut file: u8 = 0;
        while file < 8
            invariant
                file <= 8,
                self.wf(),
                self@ == (Position { squares: self.squares@, ..old(self)@ }),
                forall|i: int| 0 <= i < 8 ==> self.squares@[i] == starting_squares()[i],
                forall|i: int| 16 <= i < 48 ==> self.squares@[i] == EMPTY,
                forall|i: int| 56 <= i < 64 ==> self.squares@[i] == starting_squares()[i],
                forall|i: int| 8 <= i < 8 + file ==> self.squares@[i] == 9,
                forall|i: int| 48 <= i < 48 + file ==> self.squares@[i] == 1,
                forall|i: int| 8 + file <= i < 16 ==> self.squares@[i] == EMPTY,
                forall|i: int| 48 + file <= i < 56 ==> self.squares@[i] == EMPTY,
            decreases 8 - file,
        {
            self.set_piece(Square::new(file, 1), make_piece(PAWN, WHITE));
            self.set_piece(Square::new(file, 6), make_piece(PAWN, BLACK));
            file = file + 1;
        }
        proof {
            assert(self.squares@ =~= starting_squares());
        }
    }

    pub fn get_piece(&self, square: Square) -> (piece: Piece)
        requires
            square.valid(),
        ensures
            piece == self@.piece_at(square),
    {
        self.squares[square.0 as usize]
    }

    /// Puts `piece` on `square`, in the squares and in the bitboards.
    pub fn set_piece(&mut self, square: Square, piece: Piece)
        requires
            square.valid(),
            old(self).consistent(),
        ensures
            final(self)@ == (Position {
                squares: old(self)@.squares.update(square.0 as int, piece),
                ..old(self)@
            }),
            final(self).consistent(),
            old(self).wf() && piece_valid(piece) ==> final(self).wf(),
    {
        self.squares[square.0 as usize] = piece;
        self.bitboards.update_square(square, piece);
    }

    /// The last move played, if any.
    pub fn get_last_move(&self) -> (last: Option<&GameMove>)
        ensures
            self@.history.len() == 0 ==> last is None,
            self@.history.len() > 0 ==> last == Some(&self@.history.last()),
    {
        let n = self.move_history.len();
        if n == 0 {
            None
        } else {
            Some(&self.move_history[n - 1])
        }
    }
}

} // verus!
