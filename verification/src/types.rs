//! Squares, pieces, moves and the small helpers shared by every other module.

use vstd::prelude::*;

verus! {

/// A piece packed in four bits: bits 0-2 hold the kind, bit 3 the color.
pub type Piece = u8;

pub const EMPTY: u8 = 0;

pub const PAWN: u8 = 1;

pub const KNIGHT: u8 = 2;

pub const BISHOP: u8 = 3;

pub const ROOK: u8 = 4;

pub const QUEEN: u8 = 5;

pub const KING: u8 = 6;

pub const BLACK: u8 = 0;

pub const WHITE: u8 = 8;

pub const WHITE_KINGSIDE: u8 = 1;

pub const WHITE_QUEENSIDE: u8 = 2;

pub const BLACK_KINGSIDE: u8 = 4;

pub const BLACK_QUEENSIDE: u8 = 8;

pub const ALL_CASTLING_RIGHTS: u8 = 15;

/// A board square, numbered `rank * 8 + file`.
#[derive(Debug, Clone, Copy, PartialEq, Eq, Hash, Structural)]
pub struct Square(pub u8);

impl Square {
    /// A square of the board: its index is below 64.
    pub open spec fn valid(self) -> bool {
        self.0 < 64
    }

    pub open spec fn spec_file(&self) -> u8 {
        self.0 % 8
    }

    pub open spec fn spec_rank(&self) -> u8 {
        self.0 / 8
    }

    /// The square at the given coordinates, as an `int` pair, used by the
    /// specifications of move generation.
    pub open spec fn at(file: int, rank: int) -> Square {
        Square((rank * 8 + file) as u8)
    }

    pub fn new(file: u8, rank: u8) -> (sq: Square)
        requires
            file < 8,
            rank < 8,
        ensures
            sq.0 == rank * 8 + file,
            sq == Square::at(file as int, rank as int),
            sq.valid(),
            sq.spec_file() == file,
            sq.spec_rank() == rank,
    {
        Square(rank * 8 + file)
    }

    #[verifier::when_used_as_spec(spec_file)]
    pub fn file(&self) -> (f: u8)
        ensures
            f == self.spec_file(),
            f < 8,
    {
        self.0 % 8
    }

    #[verifier::when_used_as_spec(spec_rank)]
    pub fn rank(&self) -> (r: u8)
        ensures
            r == self.spec_rank(),
            self.valid() ==> r < 8,
    {
        self.0 / 8
    }

    /// Reads a square written as a file letter `a`-`h` followed by a rank
    /// digit `1`-`8`; anything after the two characters is ignored.
    pub fn from_algebraic(algebraic: &str) -> (sq: Square)
        requires
            algebraic@.len() >= 2,
            'a' <= algebraic@[0] <= 'h',
            '1' <= algebraic@[1] <= '8',
        ensures
            sq == Square::at(algebraic@[0] as int - 'a' as int, algebraic@[1] as int - '1' as int),
            sq.valid(),
    {
        let f: char = algebraic.get_char(0);
        let r: char = algebraic.get_char(1);
        let file: u8 = (f as u8) - 97;
        let rank: u8 = (r as u8) - 49;
        Square::new(file, rank)
    }
}

/// The encodings that a board square may hold: empty, or one of the six
/// kinds of piece with a color bit.
pub open spec fn piece_valid(piece: Piece) -> bool {
    piece == EMPTY || (piece < 16 && 1 <= piece % 8 <= 6)
}

pub open spec fn color_valid(color: u8) -> bool {
    color == WHITE || color == BLACK
}

pub open spec fn spec_make_piece(piece_type: u8, color: u8) -> Piece {
    piece_type | color
}

#[verifier::when_used_as_spec(spec_make_piece)]
pub fn make_piece(piece_type: u8, color: u8) -> (piece: Piece)
    ensures
        piece == spec_make_piece(piece_type, color),
        piece_type < 8 && color_valid(color) ==> piece == piece_type + color,
{
    assert(piece_type < 8 && (color == 0 || color == 8) ==> (piece_type | color) == piece_type + color)
        by (bit_vector);
    piece_type | color
}

/// For a kind below 8 and a proper color the packing is a plain sum.
pub proof fn lemma_make_piece(piece_type: u8, color: u8)
    requires
        piece_type < 8,
        color_valid(color),
    ensures
        spec_make_piece(piece_type, color) == piece_type + color,
        spec_piece_type(spec_make_piece(piece_type, color)) == piece_type,
        spec_piece_color(spec_make_piece(piece_type, color)) == color,
{
    assert(piece_type < 8 && (color == 0 || color == 8) ==> (piece_type | color) == piece_type + color)
        by (bit_vector);
}

pub open spec fn spec_piece_type(piece: Piece) -> u8 {
    piece % 8
}

#[verifier::when_used_as_spec(spec_piece_type)]
pub fn piece_type(piece: Piece) -> (kind: u8)
    ensures
        kind == spec_piece_type(piece),
        kind < 8,
{
    assert(piece & 7 == piece % 8) by (bit_vector);
    piece & 7
}

pub open spec fn spec_piece_color(piece: Piece) -> u8 {
    if (piece / 8) % 2 == 1 {
        WHITE
    } else {
        BLACK
    }
}

#[verifier::when_used_as_spec(spec_piece_color)]
pub fn piece_color(piece: Piece) -> (color: u8)
    ensures
        color == spec_piece_color(piece),
        color_valid(color),
{
    assert(piece & 8 == (if (piece / 8) % 2 == 1 {
        8u8
    } else {
        0u8
    })) by (bit_vector);
    piece & 8
}

pub open spec fn spec_is_white(piece: Piece) -> bool {
    spec_piece_color(piece) == WHITE
}

#[verifier::when_used_as_spec(spec_is_white)]
pub fn is_white(piece: Piece) -> (b: bool)
    ensures
        b == spec_is_white(piece),
{
    piece_color(piece) == WHITE
}

pub open spec fn spec_is_black(piece: Piece) -> bool {
    spec_piece_color(piece) == BLACK && piece != EMPTY
}

#[verifier::when_used_as_spec(spec_is_black)]
pub fn is_black(piece: Piece) -> (b: bool)
    ensures
        b == spec_is_black(piece),
{
    piece_color(piece) == BLACK && piece != EMPTY
}

pub open spec fn spec_is_empty(piece: Piece) -> bool {
    piece == EMPTY
}

#[verifier::when_used_as_spec(spec_is_empty)]
pub fn is_empty(piece: Piece) -> (b: bool)
    ensures
        b == spec_is_empty(piece),
{
    piece == EMPTY
}

pub open spec fn spec_opposite_color(color: u8) -> u8 {
    if (color / 8) % 2 == 1 {
        (color - 8) as u8
    } else {
        (color + 8) as u8
    }
}

/// Flips the color bit: white becomes black and black white.
#[verifier::when_used_as_spec(spec_opposite_color)]
pub fn opposite_color(color: u8) -> (other: u8)
    ensures
        other == spec_opposite_color(color),
        color_valid(color) ==> color_valid(other) && other != color,
{
    assert((color / 8) % 2 == 1 ==> color >= 8 && (color ^ 8) == color - 8) by (bit_vector);
    assert((color / 8) % 2 != 1 ==> color <= 247 && (color ^ 8) == color + 8) by (bit_vector);
    color ^ WHITE
}

pub open spec fn spec_is_piece_color(piece: Piece, color: u8) -> bool {
    !spec_is_empty(piece) && spec_piece_color(piece) == color
}

/// Whether the square holds a piece, and one of the given color.
#[verifier::when_used_as_spec(spec_is_piece_color)]
pub fn is_piece_color(piece: Piece, color: u8) -> (b: bool)
    ensures
        b == spec_is_piece_color(piece, color),
{
    !is_empty(piece) && piece_color(piece) == color
}

pub open spec fn spec_has_castling_right(castling_rights: u8, right: u8) -> bool {
    castling_rights & right != 0
}

#[verifier::when_used_as_spec(spec_has_castling_right)]
pub fn has_castling_right(castling_rights: u8, right: u8) -> (b: bool)
    ensures
        b == spec_has_castling_right(castling_rights, right),
{
    castling_rights & right != 0
}

pub open spec fn spec_without_castling_right(castling_rights: u8, right: u8) -> u8 {
    castling_rights & !right
}

pub fn remove_castling_right(castling_rights: &mut u8, right: u8)
    ensures
        *final(castling_rights) == spec_without_castling_right(*old(castling_rights), right),
{
    *castling_rights = *castling_rights & !right;
}

pub open spec fn spec_castling_rights_for_color(castling_rights: u8, color: u8) -> u8 {
    if color == WHITE {
        castling_rights & 3
    } else {
        castling_rights & 12
    }
}

/// The two rights of one color, the other color's bits cleared.
pub fn get_castling_rights_for_color(castling_rights: u8, color: u8) -> (rights: u8)
    ensures
        rights == spec_castling_rights_for_color(castling_rights, color),
{
    assert(WHITE_KINGSIDE | WHITE_QUEENSIDE == 3) by (bit_vector);
    assert(BLACK_KINGSIDE | BLACK_QUEENSIDE == 12) by (bit_vector);
    if color == WHITE {
        castling_rights & (WHITE_KINGSIDE | WHITE_QUEENSIDE)
    } else {
        castling_rights & (BLACK_KINGSIDE | BLACK_QUEENSIDE)
    }
}

pub open spec fn spec_piece_type_name(piece_type: u8) -> Seq<char> {
    if piece_type == PAWN {
        "Pawn"@
    } else if piece_type == ROOK {
        "Rook"@
    } else if piece_type == KNIGHT {
        "Knight"@
    } else if piece_type == BISHOP {
        "Bishop"@
    } else if piece_type == QUEEN {
        "Queen"@
    } else if piece_type == KING {
        "King"@
    } else {
        "Unknown"@
    }
}

pub fn piece_type_name(piece_type: u8) -> (name: &'static str)
    ensures
        name@ == spec_piece_type_name(piece_type),
{
    if piece_type == PAWN {
        "Pawn"
    } else if piece_type == ROOK {
        "Rook"
    } else if piece_type == KNIGHT {
        "Knight"
    } else if piece_type == BISHOP {
        "Bishop"
    } else if piece_type == QUEEN {
        "Queen"
    } else if piece_type == KING {
        "King"
    } else {
        "Unknown"
    }
}

/// A move: origin, destination and, for a pawn reaching the last rank, the
/// kind it turns into.
#[derive(Debug, Clone, Copy, PartialEq, Eq, Structural)]
pub struct Move {
    pub from: Square,
    pub to: Square,
    pub promotion: Option<u8>,
}

impl Move {
    /// Both squares lie on the board.
    pub open spec fn valid(self) -> bool {
        self.from.valid() && self.to.valid()
    }

    pub fn new(from: Square, to: Square) -> (mv: Move)
        ensures
            mv == (Move { from, to, promotion: None }),
    {
        Move { from, to, promotion: None }
    }

    pub fn new_promotion(from: Square, to: Square, promotion_piece: u8) -> (mv: Move)
        ensures
            mv == (Move { from, to, promotion: Some(promotion_piece) }),
    {
        Move { from, to, promotion: Some(promotion_piece) }
    }

    pub open spec fn spec_is_promotion(&self) -> bool {
        self.promotion is Some
    }

    #[verifier::when_used_as_spec(spec_is_promotion)]
    pub fn is_promotion(&self) -> (b: bool)
        ensures
            b == self.spec_is_promotion(),
    {
        self.promotion.is_some()
    }
}

#[derive(Debug, Clone, Copy, PartialEq, Eq, Structural)]
pub enum GameStatus {
    InProgress,
    Check(u8),
    Checkmate(u8),
    Stalemate,
    Draw,
}

impl GameStatus {
    /// A game in which a move may still be made.
    pub open spec fn playable(self) -> bool {
        self is InProgress || self is Check
    }
}

/// Why the board refused a request.
#[derive(Debug, Clone, Copy, PartialEq, Eq, Structural)]
pub enum ChessError {
    /// The move is not among the legal moves of the side to move.
    InvalidMove,
    /// The game has ended.
    GameOver,
    /// The position text is malformed.
    InvalidFen,
    /// There is no move to take back.
    EmptyHistory,
}

/// A move as it was played, with what is needed to take it back: what it
/// captured and the rights, en-passant squares and clocks that held before it.
#[derive(Debug, Clone, Copy, PartialEq, Eq, Structural)]
pub struct GameMove {
    pub mv: Move,
    pub captured_piece: Piece,
    pub promotion: Option<u8>,
    pub is_castling: bool,
    pub is_en_passant: bool,
    pub previous_castling_rights: u8,
    pub previous_en_passant_target: Option<Square>,
    pub previous_en_passant_pawn: Option<Square>,
    pub previous_half_move_clock: u16,
    pub previous_full_move_number: u16,
}

impl GameMove {
    pub open spec fn spec_new(mv: Move) -> GameMove {
        GameMove {
            mv,
            captured_piece: EMPTY,
            promotion: None,
            is_castling: false,
            is_en_passant: false,
            previous_castling_rights: 0,
            previous_en_passant_target: None,
            previous_en_passant_pawn: None,
            previous_half_move_clock: 0,
            previous_full_move_number: 0,
        }
    }

    pub fn new(mv: Move) -> (gm: GameMove)
        ensures
            gm == GameMove::spec_new(mv),
    {
        GameMove {
            mv,
            captured_piece: EMPTY,
            promotion: None,
            is_castling: false,
            is_en_passant: false,
            previous_castling_rights: 0,
            previous_en_passant_target: None,
            previous_en_passant_pawn: None,
            previous_half_move_clock: 0,
            previous_full_move_number: 0,
        }
    }

    pub fn with_capture(mv: Move, captured: Piece) -> (gm: GameMove)
        ensures
            gm == (GameMove { captured_piece: captured, ..GameMove::spec_new(mv) }),
    {
        let mut game_move = GameMove::new(mv);
        game_move.captured_piece = captured;
        game_move
    }
}

} // verus!
