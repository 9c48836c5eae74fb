//! Move generation: the moves of each kind of piece, of pinned pieces, and
//! the legal moves of a square and of the side to move.

use vstd::prelude::*;
use crate::attacks::is_direction;
use crate::attacks::spec_find_king;
use crate::bitboard::lemma_squares_where_contains;
use crate::seqs::contains_square;
use crate::seqs::keep_all;
use crate::seqs::keep_where;
use crate::special::en_passant_victim;
use crate::special::en_passant_victim_square;
use crate::types::is_piece_color;
use crate::types::opposite_color;
use crate::types::spec_opposite_color;
use crate::types::Move;
use crate::validation::blocking_squares;
use crate::validation::checkers;
use crate::validation::pinned;
use crate::validation::safe_pred;
use crate::attacks::piece_on;
use crate::attacks::ray_measure;
use crate::bitboard::bit_pred;
use crate::bitboard::bitboard_squares;
use crate::bitboard::color_code;
use crate::bitboard::get_king_attacks;
use crate::bitboard::get_knight_attacks;
use crate::bitboard::king_step;
use crate::bitboard::knight_jump;
use crate::bitboard::lemma_bit_ops;
use crate::bitboard::lemma_squares_where_ext;
use crate::bitboard::spec_get_bit;
use crate::bitboard::squares_where;
use crate::bitboard::Bitboard;
use crate::board::on_board;
use crate::board::Board;
use crate::board::Position;
use crate::seqs::all_valid;
use crate::seqs::extend_squares;
use crate::seqs::push_if;
use crate::special::home_rank;
use crate::types::is_empty;
use crate::types::piece_color;
use crate::types::piece_type;
use crate::types::piece_valid;
use crate::types::spec_is_piece_color;
use crate::types::spec_piece_color;
use crate::types::spec_piece_type;
use crate::types::{Piece, Square};
use crate::types::{BISHOP, KING, KNIGHT, PAWN, QUEEN, ROOK};
use crate::types::{BLACK, EMPTY, WHITE};

verus! {

/// The squares a piece of `color` reaches along one ray from
/// `(file, rank)`: the empty squares up to the first piece, and that
/// piece's square if it is of the other color.
pub open spec fn ray_moves(b: Seq<Piece>, file: int, rank: int, df: int, dr: int, color: u8) -> Seq<
    Square,
>
    decreases ray_measure(file, rank, df, dr),
{
    let f = file + df;
    let r = rank + dr;
    if !on_board(f, r) || (df == 0 && dr == 0) {
        Seq::empty()
    } else if b[r * 8 + f] == EMPTY {
        seq![Square::at(f, r)] + ray_moves(b, f, r, df, dr, color)
    } else if spec_piece_color(b[r * 8 + f]) != color {
        seq![Square::at(f, r)]
    } else {
        Seq::empty()
    }
}

/// The moves of a rook of `color` on the square: up, down, right, left.
pub open spec fn rook_moves(b: Seq<Piece>, square: Square, color: u8) -> Seq<Square> {
    let f = square.0 as int % 8;
    let r = square.0 as int / 8;
    ray_moves(b, f, r, 0, 1, color) + ray_moves(b, f, r, 0, -1, color) + ray_moves(
        b,
        f,
        r,
        1,
        0,
        color,
    ) + ray_moves(b, f, r, -1, 0, color)
}

/// The moves of a bishop of `color` on the square, diagonal by diagonal.
pub open spec fn bishop_moves(b: Seq<Piece>, square: Square, color: u8) -> Seq<Square> {
    let f = square.0 as int % 8;
    let r = square.0 as int / 8;
    ray_moves(b, f, r, 1, 1, color) + ray_moves(b, f, r, 1, -1, color) + ray_moves(
        b,
        f,
        r,
        -1,
        1,
        color,
    ) + ray_moves(b, f, r, -1, -1, color)
}

/// The moves of a queen: those of a rook, then those of a bishop.
pub open spec fn queen_moves(b: Seq<Piece>, square: Square, color: u8) -> Seq<Square> {
    rook_moves(b, square, color) + bishop_moves(b, square, color)
}

/// "Square `i` is a knight's jump away and holds no piece of `color`."
pub open spec fn knight_target_pred(b: Seq<Piece>, square: Square, color: u8) -> spec_fn(
    int,
) -> bool {
    |i: int| knight_jump(square.0 as int, i) && !spec_is_piece_color(b[i], color)
}

/// "Square `i` is next to the square and holds no piece of `color`."
pub open spec fn king_target_pred(b: Seq<Piece>, square: Square, color: u8) -> spec_fn(int) -> bool {
    |i: int| king_step(square.0 as int, i) && !spec_is_piece_color(b[i], color)
}

/// The rank step of a pawn of the color.
pub open spec fn pawn_step(color: u8) -> int {
    if color == WHITE {
        1
    } else {
        -1
    }
}

/// The rank on which the pawns of the color start.
pub open spec fn pawn_start_rank(color: u8) -> int {
    if color == WHITE {
        1
    } else {
        6
    }
}

/// The rank from which a pawn of the color captures en passant.
pub open spec fn en_passant_from_rank(color: u8) -> int {
    if color == WHITE {
        4
    } else {
        3
    }
}

/// The rank on which a pawn of the color promotes.
pub open spec fn promotion_rank(color: u8) -> int {
    if color == WHITE {
        7
    } else {
        0
    }
}

pub open spec fn empty_at(b: Seq<Piece>, file: int, rank: int) -> bool {
    on_board(file, rank) && b[rank * 8 + file] == EMPTY
}

/// The square is on the board and holds a piece of the other color.
pub open spec fn enemy_at(b: Seq<Piece>, file: int, rank: int, color: u8) -> bool {
    on_board(file, rank) && b[rank * 8 + file] != EMPTY && spec_piece_color(b[rank * 8 + file])
        != color
}

/// The pawn of `color` on `(file, rank)` may capture en passant towards
/// file `file + df`: the target is the square diagonally ahead, the pawn
/// stands on its fifth rank, an enemy pawn stands beside it on the target's
/// file, and the target is empty.
pub open spec fn en_passant_at(
    b: Seq<Piece>,
    file: int,
    rank: int,
    df: int,
    color: u8,
    target: Option<Square>,
) -> bool {
    match target {
        Some(e) => {
            let ef = e.0 as int % 8;
            let er = e.0 as int / 8;
            &&& file + df == ef
            &&& rank + pawn_step(color) == er
            &&& rank == en_passant_from_rank(color)
            &&& b[rank * 8 + ef] != EMPTY
            &&& spec_piece_type(b[rank * 8 + ef]) == PAWN
            &&& spec_piece_color(b[rank * 8 + ef]) != color
            &&& b[e.0 as int] == EMPTY
        },
        None => false,
    }
}

/// The moves of a pawn of `color` on the square: one step ahead, two from
/// its first rank, the two captures, and the en-passant capture.
pub open spec fn pawn_moves(b: Seq<Piece>, square: Square, color: u8, target: Option<Square>) -> Seq<
    Square,
> {
    let f = square.0 as int % 8;
    let r = square.0 as int / 8;
    let d = pawn_step(color);
    let s1 = push_if(Seq::empty(), empty_at(b, f, r + d), Square::at(f, r + d));
    let s2 = push_if(
        s1,
        empty_at(b, f, r + d) && r == pawn_start_rank(color) && empty_at(b, f, r + 2 * d),
        Square::at(f, r + 2 * d),
    );
    let s3 = push_if(s2, enemy_at(b, f - 1, r + d, color), Square::at(f - 1, r + d));
    let s4 = push_if(s3, enemy_at(b, f + 1, r + d, color), Square::at(f + 1, r + d));
    let s5 = push_if(s4, en_passant_at(b, f, r, -1, color, target), target.unwrap());
    push_if(s5, en_passant_at(b, f, r, 1, color, target), target.unwrap())
}

/// A pinned pawn may capture along the pin line, forward only.
pub open spec fn pinned_capture_at(
    b: Seq<Piece>,
    file: int,
    rank: int,
    pin: (i8, i8),
    m: int,
    color: u8,
) -> bool {
    rank + pin.1 * m == rank + pawn_step(color) && enemy_at(
        b,
        file + pin.0 * m,
        rank + pin.1 * m,
        color,
    )
}

/// A pinned pawn may capture en passant when the target lies on the pin
/// line, ahead of it.
pub open spec fn pinned_en_passant_at(
    b: Seq<Piece>,
    file: int,
    rank: int,
    pin: (i8, i8),
    m: int,
    color: u8,
    target: Option<Square>,
) -> bool {
    match target {
        Some(e) => {
            let ef = e.0 as int % 8;
            let er = e.0 as int / 8;
            &&& rank == en_passant_from_rank(color)
            &&& ef == file + pin.0 * m
            &&& er == rank + pin.1 * m
            &&& er == rank + pawn_step(color)
            &&& b[rank * 8 + ef] != EMPTY
            &&& spec_piece_type(b[rank * 8 + ef]) == PAWN
            &&& spec_piece_color(b[rank * 8 + ef]) != color
            &&& b[e.0 as int] == EMPTY
        },
        None => false,
    }
}

/// The moves of a pawn pinned along `pin`: its steps ahead when pinned on
/// its file, its forward captures on the pin line when pinned on a
/// diagonal, none when pinned on its rank.
pub open spec fn pinned_pawn_moves(
    b: Seq<Piece>,
    square: Square,
    pin: (i8, i8),
    color: u8,
    target: Option<Square>,
) -> Seq<Square> {
    let f = square.0 as int % 8;
    let r = square.0 as int / 8;
    let d = pawn_step(color);
    if pin.0 == 0 {
        let s1 = push_if(Seq::empty(), empty_at(b, f, r + d), Square::at(f, r + d));
        push_if(
            s1,
            empty_at(b, f, r + d) && r == pawn_start_rank(color) && empty_at(b, f, r + 2 * d),
            Square::at(f, r + 2 * d),
        )
    } else if pin.1 != 0 {
        let s1 = push_if(
            Seq::empty(),
            pinned_capture_at(b, f, r, pin, -1, color),
            Square::at(f - pin.0, r - pin.1),
        );
        let s2 = push_if(
            s1,
            pinned_capture_at(b, f, r, pin, 1, color),
            Square::at(f + pin.0, r + pin.1),
        );
        let s3 = push_if(s2, pinned_en_passant_at(b, f, r, pin, -1, color, target), target.unwrap());
        push_if(s3, pinned_en_passant_at(b, f, r, pin, 1, color, target), target.unwrap())
    } else {
        Seq::empty()
    }
}

/// The moves of the piece on the square when it is pinned along `pin`: a
/// knight has none, a pawn its pinned moves, a slider its moves along the
/// pin line in both directions if it moves on such a line.
pub open spec fn pinned_piece_moves(
    b: Seq<Piece>,
    square: Square,
    pin: (i8, i8),
    target: Option<Square>,
) -> Seq<Square> {
    let f = square.0 as int % 8;
    let r = square.0 as int / 8;
    let piece = b[square.0 as int];
    let kind = spec_piece_type(piece);
    let color = spec_piece_color(piece);
    if kind == KNIGHT {
        Seq::empty()
    } else if kind == PAWN {
        pinned_pawn_moves(b, square, pin, color, target)
    } else if (kind == ROOK && (pin.0 == 0 || pin.1 == 0)) || (kind == BISHOP && pin.0 != 0 && pin.1
        != 0) || kind == QUEEN {
        ray_moves(b, f, r, pin.0 as int, pin.1 as int, color) + ray_moves(
            b,
            f,
            r,
            -pin.0,
            -pin.1,
            color,
        )
    } else {
        Seq::empty()
    }
}

/// Appends the moves along one ray to `out`.
fn add_ray_moves(
    squares: &[Piece; 64],
    out: &mut Vec<Square>,
    file: i8,
    rank: i8,
    df: i8,
    dr: i8,
    color: u8,
)
    requires
        on_board(file as int, rank as int),
        is_direction(df as int, dr as int),
    ensures
        final(out)@ == old(out)@ + ray_moves(
            squares@,
            file as int,
            rank as int,
            df as int,
            dr as int,
            color,
        ),
        all_valid(old(out)@) ==> all_valid(final(out)@),
{
    let mut f: i8 = file + df;
    let mut r: i8 = rank + dr;
    let ghost total = old(out)@ + ray_moves(
        squares@,
        file as int,
        rank as int,
        df as int,
        dr as int,
        color,
    );
    while f >= 0 && f < 8 && r >= 0 && r < 8
        invariant
            is_direction(df as int, dr as int),
            on_board(f - df, r - dr),
            out@ + ray_moves(squares@, f - df, r - dr, df as int, dr as int, color) == total,
            total == old(out)@ + ray_moves(
                squares@,
                file as int,
                rank as int,
                df as int,
                dr as int,
                color,
            ),
            all_valid(old(out)@) ==> all_valid(out@),
        decreases ray_measure(f - df, r - dr, df as int, dr as int),
    {
        let target_piece = piece_on(squares, f, r);
        let target = Square::new(f as u8, r as u8);
        let ghost before = out@;
        let ghost rest = ray_moves(squares@, f as int, r as int, df as int, dr as int, color);
        if is_empty(target_piece) {
            out.push(target);
            proof {
                assert(out@ + rest =~= before + (seq![target] + rest));
            }
        } else if piece_color(target_piece) != color {
            out.push(target);
            proof {
                assert(out@ =~= before + seq![target]);
            }
            return ;
        } else {
            proof {
                assert(out@ =~= before + Seq::<Square>::empty());
            }
            return ;
        }
        f = f + df;
        r = r + dr;
    }
    proof {
        assert(out@ =~= out@ + Seq::<Square>::empty());
    }
}

fn is_empty_at(squares: &[Piece; 64], file: i8, rank: i8) -> (empty: bool)
    requires
        -3 <= file <= 10,
        -3 <= rank <= 10,
    ensures
        empty == empty_at(squares@, file as int, rank as int),
{
    if file >= 0 && file < 8 && rank >= 0 && rank < 8 {
        is_empty(piece_on(squares, file, rank))
    } else {
        false
    }
}

fn is_enemy_at(squares: &[Piece; 64], file: i8, rank: i8, color: u8) -> (enemy: bool)
    requires
        -3 <= file <= 10,
        -3 <= rank <= 10,
    ensures
        enemy == enemy_at(squares@, file as int, rank as int, color),
{
    if file >= 0 && file < 8 && rank >= 0 && rank < 8 {
        let piece = piece_on(squares, file, rank);
        !is_empty(piece) && piece_color(piece) != color
    } else {
        false
    }
}

/// Whether the pawn on `(file, rank)` may capture en passant onto
/// `target`, which lies on file `target_file` and rank `target_rank`.
fn is_en_passant_at(
    squares: &[Piece; 64],
    file: i8,
    rank: i8,
    df: i8,
    color: u8,
    target: Option<Square>,
) -> (allowed: bool)
    requires
        on_board(file as int, rank as int),
        -1 <= df <= 1,
        target is Some ==> target.unwrap().valid(),
    ensures
        allowed == en_passant_at(squares@, file as int, rank as int, df as int, color, target),
{
    match target {
        Some(e) => {
            let ef: i8 = e.file() as i8;
            let er: i8 = e.rank() as i8;
            let direction: i8 = if color == WHITE {
                1
            } else {
                -1
            };
            let correct_rank: i8 = if color == WHITE {
                4
            } else {
                3
            };
            if file + df == ef && rank + direction == er && rank == correct_rank {
                let enemy_piece = piece_on(squares, ef, rank);
                !is_empty(enemy_piece) && piece_type(enemy_piece) == PAWN && piece_color(
                    enemy_piece,
                ) != color && is_empty(squares[e.0 as usize])
            } else {
                false
            }
        },
        None => false,
    }
}

impl Board {
    /// The moves of a pawn of `color` standing on `square`.
    pub fn get_pawn_moves(&self, square: Square, color: u8) -> (moves: Vec<Square>)
        requires
            self.wf(),
            square.valid(),
        ensures
            moves@ == pawn_moves(self@.squares, square, color, self@.en_passant_target),
            all_valid(moves@),
    {
        let mut moves: Vec<Square> = Vec::new();
        let file: i8 = square.file() as i8;
        let rank: i8 = square.rank() as i8;
        let direction: i8 = if color == WHITE {
            1
        } else {
            -1
        };
        let new_rank: i8 = rank + direction;
        if is_empty_at(&self.squares, file, new_rank) {
            moves.push(Square::new(file as u8, new_rank as u8));
            let starting_rank: i8 = if color == WHITE {
                1
            } else {
                6
            };
            if rank == starting_rank {
                let double_forward_rank: i8 = new_rank + direction;
                if is_empty_at(&self.squares, file, double_forward_rank) {
                    moves.push(Square::new(file as u8, double_forward_rank as u8));
                }
            }
        }
        if is_enemy_at(&self.squares, file - 1, new_rank, color) {
            moves.push(Square::new((file - 1) as u8, new_rank as u8));
        }
        if is_enemy_at(&self.squares, file + 1, new_rank, color) {
            moves.push(Square::new((file + 1) as u8, new_rank as u8));
        }
        if is_en_passant_at(&self.squares, file, rank, -1, color, self.en_passant_target) {
            moves.push(self.en_passant_target.unwrap());
        }
        if is_en_passant_at(&self.squares, file, rank, 1, color, self.en_passant_target) {
            moves.push(self.en_passant_target.unwrap());
        }
        moves
    }

    /// The moves of the knight on `square`: the knight mask of the square
    /// without the squares of the side to move.
    fn get_knight_moves(&self, square: Square) -> (moves: Vec<Square>)
        requires
            self.wf(),
            square.valid(),
        ensures
            moves@ == squares_where(
                knight_target_pred(self@.squares, square, self@.turn),
                64,
            ),
            all_valid(moves@),
    {
        let knight_attack_mask: Bitboard = get_knight_attacks(square.0);
        let our_pieces: Bitboard = self.bitboards.get_all_pieces(self.current_turn);
        let valid_moves: Bitboard = knight_attack_mask & !our_pieces;
        let ghost b = self.squares@;
        proof {
            lemma_bit_ops(knight_attack_mask, our_pieces);
            let p = bit_pred(valid_moves);
            let q = knight_target_pred(b, square, self.current_turn);
            assert forall|i: int| 0 <= i < 64 implies #[trigger] p(i) == q(i) by {
                let j = i as u8;
                assert(spec_get_bit(valid_moves, j) == (spec_get_bit(knight_attack_mask, j)
                    && !spec_get_bit(our_pieces, j)));
                assert(spec_get_bit(our_pieces, j) == color_code(b[i], self.current_turn));
                assert(piece_valid(b[i]));
            }
            lemma_squares_where_ext(p, q, 64);
        }
        bitboard_squares(valid_moves)
    }

    /// The squares next to `square` that hold no piece of `color`.
    fn get_king_steps(&self, square: Square, color: u8) -> (moves: Vec<Square>)
        requires
            self.wf(),
            square.valid(),
            color == WHITE || color == BLACK,
        ensures
            moves@ == squares_where(king_target_pred(self@.squares, square, color), 64),
            all_valid(moves@),
    {
        let king_attack_mask: Bitboard = get_king_attacks(square.0);
        let our_pieces: Bitboard = self.bitboards.get_all_pieces(color);
        let valid_moves: Bitboard = king_attack_mask & !our_pieces;
        let ghost b = self.squares@;
        proof {
            lemma_bit_ops(king_attack_mask, our_pieces);
            let p = bit_pred(valid_moves);
            let q = king_target_pred(b, square, color);
            assert forall|i: int| 0 <= i < 64 implies #[trigger] p(i) == q(i) by {
                let j = i as u8;
                assert(spec_get_bit(valid_moves, j) == (spec_get_bit(king_attack_mask, j)
                    && !spec_get_bit(our_pieces, j)));
                assert(spec_get_bit(our_pieces, j) == color_code(b[i], color));
                assert(piece_valid(b[i]));
            }
            lemma_squares_where_ext(p, q, 64);
        }
        bitboard_squares(valid_moves)
    }

    /// The moves of the king on `square`: its steps and, from its first
    /// square, the castling moves that are allowed.
    fn get_king_moves(&self, square: Square) -> (moves: Vec<Square>)
        requires
            self.wf(),
            square.valid(),
        ensures
            moves@ == self@.king_moves(square),
            all_valid(moves@),
    {
        let source_color = piece_color(self.get_piece(square));
        let mut moves = self.get_king_steps(square, source_color);
        let king_rank: u8 = square.rank();
        let home: u8 = if source_color == WHITE {
            0
        } else {
            7
        };
        if square.0 == home * 8 + 4 {
            if self.can_castle(source_color, true) {
                moves.push(Square::new(6, king_rank));
            }
            if self.can_castle(source_color, false) {
                moves.push(Square::new(2, king_rank));
            }
        }
        moves
    }

    fn get_bishop_moves(&self, square: Square) -> (moves: Vec<Square>)
        requires
            square.valid(),
        ensures
            moves@ == bishop_moves(
                self@.squares,
                square,
                spec_piece_color(self@.squares[square.0 as int]),
            ),
            all_valid(moves@),
    {
        self.get_sliding_moves(square, true)
    }

    fn get_rook_moves(&self, square: Square) -> (moves: Vec<Square>)
        requires
            square.valid(),
        ensures
            moves@ == rook_moves(
                self@.squares,
                square,
                spec_piece_color(self@.squares[square.0 as int]),
            ),
            all_valid(moves@),
    {
        self.get_sliding_moves(square, false)
    }

    fn get_queen_moves(&self, square: Square) -> (moves: Vec<Square>)
        requires
            square.valid(),
        ensures
            moves@ == queen_moves(
                self@.squares,
                square,
                spec_piece_color(self@.squares[square.0 as int]),
            ),
            all_valid(moves@),
    {
        let mut moves = self.get_rook_moves(square);
        let more = self.get_bishop_moves(square);
        extend_squares(&mut moves, &more);
        moves
    }

    /// The moves of a slider on `square` along the four diagonals, or along
    /// the files and ranks.
    fn get_sliding_moves(&self, square: Square, diagonal: bool) -> (moves: Vec<Square>)
        requires
            square.valid(),
        ensures
            moves@ == (if diagonal {
                bishop_moves(
                    self@.squares,
                    square,
                    spec_piece_color(self@.squares[square.0 as int]),
                )
            } else {
                rook_moves(self@.squares, square, spec_piece_color(self@.squares[square.0 as int]))
            }),
            all_valid(moves@),
    {
        let mut moves: Vec<Square> = Vec::new();
        let file: i8 = square.file() as i8;
        let rank: i8 = square.rank() as i8;
        let source_color = piece_color(self.get_piece(square));
        if diagonal {
            add_ray_moves(&self.squares, &mut moves, file, rank, 1, 1, source_color);
            add_ray_moves(&self.squares, &mut moves, file, rank, 1, -1, source_color);
            add_ray_moves(&self.squares, &mut moves, file, rank, -1, 1, source_color);
            add_ray_moves(&self.squares, &mut moves, file, rank, -1, -1, source_color);
        } else {
            add_ray_moves(&self.squares, &mut moves, file, rank, 0, 1, source_color);
            add_ray_moves(&self.squares, &mut moves, file, rank, 0, -1, source_color);
            add_ray_moves(&self.squares, &mut moves, file, rank, 1, 0, source_color);
            add_ray_moves(&self.squares, &mut moves, file, rank, -1, 0, source_color);
        }
        moves
    }

    /// The moves of a piece of `source_color` from `square` in one
    /// direction.
    fn get_moves_in_direction(&self, square: Square, direction: (i8, i8), source_color: u8) -> (moves:
        Vec<Square>)
        requires
            square.valid(),
            is_direction(direction.0 as int, direction.1 as int),
        ensures
            moves@ == ray_moves(
                self@.squares,
                square.0 as int % 8,
                square.0 as int / 8,
                direction.0 as int,
                direction.1 as int,
                source_color,
            ),
            all_valid(moves@),
    {
        let mut moves: Vec<Square> = Vec::new();
        add_ray_moves(
            &self.squares,
            &mut moves,
            square.file() as i8,
            square.rank() as i8,
            direction.0,
            direction.1,
            source_color,
        );
        moves
    }

    /// The moves of the piece on `square` when it is pinned along
    /// `pin_direction`.
    pub fn get_pinned_piece_moves(&self, square: Square, pin_direction: (i8, i8)) -> (moves: Vec<
        Square,
    >)
        requires
            self.wf(),
            square.valid(),
            is_direction(pin_direction.0 as int, pin_direction.1 as int),
        ensures
            moves@ == pinned_piece_moves(
                self@.squares,
                square,
                pin_direction,
                self@.en_passant_target,
            ),
            all_valid(moves@),
    {
        let piece = self.get_piece(square);
        let piece_type_val = piece_type(piece);
        let source_color = piece_color(piece);
        if piece_type_val == KNIGHT {
            return Vec::new();
        }
        if piece_type_val == PAWN {
            return self.get_pinned_pawn_moves(square, pin_direction, source_color);
        }
        let can_move_in_pin_direction = if piece_type_val == ROOK {
            pin_direction.0 == 0 || pin_direction.1 == 0
        } else if piece_type_val == BISHOP {
            pin_direction.0 != 0 && pin_direction.1 != 0
        } else {
            piece_type_val == QUEEN
        };
        if !can_move_in_pin_direction {
            return Vec::new();
        }
        let mut moves = self.get_moves_in_direction(square, pin_direction, source_color);
        let back = self.get_moves_in_direction(
            square,
            (-pin_direction.0, -pin_direction.1),
            source_color,
        );
        extend_squares(&mut moves, &back);
        moves
    }

    /// The moves of a pawn of `color` on `square` pinned along
    /// `pin_direction`.
    fn get_pinned_pawn_moves(&self, square: Square, pin_direction: (i8, i8), color: u8) -> (moves:
        Vec<Square>)
        requires
            self.wf(),
            square.valid(),
            is_direction(pin_direction.0 as int, pin_direction.1 as int),
        ensures
            moves@ == pinned_pawn_moves(
                self@.squares,
                square,
                pin_direction,
                color,
                self@.en_passant_target,
            ),
            all_valid(moves@),
    {
        let mut moves: Vec<Square> = Vec::new();
        let file: i8 = square.file() as i8;
        let rank: i8 = square.rank() as i8;
        let direction: i8 = if color == WHITE {
            1
        } else {
            -1
        };
        let forward_rank: i8 = rank + direction;
        if pin_direction.0 == 0 {
            if is_empty_at(&self.squares, file, forward_rank) {
                moves.push(Square::new(file as u8, forward_rank as u8));
                let starting_rank: i8 = if color == WHITE {
                    1
                } else {
                    6
                };
                if rank == starting_rank {
                    let double_rank: i8 = forward_rank + direction;
                    if is_empty_at(&self.squares, file, double_rank) {
                        moves.push(Square::new(file as u8, double_rank as u8));
                    }
                }
            }
        } else if pin_direction.1 != 0 {
            let back_file: i8 = file - pin_direction.0;
            let back_rank: i8 = rank - pin_direction.1;
            let ahead_file: i8 = file + pin_direction.0;
            let ahead_rank: i8 = rank + pin_direction.1;
            if back_rank == forward_rank && is_enemy_at(&self.squares, back_file, back_rank, color) {
                moves.push(Square::new(back_file as u8, back_rank as u8));
            }
            if ahead_rank == forward_rank && is_enemy_at(
                &self.squares,
                ahead_file,
                ahead_rank,
                color,
            ) {
                moves.push(Square::new(ahead_file as u8, ahead_rank as u8));
            }
            if back_rank == forward_rank && is_en_passant_at(
                &self.squares,
                file,
                rank,
                -pin_direction.0,
                color,
                self.en_passant_target,
            ) {
                moves.push(self.en_passant_target.unwrap());
            }
            if ahead_rank == forward_rank && is_en_passant_at(
                &self.squares,
                file,
                rank,
                pin_direction.0,
                color,
                self.en_passant_target,
            ) {
                moves.push(self.en_passant_target.unwrap());
            }
        }
        moves
    }
}

impl Position {
    /// The moves of the king on the square: its steps and, from its first
    /// square, the castling moves that are allowed.
    pub open spec fn king_moves(self, square: Square) -> Seq<Square> {
        let color = spec_piece_color(self.squares[square.0 as int]);
        let steps = squares_where(king_target_pred(self.squares, square, color), 64);
        let home = square == Square::at(4, home_rank(color));
        let s1 = push_if(
            steps,
            home && self.can_castle(color, true),
            Square::at(6, square.0 as int / 8),
        );
        push_if(s1, home && self.can_castle(color, false), Square::at(2, square.0 as int / 8))
    }
}

/// Every move of the sequence is legal in the position, and its squares
/// lie on the board.
pub open spec fn all_legal(s: Position, moves: Seq<Move>) -> bool {
    forall|k: int| 0 <= k < moves.len() ==> s.is_legal(#[trigger] moves[k]) && moves[k].valid()
}

/// A legal move has its squares on the board.
pub proof fn law_legal_is_valid(s: Position, mv: Move)
    requires
        s.is_legal(mv),
    ensures
        mv.valid(),
{
    reveal(Position::is_legal);
}

/// "Square `i` holds a piece of `color`."
pub open spec fn own_pred(b: Seq<Piece>, color: u8) -> spec_fn(int) -> bool {
    |i: int| spec_is_piece_color(b[i], color)
}

/// The move takes a pawn to its last rank.
pub open spec fn promotes(b: Seq<Piece>, from: Square, to: Square) -> bool {
    let piece = b[from.0 as int];
    spec_piece_type(piece) == PAWN && to.0 as int / 8 == promotion_rank(spec_piece_color(piece))
}

/// The four promotions of a pawn move: queen, rook, bishop, knight.
pub open spec fn promotion_moves(from: Square, to: Square) -> Seq<Move> {
    seq![
        Move { from, to, promotion: Some(QUEEN) },
        Move { from, to, promotion: Some(ROOK) },
        Move { from, to, promotion: Some(BISHOP) },
        Move { from, to, promotion: Some(KNIGHT) },
    ]
}

/// The moves from `from` to `to`: the four promotions for a pawn that
/// reaches its last rank, one plain move otherwise.
pub open spec fn moves_to(b: Seq<Piece>, from: Square, to: Square) -> Seq<Move> {
    if promotes(b, from, to) {
        promotion_moves(from, to)
    } else {
        seq![Move { from, to, promotion: None }]
    }
}

/// The moves from `from` to the first `n` of the targets.
pub open spec fn moves_to_targets(b: Seq<Piece>, from: Square, targets: Seq<Square>, n: int) -> Seq<
    Move,
>
    decreases n,
{
    if n <= 0 {
        Seq::empty()
    } else {
        moves_to_targets(b, from, targets, n - 1) + moves_to(b, from, targets[n - 1])
    }
}

impl Position {
    /// The moves of the knight on the square.
    pub open spec fn knight_moves(self, square: Square) -> Seq<Square> {
        squares_where(knight_target_pred(self.squares, square, self.turn), 64)
    }

    /// The moves of the piece on the square by the way its kind moves and
    /// within its pin, the king's safety left aside; none for a square
    /// that holds no piece of the side to move.
    #[verifier::opaque]
    pub open spec fn pseudo_legal_moves(self, square: Square) -> Seq<Square> {
        let b = self.squares;
        let piece = b[square.0 as int];
        let kind = spec_piece_type(piece);
        if !spec_is_piece_color(piece, self.turn) {
            Seq::empty()
        } else {
            match pinned(b, square) {
                Some(pin) => pinned_piece_moves(b, square, pin, self.en_passant_target),
                None => if kind == KNIGHT {
                    self.knight_moves(square)
                } else if kind == ROOK {
                    rook_moves(b, square, spec_piece_color(piece))
                } else if kind == BISHOP {
                    bishop_moves(b, square, spec_piece_color(piece))
                } else if kind == QUEEN {
                    queen_moves(b, square, spec_piece_color(piece))
                } else if kind == KING {
                    self.king_moves(square)
                } else if kind == PAWN {
                    pawn_moves(b, square, spec_piece_color(piece), self.en_passant_target)
                } else {
                    Seq::empty()
                },
            }
        }
    }

    /// "A piece other than the king may go from `square` to the target":
    /// with no check any target will do, with one check the target must
    /// capture the checking piece (en passant included) or step between it
    /// and the king; and an en-passant capture must leave the king
    /// unattacked.
    pub open spec fn answers_check(self, square: Square, king: Square, checking: Seq<Square>) -> spec_fn(
        Square,
    ) -> bool {
        |t: Square|
            {
                let mv = Move { from: square, to: t, promotion: None };
                &&& checking.len() == 0 || (checking.len() == 1 && (blocking_squares(
                    self.squares,
                    king,
                    checking[0],
                ).contains(t) || (self.is_en_passant(mv) && en_passant_victim(mv) == checking[0])))
                &&& self.is_en_passant(mv) ==> self.en_passant_legal(mv)
            }
    }

    /// The legal destinations of the piece on the square. The king may go
    /// where it is not attacked once lifted from its square; another piece
    /// must answer a single check and cannot answer a double one.
    #[verifier::opaque]
    pub open spec fn legal_moves(self, square: Square) -> Seq<Square> {
        let b = self.squares;
        let pseudo = self.pseudo_legal_moves(square);
        match spec_find_king(b, self.turn) {
            None => Seq::empty(),
            Some(king) => {
                let checking = checkers(b, king, self.turn);
                if spec_piece_type(b[square.0 as int]) == KING {
                    keep_all(
                        pseudo,
                        safe_pred(b.update(square.0 as int, EMPTY), spec_opposite_color(self.turn)),
                    )
                } else if checking.len() >= 2 {
                    Seq::empty()
                } else {
                    keep_all(pseudo, self.answers_check(square, king, checking))
                }
            },
        }
    }

    /// The moves of the pieces on the first `n` of the given squares.
    pub open spec fn moves_over(self, own: Seq<Square>, n: int) -> Seq<Move>
        decreases n,
    {
        if n <= 0 {
            Seq::empty()
        } else {
            self.moves_over(own, n - 1) + moves_to_targets(
                self.squares,
                own[n - 1],
                self.legal_moves(own[n - 1]),
                self.legal_moves(own[n - 1]).len() as int,
            )
        }
    }

    /// Every legal move of the side to move: square by square from the
    /// lowest, each piece's destinations in the order they are generated,
    /// promotions fourfold.
    #[verifier::opaque]
    pub open spec fn all_legal_moves(self) -> Seq<Move> {
        let own = squares_where(own_pred(self.squares, self.turn), 64);
        self.moves_over(own, own.len() as int)
    }

    /// The promotion a move names is a queen, rook, bishop or knight when a
    /// pawn reaches its last rank, and nothing otherwise.
    pub open spec fn promotion_ok(self, mv: Move) -> bool {
        if promotes(self.squares, mv.from, mv.to) {
            mv.promotion == Some(QUEEN) || mv.promotion == Some(ROOK) || mv.promotion == Some(
                BISHOP,
            ) || mv.promotion == Some(KNIGHT)
        } else {
            mv.promotion is None
        }
    }

    /// A legal move: a piece of the side to move goes to one of its legal
    /// destinations, with the promotion that the move calls for.
    #[verifier::opaque]
    pub open spec fn is_legal(self, mv: Move) -> bool {
        &&& mv.valid()
        &&& spec_is_piece_color(self.squares[mv.from.0 as int], self.turn)
        &&& self.legal_moves(mv.from).contains(mv.to)
        &&& self.promotion_ok(mv)
    }

    /// The side to move has a legal move.
    pub open spec fn can_move(self) -> bool {
        exists|i: int|
            0 <= i < 64 && spec_is_piece_color(self.squares[i], self.turn) && (
            #[trigger] self.legal_moves(Square(i as u8))).len() > 0
    }
}

impl Board {
    /// The moves of the piece on `square` before the king's safety is
    /// looked at.
    pub fn get_pseudo_legal_moves(&self, square: Square) -> (moves: Vec<Square>)
        requires
            self.wf(),
            square.valid(),
        ensures
            moves@ == self@.pseudo_legal_moves(square),
            all_valid(moves@),
    {
        reveal(Position::pseudo_legal_moves);
        let piece = self.get_piece(square);
        if is_empty(piece) {
            return Vec::new();
        }
        if !is_piece_color(piece, self.current_turn) {
            return Vec::new();
        }
        match self.is_piece_pinned(square) {
            Some(pin_direction) => {
                return self.get_pinned_piece_moves(square, pin_direction);
            },
            None => {},
        }
        let kind = piece_type(piece);
        if kind == KNIGHT {
            self.get_knight_moves(square)
        } else if kind == ROOK {
            self.get_rook_moves(square)
        } else if kind == BISHOP {
            self.get_bishop_moves(square)
        } else if kind == QUEEN {
            self.get_queen_moves(square)
        } else if kind == KING {
            self.get_king_moves(square)
        } else if kind == PAWN {
            self.get_pawn_moves(square, piece_color(piece))
        } else {
            Vec::new()
        }
    }

    /// The legal destinations of the piece on `square`.
    pub fn get_legal_moves(&self, square: Square) -> (moves: Vec<Square>)
        requires
            self.wf(),
            square.valid(),
        ensures
            moves@ == self@.legal_moves(square),
            all_valid(moves@),
    {
        reveal(Position::legal_moves);
        let pseudo_moves = self.get_pseudo_legal_moves(square);
        let our_color = self.current_turn;
        let king_square = match self.find_king(our_color) {
            Some(square) => square,
            None => {
                return Vec::new();
            },
        };
        let opponent_color = opposite_color(our_color);
        let checking_pieces = self.find_checking_pieces(king_square, our_color);
        let piece = self.get_piece(square);
        if piece_type(piece) == KING {
            return self.filter_king_moves_in_check(pseudo_moves, opponent_color, Some(square));
        }
        let count = checking_pieces.len();
        if count >= 2 {
            return Vec::new();
        }
        let blocking: Vec<Square> = if count == 1 {
            self.get_blocking_squares(king_square, checking_pieces[0])
        } else {
            Vec::new()
        };
        let ghost keep = self@.answers_check(square, king_square, checking_pieces@);
        let mut moves: Vec<Square> = Vec::new();
        let mut i: usize = 0;
        while i < pseudo_moves.len()
            invariant
                i <= pseudo_moves.len(),
                self.wf(),
                square.valid(),
                all_valid(pseudo_moves@),
                all_valid(moves@),
                count == checking_pieces.len(),
                count <= 1,
                count == 1 ==> checking_pieces@[0].valid() && blocking@ == blocking_squares(
                    self@.squares,
                    king_square,
                    checking_pieces@[0],
                ),
                keep == self@.answers_check(square, king_square, checking_pieces@),
                moves@ == keep_where(pseudo_moves@, keep, i as int),
            decreases pseudo_moves.len() - i,
        {
            let target = pseudo_moves[i];
            let mv = Move::new(square, target);
            let en_passant = self.is_en_passant_move(mv);
            let answers = count == 0 || contains_square(&blocking, target) || (en_passant
                && en_passant_victim_square(mv) == checking_pieces[0]);
            if answers && (!en_passant || self.is_en_passant_legal(mv)) {
                moves.push(target);
            }
            i = i + 1;
        }
        moves
    }

    /// Every legal move of the side to move.
    pub fn get_all_legal_moves(&self) -> (all_moves: Vec<Move>)
        requires
            self.wf(),
        ensures
            all_moves@ == self@.all_legal_moves(),
            forall|k: int| 0 <= k < all_moves.len() ==> self@.is_legal(#[trigger] all_moves[k]),
            all_legal(self@, all_moves@),
    {
        reveal(Position::is_legal);
        reveal(Position::all_legal_moves);
        let mut all_moves: Vec<Move> = Vec::new();
        let our_pieces: Bitboard = self.bitboards.get_all_pieces(self.current_turn);
        let own = bitboard_squares(our_pieces);
        let ghost b = self.squares@;
        let ghost q = own_pred(b, self.current_turn);
        proof {
            let p = bit_pred(our_pieces);
            assert forall|i: int| 0 <= i < 64 implies #[trigger] p(i) == q(i) by {
                let j = i as u8;
                assert(spec_get_bit(our_pieces, j) == color_code(b[i], self.current_turn));
                assert(piece_valid(b[i]));
            }
            lemma_squares_where_ext(p, q, 64);
            lemma_squares_where_contains(q, 64);
        }
        let mut i: usize = 0;
        while i < own.len()
            invariant
                i <= own.len(),
                self.wf(),
                b == self.squares@,
                q == own_pred(b, self.current_turn),
                own@ == squares_where(q, 64),
                forall|s: Square| #[trigger]
                    squares_where(q, 64).contains(s) <==> (s.0 < 64 && q(s.0 as int)),
                all_moves@ == self@.moves_over(own@, i as int),
                forall|k: int| 0 <= k < all_moves.len() ==> self@.is_legal(#[trigger] all_moves[k]),
            decreases own.len() - i,
        {
            let square = own[i];
            proof {
                assert(own@.contains(square));
                assert(q(square.0 as int));
            }
            let piece = self.get_piece(square);
            let piece_moves = self.get_legal_moves(square);
            let piece_type_val = piece_type(piece);
            let last_rank: u8 = if piece_color(piece) == WHITE {
                7
            } else {
                0
            };
            let ghost done = all_moves@;
            let mut j: usize = 0;
            while j < piece_moves.len()
                invariant
                    j <= piece_moves.len(),
                    i < own.len(),
                    square == own@[i as int],
                    square.valid(),
                    spec_is_piece_color(b[square.0 as int], self.current_turn),
                    b == self.squares@,
                    piece == b[square.0 as int],
                    piece_type_val == spec_piece_type(piece),
                    last_rank == promotion_rank(spec_piece_color(piece)),
                    piece_moves@ == self@.legal_moves(square),
                    all_valid(piece_moves@),
                    all_moves@ == done + moves_to_targets(b, square, piece_moves@, j as int),
                    forall|k: int|
                        0 <= k < all_moves.len() ==> self@.is_legal(#[trigger] all_moves[k]),
                decreases piece_moves.len() - j,
            {
                let target_square = piece_moves[j];
                let ghost part = moves_to_targets(b, square, piece_moves@, j as int);
                proof {
                    assert(piece_moves@.contains(target_square));
                }
                proof {
                    reveal(Position::is_legal);
                }
                if piece_type_val == PAWN && target_square.rank() == last_rank {
                    all_moves.push(Move::new_promotion(square, target_square, QUEEN));
                    all_moves.push(Move::new_promotion(square, target_square, ROOK));
                    all_moves.push(Move::new_promotion(square, target_square, BISHOP));
                    all_moves.push(Move::new_promotion(square, target_square, KNIGHT));
                    proof {
                        assert(all_moves@ =~= done + (part + promotion_moves(square, target_square)));
                    }
                } else {
                    all_moves.push(Move::new(square, target_square));
                    proof {
                        assert(all_moves@ =~= done + (part + seq![
                            Move { from: square, to: target_square, promotion: None },
                        ]));
                    }
                }
                j = j + 1;
            }
            i = i + 1;
        }
        proof {
            assert forall|k: int| 0 <= k < all_moves.len() implies self@.is_legal(
                #[trigger] all_moves[k],
            ) && all_moves[k].valid() by {
                law_legal_is_valid(self@, all_moves[k]);
            }
        }
        all_moves
    }

    /// Whether the move is a legal move of the side to move.
    pub fn is_valid_move(&self, mv: Move) -> (valid: bool)
        requires
            self.wf(),
            mv.valid(),
        ensures
            valid == self@.is_legal(mv),
    {
        reveal(Position::is_legal);
        let from_piece = self.get_piece(mv.from);
        if is_empty(from_piece) {
            return false;
        }
        if !is_piece_color(from_piece, self.current_turn) {
            return false;
        }
        let legal_moves = self.get_legal_moves(mv.from);
        if !contains_square(&legal_moves, mv.to) {
            return false;
        }
        let last_rank: u8 = if piece_color(from_piece) == WHITE {
            7
        } else {
            0
        };
        if piece_type(from_piece) == PAWN && mv.to.rank() == last_rank {
            match mv.promotion {
                Some(kind) => kind == QUEEN || kind == ROOK || kind == BISHOP || kind == KNIGHT,
                None => false,
            }
        } else {
            mv.promotion.is_none()
        }
    }

    /// Whether the side to move has a legal move.
    pub fn can_player_move(&self) -> (can: bool)
        requires
            self.wf(),
        ensures
            can == self@.can_move(),
    {
        let mut index: u8 = 0;
        while index < 64
            invariant
                index <= 64,
                self.wf(),
                forall|i: int|
                    0 <= i < index ==> !(spec_is_piece_color(self@.squares[i], self@.turn) && (
                    #[trigger] self@.legal_moves(Square(i as u8))).len() > 0),
            decreases 64 - index,
        {
            let square = Square(index);
            let piece = self.get_piece(square);
            if is_piece_color(piece, self.current_turn) {
                if self.get_legal_moves(square).len() > 0 {
                    proof {
                        let i = index as int;
                        assert(Square(i as u8) == square);
                        assert(self@.legal_moves(Square(i as u8)).len() > 0);
                    }
                    return true;
                }
            }
            index = index + 1;
        }
        false
    }
}

} // verus!
