//! Laws of the board: what move generation never produces, and that taking
//! a move back restores the position.

use vstd::prelude::*;
use crate::attacks::ray_measure;
use crate::bitboard::king_step;
use crate::bitboard::lemma_squares_where_contains;
use crate::bitboard::squares_where;
use crate::board::on_board;
use crate::board::Position;
use crate::movegen::bishop_moves;
use crate::movegen::king_target_pred;
use crate::movegen::knight_target_pred;
use crate::movegen::pawn_moves;
use crate::movegen::pinned_pawn_moves;
use crate::movegen::pinned_piece_moves;
use crate::movegen::ray_moves;
use crate::movegen::rook_moves;
use crate::seqs::lemma_contains_concat;
use crate::seqs::lemma_contains_push_if;
use crate::seqs::lemma_keep_where;
use crate::seqs::push_if;
use crate::special::en_passant_victim;
use crate::special::home_rank;
use crate::state::castled_squares;
use crate::state::uncastled_squares;
use crate::types::lemma_make_piece;
use crate::types::piece_valid;
use crate::types::spec_is_piece_color;
use crate::types::spec_opposite_color;
use crate::types::spec_piece_color;
use crate::types::spec_piece_type;
use crate::types::{GameStatus, Move, Piece, Square};
use crate::types::{BISHOP, KING, KNIGHT, PAWN, QUEEN, ROOK};
use crate::types::{EMPTY};
use crate::validation::pinned;

verus! {

/// A destination that move generation may produce for a piece of `color`:
/// a square of the board that holds no piece of that color.
pub open spec fn open_to(b: Seq<Piece>, t: Square, color: u8) -> bool {
    t.valid() && !spec_is_piece_color(b[t.0 as int], color)
}

/// Along a ray a piece reaches only squares of the board that hold no
/// piece of its color.
pub proof fn lemma_ray_moves_open(
    b: Seq<Piece>,
    file: int,
    rank: int,
    df: int,
    dr: int,
    color: u8,
    t: Square,
)
    requires
        ray_moves(b, file, rank, df, dr, color).contains(t),
    ensures
        open_to(b, t, color),
    decreases ray_measure(file, rank, df, dr),
{
    let f = file + df;
    let r = rank + dr;
    if !on_board(f, r) || (df == 0 && dr == 0) {
    } else if b[r * 8 + f] == EMPTY {
        let rest = ray_moves(b, f, r, df, dr, color);
        lemma_contains_concat(seq![Square::at(f, r)], rest, t);
        if rest.contains(t) {
            lemma_ray_moves_open(b, f, r, df, dr, color, t);
        } else {
            assert(seq![Square::at(f, r)][0] == t);
        }
    } else if spec_piece_color(b[r * 8 + f]) != color {
        assert(seq![Square::at(f, r)][0] == t);
    } else {
    }
}

proof fn lemma_rook_moves_open(b: Seq<Piece>, square: Square, color: u8, t: Square)
    requires
        rook_moves(b, square, color).contains(t),
    ensures
        open_to(b, t, color),
{
    let f = square.0 as int % 8;
    let r = square.0 as int / 8;
    let a = ray_moves(b, f, r, 0, 1, color);
    let c = ray_moves(b, f, r, 0, -1, color);
    let d = ray_moves(b, f, r, 1, 0, color);
    let e = ray_moves(b, f, r, -1, 0, color);
    lemma_contains_concat(a + c + d, e, t);
    lemma_contains_concat(a + c, d, t);
    lemma_contains_concat(a, c, t);
    if a.contains(t) {
        lemma_ray_moves_open(b, f, r, 0, 1, color, t);
    } else if c.contains(t) {
        lemma_ray_moves_open(b, f, r, 0, -1, color, t);
    } else if d.contains(t) {
        lemma_ray_moves_open(b, f, r, 1, 0, color, t);
    } else {
        lemma_ray_moves_open(b, f, r, -1, 0, color, t);
    }
}

proof fn lemma_bishop_moves_open(b: Seq<Piece>, square: Square, color: u8, t: Square)
    requires
        bishop_moves(b, square, color).contains(t),
    ensures
        open_to(b, t, color),
{
    let f = square.0 as int % 8;
    let r = square.0 as int / 8;
    let a = ray_moves(b, f, r, 1, 1, color);
    let c = ray_moves(b, f, r, 1, -1, color);
    let d = ray_moves(b, f, r, -1, 1, color);
    let e = ray_moves(b, f, r, -1, -1, color);
    lemma_contains_concat(a + c + d, e, t);
    lemma_contains_concat(a + c, d, t);
    lemma_contains_concat(a, c, t);
    if a.contains(t) {
        lemma_ray_moves_open(b, f, r, 1, 1, color, t);
    } else if c.contains(t) {
        lemma_ray_moves_open(b, f, r, 1, -1, color, t);
    } else if d.contains(t) {
        lemma_ray_moves_open(b, f, r, -1, 1, color, t);
    } else {
        lemma_ray_moves_open(b, f, r, -1, -1, color, t);
    }
}

proof fn lemma_pawn_moves_open(
    b: Seq<Piece>,
    square: Square,
    color: u8,
    target: Option<Square>,
    t: Square,
)
    requires
        b.len() == 64,
        square.valid(),
        target is Some ==> target.unwrap().valid(),
        pawn_moves(b, square, color, target).contains(t),
    ensures
        open_to(b, t, color),
{
    let f = square.0 as int % 8;
    let r = square.0 as int / 8;
    let d = crate::movegen::pawn_step(color);
    let s0 = Seq::<Square>::empty();
    let c1 = crate::movegen::empty_at(b, f, r + d);
    let s1 = push_if(s0, c1, Square::at(f, r + d));
    let c2 = crate::movegen::empty_at(b, f, r + d) && r == crate::movegen::pawn_start_rank(color)
        && crate::movegen::empty_at(b, f, r + 2 * d);
    let s2 = push_if(s1, c2, Square::at(f, r + 2 * d));
    let c3 = crate::movegen::enemy_at(b, f - 1, r + d, color);
    let s3 = push_if(s2, c3, Square::at(f - 1, r + d));
    let c4 = crate::movegen::enemy_at(b, f + 1, r + d, color);
    let s4 = push_if(s3, c4, Square::at(f + 1, r + d));
    let c5 = crate::movegen::en_passant_at(b, f, r, -1, color, target);
    let s5 = push_if(s4, c5, target.unwrap());
    let c6 = crate::movegen::en_passant_at(b, f, r, 1, color, target);
    lemma_contains_push_if(s5, c6, target.unwrap(), t);
    lemma_contains_push_if(s4, c5, target.unwrap(), t);
    lemma_contains_push_if(s3, c4, Square::at(f + 1, r + d), t);
    lemma_contains_push_if(s2, c3, Square::at(f - 1, r + d), t);
    lemma_contains_push_if(s1, c2, Square::at(f, r + 2 * d), t);
    lemma_contains_push_if(s0, c1, Square::at(f, r + d), t);
}

proof fn lemma_pinned_pawn_moves_open(
    b: Seq<Piece>,
    square: Square,
    pin: (i8, i8),
    color: u8,
    target: Option<Square>,
    t: Square,
)
    requires
        b.len() == 64,
        square.valid(),
        target is Some ==> target.unwrap().valid(),
        pinned_pawn_moves(b, square, pin, color, target).contains(t),
    ensures
        open_to(b, t, color),
{
    let f = square.0 as int % 8;
    let r = square.0 as int / 8;
    let d = crate::movegen::pawn_step(color);
    let s0 = Seq::<Square>::empty();
    if pin.0 == 0 {
        let c1 = crate::movegen::empty_at(b, f, r + d);
        let s1 = push_if(s0, c1, Square::at(f, r + d));
        let c2 = crate::movegen::empty_at(b, f, r + d) && r == crate::movegen::pawn_start_rank(
            color,
        ) && crate::movegen::empty_at(b, f, r + 2 * d);
        lemma_contains_push_if(s1, c2, Square::at(f, r + 2 * d), t);
        lemma_contains_push_if(s0, c1, Square::at(f, r + d), t);
    } else if pin.1 != 0 {
        let c1 = crate::movegen::pinned_capture_at(b, f, r, pin, -1, color);
        let s1 = push_if(s0, c1, Square::at(f - pin.0, r - pin.1));
        let c2 = crate::movegen::pinned_capture_at(b, f, r, pin, 1, color);
        let s2 = push_if(s1, c2, Square::at(f + pin.0, r + pin.1));
        let c3 = crate::movegen::pinned_en_passant_at(b, f, r, pin, -1, color, target);
        let s3 = push_if(s2, c3, target.unwrap());
        let c4 = crate::movegen::pinned_en_passant_at(b, f, r, pin, 1, color, target);
        lemma_contains_push_if(s3, c4, target.unwrap(), t);
        lemma_contains_push_if(s2, c3, target.unwrap(), t);
        lemma_contains_push_if(s1, c2, Square::at(f + pin.0, r + pin.1), t);
        lemma_contains_push_if(s0, c1, Square::at(f - pin.0, r - pin.1), t);
    }
}

/// A king that goes two files along its rank castles: it stood on its
/// first square and castling was allowed on that side.
pub proof fn lemma_king_moves_castle(s: Position, square: Square, t: Square)
    requires
        s.wf(),
        square.valid(),
        s.king_moves(square).contains(t),
        square.0 % 8 == 4,
        t.0 / 8 == square.0 / 8,
        t.0 % 8 == 6 || t.0 % 8 == 2,
    ensures
        square == Square::at(4, home_rank(spec_piece_color(s.squares[square.0 as int]))),
        s.can_castle(spec_piece_color(s.squares[square.0 as int]), t.0 % 8 == 6),
{
    let b = s.squares;
    let color = spec_piece_color(b[square.0 as int]);
    let pred = king_target_pred(b, square, color);
    let steps = squares_where(pred, 64);
    let home = square == Square::at(4, home_rank(color));
    let rank = square.0 as int / 8;
    let c1 = home && s.can_castle(color, true);
    let s1 = push_if(steps, c1, Square::at(6, rank));
    let c2 = home && s.can_castle(color, false);
    lemma_contains_push_if(s1, c2, Square::at(2, rank), t);
    lemma_contains_push_if(steps, c1, Square::at(6, rank), t);
    lemma_squares_where_contains(pred, 64);
    if steps.contains(t) {
        assert(pred(t.0 as int));
        assert(king_step(square.0 as int, t.0 as int));
    }
}

proof fn lemma_king_moves_open(s: Position, square: Square, t: Square)
    requires
        s.wf(),
        square.valid(),
        s.king_moves(square).contains(t),
    ensures
        open_to(s.squares, t, spec_piece_color(s.squares[square.0 as int])),
{
    let b = s.squares;
    let color = spec_piece_color(b[square.0 as int]);
    let pred = king_target_pred(b, square, color);
    let steps = squares_where(pred, 64);
    let home = square == Square::at(4, home_rank(color));
    let rank = square.0 as int / 8;
    let c1 = home && s.can_castle(color, true);
    let s1 = push_if(steps, c1, Square::at(6, rank));
    let c2 = home && s.can_castle(color, false);
    lemma_contains_push_if(s1, c2, Square::at(2, rank), t);
    lemma_contains_push_if(steps, c1, Square::at(6, rank), t);
    lemma_squares_where_contains(pred, 64);
    if steps.contains(t) {
        assert(pred(t.0 as int));
    }
}

/// Move generation never sends a piece off the board or onto a piece of
/// its own side.
pub proof fn lemma_pseudo_legal_open(s: Position, square: Square, t: Square)
    requires
        s.wf(),
        square.valid(),
        s.pseudo_legal_moves(square).contains(t),
    ensures
        open_to(s.squares, t, s.turn),
{
    reveal(Position::pseudo_legal_moves);
    let b = s.squares;
    let piece = b[square.0 as int];
    let kind = spec_piece_type(piece);
    let color = spec_piece_color(piece);
    let f = square.0 as int % 8;
    let r = square.0 as int / 8;
    assert(spec_is_piece_color(piece, s.turn));
    assert(color == s.turn);
    match pinned(b, square) {
        Some(pin) => {
            if kind == KNIGHT {
            } else if kind == PAWN {
                lemma_pinned_pawn_moves_open(b, square, pin, color, s.en_passant_target, t);
            } else if (kind == ROOK && (pin.0 == 0 || pin.1 == 0)) || (kind == BISHOP && pin.0 != 0
                && pin.1 != 0) || kind == QUEEN {
                let a = ray_moves(b, f, r, pin.0 as int, pin.1 as int, color);
                let c = ray_moves(b, f, r, -pin.0, -pin.1, color);
                lemma_contains_concat(a, c, t);
                if a.contains(t) {
                    lemma_ray_moves_open(b, f, r, pin.0 as int, pin.1 as int, color, t);
                } else {
                    lemma_ray_moves_open(b, f, r, -pin.0, -pin.1, color, t);
                }
            } else {
            }
        },
        None => {
            if kind == KNIGHT {
                let pred = knight_target_pred(b, square, s.turn);
                lemma_squares_where_contains(pred, 64);
                assert(pred(t.0 as int));
            } else if kind == ROOK {
                lemma_rook_moves_open(b, square, color, t);
            } else if kind == BISHOP {
                lemma_bishop_moves_open(b, square, color, t);
            } else if kind == QUEEN {
                lemma_contains_concat(
                    rook_moves(b, square, color),
                    bishop_moves(b, square, color),
                    t,
                );
                if rook_moves(b, square, color).contains(t) {
                    lemma_rook_moves_open(b, square, color, t);
                } else {
                    lemma_bishop_moves_open(b, square, color, t);
                }
            } else if kind == KING {
                lemma_king_moves_open(s, square, t);
            } else if kind == PAWN {
                lemma_pawn_moves_open(b, square, color, s.en_passant_target, t);
            } else {
            }
        },
    }
}

/// A legal destination is one of the piece's generated moves.
pub proof fn lemma_legal_is_pseudo_legal(s: Position, square: Square, t: Square)
    requires
        s.legal_moves(square).contains(t),
    ensures
        s.pseudo_legal_moves(square).contains(t),
{
    reveal(Position::legal_moves);
    let pseudo = s.pseudo_legal_moves(square);
    match crate::attacks::spec_find_king(s.squares, s.turn) {
        None => {},
        Some(king) => {
            let checking = crate::validation::checkers(s.squares, king, s.turn);
            if spec_piece_type(s.squares[square.0 as int]) == KING {
                lemma_keep_where(
                    pseudo,
                    crate::validation::safe_pred(
                        s.squares.update(square.0 as int, EMPTY),
                        spec_opposite_color(s.turn),
                    ),
                    pseudo.len() as int,
                );
            } else if checking.len() >= 2 {
            } else {
                lemma_keep_where(
                    pseudo,
                    s.answers_check(square, king, checking),
                    pseudo.len() as int,
                );
            }
        },
    }
}

/// No legal move leaves the board, stays in place or captures a piece of
/// the side to move.
pub proof fn law_legal_move_is_open(s: Position, mv: Move)
    requires
        s.wf(),
        s.is_legal(mv),
    ensures
        mv.valid(),
        mv.from != mv.to,
        spec_is_piece_color(s.squares[mv.from.0 as int], s.turn),
        !spec_is_piece_color(s.squares[mv.to.0 as int], s.turn),
        s.promotion_ok(mv),
{
    reveal(Position::is_legal);
    lemma_legal_is_pseudo_legal(s, mv.from, mv.to);
    lemma_pseudo_legal_open(s, mv.from, mv.to);
}

/// A legal move with the shape of castling is a castling that the position
/// allows, made by the king from its first square.
pub proof fn law_castling_move_is_allowed(s: Position, mv: Move)
    requires
        s.wf(),
        s.is_legal(mv),
        s.castling_side(mv) is Some,
    ensures
        mv.from == Square::at(4, home_rank(s.turn)),
        s.can_castle(s.turn, s.castling_side(mv).unwrap()),
{
    reveal(Position::pseudo_legal_moves);
    reveal(Position::is_legal);
    let b = s.squares;
    lemma_legal_is_pseudo_legal(s, mv.from, mv.to);
    assert(spec_piece_type(b[mv.from.0 as int]) == KING);
    match pinned(b, mv.from) {
        Some(pin) => {
            assert(pinned_piece_moves(b, mv.from, pin, s.en_passant_target) =~= Seq::empty());
        },
        None => {
            lemma_king_moves_castle(s, mv.from, mv.to);
        },
    }
}

/// A legal move leads from a well-formed position to a well-formed
/// position.
pub proof fn law_apply_preserves_wf(s: Position, mv: Move)
    requires
        s.wf(),
        s.is_legal(mv),
    ensures
        s.apply(mv).wf(),
{
    reveal(Position::apply);
    reveal(Position::undo);
    reveal(Position::is_legal);
    let a = s.apply(mv);
    let b = s.squares;
    let moving = b[mv.from.0 as int];
    assert(piece_valid(moving));
    assert(piece_valid(b[mv.to.0 as int]));
    if mv.promotion is Some {
        lemma_make_piece(mv.promotion.unwrap(), spec_piece_color(moving));
    }
    assert(piece_valid(b[en_passant_victim(mv).0 as int]));
    assert forall|i: int| 0 <= i < 64 implies piece_valid(#[trigger] a.squares[i]) by {
        assert(piece_valid(b[i]));
        assert(piece_valid(b[home_rank(spec_piece_color(moving)) * 8 + 4]));
        assert(piece_valid(b[home_rank(spec_piece_color(moving)) * 8 + 7]));
        assert(piece_valid(b[home_rank(spec_piece_color(moving)) * 8]));
    }
    assert(s.record(mv).valid());
    assert forall|k: int| 0 <= k < a.history.len() implies (#[trigger] a.history[k]).valid() by {
        if k < s.history.len() {
            assert(a.history[k] == s.history[k]);
        }
    }
}

/// The squares between the king and the rook of a castling are empty.
pub open spec fn castle_path_clear(b: Seq<Piece>, color: u8, kingside: bool) -> bool {
    let rank = home_rank(color);
    if kingside {
        b[rank * 8 + 5] == EMPTY && b[rank * 8 + 6] == EMPTY
    } else {
        b[rank * 8 + 1] == EMPTY && b[rank * 8 + 2] == EMPTY && b[rank * 8 + 3] == EMPTY
    }
}

/// A legal castling starts from the king's first square with the squares
/// towards the rook empty.
proof fn lemma_castle_path(s: Position, mv: Move)
    requires
        s.wf(),
        s.is_legal(mv),
        s.castling_side(mv) is Some,
    ensures
        mv.from == Square::at(4, home_rank(s.turn)),
        castle_path_clear(s.squares, s.turn, s.castling_side(mv).unwrap()),
{
    law_castling_move_is_allowed(s, mv);
}

/// What taking back restores of the squares, from the shape of the move
/// alone.
proof fn lemma_squares_restored(s: Position, mv: Move)
    requires
        s.wf(),
        mv.valid(),
        mv.from != mv.to,
        spec_is_piece_color(s.squares[mv.from.0 as int], s.turn),
        s.promotion_ok(mv),
        s.castling_side(mv) is Some ==> mv.from == Square::at(4, home_rank(s.turn))
            && castle_path_clear(s.squares, s.turn, s.castling_side(mv).unwrap()),
    ensures
        s.apply(mv).squares_before(s.record(mv)) == s.squares,
{
    reveal(Position::apply);
    reveal(Position::undo);
    let a = s.apply(mv);
    let gm = s.record(mv);
    let b = s.squares;
    let moving = b[mv.from.0 as int];
    assert(spec_piece_color(moving) == s.turn);
    assert(piece_valid(moving));
    if s.castling_side(mv) is Some {
        let after = castled_squares(b, s.turn, s.castling_side(mv).unwrap());
        assert(a.squares == after);
        assert(uncastled_squares(after, mv) =~= b);
    } else if s.is_en_passant(mv) {
        assert(a.squares_before(gm) =~= b);
    } else if mv.promotion is Some {
        lemma_make_piece(PAWN, s.turn);
        assert(a.squares_before(gm) =~= b);
    } else {
        assert(a.squares_before(gm) =~= b);
    }
}

/// Taking back a legal move that was just played restores the position:
/// squares, side to move, castling rights, en-passant state, clocks and
/// history are those from before the move. The status is "in progress",
/// as playing the move left it.
pub proof fn law_undo_restores(s: Position, mv: Move)
    requires
        s.wf(),
        s.is_legal(mv),
    ensures
        s.apply(mv).undo() == s.with_status(GameStatus::InProgress),
{
    reveal(Position::apply);
    reveal(Position::undo);
    let a = s.apply(mv);
    let gm = s.record(mv);
    assert(a.history.last() == gm);
    assert(a.history.drop_last() =~= s.history);
    law_legal_move_is_open(s, mv);
    if s.castling_side(mv) is Some {
        lemma_castle_path(s, mv);
    }
    lemma_squares_restored(s, mv);
    assert(a.undo().squares == s.squares);
}

/// The legal moves do not depend on the status.
pub proof fn law_moves_ignore_status(s: Position, status: GameStatus)
    ensures
        s.with_status(status).all_legal_moves() == s.all_legal_moves(),
{
    reveal(Position::all_legal_moves);
    let t = s.with_status(status);
    let own = squares_where(crate::movegen::own_pred(s.squares, s.turn), 64);
    lemma_moves_over_ignore_status(s, status, own, own.len() as int);
}

pub proof fn lemma_legal_moves_ignore_status(s: Position, status: GameStatus, square: Square)
    ensures
        s.with_status(status).legal_moves(square) == s.legal_moves(square),
{
    reveal(Position::pseudo_legal_moves);
    reveal(Position::legal_moves);
    let t = s.with_status(status);
    let pseudo = s.pseudo_legal_moves(square);
    assert(t.pseudo_legal_moves(square) == pseudo);
    match crate::attacks::spec_find_king(s.squares, s.turn) {
        None => {},
        Some(king) => {
            let checking = crate::validation::checkers(s.squares, king, s.turn);
            if spec_piece_type(s.squares[square.0 as int]) != KING && checking.len() < 2 {
                let p = t.answers_check(square, king, checking);
                let q = s.answers_check(square, king, checking);
                assert forall|k: int| 0 <= k < pseudo.len() implies p(#[trigger] pseudo[k]) == q(
                    pseudo[k],
                ) by {
                    let mv = Move { from: square, to: pseudo[k], promotion: None };
                    assert(t.is_en_passant(mv) == s.is_en_passant(mv));
                    assert(t.en_passant_legal(mv) == s.en_passant_legal(mv));
                }
                crate::seqs::lemma_keep_where_ext(pseudo, p, q, pseudo.len() as int);
            }
        },
    }
}

proof fn lemma_moves_over_ignore_status(s: Position, status: GameStatus, own: Seq<Square>, n: int)
    ensures
        s.with_status(status).moves_over(own, n) == s.moves_over(own, n),
    decreases n,
{
    if n > 0 {
        lemma_moves_over_ignore_status(s, status, own, n - 1);
        lemma_legal_moves_ignore_status(s, status, own[n - 1]);
    }
}

/// After a legal move is played and taken back, the legal moves are those
/// from before, and so is their count.
pub proof fn law_undo_restores_legal_moves(s: Position, mv: Move)
    requires
        s.wf(),
        s.is_legal(mv),
    ensures
        s.apply(mv).undo().all_legal_moves() == s.all_legal_moves(),
        s.apply(mv).undo().all_legal_moves().len() == s.all_legal_moves().len(),
{
    law_undo_restores(s, mv);
    law_moves_ignore_status(s, GameStatus::InProgress);
}

/// Each move of the line is legal in the position that the moves before it
/// lead to.
pub open spec fn legal_line(s: Position, moves: Seq<Move>) -> bool
    decreases moves.len(),
{
    moves.len() == 0 || (s.is_legal(moves[0]) && legal_line(
        s.apply(moves[0]),
        moves.drop_first(),
    ))
}

/// The position after the moves of the line are played in turn.
pub open spec fn apply_all(s: Position, moves: Seq<Move>) -> Position
    decreases moves.len(),
{
    if moves.len() == 0 {
        s
    } else {
        apply_all(s.apply(moves[0]), moves.drop_first())
    }
}

/// The position after `n` moves are taken back.
pub open spec fn undo_times(s: Position, n: nat) -> Position
    decreases n,
{
    if n == 0 {
        s
    } else {
        undo_times(s.undo(), (n - 1) as nat)
    }
}

proof fn lemma_undo_times_last(s: Position, n: nat)
    ensures
        undo_times(s, n + 1) == undo_times(s, n).undo(),
    decreases n,
{
    assert(undo_times(s, n + 1) == undo_times(s.undo(), n));
    if n > 0 {
        lemma_undo_times_last(s.undo(), (n - 1) as nat);
        assert(undo_times(s, n) == undo_times(s.undo(), (n - 1) as nat));
    } else {
        assert(undo_times(s.undo(), 0) == s.undo());
    }
}

/// Playing any line of legal moves and taking back as many moves restores
/// the position from before the line, with the status "in progress".
pub proof fn law_undo_restores_line(s: Position, moves: Seq<Move>)
    requires
        s.wf(),
        legal_line(s, moves),
        moves.len() > 0,
    ensures
        undo_times(apply_all(s, moves), moves.len()) == s.with_status(GameStatus::InProgress),
    decreases moves.len(),
{
    let first = moves[0];
    let rest = moves.drop_first();
    let next = s.apply(first);
    law_apply_preserves_wf(s, first);
    law_undo_restores(s, first);
    let end = apply_all(s, moves);
    assert(end == apply_all(next, rest));
    assert(moves.len() == rest.len() + 1);
    lemma_undo_times_last(end, rest.len());
    law_apply_shape(s, first);
    assert(next.with_status(GameStatus::InProgress) == next);
    if rest.len() > 0 {
        law_undo_restores_line(next, rest);
        assert(undo_times(end, rest.len()) == next);
    } else {
        assert(end == next);
        assert(undo_times(end, 0) == next);
    }
    assert(undo_times(end, (rest.len() + 1) as nat) == next.undo());
}

/// Whether a move is legal does not depend on the status.
pub proof fn law_legality_ignores_status(s: Position, status: GameStatus, mv: Move)
    ensures
        s.with_status(status).is_legal(mv) == s.is_legal(mv),
{
    reveal(Position::is_legal);
    lemma_legal_moves_ignore_status(s, status, mv.from);
}

proof fn lemma_moves_to_targets_has(
    b: Seq<Piece>,
    from: Square,
    targets: Seq<Square>,
    n: int,
    j: int,
    m: Move,
)
    requires
        0 <= j < n <= targets.len(),
        crate::movegen::moves_to(b, from, targets[j]).contains(m),
    ensures
        crate::movegen::moves_to_targets(b, from, targets, n).contains(m),
    decreases n,
{
    let before = crate::movegen::moves_to_targets(b, from, targets, n - 1);
    let last = crate::movegen::moves_to(b, from, targets[n - 1]);
    lemma_contains_concat(before, last, m);
    if j < n - 1 {
        lemma_moves_to_targets_has(b, from, targets, n - 1, j, m);
    }
}

proof fn lemma_moves_over_has(s: Position, own: Seq<Square>, n: int, k: int, m: Move)
    requires
        0 <= k < n <= own.len(),
        crate::movegen::moves_to_targets(
            s.squares,
            own[k],
            s.legal_moves(own[k]),
            s.legal_moves(own[k]).len() as int,
        ).contains(m),
    ensures
        s.moves_over(own, n).contains(m),
    decreases n,
{
    let before = s.moves_over(own, n - 1);
    let last = crate::movegen::moves_to_targets(
        s.squares,
        own[n - 1],
        s.legal_moves(own[n - 1]),
        s.legal_moves(own[n - 1]).len() as int,
    );
    lemma_contains_concat(before, last, m);
    if k < n - 1 {
        lemma_moves_over_has(s, own, n - 1, k, m);
    }
}

pub proof fn lemma_moves_to_targets_member(
    b: Seq<Piece>,
    from: Square,
    targets: Seq<Square>,
    n: int,
    m: Move,
) -> (j: int)
    requires
        0 <= n <= targets.len(),
        crate::movegen::moves_to_targets(b, from, targets, n).contains(m),
    ensures
        0 <= j < n,
        crate::movegen::moves_to(b, from, targets[j]).contains(m),
    decreases n,
{
    if n <= 0 {
        assert(false);
        0
    } else {
        let before = crate::movegen::moves_to_targets(b, from, targets, n - 1);
        let last = crate::movegen::moves_to(b, from, targets[n - 1]);
        lemma_contains_concat(before, last, m);
        if last.contains(m) {
            n - 1
        } else {
            lemma_moves_to_targets_member(b, from, targets, n - 1, m)
        }
    }
}

pub proof fn lemma_moves_over_member(s: Position, own: Seq<Square>, n: int, m: Move) -> (k: int)
    requires
        0 <= n <= own.len(),
        s.moves_over(own, n).contains(m),
    ensures
        0 <= k < n,
        crate::movegen::moves_to_targets(
            s.squares,
            own[k],
            s.legal_moves(own[k]),
            s.legal_moves(own[k]).len() as int,
        ).contains(m),
    decreases n,
{
    if n <= 0 {
        assert(false);
        0
    } else {
        let before = s.moves_over(own, n - 1);
        let last = crate::movegen::moves_to_targets(
            s.squares,
            own[n - 1],
            s.legal_moves(own[n - 1]),
            s.legal_moves(own[n - 1]).len() as int,
        );
        lemma_contains_concat(before, last, m);
        if last.contains(m) {
            n - 1
        } else {
            lemma_moves_over_member(s, own, n - 1, m)
        }
    }
}

/// What the moves to one destination are: the move itself, or its four
/// promotions.
pub proof fn lemma_moves_to(b: Seq<Piece>, from: Square, to: Square, m: Move)
    ensures
        crate::movegen::moves_to(b, from, to).contains(m) <==> (m.from == from && m.to == to && (
        if crate::movegen::promotes(b, from, to) {
            m.promotion == Some(QUEEN) || m.promotion == Some(ROOK) || m.promotion == Some(BISHOP)
                || m.promotion == Some(KNIGHT)
        } else {
            m.promotion is None
        })),
{
    let list = crate::movegen::moves_to(b, from, to);
    if list.contains(m) {
        let k = choose|k: int| 0 <= k < list.len() && list[k] == m;
        assert(list[k] == m);
    }
    if crate::movegen::promotes(b, from, to) {
        assert(list[0] == Move { from, to, promotion: Some(QUEEN) });
        assert(list[1] == Move { from, to, promotion: Some(ROOK) });
        assert(list[2] == Move { from, to, promotion: Some(BISHOP) });
        assert(list[3] == Move { from, to, promotion: Some(KNIGHT) });
    } else {
        assert(list[0] == Move { from, to, promotion: None });
    }
}

/// The list of all legal moves holds exactly the legal moves.
pub proof fn law_all_legal_moves_are_the_legal_moves(s: Position, mv: Move)
    requires
        s.wf(),
    ensures
        s.all_legal_moves().contains(mv) <==> s.is_legal(mv),
{
    reveal(Position::all_legal_moves);
    reveal(Position::is_legal);
    let b = s.squares;
    let q = crate::movegen::own_pred(b, s.turn);
    let own = squares_where(q, 64);
    lemma_squares_where_contains(q, 64);
    if s.all_legal_moves().contains(mv) {
        let k = lemma_moves_over_member(s, own, own.len() as int, mv);
        let from = own[k];
        assert(own.contains(from));
        let targets = s.legal_moves(from);
        let j = lemma_moves_to_targets_member(b, from, targets, targets.len() as int, mv);
        lemma_moves_to(b, from, targets[j], mv);
        assert(targets.contains(targets[j]));
        lemma_legal_is_pseudo_legal(s, from, targets[j]);
        lemma_pseudo_legal_open(s, from, targets[j]);
    }
    if s.is_legal(mv) {
        assert(q(mv.from.0 as int));
        assert(own.contains(mv.from));
        let k = choose|k: int| 0 <= k < own.len() && own[k] == mv.from;
        let targets = s.legal_moves(mv.from);
        let j = choose|j: int| 0 <= j < targets.len() && targets[j] == mv.to;
        lemma_moves_to(b, mv.from, mv.to, mv);
        lemma_moves_to_targets_has(b, mv.from, targets, targets.len() as int, j, mv);
        lemma_moves_over_has(s, own, own.len() as int, k, mv);
    }
}

/// The bitboards follow from the squares: two sets of bitboards that
/// describe the same squares are equal.
pub proof fn law_bitboards_follow_squares(
    a: crate::bitboard::BitboardManager,
    b: crate::bitboard::BitboardManager,
    squares: Seq<Piece>,
)
    requires
        a.matches(squares),
        b.matches(squares),
    ensures
        a == b,
{
    crate::bitboard::lemma_bits_equal(a.white_pawns, b.white_pawns);
    crate::bitboard::lemma_bits_equal(a.white_knights, b.white_knights);
    crate::bitboard::lemma_bits_equal(a.white_bishops, b.white_bishops);
    crate::bitboard::lemma_bits_equal(a.white_rooks, b.white_rooks);
    crate::bitboard::lemma_bits_equal(a.white_queens, b.white_queens);
    crate::bitboard::lemma_bits_equal(a.white_king, b.white_king);
    crate::bitboard::lemma_bits_equal(a.black_pawns, b.black_pawns);
    crate::bitboard::lemma_bits_equal(a.black_knights, b.black_knights);
    crate::bitboard::lemma_bits_equal(a.black_bishops, b.black_bishops);
    crate::bitboard::lemma_bits_equal(a.black_rooks, b.black_rooks);
    crate::bitboard::lemma_bits_equal(a.black_queens, b.black_queens);
    crate::bitboard::lemma_bits_equal(a.black_king, b.black_king);
    crate::bitboard::lemma_bits_equal(a.white_pieces, b.white_pieces);
    crate::bitboard::lemma_bits_equal(a.black_pieces, b.black_pieces);
    crate::bitboard::lemma_bits_equal(a.all_pieces, b.all_pieces);
}

/// The position after a move does not depend on the status before it.
pub proof fn law_apply_ignores_status(s: Position, status: GameStatus, mv: Move)
    ensures
        s.with_status(status).apply(mv) == s.apply(mv),
{
    reveal(Position::apply);
}

/// A move leaves the game in progress, adds its record to the history and
/// costs the clocks at most one move of room.
pub proof fn law_apply_shape(s: Position, mv: Move)
    ensures
        s.apply(mv).status is InProgress,
        s.apply(mv).turn == spec_opposite_color(s.turn),
        s.apply(mv).history.len() == s.history.len() + 1,
        s.apply(mv).history.last() == s.record(mv),
        s.clock_room() >= 1 ==> s.apply(mv).clock_room() >= s.clock_room() - 1,
{
    reveal(Position::apply);
}

/// A legal move of the king that is not a castling lands on a square that
/// no enemy piece attacks once the move is played: the king does not
/// shelter behind the square it leaves.
pub proof fn law_king_move_is_safe(s: Position, mv: Move)
    requires
        s.wf(),
        s.is_legal(mv),
        spec_piece_type(s.squares[mv.from.0 as int]) == KING,
        s.castling_side(mv) is None,
    ensures
        !crate::attacks::attacked(s.apply(mv).squares, mv.to, spec_opposite_color(s.turn)),
{
    reveal(Position::legal_moves);
    reveal(Position::is_legal);
    reveal(Position::apply);
    law_legal_move_is_open(s, mv);
    let b = s.squares;
    let lifted = b.update(mv.from.0 as int, EMPTY);
    let opp = spec_opposite_color(s.turn);
    let pseudo = s.pseudo_legal_moves(mv.from);
    match crate::attacks::spec_find_king(b, s.turn) {
        None => {},
        Some(king) => {
            lemma_keep_where(pseudo, crate::validation::safe_pred(lifted, opp), pseudo.len() as int);
            assert(!crate::attacks::attacked(lifted, mv.to, opp));
            let king_piece = b[mv.from.0 as int];
            crate::attack_laws::law_attack_ignores_target(lifted, mv.to, opp, king_piece);
            assert(s.apply(mv).squares =~= lifted.update(mv.to.0 as int, king_piece));
        },
    }
}

/// A legal en-passant capture leaves the king of the capturing side
/// unattacked once the move is played, also where the capture opens the
/// rank of the two pawns.
pub proof fn law_en_passant_is_safe(s: Position, mv: Move)
    requires
        s.wf(),
        s.is_legal(mv),
        s.is_en_passant(mv),
    ensures
        match crate::attacks::spec_find_king(s.squares, s.turn) {
            Some(k) => !crate::attacks::attacked(
                s.apply(mv).squares,
                k,
                spec_opposite_color(s.turn),
            ),
            None => false,
        },
{
    reveal(Position::legal_moves);
    reveal(Position::is_legal);
    reveal(Position::apply);
    let b = s.squares;
    let pseudo = s.pseudo_legal_moves(mv.from);
    match crate::attacks::spec_find_king(b, s.turn) {
        None => {},
        Some(king) => {
            let checking = crate::validation::checkers(b, king, s.turn);
            lemma_keep_where(
                pseudo,
                s.answers_check(mv.from, king, checking),
                pseudo.len() as int,
            );
            let plain = Move { from: mv.from, to: mv.to, promotion: None };
            assert(s.is_en_passant(plain));
            assert(s.en_passant_legal(plain));
            assert(s.squares_after_en_passant(plain) == s.squares_after_en_passant(mv));
        },
    }
}

} // verus!
