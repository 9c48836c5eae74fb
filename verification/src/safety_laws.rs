//! The king's safety: a legal move of a piece other than the king leaves the
//! king of the side that moved unattacked.

use vstd::prelude::*;
use crate::attack_laws::ahead;
use crate::attack_laws::is_attacker;
use crate::attack_laws::law_attack_ignores_target;
use crate::attack_laws::law_attacked_by_a_piece;
use crate::attack_laws::lemma_king_threat_has;
use crate::attack_laws::lemma_path_ahead;
use crate::attack_laws::lemma_path_ray_hit;
use crate::attack_laws::lemma_path_reverse;
use crate::attacks::attacked;
use crate::attacks::clear_path;
use crate::attacks::is_direction;
use crate::attacks::king_threat;
use crate::attacks::lemma_king_from_is_king;
use crate::attacks::offset_holds;
use crate::attacks::pawn_source_step;
use crate::attacks::ray_measure;
use crate::attacks::sign;
use crate::attacks::slider_kind;
use crate::attacks::spec_find_king;
use crate::bitboard::king_step;
use crate::bitboard::lemma_squares_where_contains;
use crate::bitboard::squares_where;
use crate::board::Position;
use crate::board::on_board;
use crate::laws::castle_path_clear;
use crate::laws::law_castling_move_is_allowed;
use crate::laws::law_en_passant_is_safe;
use crate::laws::law_king_move_is_safe;
use crate::laws::law_legal_move_is_open;
use crate::laws::lemma_legal_is_pseudo_legal;
use crate::movegen::empty_at;
use crate::movegen::king_target_pred;
use crate::movegen::pawn_start_rank;
use crate::movegen::pawn_step;
use crate::movegen::pinned_capture_at;
use crate::movegen::pinned_en_passant_at;
use crate::movegen::pinned_piece_moves;
use crate::movegen::ray_moves;
use crate::seqs::lemma_contains_concat;
use crate::seqs::lemma_contains_push;
use crate::seqs::lemma_contains_push_if;
use crate::seqs::lemma_keep_where;
use crate::seqs::push_if;
use crate::seqs::push_some;
use crate::special::home_rank;
use crate::state::arriving_piece;
use crate::state::castled_squares;
use crate::types::BISHOP;
use crate::types::BLACK;
use crate::types::Move;
use crate::types::QUEEN;
use crate::types::ROOK;
use crate::types::WHITE;
use crate::types::lemma_make_piece;
use crate::types::spec_is_piece_color;
use crate::types::spec_opposite_color;
use crate::types::spec_piece_color;
use crate::types::spec_piece_type;
use crate::types::{EMPTY, KING, KNIGHT, PAWN};
use crate::types::{Piece, Square};
use crate::validation::between_squares;
use crate::validation::blocking_squares;
use crate::validation::checkers;
use crate::validation::knight_checker_pred;
use crate::validation::offset_square;
use crate::validation::other_side;
use crate::validation::pinned;
use crate::validation::ray_checker;
use crate::validation::safe_pred;

verus! {

/// The point `(qf, qr)` is one of the points strictly between `(f, r)` and
/// `(tf, tr)` on the walk from the first in direction `(df, dr)`.
pub open spec fn inside(f: int, r: int, tf: int, tr: int, df: int, dr: int, qf: int, qr: int) -> bool
    decreases ray_measure(f, r, df, dr),
{
    let nf = f + df;
    let nr = r + dr;
    if (nf == tf && nr == tr) || !on_board(nf, nr) || (df == 0 && dr == 0) {
        false
    } else if nf == qf && nr == qr {
        true
    } else {
        inside(nf, nr, tf, tr, df, dr, qf, qr)
    }
}

/// The squares strictly between the ends of a clear path are on the board
/// and empty.
pub proof fn lemma_inside_is_empty(
    b: Seq<Piece>,
    f: int,
    r: int,
    tf: int,
    tr: int,
    df: int,
    dr: int,
    qf: int,
    qr: int,
)
    requires
        clear_path(b, f, r, tf, tr, df, dr),
        inside(f, r, tf, tr, df, dr, qf, qr),
    ensures
        on_board(qf, qr),
        b[qr * 8 + qf] == EMPTY,
    decreases ray_measure(f, r, df, dr),
{
    let nf = f + df;
    let nr = r + dr;
    if nf == qf && nr == qr {
    } else {
        lemma_inside_is_empty(b, nf, nr, tf, tr, df, dr, qf, qr);
    }
}

/// A clear path splits at a point strictly inside it.
pub proof fn lemma_path_split(
    b: Seq<Piece>,
    f: int,
    r: int,
    tf: int,
    tr: int,
    df: int,
    dr: int,
    qf: int,
    qr: int,
)
    requires
        clear_path(b, f, r, tf, tr, df, dr),
        inside(f, r, tf, tr, df, dr, qf, qr),
    ensures
        clear_path(b, f, r, qf, qr, df, dr),
        clear_path(b, qf, qr, tf, tr, df, dr),
    decreases ray_measure(f, r, df, dr),
{
    let nf = f + df;
    let nr = r + dr;
    if nf == qf && nr == qr {
    } else {
        lemma_path_split(b, nf, nr, tf, tr, df, dr, qf, qr);
    }
}

/// Of two clear paths from one point in one direction, the one that ends on
/// an occupied square is the longer: the end of the other lies strictly
/// inside it.
pub proof fn lemma_shorter_path_inside(
    b: Seq<Piece>,
    f: int,
    r: int,
    sf: int,
    sr: int,
    tf: int,
    tr: int,
    df: int,
    dr: int,
)
    requires
        is_direction(df, dr),
        clear_path(b, f, r, sf, sr, df, dr),
        clear_path(b, f, r, tf, tr, df, dr),
        on_board(sf, sr),
        on_board(tf, tr),
        sf != tf || sr != tr,
        b[tr * 8 + tf] != EMPTY,
    ensures
        inside(f, r, tf, tr, df, dr, sf, sr),
    decreases ray_measure(f, r, df, dr),
{
    let nf = f + df;
    let nr = r + dr;
    if nf == sf && nr == sr {
    } else if nf == tf && nr == tr {
    } else {
        lemma_shorter_path_inside(b, nf, nr, sf, sr, tf, tr, df, dr);
    }
}

/// A point strictly inside a clear path lies ahead of its start and behind
/// its end.
pub proof fn lemma_inside_ahead(
    b: Seq<Piece>,
    f: int,
    r: int,
    tf: int,
    tr: int,
    df: int,
    dr: int,
    qf: int,
    qr: int,
)
    requires
        is_direction(df, dr),
        clear_path(b, f, r, tf, tr, df, dr),
        inside(f, r, tf, tr, df, dr, qf, qr),
    ensures
        ahead(f, r, qf, qr, df, dr),
        ahead(qf, qr, tf, tr, df, dr),
{
    lemma_path_split(b, f, r, tf, tr, df, dr, qf, qr);
    lemma_path_ahead(b, f, r, qf, qr, df, dr);
    lemma_path_ahead(b, qf, qr, tf, tr, df, dr);
}

/// The squares after a plain move: `piece` stands on `to` and `from` is
/// empty.
pub open spec fn moved(b: Seq<Piece>, from: int, to: int, piece: Piece) -> Seq<Piece> {
    b.update(to, piece).update(from, EMPTY)
}

/// A path that is clear after a move was clear before it, unless the piece
/// that moved stood inside it.
pub proof fn lemma_path_before_move(
    b: Seq<Piece>,
    from: int,
    to: int,
    piece: Piece,
    f: int,
    r: int,
    tf: int,
    tr: int,
    df: int,
    dr: int,
)
    requires
        b.len() == 64,
        0 <= from < 64,
        0 <= to < 64,
        from != to,
        piece != EMPTY,
        clear_path(moved(b, from, to, piece), f, r, tf, tr, df, dr),
        !inside(f, r, tf, tr, df, dr, from % 8, from / 8),
    ensures
        clear_path(b, f, r, tf, tr, df, dr),
    decreases ray_measure(f, r, df, dr),
{
    let nf = f + df;
    let nr = r + dr;
    let a = moved(b, from, to, piece);
    if nf == tf && nr == tr {
    } else {
        assert(on_board(nf, nr));
        assert(a[nr * 8 + nf] == EMPTY);
        assert(nr * 8 + nf != to);
        assert(nr * 8 + nf != from);
        lemma_path_before_move(b, from, to, piece, nf, nr, tf, tr, df, dr);
    }
}

/// A path on which the moved piece stood before the move was clear before
/// the move up to that piece and from it on.
pub proof fn lemma_path_through_mover(
    b: Seq<Piece>,
    from: int,
    to: int,
    piece: Piece,
    f: int,
    r: int,
    tf: int,
    tr: int,
    df: int,
    dr: int,
)
    requires
        b.len() == 64,
        0 <= from < 64,
        0 <= to < 64,
        from != to,
        piece != EMPTY,
        is_direction(df, dr),
        clear_path(moved(b, from, to, piece), f, r, tf, tr, df, dr),
        inside(f, r, tf, tr, df, dr, from % 8, from / 8),
    ensures
        clear_path(b, f, r, from % 8, from / 8, df, dr),
        clear_path(b, from % 8, from / 8, tf, tr, df, dr),
{
    let a = moved(b, from, to, piece);
    let qf = from % 8;
    let qr = from / 8;
    lemma_path_split(a, f, r, tf, tr, df, dr, qf, qr);
    lemma_path_ahead(a, f, r, qf, qr, df, dr);
    lemma_path_ahead(a, qf, qr, tf, tr, df, dr);
    lemma_not_inside_own_end(a, f, r, qf, qr, df, dr);
    lemma_not_inside_own_start(a, qf, qr, tf, tr, df, dr);
    lemma_path_before_move(b, from, to, piece, f, r, qf, qr, df, dr);
    lemma_path_before_move(b, from, to, piece, qf, qr, tf, tr, df, dr);
}

/// The end of a clear path is not strictly inside it.
pub proof fn lemma_not_inside_own_end(b: Seq<Piece>, f: int, r: int, tf: int, tr: int, df: int, dr: int)
    requires
        is_direction(df, dr),
        clear_path(b, f, r, tf, tr, df, dr),
    ensures
        !inside(f, r, tf, tr, df, dr, tf, tr),
{
    if inside(f, r, tf, tr, df, dr, tf, tr) {
        lemma_inside_ahead(b, f, r, tf, tr, df, dr, tf, tr);
    }
}

/// The start of a clear path is not strictly inside it.
pub proof fn lemma_not_inside_own_start(b: Seq<Piece>, f: int, r: int, tf: int, tr: int, df: int, dr: int)
    requires
        is_direction(df, dr),
        clear_path(b, f, r, tf, tr, df, dr),
    ensures
        !inside(f, r, tf, tr, df, dr, f, r),
{
    if inside(f, r, tf, tr, df, dr, f, r) {
        lemma_inside_ahead(b, f, r, tf, tr, df, dr, f, r);
    }
}

/// The squares listed between two points lie strictly inside the walk from
/// the one to the other.
pub proof fn lemma_between_inside(f: int, r: int, tf: int, tr: int, df: int, dr: int, t: Square)
    requires
        between_squares(f, r, tf, tr, df, dr).contains(t),
    ensures
        t.valid(),
        inside(f, r, tf, tr, df, dr, t.0 as int % 8, t.0 as int / 8),
    decreases ray_measure(f, r, df, dr),
{
    let nf = f + df;
    let nr = r + dr;
    if (nf == tf && nr == tr) || !on_board(nf, nr) || (df == 0 && dr == 0) {
    } else {
        let first = seq![Square::at(nf, nr)];
        let rest = between_squares(nf, nr, tf, tr, df, dr);
        lemma_contains_concat(first, rest, t);
        if rest.contains(t) {
            lemma_between_inside(nf, nr, tf, tr, df, dr, t);
        } else {
            assert(first[0] == t);
        }
    }
}

/// A square that a piece reaches along a ray is reached over a clear path.
pub proof fn lemma_ray_move_path(
    b: Seq<Piece>,
    f: int,
    r: int,
    df: int,
    dr: int,
    color: u8,
    t: Square,
)
    requires
        b.len() == 64,
        ray_moves(b, f, r, df, dr, color).contains(t),
    ensures
        t.valid(),
        clear_path(b, f, r, t.0 as int % 8, t.0 as int / 8, df, dr),
    decreases ray_measure(f, r, df, dr),
{
    let nf = f + df;
    let nr = r + dr;
    if !on_board(nf, nr) || (df == 0 && dr == 0) {
    } else if b[nr * 8 + nf] == EMPTY {
        let first = seq![Square::at(nf, nr)];
        let rest = ray_moves(b, nf, nr, df, dr, color);
        lemma_contains_concat(first, rest, t);
        if rest.contains(t) {
            lemma_ray_move_path(b, nf, nr, df, dr, color, t);
        } else {
            assert(first[0] == t);
        }
    } else if spec_piece_color(b[nr * 8 + nf]) != color {
        assert(seq![Square::at(nf, nr)][0] == t);
    } else {
    }
}

/// What `push_some` contains.
pub proof fn lemma_push_some_contains(s: Seq<Square>, o: Option<Square>, t: Square)
    ensures
        push_some(s, o).contains(t) <==> (s.contains(t) || o == Some(t)),
{
    match o {
        Some(x) => {
            lemma_contains_push(s, x, t);
        },
        None => {},
    }
}

/// A square is among the checking pieces exactly when it is one of the two
/// pawns, one of the knights, or the slider first on one of the eight
/// rays.
pub proof fn lemma_checkers_parts(b: Seq<Piece>, king: Square, king_color: u8, x: Square)
    ensures
        checkers(b, king, king_color).contains(x) <==> ({
            let opp = other_side(king_color);
            let f = king.0 as int % 8;
            let r = king.0 as int / 8;
            ||| offset_square(b, f, r, -1, pawn_source_step(opp), PAWN, opp) == Some(x)
            ||| offset_square(b, f, r, 1, pawn_source_step(opp), PAWN, opp) == Some(x)
            ||| squares_where(knight_checker_pred(b, king, opp), 64).contains(x)
            ||| ray_checker(b, f, r, 1, 1, opp, false) == Some(x)
            ||| ray_checker(b, f, r, 1, -1, opp, false) == Some(x)
            ||| ray_checker(b, f, r, -1, 1, opp, false) == Some(x)
            ||| ray_checker(b, f, r, -1, -1, opp, false) == Some(x)
            ||| ray_checker(b, f, r, 0, 1, opp, true) == Some(x)
            ||| ray_checker(b, f, r, 0, -1, opp, true) == Some(x)
            ||| ray_checker(b, f, r, 1, 0, opp, true) == Some(x)
            ||| ray_checker(b, f, r, -1, 0, opp, true) == Some(x)
        }),
{
    reveal(checkers);
    let opp = other_side(king_color);
    let f = king.0 as int % 8;
    let r = king.0 as int / 8;
    let o1 = offset_square(b, f, r, -1, pawn_source_step(opp), PAWN, opp);
    let o2 = offset_square(b, f, r, 1, pawn_source_step(opp), PAWN, opp);
    let knights = squares_where(knight_checker_pred(b, king, opp), 64);
    let s0 = Seq::<Square>::empty();
    let s1 = push_some(s0, o1);
    let s2 = push_some(s1, o2);
    let s3 = s2 + knights;
    let r4 = ray_checker(b, f, r, 1, 1, opp, false);
    let s4 = push_some(s3, r4);
    let r5 = ray_checker(b, f, r, 1, -1, opp, false);
    let s5 = push_some(s4, r5);
    let r6 = ray_checker(b, f, r, -1, 1, opp, false);
    let s6 = push_some(s5, r6);
    let r7 = ray_checker(b, f, r, -1, -1, opp, false);
    let s7 = push_some(s6, r7);
    let r8 = ray_checker(b, f, r, 0, 1, opp, true);
    let s8 = push_some(s7, r8);
    let r9 = ray_checker(b, f, r, 0, -1, opp, true);
    let s9 = push_some(s8, r9);
    let r10 = ray_checker(b, f, r, 1, 0, opp, true);
    let s10 = push_some(s9, r10);
    let r11 = ray_checker(b, f, r, -1, 0, opp, true);
    lemma_push_some_contains(s0, o1, x);
    lemma_push_some_contains(s1, o2, x);
    lemma_contains_concat(s2, knights, x);
    lemma_push_some_contains(s3, r4, x);
    lemma_push_some_contains(s4, r5, x);
    lemma_push_some_contains(s5, r6, x);
    lemma_push_some_contains(s6, r7, x);
    lemma_push_some_contains(s7, r8, x);
    lemma_push_some_contains(s8, r9, x);
    lemma_push_some_contains(s9, r10, x);
    lemma_push_some_contains(s10, r11, x);
}

/// Every piece other than a king that attacks the king's square is among
/// the checking pieces.
pub proof fn lemma_attacker_is_checker(b: Seq<Piece>, king: Square, king_color: u8, x: Square)
    requires
        b.len() == 64,
        king.valid(),
        is_attacker(b, x, king, other_side(king_color)),
        spec_piece_type(b[x.0 as int]) != KING,
    ensures
        checkers(b, king, king_color).contains(x),
{
    let opp = other_side(king_color);
    let f = king.0 as int % 8;
    let r = king.0 as int / 8;
    let xf = x.0 as int % 8;
    let xr = x.0 as int / 8;
    let kind = spec_piece_type(b[x.0 as int]);
    lemma_checkers_parts(b, king, king_color, x);
    assert(x.0 as int == xr * 8 + xf);
    assert(Square::at(xf, xr) == x);
    if kind == PAWN {
        let df = xf - f;
        let step = pawn_source_step(opp);
        assert(xr - r == step);
        assert(offset_holds(b, f, r, df, step, PAWN, opp));
    } else if kind == KNIGHT {
        let pred = knight_checker_pred(b, king, opp);
        lemma_squares_where_contains(pred, 64);
        assert(pred(x.0 as int));
    } else {
        let fd = f - xf;
        let rd = r - xr;
        let ef = sign(fd);
        let er = sign(rd);
        assert(fd != 0 || rd != 0);
        assert(clear_path(b, xf, xr, f, r, ef, er));
        lemma_path_reverse(b, xf, xr, f, r, ef, er);
        lemma_path_ray_hit(b, f, r, xf, xr, -ef, -er);
        let axial = fd == 0 || rd == 0;
        assert(ray_checker(b, f, r, -ef, -er, opp, axial) == Some(x));
    }
}

/// A piece that stands on a clear line between its own king and an enemy
/// slider of that line is found to be pinned, along the direction from the
/// slider to the king.
pub proof fn lemma_pin_found(b: Seq<Piece>, from: Square, king: Square, x: Square, df: int, dr: int)
    requires
        b.len() == 64,
        from.valid(),
        king.valid(),
        x.valid(),
        is_direction(df, dr),
        b[from.0 as int] != EMPTY,
        spec_find_king(b, spec_piece_color(b[from.0 as int])) == Some(king),
        clear_path(b, x.0 as int % 8, x.0 as int / 8, from.0 as int % 8, from.0 as int / 8, df, dr),
        clear_path(
            b,
            from.0 as int % 8,
            from.0 as int / 8,
            king.0 as int % 8,
            king.0 as int / 8,
            df,
            dr,
        ),
        b[x.0 as int] != EMPTY,
        spec_piece_color(b[x.0 as int]) == spec_opposite_color(spec_piece_color(b[from.0 as int])),
        slider_kind(spec_piece_type(b[x.0 as int]), df == 0 || dr == 0),
    ensures
        pinned(b, from) == Some((df as i8, dr as i8)),
{
    let pf = from.0 as int % 8;
    let pr = from.0 as int / 8;
    let kf = king.0 as int % 8;
    let kr = king.0 as int / 8;
    let xf = x.0 as int % 8;
    let xr = x.0 as int / 8;
    lemma_path_ahead(b, pf, pr, kf, kr, df, dr);
    lemma_path_reverse(b, xf, xr, pf, pr, df, dr);
    assert(x.0 as int == xr * 8 + xf);
    lemma_path_ray_hit(b, pf, pr, xf, xr, -df, -dr);
    assert(Square::at(xf, xr) == x);
    assert(sign(kf - pf) == df);
    assert(sign(kr - pr) == dr);
}

/// Where a pinned piece may go, it goes along the pin line over a clear
/// path, one way or the other; the en-passant capture of a pinned pawn is
/// left aside.
pub proof fn lemma_pinned_target(
    b: Seq<Piece>,
    from: Square,
    pin: (i8, i8),
    target: Option<Square>,
    to: Square,
) -> (e: (int, int))
    requires
        b.len() == 64,
        from.valid(),
        is_direction(pin.0 as int, pin.1 as int),
        target is Some ==> target.unwrap().valid(),
        pinned_piece_moves(b, from, pin, target).contains(to),
        !(spec_piece_type(b[from.0 as int]) == PAWN && target == Some(to) && b[to.0 as int]
            == EMPTY && (to.0 as int % 8 - from.0 as int % 8 == 1 || to.0 as int % 8
            - from.0 as int % 8 == -1) && (to.0 as int / 8 - from.0 as int / 8 == 1 || to.0 as int
            / 8 - from.0 as int / 8 == -1)),
    ensures
        to.valid(),
        e == (pin.0 as int, pin.1 as int) || e == (-pin.0 as int, -pin.1 as int),
        clear_path(
            b,
            from.0 as int % 8,
            from.0 as int / 8,
            to.0 as int % 8,
            to.0 as int / 8,
            e.0,
            e.1,
        ),
{
    let f = from.0 as int % 8;
    let r = from.0 as int / 8;
    let piece = b[from.0 as int];
    let kind = spec_piece_type(piece);
    let color = spec_piece_color(piece);
    let ef = pin.0 as int;
    let er = pin.1 as int;
    if kind == PAWN {
        let d = pawn_step(color);
        let s0 = Seq::<Square>::empty();
        if pin.0 == 0 {
            let c1 = empty_at(b, f, r + d);
            let s1 = push_if(s0, c1, Square::at(f, r + d));
            let c2 = empty_at(b, f, r + d) && r == pawn_start_rank(
                color,
            ) && empty_at(b, f, r + 2 * d);
            lemma_contains_push_if(s1, c2, Square::at(f, r + 2 * d), to);
            lemma_contains_push_if(s0, c1, Square::at(f, r + d), to);
            if c1 && to == Square::at(f, r + d) {
                assert(clear_path(b, f, r, f, r + d, 0, d));
            } else {
                assert(clear_path(b, f, r + d, f, r + 2 * d, 0, d));
                assert(clear_path(b, f, r, f, r + 2 * d, 0, d));
            }
            (0, d)
        } else {
            let c1 = pinned_capture_at(b, f, r, pin, -1, color);
            let s1 = push_if(s0, c1, Square::at(f - pin.0, r - pin.1));
            let c2 = pinned_capture_at(b, f, r, pin, 1, color);
            let s2 = push_if(s1, c2, Square::at(f + pin.0, r + pin.1));
            let c3 = pinned_en_passant_at(b, f, r, pin, -1, color, target);
            let s3 = push_if(s2, c3, target.unwrap());
            let c4 = pinned_en_passant_at(b, f, r, pin, 1, color, target);
            lemma_contains_push_if(s3, c4, target.unwrap(), to);
            lemma_contains_push_if(s2, c3, target.unwrap(), to);
            lemma_contains_push_if(s1, c2, Square::at(f + pin.0, r + pin.1), to);
            lemma_contains_push_if(s0, c1, Square::at(f - pin.0, r - pin.1), to);
            if c1 && to == Square::at(f - pin.0, r - pin.1) {
                assert(clear_path(b, f, r, f - ef, r - er, -ef, -er));
                (-ef, -er)
            } else {
                assert(c2 && to == Square::at(f + pin.0, r + pin.1));
                assert(clear_path(b, f, r, f + ef, r + er, ef, er));
                (ef, er)
            }
        }
    } else {
        let a = ray_moves(b, f, r, ef, er, color);
        let c = ray_moves(b, f, r, -ef, -er, color);
        lemma_contains_concat(a, c, to);
        if a.contains(to) {
            lemma_ray_move_path(b, f, r, ef, er, color, to);
            (ef, er)
        } else {
            lemma_ray_move_path(b, f, r, -ef, -er, color, to);
            (-ef, -er)
        }
    }
}

/// What a legal plain move of a piece other than the king is: the squares
/// after it, and what the rules of check have let through.
pub proof fn lemma_plain_move(s: Position, mv: Move) -> (king: Square)
    requires
        s.wf(),
        s.is_legal(mv),
        spec_piece_type(s.squares[mv.from.0 as int]) != KING,
        !s.is_en_passant(mv),
    ensures
        mv.valid(),
        mv.from != mv.to,
        spec_find_king(s.squares, s.turn) == Some(king),
        king.valid(),
        king != mv.from,
        king != mv.to,
        spec_is_piece_color(s.squares[king.0 as int], s.turn),
        spec_is_piece_color(s.squares[mv.from.0 as int], s.turn),
        match pinned(s.squares, mv.from) {
            Some(pin) => pinned_piece_moves(s.squares, mv.from, pin, s.en_passant_target).contains(
                mv.to,
            ),
            None => true,
        },
        ({
            let piece = arriving_piece(s.squares[mv.from.0 as int], mv.promotion);
            &&& spec_is_piece_color(piece, s.turn)
            &&& s.apply(mv).squares == moved(s.squares, mv.from.0 as int, mv.to.0 as int, piece)
        }),
        ({
            let checking = checkers(s.squares, king, s.turn);
            &&& checking.len() <= 1
            &&& checking.len() == 1 ==> blocking_squares(s.squares, king, checking[0]).contains(
                mv.to,
            )
        }),
{
    reveal(Position::pseudo_legal_moves);
    reveal(Position::legal_moves);
    reveal(Position::is_legal);
    reveal(Position::apply);
    law_legal_move_is_open(s, mv);
    lemma_legal_is_pseudo_legal(s, mv.from, mv.to);
    let b = s.squares;
    let pseudo = s.pseudo_legal_moves(mv.from);
    let king = spec_find_king(b, s.turn).unwrap();
    lemma_king_from_is_king(b, s.turn, 0);
    let checking = checkers(b, king, s.turn);
    lemma_keep_where(pseudo, s.answers_check(mv.from, king, checking), pseudo.len() as int);
    let plain = Move { from: mv.from, to: mv.to, promotion: None };
    assert(s.is_en_passant(plain) == s.is_en_passant(mv));
    if mv.promotion is Some {
        lemma_make_piece(
            mv.promotion.unwrap(),
            spec_piece_color(b[mv.from.0 as int]),
        );
    }
    king
}

/// A legal move of a piece other than the king that is not an en-passant
/// capture leaves the king of the side that moved unattacked, in a position
/// where the two kings do not stand next to each other: the move neither
/// leaves a check unanswered nor opens a line onto the king.
pub proof fn law_move_keeps_king_safe(s: Position, mv: Move)
    requires
        s.wf(),
        s.is_legal(mv),
        spec_piece_type(s.squares[mv.from.0 as int]) != KING,
        !s.is_en_passant(mv),
        match spec_find_king(s.squares, s.turn) {
            Some(k) => !king_threat(s.squares, k, spec_opposite_color(s.turn)),
            None => true,
        },
    ensures
        match spec_find_king(s.squares, s.turn) {
            Some(k) => !attacked(
                s.apply(mv).squares,
                k,
                spec_opposite_color(s.turn),
            ),
            None => false,
        },
{
    let b = s.squares;
    let king = lemma_plain_move(s, mv);
    let opp = spec_opposite_color(s.turn);
    let piece = arriving_piece(b[mv.from.0 as int], mv.promotion);
    let a = moved(b, mv.from.0 as int, mv.to.0 as int, piece);
    if attacked(a, king, opp) {
        law_attacked_by_a_piece(a, king, opp);
        let x = choose|x: Square| is_attacker(a, x, king, opp);
        lemma_no_attacker_after(s, mv, king, x);
    }
}

/// No enemy piece attacks the king after the move: an attacker would have
/// given check before the move, unanswered, or would look through the
/// square that a pinned piece has left.
proof fn lemma_no_attacker_after(s: Position, mv: Move, king: Square, x: Square)
    requires
        s.wf(),
        s.is_legal(mv),
        spec_piece_type(s.squares[mv.from.0 as int]) != KING,
        !s.is_en_passant(mv),
        spec_find_king(s.squares, s.turn) == Some(king),
        !king_threat(s.squares, king, spec_opposite_color(s.turn)),
    ensures
        !is_attacker(
            moved(
                s.squares,
                mv.from.0 as int,
                mv.to.0 as int,
                arriving_piece(s.squares[mv.from.0 as int], mv.promotion),
            ),
            x,
            king,
            spec_opposite_color(s.turn),
        ),
{
    if is_attacker(
        moved(
            s.squares,
            mv.from.0 as int,
            mv.to.0 as int,
            arriving_piece(s.squares[mv.from.0 as int], mv.promotion),
        ),
        x,
        king,
        spec_opposite_color(s.turn),
    ) {
        lemma_plain_move(s, mv);
        lemma_attacker_is_absurd(s, mv, king, x);
    }
}

/// A pinned piece that moves stays on the line between the enemy slider
/// and its king, so the line is not clear after the move.
proof fn lemma_pinned_blocks(
    b: Seq<Piece>,
    from: Square,
    to: Square,
    piece: Piece,
    king: Square,
    x: Square,
    df: int,
    dr: int,
    target: Option<Square>,
)
    requires
        b.len() == 64,
        from.valid(),
        to.valid(),
        king.valid(),
        x.valid(),
        from != to,
        to != king,
        to != x,
        piece != EMPTY,
        is_direction(df, dr),
        target is Some ==> target.unwrap().valid(),
        b[king.0 as int] != EMPTY,
        b[x.0 as int] != EMPTY,
        inside(
            x.0 as int % 8,
            x.0 as int / 8,
            king.0 as int % 8,
            king.0 as int / 8,
            df,
            dr,
            from.0 as int % 8,
            from.0 as int / 8,
        ),
        clear_path(b, x.0 as int % 8, x.0 as int / 8, from.0 as int % 8, from.0 as int / 8, df, dr),
        clear_path(
            b,
            from.0 as int % 8,
            from.0 as int / 8,
            king.0 as int % 8,
            king.0 as int / 8,
            df,
            dr,
        ),
        pinned_piece_moves(b, from, (df as i8, dr as i8), target).contains(to),
        !(spec_piece_type(b[from.0 as int]) == PAWN && target == Some(to) && b[to.0 as int]
            == EMPTY && (to.0 as int % 8 - from.0 as int % 8 == 1 || to.0 as int % 8
            - from.0 as int % 8 == -1) && (to.0 as int / 8 - from.0 as int / 8 == 1 || to.0 as int
            / 8 - from.0 as int / 8 == -1)),
    ensures
        !clear_path(
            moved(b, from.0 as int, to.0 as int, piece),
            x.0 as int % 8,
            x.0 as int / 8,
            king.0 as int % 8,
            king.0 as int / 8,
            df,
            dr,
        ),
{
    let a = moved(b, from.0 as int, to.0 as int, piece);
    let pf = from.0 as int % 8;
    let pr = from.0 as int / 8;
    let tf = to.0 as int % 8;
    let tr = to.0 as int / 8;
    let kf = king.0 as int % 8;
    let kr = king.0 as int / 8;
    let xf = x.0 as int % 8;
    let xr = x.0 as int / 8;
    assert(a[tr * 8 + tf] == piece);
    if clear_path(a, xf, xr, kf, kr, df, dr) {
        let e = lemma_pinned_target(b, from, (df as i8, dr as i8), target, to);
        lemma_path_split(a, xf, xr, kf, kr, df, dr, pf, pr);
        if e == (df, dr) {
            lemma_shorter_path_inside(b, pf, pr, tf, tr, kf, kr, df, dr);
            lemma_inside_is_empty(a, pf, pr, kf, kr, df, dr, tf, tr);
        } else {
            lemma_path_reverse(b, xf, xr, pf, pr, df, dr);
            lemma_path_reverse(a, xf, xr, pf, pr, df, dr);
            lemma_shorter_path_inside(b, pf, pr, tf, tr, xf, xr, -df, -dr);
            lemma_inside_is_empty(a, pf, pr, xf, xr, -df, -dr, tf, tr);
        }
    }
}

/// A move onto a square between the king and a checking slider closes the
/// line between them.
proof fn lemma_block_closes_line(
    b: Seq<Piece>,
    from: Square,
    to: Square,
    piece: Piece,
    king: Square,
    x: Square,
    df: int,
    dr: int,
)
    requires
        b.len() == 64,
        from.valid(),
        to.valid(),
        king.valid(),
        x.valid(),
        from != to,
        piece != EMPTY,
        is_direction(df, dr),
        between_squares(
            king.0 as int % 8,
            king.0 as int / 8,
            x.0 as int % 8,
            x.0 as int / 8,
            -df,
            -dr,
        ).contains(to),
    ensures
        !clear_path(
            moved(b, from.0 as int, to.0 as int, piece),
            x.0 as int % 8,
            x.0 as int / 8,
            king.0 as int % 8,
            king.0 as int / 8,
            df,
            dr,
        ),
{
    let a = moved(b, from.0 as int, to.0 as int, piece);
    let tf = to.0 as int % 8;
    let tr = to.0 as int / 8;
    let kf = king.0 as int % 8;
    let kr = king.0 as int / 8;
    let xf = x.0 as int % 8;
    let xr = x.0 as int / 8;
    assert(a[tr * 8 + tf] == piece);
    if clear_path(a, xf, xr, kf, kr, df, dr) {
        lemma_between_inside(kf, kr, xf, xr, -df, -dr, to);
        lemma_path_reverse(a, xf, xr, kf, kr, df, dr);
        lemma_inside_is_empty(a, kf, kr, xf, xr, -df, -dr, tf, tr);
    }
}

/// A slider that attacks the king after the move along a line on which the
/// moved piece did not stand gave check before the move.
proof fn lemma_slider_gave_check(
    b: Seq<Piece>,
    from: Square,
    to: Square,
    piece: Piece,
    king: Square,
    x: Square,
    opp: u8,
)
    requires
        b.len() == 64,
        from.valid(),
        to.valid(),
        king.valid(),
        from != to,
        x != from,
        x != to,
        piece != EMPTY,
        is_attacker(moved(b, from.0 as int, to.0 as int, piece), x, king, opp),
        slider_kind(spec_piece_type(b[x.0 as int]), true)
            || slider_kind(spec_piece_type(b[x.0 as int]), false),
        !inside(
            x.0 as int % 8,
            x.0 as int / 8,
            king.0 as int % 8,
            king.0 as int / 8,
            sign(king.0 as int % 8 - x.0 as int % 8),
            sign(king.0 as int / 8 - x.0 as int / 8),
            from.0 as int % 8,
            from.0 as int / 8,
        ),
    ensures
        is_attacker(b, x, king, opp),
{
    let kf = king.0 as int % 8;
    let kr = king.0 as int / 8;
    let xf = x.0 as int % 8;
    let xr = x.0 as int / 8;
    let df = sign(kf - xf);
    let dr = sign(kr - xr);
    let a = moved(b, from.0 as int, to.0 as int, piece);
    assert(a[x.0 as int] == b[x.0 as int]);
    assert(kf - xf != 0 || kr - xr != 0);
    assert(clear_path(a, xf, xr, kf, kr, df, dr));
    lemma_path_before_move(b, from.0 as int, to.0 as int, piece, xf, xr, kf, kr, df, dr);
}

/// A slider that attacks the king after the move along a line on which the
/// moved piece stood had pinned that piece.
proof fn lemma_slider_had_pinned(
    b: Seq<Piece>,
    from: Square,
    to: Square,
    piece: Piece,
    king: Square,
    x: Square,
    opp: u8,
)
    requires
        b.len() == 64,
        from.valid(),
        to.valid(),
        king.valid(),
        from != to,
        x != from,
        x != to,
        piece != EMPTY,
        b[from.0 as int] != EMPTY,
        spec_find_king(b, spec_piece_color(b[from.0 as int])) == Some(king),
        opp == spec_opposite_color(spec_piece_color(b[from.0 as int])),
        is_attacker(moved(b, from.0 as int, to.0 as int, piece), x, king, opp),
        slider_kind(spec_piece_type(b[x.0 as int]), true)
            || slider_kind(spec_piece_type(b[x.0 as int]), false),
        inside(
            x.0 as int % 8,
            x.0 as int / 8,
            king.0 as int % 8,
            king.0 as int / 8,
            sign(king.0 as int % 8 - x.0 as int % 8),
            sign(king.0 as int / 8 - x.0 as int / 8),
            from.0 as int % 8,
            from.0 as int / 8,
        ),
    ensures
        ({
            let df = sign(king.0 as int % 8 - x.0 as int % 8);
            let dr = sign(king.0 as int / 8 - x.0 as int / 8);
            &&& is_direction(df, dr)
            &&& pinned(b, from) == Some((df as i8, dr as i8))
            &&& clear_path(
                b,
                x.0 as int % 8,
                x.0 as int / 8,
                from.0 as int % 8,
                from.0 as int / 8,
                df,
                dr,
            )
            &&& clear_path(
                b,
                from.0 as int % 8,
                from.0 as int / 8,
                king.0 as int % 8,
                king.0 as int / 8,
                df,
                dr,
            )
            &&& clear_path(
                moved(b, from.0 as int, to.0 as int, piece),
                x.0 as int % 8,
                x.0 as int / 8,
                king.0 as int % 8,
                king.0 as int / 8,
                df,
                dr,
            )
        }),
{
    let kf = king.0 as int % 8;
    let kr = king.0 as int / 8;
    let xf = x.0 as int % 8;
    let xr = x.0 as int / 8;
    let df = sign(kf - xf);
    let dr = sign(kr - xr);
    let a = moved(b, from.0 as int, to.0 as int, piece);
    assert(a[x.0 as int] == b[x.0 as int]);
    assert(kf - xf != 0 || kr - xr != 0);
    assert(clear_path(a, xf, xr, kf, kr, df, dr));
    lemma_path_through_mover(b, from.0 as int, to.0 as int, piece, xf, xr, kf, kr, df, dr);
    lemma_pin_found(b, from, king, x, df, dr);
}

/// An enemy knight or pawn that attacks the king after the move gave check
/// before it, and the only answer to its check is its capture.
proof fn lemma_leaper_is_taken(
    b: Seq<Piece>,
    from: Square,
    to: Square,
    piece: Piece,
    king: Square,
    x: Square,
    turn: u8,
)
    requires
        b.len() == 64,
        from.valid(),
        to.valid(),
        king.valid(),
        from != to,
        x != from,
        is_attacker(moved(b, from.0 as int, to.0 as int, piece), x, king, other_side(turn)),
        spec_piece_type(b[x.0 as int]) == PAWN || spec_piece_type(b[x.0 as int]) == KNIGHT,
        checkers(b, king, turn).len() <= 1,
        checkers(b, king, turn).len() == 1 ==> blocking_squares(
            b,
            king,
            checkers(b, king, turn)[0],
        ).contains(to),
    ensures
        x == to,
{
    if x != to {
        let a = moved(b, from.0 as int, to.0 as int, piece);
        assert(a[x.0 as int] == b[x.0 as int]);
        assert(is_attacker(b, x, king, other_side(turn)));
        lemma_attacker_is_checker(b, king, turn, x);
        lemma_single_checker(checkers(b, king, turn), x);
        assert(blocking_squares(b, king, x) =~= seq![x]);
        assert(seq![x][0] == x);
    }
}

/// An enemy king that attacks the king after the move stood next to it
/// before the move.
proof fn lemma_king_is_taken(
    b: Seq<Piece>,
    from: Square,
    to: Square,
    piece: Piece,
    king: Square,
    x: Square,
    opp: u8,
)
    requires
        b.len() == 64,
        from.valid(),
        to.valid(),
        king.valid(),
        from != to,
        x != from,
        is_attacker(moved(b, from.0 as int, to.0 as int, piece), x, king, opp),
        spec_piece_type(b[x.0 as int]) == KING,
        !king_threat(b, king, opp),
    ensures
        x == to,
{
    if x != to {
        let a = moved(b, from.0 as int, to.0 as int, piece);
        assert(a[x.0 as int] == b[x.0 as int]);
        assert(is_attacker(b, x, king, opp));
        lemma_king_threat_has(b, king, opp, x);
    }
}

/// An enemy slider that attacks the king after the move along a line on
/// which the moved piece stood: the piece was pinned and has stayed on the
/// line, so the slider is what it captured.
proof fn lemma_pinning_slider_is_taken(
    b: Seq<Piece>,
    from: Square,
    to: Square,
    piece: Piece,
    king: Square,
    x: Square,
    turn: u8,
    target: Option<Square>,
)
    requires
        b.len() == 64,
        from.valid(),
        to.valid(),
        king.valid(),
        from != to,
        x != from,
        to != king,
        piece != EMPTY,
        target is Some ==> target.unwrap().valid(),
        spec_is_piece_color(b[from.0 as int], turn),
        spec_find_king(b, turn) == Some(king),
        b[king.0 as int] != EMPTY,
        is_attacker(
            moved(b, from.0 as int, to.0 as int, piece),
            x,
            king,
            spec_opposite_color(turn),
        ),
        slider_kind(spec_piece_type(b[x.0 as int]), true) || slider_kind(
            spec_piece_type(b[x.0 as int]),
            false,
        ),
        inside(
            x.0 as int % 8,
            x.0 as int / 8,
            king.0 as int % 8,
            king.0 as int / 8,
            sign(king.0 as int % 8 - x.0 as int % 8),
            sign(king.0 as int / 8 - x.0 as int / 8),
            from.0 as int % 8,
            from.0 as int / 8,
        ),
        match pinned(b, from) {
            Some(pin) => pinned_piece_moves(b, from, pin, target).contains(to),
            None => true,
        },
        !(spec_piece_type(b[from.0 as int]) == PAWN && target == Some(to) && b[to.0 as int]
            == EMPTY && (to.0 as int % 8 - from.0 as int % 8 == 1 || to.0 as int % 8
            - from.0 as int % 8 == -1) && (to.0 as int / 8 - from.0 as int / 8 == 1 || to.0 as int
            / 8 - from.0 as int / 8 == -1)),
    ensures
        x == to,
{
    if x != to {
        let df = sign(king.0 as int % 8 - x.0 as int % 8);
        let dr = sign(king.0 as int / 8 - x.0 as int / 8);
        let opp = spec_opposite_color(turn);
        assert(spec_piece_color(b[from.0 as int]) == turn);
        lemma_slider_had_pinned(b, from, to, piece, king, x, opp);
        lemma_pinned_blocks(b, from, to, piece, king, x, df, dr, target);
    }
}

/// An enemy slider that attacks the king after the move along a line on
/// which the moved piece did not stand gave check before the move, and the
/// move did not step into the line: the slider is what it captured.
proof fn lemma_checking_slider_is_taken(
    b: Seq<Piece>,
    from: Square,
    to: Square,
    piece: Piece,
    king: Square,
    x: Square,
    turn: u8,
)
    requires
        b.len() == 64,
        from.valid(),
        to.valid(),
        king.valid(),
        from != to,
        x != from,
        piece != EMPTY,
        is_attacker(moved(b, from.0 as int, to.0 as int, piece), x, king, other_side(turn)),
        slider_kind(spec_piece_type(b[x.0 as int]), true) || slider_kind(
            spec_piece_type(b[x.0 as int]),
            false,
        ),
        !inside(
            x.0 as int % 8,
            x.0 as int / 8,
            king.0 as int % 8,
            king.0 as int / 8,
            sign(king.0 as int % 8 - x.0 as int % 8),
            sign(king.0 as int / 8 - x.0 as int / 8),
            from.0 as int % 8,
            from.0 as int / 8,
        ),
        checkers(b, king, turn).len() <= 1,
        checkers(b, king, turn).len() == 1 ==> blocking_squares(
            b,
            king,
            checkers(b, king, turn)[0],
        ).contains(to),
    ensures
        x == to,
{
    if x != to {
        let kf = king.0 as int % 8;
        let kr = king.0 as int / 8;
        let xf = x.0 as int % 8;
        let xr = x.0 as int / 8;
        let df = sign(kf - xf);
        let dr = sign(kr - xr);
        let opp = other_side(turn);
        lemma_slider_gave_check(b, from, to, piece, king, x, opp);
        lemma_attacker_is_checker(b, king, turn, x);
        lemma_single_checker(checkers(b, king, turn), x);
        let between = between_squares(kf, kr, xf, xr, -df, -dr);
        assert(sign(xf - kf) == -df && sign(xr - kr) == -dr);
        assert(blocking_squares(b, king, x) == seq![x] + between);
        lemma_contains_concat(seq![x], between, to);
        if between.contains(to) {
            assert(kf - xf != 0 || kr - xr != 0);
            lemma_block_closes_line(b, from, to, piece, king, x, df, dr);
        } else {
            assert(seq![x][0] == to);
        }
    }
}

/// Whatever attacks the king after the move stands on the square of the
/// moved piece, which contradicts what an attacker is.
proof fn lemma_attacker_is_absurd(s: Position, mv: Move, king: Square, x: Square)
    requires
        s.wf(),
        s.is_legal(mv),
        spec_piece_type(s.squares[mv.from.0 as int]) != KING,
        !s.is_en_passant(mv),
        spec_find_king(s.squares, s.turn) == Some(king),
        !king_threat(s.squares, king, spec_opposite_color(s.turn)),
        is_attacker(
            moved(
                s.squares,
                mv.from.0 as int,
                mv.to.0 as int,
                arriving_piece(s.squares[mv.from.0 as int], mv.promotion),
            ),
            x,
            king,
            spec_opposite_color(s.turn),
        ),
    ensures
        x == mv.to,
{
    let b = s.squares;
    lemma_plain_move(s, mv);
    let opp = spec_opposite_color(s.turn);
    let piece = arriving_piece(b[mv.from.0 as int], mv.promotion);
    let kind = spec_piece_type(b[x.0 as int]);
    let a = moved(b, mv.from.0 as int, mv.to.0 as int, piece);
    assert(opp == other_side(s.turn));
    assert(x != mv.from) by {
        assert(a[mv.from.0 as int] == EMPTY);
    }
    if x != mv.to {
        assert(a[x.0 as int] == b[x.0 as int]);
        if kind == KING {
            lemma_king_is_taken(b, mv.from, mv.to, piece, king, x, opp);
        } else if kind == PAWN || kind == KNIGHT {
            lemma_leaper_is_taken(b, mv.from, mv.to, piece, king, x, s.turn);
        } else if inside(
            x.0 as int % 8,
            x.0 as int / 8,
            king.0 as int % 8,
            king.0 as int / 8,
            sign(king.0 as int % 8 - x.0 as int % 8),
            sign(king.0 as int / 8 - x.0 as int / 8),
            mv.from.0 as int % 8,
            mv.from.0 as int / 8,
        ) {
            lemma_pinning_slider_is_taken(
                b,
                mv.from,
                mv.to,
                piece,
                king,
                x,
                s.turn,
                s.en_passant_target,
            );
        } else {
            lemma_checking_slider_is_taken(b, mv.from, mv.to, piece, king, x, s.turn);
        }
    }
}

/// A list of one that contains the square consists of it.
proof fn lemma_single_checker(checking: Seq<Square>, x: Square)
    requires
        checking.contains(x),
        checking.len() <= 1,
    ensures
        checking.len() == 1,
        checking[0] == x,
{
    let k = choose|k: int| 0 <= k < checking.len() && checking[k] == x;
    assert(checking[k] == x);
}

/// A path that is clear on one board is clear on another board that is
/// empty wherever the first is, but for two squares that do not lie inside
/// the path.
pub proof fn lemma_path_on_other_board(
    a: Seq<Piece>,
    b: Seq<Piece>,
    v1: int,
    v2: int,
    f: int,
    r: int,
    tf: int,
    tr: int,
    df: int,
    dr: int,
)
    requires
        a.len() == 64,
        b.len() == 64,
        0 <= v1 < 64,
        0 <= v2 < 64,
        forall|i: int| 0 <= i < 64 && #[trigger] a[i] == EMPTY && i != v1 && i != v2 ==> b[i] == EMPTY,
        clear_path(a, f, r, tf, tr, df, dr),
        !inside(f, r, tf, tr, df, dr, v1 % 8, v1 / 8),
        !inside(f, r, tf, tr, df, dr, v2 % 8, v2 / 8),
    ensures
        clear_path(b, f, r, tf, tr, df, dr),
    decreases ray_measure(f, r, df, dr),
{
    let nf = f + df;
    let nr = r + dr;
    if nf == tf && nr == tr {
    } else {
        let i = nr * 8 + nf;
        assert(a[i] == EMPTY);
        assert(i != v1);
        assert(i != v2);
        lemma_path_on_other_board(a, b, v1, v2, nf, nr, tf, tr, df, dr);
    }
}

/// No clear path to the castled king leads over the squares that the king
/// and the rook have left: behind the king's old square stands the rook, and
/// the rook's old square is the corner.
proof fn lemma_castled_line(a: Seq<Piece>, x: Square, rank: int, kingside: bool, df: int, dr: int)
    requires
        a.len() == 64,
        x.valid(),
        rank == 0 || rank == 7,
        is_direction(df, dr),
        a[rank * 8 + (if kingside {
            5int
        } else {
            3int
        })] != EMPTY,
        clear_path(
            a,
            x.0 as int % 8,
            x.0 as int / 8,
            if kingside {
                6int
            } else {
                2int
            },
            rank,
            df,
            dr,
        ),
    ensures
        !inside(
            x.0 as int % 8,
            x.0 as int / 8,
            if kingside {
                6int
            } else {
                2int
            },
            rank,
            df,
            dr,
            4,
            rank,
        ),
        !inside(
            x.0 as int % 8,
            x.0 as int / 8,
            if kingside {
                6int
            } else {
                2int
            },
            rank,
            df,
            dr,
            if kingside {
                7int
            } else {
                0int
            },
            rank,
        ),
{
    let xf = x.0 as int % 8;
    let xr = x.0 as int / 8;
    let kf = if kingside {
        6int
    } else {
        2int
    };
    let cf = if kingside {
        7int
    } else {
        0int
    };
    if inside(xf, xr, kf, rank, df, dr, 4, rank) {
        lemma_path_split(a, xf, xr, kf, rank, df, dr, 4, rank);
        lemma_path_ahead(a, 4, rank, kf, rank, df, dr);
        assert(clear_path(a, 4, rank, kf, rank, df, dr));
    }
    if inside(xf, xr, kf, rank, df, dr, cf, rank) {
        lemma_inside_ahead(a, xf, xr, kf, rank, df, dr, cf, rank);
    }
}

/// An enemy piece that attacks the square of the castled king attacked that
/// square before the castling.
proof fn lemma_castled_attacker(b: Seq<Piece>, color: u8, kingside: bool, x: Square, opp: u8)
    requires
        b.len() == 64,
        color == WHITE || color == BLACK,
        opp == spec_opposite_color(color),
        castle_path_clear(b, color, kingside),
        spec_is_piece_color(b[home_rank(color) * 8 + 4], color),
        spec_is_piece_color(
            b[home_rank(color) * 8 + (if kingside {
                7int
            } else {
                0int
            })],
            color,
        ),
        is_attacker(
            castled_squares(b, color, kingside),
            x,
            Square::at(
                if kingside {
                    6int
                } else {
                    2int
                },
                home_rank(color),
            ),
            opp,
        ),
    ensures
        is_attacker(
            b,
            x,
            Square::at(
                if kingside {
                    6int
                } else {
                    2int
                },
                home_rank(color),
            ),
            opp,
        ),
{
    let rank = home_rank(color);
    let a = castled_squares(b, color, kingside);
    let kf = if kingside {
        6int
    } else {
        2int
    };
    let rf = if kingside {
        5int
    } else {
        3int
    };
    let cf = if kingside {
        7int
    } else {
        0int
    };
    let king = Square::at(kf, rank);
    let xf = x.0 as int % 8;
    let xr = x.0 as int / 8;
    assert(king.0 as int == rank * 8 + kf);
    assert(a[rank * 8 + 4] == EMPTY);
    assert(a[rank * 8 + cf] == EMPTY);
    assert(a[rank * 8 + kf] == b[rank * 8 + 4]);
    assert(a[rank * 8 + rf] == b[rank * 8 + cf]);
    assert(a[x.0 as int] == b[x.0 as int]);
    let kind = spec_piece_type(b[x.0 as int]);
    if kind == ROOK || kind == BISHOP || kind == QUEEN {
        let df = sign(kf - xf);
        let dr = sign(rank - xr);
        assert(kf - xf != 0 || rank - xr != 0);
        assert(clear_path(a, xf, xr, kf, rank, df, dr));
        lemma_castled_line(a, x, rank, kingside, df, dr);
        lemma_path_on_other_board(a, b, rank * 8 + 4, rank * 8 + cf, xf, xr, kf, rank, df, dr);
    }
}

/// A legal castling puts the king on a square that no enemy piece attacks
/// once king and rook have moved.
pub proof fn law_castling_is_safe(s: Position, mv: Move)
    requires
        s.wf(),
        s.is_legal(mv),
        s.castling_side(mv) is Some,
    ensures
        !attacked(s.apply(mv).squares, mv.to, spec_opposite_color(s.turn)),
{
    reveal(Position::apply);
    law_castling_move_is_allowed(s, mv);
    law_legal_move_is_open(s, mv);
    let b = s.squares;
    let kingside = s.castling_side(mv).unwrap();
    let opp = spec_opposite_color(s.turn);
    let a = castled_squares(b, s.turn, kingside);
    let rank = home_rank(s.turn);
    let kf = if kingside {
        6int
    } else {
        2int
    };
    assert(mv.to == Square::at(kf, rank));
    assert(s.apply(mv).squares == a);
    if attacked(a, mv.to, opp) {
        law_attacked_by_a_piece(a, mv.to, opp);
        let x = choose|x: Square| is_attacker(a, x, mv.to, opp);
        lemma_castled_attacker(b, s.turn, kingside, x, opp);
        law_attacked_by_a_piece(b, mv.to, opp);
    }
}

/// The square of the king of the side to move once the move is played: the
/// destination where the king itself moves, else where the king stands.
pub open spec fn king_after(s: Position, mv: Move) -> Option<Square> {
    if spec_piece_type(s.squares[mv.from.0 as int]) == KING {
        Some(mv.to)
    } else {
        spec_find_king(s.squares, s.turn)
    }
}

/// No legal move leaves the king of the side that moved attacked, in a
/// position where the two kings do not stand next to each other.
pub proof fn law_legal_move_is_safe(s: Position, mv: Move)
    requires
        s.wf(),
        s.is_legal(mv),
        match spec_find_king(s.squares, s.turn) {
            Some(k) => !king_threat(s.squares, k, spec_opposite_color(s.turn)),
            None => true,
        },
    ensures
        match king_after(s, mv) {
            Some(k) => !attacked(
                s.apply(mv).squares,
                k,
                spec_opposite_color(s.turn),
            ),
            None => false,
        },
{
    if spec_piece_type(s.squares[mv.from.0 as int]) == KING {
        if s.castling_side(mv) is Some {
            law_castling_is_safe(s, mv);
        } else {
            law_king_move_is_safe(s, mv);
        }
    } else if s.is_en_passant(mv) {
        law_en_passant_is_safe(s, mv);
    } else {
        law_move_keeps_king_safe(s, mv);
    }
}

/// A step of the king onto a square without a piece of its own side, which
/// no enemy piece attacks once the step is played, is a legal move.
pub proof fn law_safe_king_step_is_legal(s: Position, mv: Move)
    requires
        s.wf(),
        mv.valid(),
        mv.promotion is None,
        spec_find_king(s.squares, s.turn) == Some(mv.from),
        king_step(mv.from.0 as int, mv.to.0 as int),
        !spec_is_piece_color(s.squares[mv.to.0 as int], s.turn),
        !attacked(
            moved(s.squares, mv.from.0 as int, mv.to.0 as int, s.squares[mv.from.0 as int]),
            mv.to,
            spec_opposite_color(s.turn),
        ),
    ensures
        s.is_legal(mv),
{
    reveal(Position::pseudo_legal_moves);
    reveal(Position::legal_moves);
    reveal(Position::is_legal);
    let b = s.squares;
    let king = b[mv.from.0 as int];
    let opp = spec_opposite_color(s.turn);
    let lifted = b.update(mv.from.0 as int, EMPTY);
    lemma_king_from_is_king(b, s.turn, 0);
    assert(spec_piece_color(king) == s.turn);
    assert(pinned(b, mv.from) is None);
    let steps = squares_where(king_target_pred(b, mv.from, s.turn), 64);
    lemma_squares_where_contains(
        king_target_pred(b, mv.from, s.turn),
        64,
    );
    assert(steps.contains(mv.to));
    let home = mv.from == Square::at(4, home_rank(s.turn));
    let kingside = Square::at(6, mv.from.0 as int / 8);
    let queenside = Square::at(2, mv.from.0 as int / 8);
    let with_kingside = push_if(steps, home && s.can_castle(s.turn, true), kingside);
    lemma_contains_push_if(steps, home && s.can_castle(s.turn, true), kingside, mv.to);
    lemma_contains_push_if(
        with_kingside,
        home && s.can_castle(s.turn, false),
        queenside,
        mv.to,
    );
    let pseudo = s.pseudo_legal_moves(mv.from);
    assert(pseudo.contains(mv.to));
    law_attack_ignores_target(lifted, mv.to, opp, king);
    assert(moved(b, mv.from.0 as int, mv.to.0 as int, king) =~= lifted.update(
        mv.to.0 as int,
        king,
    ));
    lemma_keep_where(
        pseudo,
        safe_pred(lifted, opp),
        pseudo.len() as int,
    );
    let k = choose|k: int| 0 <= k < pseudo.len() && pseudo[k] == mv.to;
    assert(pseudo[k] == mv.to);
}

} // verus!
