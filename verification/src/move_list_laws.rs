//! The list of all legal moves names no move twice.

use vstd::prelude::*;
use crate::attack_laws::ahead;
use crate::attack_laws::lemma_path_ahead;
use crate::attacks::is_direction;
use crate::attacks::ray_measure;
use crate::attacks::spec_find_king;
use crate::bitboard::lemma_squares_where_contains;
use crate::bitboard::squares_where;
use crate::board::Position;
use crate::board::on_board;
use crate::laws::lemma_moves_over_member;
use crate::laws::lemma_moves_to;
use crate::laws::lemma_moves_to_targets_member;
use crate::legality_laws::lemma_pinner;
use crate::legality_laws::lemma_squares_where_distinct;
use crate::movegen::bishop_moves;
use crate::movegen::empty_at;
use crate::movegen::en_passant_at;
use crate::movegen::enemy_at;
use crate::movegen::king_target_pred;
use crate::movegen::knight_target_pred;
use crate::movegen::moves_to;
use crate::movegen::moves_to_targets;
use crate::movegen::own_pred;
use crate::movegen::pawn_moves;
use crate::movegen::pawn_start_rank;
use crate::movegen::pawn_step;
use crate::movegen::pinned_capture_at;
use crate::movegen::pinned_en_passant_at;
use crate::movegen::pinned_pawn_moves;
use crate::movegen::pinned_piece_moves;
use crate::movegen::queen_moves;
use crate::movegen::ray_moves;
use crate::movegen::rook_moves;
use crate::safety_laws::lemma_ray_move_path;
use crate::seqs::keep_where;
use crate::seqs::lemma_contains_concat;
use crate::seqs::lemma_contains_push_if;
use crate::seqs::lemma_keep_where;
use crate::seqs::push_if;
use crate::special::home_rank;
use crate::types::EMPTY;
use crate::types::spec_opposite_color;
use crate::types::spec_piece_color;
use crate::types::{Move, Piece, Square};
use crate::validation::checkers;
use crate::validation::pinned;
use crate::validation::safe_pred;

verus! {

/// Two lists without a common item, each naming no item twice, make one
/// such list.
pub proof fn lemma_concat_distinct<T>(a: Seq<T>, b: Seq<T>)
    requires
        a.no_duplicates(),
        b.no_duplicates(),
        forall|x: T| #[trigger] a.contains(x) ==> !b.contains(x),
    ensures
        (a + b).no_duplicates(),
{
    let c = a + b;
    assert forall|i: int, j: int| 0 <= i < c.len() && 0 <= j < c.len() && i != j implies c[i]
        != c[j] by {
        if i < a.len() {
            assert(a.contains(a[i]));
        } else {
            assert(b.contains(b[i - a.len()]));
        }
        if j < a.len() {
            assert(a.contains(a[j]));
        } else {
            assert(b.contains(b[j - a.len()]));
        }
    }
}

/// A list that names no square twice stays one when a square that it does
/// not hold is appended on a condition.
pub proof fn lemma_push_if_distinct(s: Seq<Square>, cond: bool, x: Square)
    requires
        s.no_duplicates(),
        cond ==> !s.contains(x),
    ensures
        push_if(s, cond, x).no_duplicates(),
{
    if cond {
        assert(seq![x][0] == x);
        assert forall|y: Square| #[trigger] s.contains(y) implies !seq![x].contains(y) by {}
        lemma_concat_distinct(s, seq![x]);
        assert(s.push(x) =~= s + seq![x]);
    }
}

/// The squares kept from a list that names no square twice name none
/// twice.
pub proof fn lemma_keep_where_distinct(s: Seq<Square>, keep: spec_fn(Square) -> bool, n: int)
    requires
        0 <= n <= s.len(),
        s.no_duplicates(),
    ensures
        keep_where(s, keep, n).no_duplicates(),
    decreases n,
{
    if n > 0 {
        lemma_keep_where_distinct(s, keep, n - 1);
        lemma_keep_where(s, keep, n - 1);
        let prev = keep_where(s, keep, n - 1);
        let last = s[n - 1];
        if keep(last) {
            if prev.contains(last) {
                let k = choose|k: int| 0 <= k < n - 1 && s[k] == last;
                assert(s[k] == s[n - 1]);
            }
            assert(seq![last][0] == last);
            assert forall|y: Square| #[trigger] prev.contains(y) implies !seq![last].contains(
                y,
            ) by {}
            lemma_concat_distinct(prev, seq![last]);
            assert(prev.push(last) =~= prev + seq![last]);
        }
    }
}

/// The moves from one square to one target are all different.
proof fn lemma_moves_to_distinct(b: Seq<Piece>, from: Square, to: Square)
    ensures
        moves_to(b, from, to).no_duplicates(),
{
}

/// The moves from one square to targets that are all different are all
/// different.
proof fn lemma_moves_to_targets_distinct(b: Seq<Piece>, from: Square, targets: Seq<Square>, n: int)
    requires
        0 <= n <= targets.len(),
        targets.no_duplicates(),
    ensures
        moves_to_targets(b, from, targets, n).no_duplicates(),
    decreases n,
{
    if n > 0 {
        lemma_moves_to_targets_distinct(b, from, targets, n - 1);
        lemma_moves_to_distinct(b, from, targets[n - 1]);
        let prev = moves_to_targets(b, from, targets, n - 1);
        let last = moves_to(b, from, targets[n - 1]);
        assert forall|m: Move| #[trigger] prev.contains(m) implies !last.contains(m) by {
            let j = lemma_moves_to_targets_member(b, from, targets, n - 1, m);
            lemma_moves_to(b, from, targets[j], m);
            lemma_moves_to(b, from, targets[n - 1], m);
        }
        lemma_concat_distinct(prev, last);
    }
}

/// The moves of the pieces on squares that are all different are all
/// different, where the destinations of each piece are.
proof fn lemma_moves_over_distinct(s: Position, own: Seq<Square>, n: int)
    requires
        0 <= n <= own.len(),
        own.no_duplicates(),
        forall|k: int| 0 <= k < own.len() ==> (#[trigger] s.legal_moves(own[k])).no_duplicates(),
    ensures
        s.moves_over(own, n).no_duplicates(),
    decreases n,
{
    if n > 0 {
        lemma_moves_over_distinct(s, own, n - 1);
        let b = s.squares;
        let prev = s.moves_over(own, n - 1);
        let targets = s.legal_moves(own[n - 1]);
        let last = moves_to_targets(b, own[n - 1], targets, targets.len() as int);
        lemma_moves_to_targets_distinct(b, own[n - 1], targets, targets.len() as int);
        assert forall|m: Move| #[trigger] prev.contains(m) implies !last.contains(m) by {
            let k = lemma_moves_over_member(s, own, n - 1, m);
            let i = lemma_moves_to_targets_member(
                b,
                own[k],
                s.legal_moves(own[k]),
                s.legal_moves(own[k]).len() as int,
                m,
            );
            lemma_moves_to(b, own[k], s.legal_moves(own[k])[i], m);
            if last.contains(m) {
                let j = lemma_moves_to_targets_member(
                    b,
                    own[n - 1],
                    targets,
                    targets.len() as int,
                    m,
                );
                lemma_moves_to(b, own[n - 1], targets[j], m);
            }
        }
        lemma_concat_distinct(prev, last);
    }
}

/// A square that a piece reaches along a ray lies ahead of the piece on the
/// line of the ray.
proof fn lemma_ray_member_ahead(
    b: Seq<Piece>,
    f: int,
    r: int,
    df: int,
    dr: int,
    color: u8,
    x: Square,
)
    requires
        b.len() == 64,
        is_direction(df, dr),
        ray_moves(b, f, r, df, dr, color).contains(x),
    ensures
        x.valid(),
        ahead(f, r, x.0 as int % 8, x.0 as int / 8, df, dr),
{
    lemma_ray_move_path(b, f, r, df, dr, color, x);
    lemma_path_ahead(b, f, r, x.0 as int % 8, x.0 as int / 8, df, dr);
}

/// The squares that a piece reaches along one ray are all different.
proof fn lemma_ray_moves_distinct(b: Seq<Piece>, f: int, r: int, df: int, dr: int, color: u8)
    requires
        b.len() == 64,
        is_direction(df, dr),
    ensures
        ray_moves(b, f, r, df, dr, color).no_duplicates(),
    decreases ray_measure(f, r, df, dr),
{
    let nf = f + df;
    let nr = r + dr;
    if on_board(nf, nr) && b[nr * 8 + nf] == EMPTY {
        let first = seq![Square::at(nf, nr)];
        let rest = ray_moves(b, nf, nr, df, dr, color);
        lemma_ray_moves_distinct(b, nf, nr, df, dr, color);
        assert(first[0] == Square::at(nf, nr));
        assert forall|x: Square| #[trigger] first.contains(x) implies !rest.contains(x) by {
            if rest.contains(x) {
                lemma_ray_member_ahead(b, nf, nr, df, dr, color, x);
                assert(Square::at(nf, nr).0 as int == nr * 8 + nf);
            }
        }
        lemma_concat_distinct(first, rest);
    }
}

/// The squares that a piece reaches along two different rays are all
/// different.
proof fn lemma_two_rays_distinct(
    b: Seq<Piece>,
    f: int,
    r: int,
    df: int,
    dr: int,
    ef: int,
    er: int,
    color: u8,
)
    requires
        b.len() == 64,
        is_direction(df, dr),
        is_direction(ef, er),
        df != ef || dr != er,
    ensures
        forall|x: Square| #[trigger]
            ray_moves(b, f, r, df, dr, color).contains(x) ==> !ray_moves(
                b,
                f,
                r,
                ef,
                er,
                color,
            ).contains(x),
{
    assert forall|x: Square| #[trigger]
        ray_moves(b, f, r, df, dr, color).contains(x) implies !ray_moves(
        b,
        f,
        r,
        ef,
        er,
        color,
    ).contains(x) by {
        lemma_ray_member_ahead(b, f, r, df, dr, color, x);
        if ray_moves(b, f, r, ef, er, color).contains(x) {
            lemma_ray_member_ahead(b, f, r, ef, er, color, x);
        }
    }
}

/// The squares that a piece reaches along four different rays are all
/// different, and each lies ahead of the piece on one of the four lines.
proof fn lemma_four_rays_distinct(
    b: Seq<Piece>,
    f: int,
    r: int,
    d1: (int, int),
    d2: (int, int),
    d3: (int, int),
    d4: (int, int),
    color: u8,
)
    requires
        b.len() == 64,
        is_direction(d1.0, d1.1),
        is_direction(d2.0, d2.1),
        is_direction(d3.0, d3.1),
        is_direction(d4.0, d4.1),
        d1 != d2,
        d1 != d3,
        d1 != d4,
        d2 != d3,
        d2 != d4,
        d3 != d4,
    ensures
        (ray_moves(b, f, r, d1.0, d1.1, color) + ray_moves(b, f, r, d2.0, d2.1, color) + ray_moves(
            b,
            f,
            r,
            d3.0,
            d3.1,
            color,
        ) + ray_moves(b, f, r, d4.0, d4.1, color)).no_duplicates(),
        forall|x: Square| #[trigger]
            (ray_moves(b, f, r, d1.0, d1.1, color) + ray_moves(b, f, r, d2.0, d2.1, color)
                + ray_moves(b, f, r, d3.0, d3.1, color) + ray_moves(
                b,
                f,
                r,
                d4.0,
                d4.1,
                color,
            )).contains(x) ==> {
                ||| ahead(f, r, x.0 as int % 8, x.0 as int / 8, d1.0, d1.1)
                ||| ahead(f, r, x.0 as int % 8, x.0 as int / 8, d2.0, d2.1)
                ||| ahead(f, r, x.0 as int % 8, x.0 as int / 8, d3.0, d3.1)
                ||| ahead(f, r, x.0 as int % 8, x.0 as int / 8, d4.0, d4.1)
            },
{
    let r1 = ray_moves(b, f, r, d1.0, d1.1, color);
    let r2 = ray_moves(b, f, r, d2.0, d2.1, color);
    let r3 = ray_moves(b, f, r, d3.0, d3.1, color);
    let r4 = ray_moves(b, f, r, d4.0, d4.1, color);
    lemma_ray_moves_distinct(b, f, r, d1.0, d1.1, color);
    lemma_ray_moves_distinct(b, f, r, d2.0, d2.1, color);
    lemma_ray_moves_distinct(b, f, r, d3.0, d3.1, color);
    lemma_ray_moves_distinct(b, f, r, d4.0, d4.1, color);
    lemma_two_rays_distinct(b, f, r, d1.0, d1.1, d2.0, d2.1, color);
    lemma_two_rays_distinct(b, f, r, d1.0, d1.1, d3.0, d3.1, color);
    lemma_two_rays_distinct(b, f, r, d1.0, d1.1, d4.0, d4.1, color);
    lemma_two_rays_distinct(b, f, r, d2.0, d2.1, d3.0, d3.1, color);
    lemma_two_rays_distinct(b, f, r, d2.0, d2.1, d4.0, d4.1, color);
    lemma_two_rays_distinct(b, f, r, d3.0, d3.1, d4.0, d4.1, color);
    lemma_concat_distinct(r1, r2);
    assert forall|x: Square| #[trigger] (r1 + r2).contains(x) implies !r3.contains(x) by {
        lemma_contains_concat(r1, r2, x);
    }
    lemma_concat_distinct(r1 + r2, r3);
    assert forall|x: Square| #[trigger] (r1 + r2 + r3).contains(x) implies !r4.contains(x) by {
        lemma_contains_concat(r1 + r2, r3, x);
        lemma_contains_concat(r1, r2, x);
    }
    lemma_concat_distinct(r1 + r2 + r3, r4);
    assert forall|x: Square| #[trigger] (r1 + r2 + r3 + r4).contains(x) implies {
        ||| ahead(f, r, x.0 as int % 8, x.0 as int / 8, d1.0, d1.1)
        ||| ahead(f, r, x.0 as int % 8, x.0 as int / 8, d2.0, d2.1)
        ||| ahead(f, r, x.0 as int % 8, x.0 as int / 8, d3.0, d3.1)
        ||| ahead(f, r, x.0 as int % 8, x.0 as int / 8, d4.0, d4.1)
    } by {
        lemma_contains_concat(r1 + r2 + r3, r4, x);
        lemma_contains_concat(r1 + r2, r3, x);
        lemma_contains_concat(r1, r2, x);
        if r1.contains(x) {
            lemma_ray_member_ahead(b, f, r, d1.0, d1.1, color, x);
        } else if r2.contains(x) {
            lemma_ray_member_ahead(b, f, r, d2.0, d2.1, color, x);
        } else if r3.contains(x) {
            lemma_ray_member_ahead(b, f, r, d3.0, d3.1, color, x);
        } else {
            lemma_ray_member_ahead(b, f, r, d4.0, d4.1, color, x);
        }
    }
}

/// The moves of a rook, of a bishop and of a queen are all different.
proof fn lemma_slider_moves_distinct(b: Seq<Piece>, square: Square, color: u8)
    requires
        b.len() == 64,
    ensures
        rook_moves(b, square, color).no_duplicates(),
        bishop_moves(b, square, color).no_duplicates(),
        queen_moves(b, square, color).no_duplicates(),
{
    let f = square.0 as int % 8;
    let r = square.0 as int / 8;
    lemma_four_rays_distinct(b, f, r, (0, 1), (0, -1), (1, 0), (-1, 0), color);
    lemma_four_rays_distinct(b, f, r, (1, 1), (1, -1), (-1, 1), (-1, -1), color);
    let rook = rook_moves(b, square, color);
    let bishop = bishop_moves(b, square, color);
    assert forall|x: Square| #[trigger] rook.contains(x) implies !bishop.contains(x) by {}
    lemma_concat_distinct(rook, bishop);
}

/// The moves of a king are all different.
proof fn lemma_king_moves_distinct(s: Position, square: Square)
    requires
        s.wf(),
        square.valid(),
    ensures
        s.king_moves(square).no_duplicates(),
{
    let b = s.squares;
    let color = spec_piece_color(b[square.0 as int]);
    let pred = king_target_pred(b, square, color);
    let steps = squares_where(pred, 64);
    let home = square == Square::at(4, home_rank(color));
    let to_kingside = Square::at(6, square.0 as int / 8);
    let to_queenside = Square::at(2, square.0 as int / 8);
    let with_kingside = push_if(steps, home && s.can_castle(color, true), to_kingside);
    lemma_squares_where_distinct(pred, 64);
    lemma_squares_where_contains(pred, 64);
    lemma_contains_push_if(
        steps,
        home && s.can_castle(color, true),
        to_kingside,
        to_queenside,
    );
    if home {
        assert(square.0 as int == home_rank(color) * 8 + 4);
        assert(to_kingside.0 as int == home_rank(color) * 8 + 6);
        assert(to_queenside.0 as int == home_rank(color) * 8 + 2);
    }
    lemma_push_if_distinct(steps, home && s.can_castle(color, true), to_kingside);
    lemma_push_if_distinct(with_kingside, home && s.can_castle(color, false), to_queenside);
}

/// The moves of a pawn are all different.
proof fn lemma_pawn_moves_distinct(b: Seq<Piece>, square: Square, color: u8, target: Option<Square>)
    requires
        b.len() == 64,
        square.valid(),
        target is Some ==> target.unwrap().valid(),
    ensures
        pawn_moves(b, square, color, target).no_duplicates(),
{
    let f = square.0 as int % 8;
    let r = square.0 as int / 8;
    let d = pawn_step(color);
    let s0 = Seq::<Square>::empty();
    let c1 = empty_at(b, f, r + d);
    let c2 = c1 && r == pawn_start_rank(color) && empty_at(
        b,
        f,
        r + 2 * d,
    );
    let c3 = enemy_at(b, f - 1, r + d, color);
    let c4 = enemy_at(b, f + 1, r + d, color);
    let c5 = en_passant_at(b, f, r, -1, color, target);
    let c6 = en_passant_at(b, f, r, 1, color, target);
    let ahead1 = Square::at(f, r + d);
    let ahead2 = Square::at(f, r + 2 * d);
    let left = Square::at(f - 1, r + d);
    let right = Square::at(f + 1, r + d);
    let e = target.unwrap();
    let s1 = push_if(s0, c1, ahead1);
    let s2 = push_if(s1, c2, ahead2);
    let s3 = push_if(s2, c3, left);
    let s4 = push_if(s3, c4, right);
    let s5 = push_if(s4, c5, e);
    if c1 {
        assert(ahead1.0 as int == (r + d) * 8 + f);
    }
    if c2 {
        assert(ahead2.0 as int == (r + 2 * d) * 8 + f);
    }
    if c3 {
        assert(left.0 as int == (r + d) * 8 + f - 1);
    }
    if c4 {
        assert(right.0 as int == (r + d) * 8 + f + 1);
    }
    if c5 || c6 {
        assert(e.0 as int == (e.0 as int / 8) * 8 + e.0 as int % 8);
    }
    assert(!s0.contains(ahead1));
    lemma_push_if_distinct(s0, c1, ahead1);
    lemma_contains_push_if(s0, c1, ahead1, ahead2);
    lemma_push_if_distinct(s1, c2, ahead2);
    lemma_contains_push_if(s1, c2, ahead2, left);
    lemma_contains_push_if(s0, c1, ahead1, left);
    lemma_push_if_distinct(s2, c3, left);
    lemma_contains_push_if(s2, c3, left, right);
    lemma_contains_push_if(s1, c2, ahead2, right);
    lemma_contains_push_if(s0, c1, ahead1, right);
    lemma_push_if_distinct(s3, c4, right);
    lemma_contains_push_if(s3, c4, right, e);
    lemma_contains_push_if(s2, c3, left, e);
    lemma_contains_push_if(s1, c2, ahead2, e);
    lemma_contains_push_if(s0, c1, ahead1, e);
    lemma_push_if_distinct(s4, c5, e);
    lemma_contains_push_if(s4, c5, e, e);
    lemma_push_if_distinct(s5, c6, e);
}

/// The moves of a pinned pawn are all different.
proof fn lemma_pinned_pawn_moves_distinct(
    b: Seq<Piece>,
    square: Square,
    pin: (i8, i8),
    color: u8,
    target: Option<Square>,
)
    requires
        b.len() == 64,
        square.valid(),
        is_direction(pin.0 as int, pin.1 as int),
        target is Some ==> target.unwrap().valid(),
    ensures
        pinned_pawn_moves(b, square, pin, color, target).no_duplicates(),
{
    let f = square.0 as int % 8;
    let r = square.0 as int / 8;
    let d = pawn_step(color);
    let s0 = Seq::<Square>::empty();
    let e = target.unwrap();
    if pin.0 == 0 {
        let c1 = empty_at(b, f, r + d);
        let c2 = c1 && r == pawn_start_rank(color) && empty_at(
            b,
            f,
            r + 2 * d,
        );
        let ahead1 = Square::at(f, r + d);
        let ahead2 = Square::at(f, r + 2 * d);
        let s1 = push_if(s0, c1, ahead1);
        if c2 {
            assert(ahead1.0 as int == (r + d) * 8 + f);
            assert(ahead2.0 as int == (r + 2 * d) * 8 + f);
        }
        assert(!s0.contains(ahead1));
        lemma_push_if_distinct(s0, c1, ahead1);
        lemma_contains_push_if(s0, c1, ahead1, ahead2);
        lemma_push_if_distinct(s1, c2, ahead2);
    } else if pin.1 != 0 {
        let q1 = pinned_capture_at(b, f, r, pin, -1, color);
        let q2 = pinned_capture_at(b, f, r, pin, 1, color);
        let q3 = pinned_en_passant_at(b, f, r, pin, -1, color, target);
        let q4 = pinned_en_passant_at(b, f, r, pin, 1, color, target);
        let back = Square::at(f - pin.0, r - pin.1);
        let along = Square::at(f + pin.0, r + pin.1);
        let step1 = push_if(s0, q1, back);
        let step2 = push_if(step1, q2, along);
        let step3 = push_if(step2, q3, e);
        if q1 {
            assert(back.0 as int == (r - pin.1) * 8 + f - pin.0);
        }
        if q2 {
            assert(along.0 as int == (r + pin.1) * 8 + f + pin.0);
        }
        if q3 || q4 {
            assert(e.0 as int == (e.0 as int / 8) * 8 + e.0 as int % 8);
        }
        assert(!s0.contains(back));
        lemma_push_if_distinct(s0, q1, back);
        lemma_contains_push_if(s0, q1, back, along);
        lemma_push_if_distinct(step1, q2, along);
        lemma_contains_push_if(step1, q2, along, e);
        lemma_contains_push_if(s0, q1, back, e);
        lemma_push_if_distinct(step2, q3, e);
        lemma_contains_push_if(step2, q3, e, e);
        lemma_push_if_distinct(step3, q4, e);
    }
}

/// The moves of a piece within its pin are all different.
proof fn lemma_pinned_moves_distinct(
    b: Seq<Piece>,
    square: Square,
    pin: (i8, i8),
    target: Option<Square>,
)
    requires
        b.len() == 64,
        square.valid(),
        is_direction(pin.0 as int, pin.1 as int),
        target is Some ==> target.unwrap().valid(),
    ensures
        pinned_piece_moves(b, square, pin, target).no_duplicates(),
{
    let f = square.0 as int % 8;
    let r = square.0 as int / 8;
    let color = spec_piece_color(b[square.0 as int]);
    lemma_pinned_pawn_moves_distinct(b, square, pin, color, target);
    lemma_ray_moves_distinct(b, f, r, pin.0 as int, pin.1 as int, color);
    lemma_ray_moves_distinct(b, f, r, -pin.0, -pin.1, color);
    lemma_two_rays_distinct(b, f, r, pin.0 as int, pin.1 as int, -pin.0, -pin.1, color);
    lemma_concat_distinct(
        ray_moves(b, f, r, pin.0 as int, pin.1 as int, color),
        ray_moves(b, f, r, -pin.0, -pin.1, color),
    );
}

/// The legal destinations of a piece are all different.
pub proof fn lemma_legal_moves_distinct(s: Position, square: Square)
    requires
        s.wf(),
        square.valid(),
    ensures
        s.legal_moves(square).no_duplicates(),
{
    reveal(Position::pseudo_legal_moves);
    reveal(Position::legal_moves);
    let b = s.squares;
    let color = spec_piece_color(b[square.0 as int]);
    let pseudo = s.pseudo_legal_moves(square);
    match pinned(b, square) {
        Some(pin) => {
            lemma_pinner(b, square);
            lemma_pinned_moves_distinct(b, square, pin, s.en_passant_target);
        },
        None => {
            lemma_squares_where_distinct(
                knight_target_pred(b, square, s.turn),
                64,
            );
            lemma_slider_moves_distinct(b, square, color);
            lemma_king_moves_distinct(s, square);
            lemma_pawn_moves_distinct(b, square, color, s.en_passant_target);
        },
    }
    assert(pseudo.no_duplicates());
    match spec_find_king(b, s.turn) {
        Some(king) => {
            let checking = checkers(b, king, s.turn);
            lemma_keep_where_distinct(
                pseudo,
                safe_pred(
                    b.update(square.0 as int, EMPTY),
                    spec_opposite_color(s.turn),
                ),
                pseudo.len() as int,
            );
            lemma_keep_where_distinct(
                pseudo,
                s.answers_check(square, king, checking),
                pseudo.len() as int,
            );
        },
        None => {},
    }
}

/// The list of all legal moves names no move twice.
pub proof fn law_all_legal_moves_are_distinct(s: Position)
    requires
        s.wf(),
    ensures
        s.all_legal_moves().no_duplicates(),
{
    reveal(Position::all_legal_moves);
    let pred = own_pred(s.squares, s.turn);
    let own = squares_where(pred, 64);
    lemma_squares_where_distinct(pred, 64);
    lemma_squares_where_contains(pred, 64);
    assert forall|k: int| 0 <= k < own.len() implies (#[trigger] s.legal_moves(
        own[k],
    )).no_duplicates() by {
        assert(own.contains(own[k]));
        lemma_legal_moves_distinct(s, own[k]);
    }
    lemma_moves_over_distinct(s, own, own.len() as int);
}

} // verus!
