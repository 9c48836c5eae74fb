//! The legal moves are the moves of the rules of chess: a move made the way
//! its piece moves that leaves the king of the side that moved unattacked is
//! a legal move, and the legal moves are no others.

use vstd::prelude::*;
use crate::attack_laws::ahead;
use crate::attack_laws::is_attacker;
use crate::attack_laws::law_attacked_by_a_piece;
use crate::attack_laws::lemma_path_ahead;
use crate::attack_laws::lemma_path_extend;
use crate::attack_laws::lemma_path_reverse;
use crate::attack_laws::lemma_ray_hit_path;
use crate::attacks::attacked;
use crate::attacks::clear_path;
use crate::attacks::is_direction;
use crate::attacks::is_piece_of;
use crate::attacks::king_threat;
use crate::attacks::lemma_king_from_is_king;
use crate::attacks::pawn_source_step;
use crate::attacks::ray_hit;
use crate::attacks::ray_measure;
use crate::attacks::sign;
use crate::attacks::slider_kind;
use crate::attacks::spec_find_king;
use crate::bitboard::lemma_squares_where_contains;
use crate::bitboard::squares_where;
use crate::board::Position;
use crate::board::on_board;
use crate::laws::law_legal_move_is_open;
use crate::laws::lemma_king_moves_castle;
use crate::laws::lemma_legal_is_pseudo_legal;
use crate::movegen::bishop_moves;
use crate::movegen::empty_at;
use crate::movegen::en_passant_at;
use crate::movegen::enemy_at;
use crate::movegen::king_target_pred;
use crate::movegen::knight_target_pred;
use crate::movegen::pawn_moves;
use crate::movegen::pawn_start_rank;
use crate::movegen::pawn_step;
use crate::movegen::pinned_capture_at;
use crate::movegen::pinned_en_passant_at;
use crate::movegen::pinned_pawn_moves;
use crate::movegen::pinned_piece_moves;
use crate::movegen::queen_moves;
use crate::movegen::ray_moves;
use crate::movegen::rook_moves;
use crate::safety_laws::inside;
use crate::safety_laws::king_after;
use crate::safety_laws::law_legal_move_is_safe;
use crate::safety_laws::law_safe_king_step_is_legal;
use crate::safety_laws::lemma_between_inside;
use crate::safety_laws::lemma_checkers_parts;
use crate::safety_laws::lemma_inside_ahead;
use crate::safety_laws::lemma_inside_is_empty;
use crate::safety_laws::lemma_not_inside_own_end;
use crate::safety_laws::lemma_not_inside_own_start;
use crate::safety_laws::lemma_path_on_other_board;
use crate::safety_laws::lemma_path_split;
use crate::safety_laws::lemma_push_some_contains;
use crate::safety_laws::lemma_ray_move_path;
use crate::safety_laws::lemma_shorter_path_inside;
use crate::safety_laws::moved;
use crate::seqs::lemma_contains_concat;
use crate::seqs::lemma_contains_push_if;
use crate::seqs::lemma_keep_where;
use crate::seqs::push_if;
use crate::seqs::push_some;
use crate::special::en_passant_victim;
use crate::special::home_rank;
use crate::state::arriving_piece;
use crate::types::Move;
use crate::types::lemma_make_piece;
use crate::types::spec_is_piece_color;
use crate::types::spec_opposite_color;
use crate::types::spec_piece_color;
use crate::types::spec_piece_type;
use crate::types::{BISHOP, EMPTY, KING, KNIGHT, PAWN, QUEEN, ROOK};
use crate::types::{Piece, Square};
use crate::validation::between_squares;
use crate::validation::blocking_squares;
use crate::validation::checkers;
use crate::validation::knight_checker_pred;
use crate::validation::offset_square;
use crate::validation::other_side;
use crate::validation::pinned;
use crate::validation::ray_checker;
use crate::validation::safe_pred;

verus! {

/// The slider that is first on a ray of the king as a checking piece
/// attacks the king over a clear path.
proof fn lemma_ray_checker_attacks(
    b: Seq<Piece>,
    king: Square,
    opp: u8,
    df: int,
    dr: int,
    axial: bool,
    x: Square,
)
    requires
        b.len() == 64,
        king.valid(),
        is_direction(df, dr),
        axial == (df == 0 || dr == 0),
        ray_checker(b, king.0 as int % 8, king.0 as int / 8, df, dr, opp, axial) == Some(x),
    ensures
        is_attacker(b, x, king, opp),
        slider_kind(spec_piece_type(b[x.0 as int]), axial),
        x.valid(),
        clear_path(
            b,
            king.0 as int % 8,
            king.0 as int / 8,
            x.0 as int % 8,
            x.0 as int / 8,
            df,
            dr,
        ),
        sign(x.0 as int % 8 - king.0 as int % 8) == df,
        sign(x.0 as int / 8 - king.0 as int / 8) == dr,
{
    let f = king.0 as int % 8;
    let r = king.0 as int / 8;
    lemma_ray_hit_path(b, f, r, df, dr);
    let xf = x.0 as int % 8;
    let xr = x.0 as int / 8;
    lemma_path_ahead(b, f, r, xf, xr, df, dr);
    lemma_path_reverse(b, f, r, xf, xr, df, dr);
    assert(sign(f - xf) == -df);
    assert(sign(r - xr) == -dr);
}

/// A checking piece is an enemy pawn, knight, bishop, rook or queen that
/// attacks the king.
pub proof fn lemma_checker_is_attacker(b: Seq<Piece>, king: Square, king_color: u8, x: Square)
    requires
        b.len() == 64,
        king.valid(),
        checkers(b, king, king_color).contains(x),
    ensures
        x.valid(),
        is_attacker(b, x, king, other_side(king_color)),
        spec_piece_type(b[x.0 as int]) != KING,
{
    let opp = other_side(king_color);
    let f = king.0 as int % 8;
    let r = king.0 as int / 8;
    let step = pawn_source_step(opp);
    lemma_checkers_parts(b, king, king_color, x);
    if offset_square(b, f, r, -1, step, PAWN, opp) == Some(x) {
        assert(x.0 as int == (r + step) * 8 + f - 1);
    } else if offset_square(b, f, r, 1, step, PAWN, opp) == Some(x) {
        assert(x.0 as int == (r + step) * 8 + f + 1);
    } else if squares_where(knight_checker_pred(b, king, opp), 64).contains(x) {
        lemma_squares_where_contains(knight_checker_pred(b, king, opp), 64);
    } else if ray_checker(b, f, r, 1, 1, opp, false) == Some(x) {
        lemma_ray_checker_attacks(b, king, opp, 1, 1, false, x);
    } else if ray_checker(b, f, r, 1, -1, opp, false) == Some(x) {
        lemma_ray_checker_attacks(b, king, opp, 1, -1, false, x);
    } else if ray_checker(b, f, r, -1, 1, opp, false) == Some(x) {
        lemma_ray_checker_attacks(b, king, opp, -1, 1, false, x);
    } else if ray_checker(b, f, r, -1, -1, opp, false) == Some(x) {
        lemma_ray_checker_attacks(b, king, opp, -1, -1, false, x);
    } else if ray_checker(b, f, r, 0, 1, opp, true) == Some(x) {
        lemma_ray_checker_attacks(b, king, opp, 0, 1, true, x);
    } else if ray_checker(b, f, r, 0, -1, opp, true) == Some(x) {
        lemma_ray_checker_attacks(b, king, opp, 0, -1, true, x);
    } else if ray_checker(b, f, r, 1, 0, opp, true) == Some(x) {
        lemma_ray_checker_attacks(b, king, opp, 1, 0, true, x);
    } else {
        lemma_ray_checker_attacks(b, king, opp, -1, 0, true, x);
    }
}

/// A point strictly inside the walk between two points is among the
/// squares listed between them.
proof fn lemma_inside_between(f: int, r: int, tf: int, tr: int, df: int, dr: int, qf: int, qr: int)
    requires
        inside(f, r, tf, tr, df, dr, qf, qr),
    ensures
        between_squares(f, r, tf, tr, df, dr).contains(Square::at(qf, qr)),
    decreases ray_measure(f, r, df, dr),
{
    let nf = f + df;
    let nr = r + dr;
    let first = seq![Square::at(nf, nr)];
    let rest = between_squares(nf, nr, tf, tr, df, dr);
    lemma_contains_concat(first, rest, Square::at(qf, qr));
    if nf == qf && nr == qr {
        assert(first[0] == Square::at(qf, qr));
    } else {
        lemma_inside_between(nf, nr, tf, tr, df, dr, qf, qr);
    }
}

/// A point that lies ahead of the start of a clear path and behind its end
/// is strictly inside the path.
proof fn lemma_ahead_inside(
    b: Seq<Piece>,
    f: int,
    r: int,
    tf: int,
    tr: int,
    df: int,
    dr: int,
    qf: int,
    qr: int,
)
    requires
        is_direction(df, dr),
        clear_path(b, f, r, tf, tr, df, dr),
        ahead(f, r, qf, qr, df, dr),
        ahead(qf, qr, tf, tr, df, dr),
    ensures
        inside(f, r, tf, tr, df, dr, qf, qr),
    decreases ray_measure(f, r, df, dr),
{
    let nf = f + df;
    let nr = r + dr;
    if nf == tf && nr == tr {
    } else if nf == qf && nr == qr {
    } else {
        lemma_ahead_inside(b, nf, nr, tf, tr, df, dr, qf, qr);
    }
}

/// A point strictly inside a clear path is strictly inside the path walked
/// the other way.
proof fn lemma_inside_reverse(
    b: Seq<Piece>,
    f: int,
    r: int,
    tf: int,
    tr: int,
    df: int,
    dr: int,
    qf: int,
    qr: int,
)
    requires
        is_direction(df, dr),
        on_board(f, r),
        clear_path(b, f, r, tf, tr, df, dr),
        inside(f, r, tf, tr, df, dr, qf, qr),
    ensures
        inside(tf, tr, f, r, -df, -dr, qf, qr),
{
    lemma_inside_ahead(b, f, r, tf, tr, df, dr, qf, qr);
    lemma_path_reverse(b, f, r, tf, tr, df, dr);
    lemma_ahead_inside(b, tf, tr, f, r, -df, -dr, qf, qr);
}

/// A checking piece still attacks the king on a board that holds the piece
/// as before and is empty wherever the first board is, but for one square
/// that does not answer the check.
proof fn lemma_check_stands_on(
    b: Seq<Piece>,
    a: Seq<Piece>,
    to: Square,
    king: Square,
    king_color: u8,
    c: Square,
)
    requires
        b.len() == 64,
        a.len() == 64,
        to.valid(),
        king.valid(),
        checkers(b, king, king_color).contains(c),
        a[c.0 as int] == b[c.0 as int],
        forall|i: int| 0 <= i < 64 && #[trigger] b[i] == EMPTY && i != to.0 ==> a[i] == EMPTY,
        !blocking_squares(b, king, c).contains(to),
    ensures
        is_attacker(a, c, king, other_side(king_color)),
{
    let kind = spec_piece_type(b[c.0 as int]);
    let kf = king.0 as int % 8;
    let kr = king.0 as int / 8;
    let cf = c.0 as int % 8;
    let cr = c.0 as int / 8;
    lemma_checker_is_attacker(b, king, king_color, c);
    if kind == QUEEN || kind == ROOK || kind == BISHOP {
        let between = between_squares(kf, kr, cf, cr, sign(cf - kf), sign(cr - kr));
        lemma_contains_concat(seq![c], between, to);
        let df = sign(kf - cf);
        let dr = sign(kr - cr);
        assert(kf - cf != 0 || kr - cr != 0);
        assert(clear_path(b, cf, cr, kf, kr, df, dr));
        assert(sign(cf - kf) == -df && sign(cr - kr) == -dr);
        let tf = to.0 as int % 8;
        let tr = to.0 as int / 8;
        if inside(cf, cr, kf, kr, df, dr, tf, tr) {
            lemma_inside_reverse(b, cf, cr, kf, kr, df, dr, tf, tr);
            lemma_inside_between(kf, kr, cf, cr, -df, -dr, tf, tr);
            assert(Square::at(tf, tr) == to);
        }
        lemma_path_on_other_board(
            b,
            a,
            to.0 as int,
            to.0 as int,
            cf,
            cr,
            kf,
            kr,
            df,
            dr,
        );
    }
}

/// A checking piece that the move neither takes nor shuts off from the
/// king attacks the king after the move.
pub proof fn lemma_check_stands(
    b: Seq<Piece>,
    from: Square,
    to: Square,
    piece: Piece,
    king: Square,
    king_color: u8,
    c: Square,
)
    requires
        b.len() == 64,
        from.valid(),
        to.valid(),
        king.valid(),
        from != to,
        piece != EMPTY,
        !spec_is_piece_color(b[from.0 as int], other_side(king_color)),
        checkers(b, king, king_color).contains(c),
        !blocking_squares(b, king, c).contains(to),
    ensures
        is_attacker(
            moved(b, from.0 as int, to.0 as int, piece),
            c,
            king,
            other_side(king_color),
        ),
{
    let a = moved(b, from.0 as int, to.0 as int, piece);
    lemma_checker_is_attacker(b, king, king_color, c);
    lemma_answer_holds_checker(b, king, c);
    assert(a[c.0 as int] == b[c.0 as int]);
    lemma_check_stands_on(b, a, to, king, king_color, c);
}

/// The square of a checking piece answers its check.
proof fn lemma_answer_holds_checker(b: Seq<Piece>, king: Square, c: Square)
    ensures
        blocking_squares(b, king, c).contains(c),
{
    let kf = king.0 as int % 8;
    let kr = king.0 as int / 8;
    let cf = c.0 as int % 8;
    let cr = c.0 as int / 8;
    let between = between_squares(kf, kr, cf, cr, sign(cf - kf), sign(cr - kr));
    assert(seq![c][0] == c);
    lemma_contains_concat(seq![c], between, c);
}

/// The place of a direction in the order in which the rays of the king are
/// searched for checking pieces.
pub open spec fn ray_rank(df: int, dr: int) -> int {
    if df == 1 && dr == 1 {
        0
    } else if df == 1 && dr == -1 {
        1
    } else if df == -1 && dr == 1 {
        2
    } else if df == -1 && dr == -1 {
        3
    } else if df == 0 && dr == 1 {
        4
    } else if df == 0 && dr == -1 {
        5
    } else if df == 1 && dr == 0 {
        6
    } else {
        7
    }
}

/// The piece on the square is found before the ray of rank `n` is
/// searched: it is a pawn or a knight, or it stands on a ray of lower rank.
pub open spec fn found_before(b: Seq<Piece>, king: Square, x: Square, n: int) -> bool {
    let kind = spec_piece_type(b[x.0 as int]);
    kind == PAWN || kind == KNIGHT || ray_rank(
        sign(x.0 as int % 8 - king.0 as int % 8),
        sign(x.0 as int / 8 - king.0 as int / 8),
    ) < n
}

/// The squares selected from the board are all different.
pub proof fn lemma_squares_where_distinct(p: spec_fn(int) -> bool, n: int)
    requires
        0 <= n <= 64,
    ensures
        squares_where(p, n).no_duplicates(),
    decreases n,
{
    if n > 0 {
        lemma_squares_where_distinct(p, n - 1);
        lemma_squares_where_contains(p, n - 1);
        let prev = squares_where(p, n - 1);
        let last = Square((n - 1) as u8);
        if p(n - 1) {
            assert(!prev.contains(last));
            assert forall|i: int, j: int|
                0 <= i < prev.len() + 1 && 0 <= j < prev.len() + 1 && i != j implies prev.push(
                last,
            )[i] != prev.push(last)[j] by {
                if i < prev.len() {
                    assert(prev.contains(prev[i]));
                }
                if j < prev.len() {
                    assert(prev.contains(prev[j]));
                }
            }
        }
    }
}

/// A list of different squares stays one when a square that it does not
/// hold is appended.
proof fn lemma_push_some_distinct(s: Seq<Square>, o: Option<Square>)
    requires
        s.no_duplicates(),
        o is Some ==> !s.contains(o.unwrap()),
    ensures
        push_some(s, o).no_duplicates(),
{
    if o is Some {
        let x = o.unwrap();
        let t = s.push(x);
        assert forall|i: int, j: int| 0 <= i < t.len() && 0 <= j < t.len() && i != j implies t[i]
            != t[j] by {
            if i < s.len() {
                assert(s.contains(s[i]));
            }
            if j < s.len() {
                assert(s.contains(s[j]));
            }
        }
    }
}

/// The search of one ray adds to a list of different pieces found before
/// it a piece that the list does not hold.
proof fn lemma_ray_stage(
    b: Seq<Piece>,
    king: Square,
    opp: u8,
    s: Seq<Square>,
    df: int,
    dr: int,
    axial: bool,
)
    requires
        b.len() == 64,
        king.valid(),
        is_direction(df, dr),
        axial == (df == 0 || dr == 0),
        s.no_duplicates(),
        forall|x: Square| #[trigger] s.contains(x) ==> found_before(b, king, x, ray_rank(df, dr)),
    ensures
        push_some(
            s,
            ray_checker(b, king.0 as int % 8, king.0 as int / 8, df, dr, opp, axial),
        ).no_duplicates(),
        forall|x: Square| #[trigger]
            push_some(
                s,
                ray_checker(b, king.0 as int % 8, king.0 as int / 8, df, dr, opp, axial),
            ).contains(x) ==> found_before(b, king, x, ray_rank(df, dr) + 1),
{
    let hit = ray_checker(b, king.0 as int % 8, king.0 as int / 8, df, dr, opp, axial);
    if hit is Some {
        lemma_ray_checker_attacks(b, king, opp, df, dr, axial, hit.unwrap());
    }
    lemma_push_some_distinct(s, hit);
    assert forall|x: Square| #[trigger] push_some(s, hit).contains(x) implies found_before(
        b,
        king,
        x,
        ray_rank(df, dr) + 1,
    ) by {
        lemma_push_some_contains(s, hit, x);
    }
}

/// No piece is listed twice among the checking pieces.
pub proof fn lemma_checkers_distinct(b: Seq<Piece>, king: Square, king_color: u8)
    requires
        b.len() == 64,
        king.valid(),
    ensures
        checkers(b, king, king_color).no_duplicates(),
{
    reveal(checkers);
    let opp = other_side(king_color);
    let f = king.0 as int % 8;
    let r = king.0 as int / 8;
    let step = pawn_source_step(opp);
    let left = offset_square(b, f, r, -1, step, PAWN, opp);
    let right = offset_square(b, f, r, 1, step, PAWN, opp);
    let s0 = Seq::<Square>::empty();
    let s1 = push_some(s0, left);
    let s2 = push_some(s1, right);
    let knights = squares_where(knight_checker_pred(b, king, opp), 64);
    let s3 = s2 + knights;
    lemma_push_some_distinct(s0, left);
    assert(!s1.contains(right.unwrap()) || right is None) by {
        if right is Some {
            lemma_push_some_contains(s0, left, right.unwrap());
            if left is Some {
                assert(left.unwrap().0 as int == (r + step) * 8 + f - 1);
                assert(right.unwrap().0 as int == (r + step) * 8 + f + 1);
            }
        }
    }
    lemma_push_some_distinct(s1, right);
    lemma_squares_where_distinct(knight_checker_pred(b, king, opp), 64);
    lemma_squares_where_contains(knight_checker_pred(b, king, opp), 64);
    assert forall|x: Square| #[trigger] s2.contains(x) implies spec_piece_type(b[x.0 as int]) == PAWN by {
        lemma_push_some_contains(s1, right, x);
        lemma_push_some_contains(s0, left, x);
        if left == Some(x) {
            assert(x.0 as int == (r + step) * 8 + f - 1);
        } else {
            assert(x.0 as int == (r + step) * 8 + f + 1);
        }
    }
    assert forall|i: int, j: int| 0 <= i < s3.len() && 0 <= j < s3.len() && i != j implies s3[i]
        != s3[j] by {
        if i < s2.len() {
            assert(s2.contains(s2[i]));
        } else {
            assert(knights.contains(knights[i - s2.len()]));
        }
        if j < s2.len() {
            assert(s2.contains(s2[j]));
        } else {
            assert(knights.contains(knights[j - s2.len()]));
        }
    }
    assert forall|x: Square| #[trigger] s3.contains(x) implies found_before(b, king, x, 0) by {
        lemma_contains_concat(s2, knights, x);
    }
    lemma_ray_stage(b, king, opp, s3, 1, 1, false);
    let s4 = push_some(s3, ray_checker(b, f, r, 1, 1, opp, false));
    lemma_ray_stage(b, king, opp, s4, 1, -1, false);
    let s5 = push_some(s4, ray_checker(b, f, r, 1, -1, opp, false));
    lemma_ray_stage(b, king, opp, s5, -1, 1, false);
    let s6 = push_some(s5, ray_checker(b, f, r, -1, 1, opp, false));
    lemma_ray_stage(b, king, opp, s6, -1, -1, false);
    let s7 = push_some(s6, ray_checker(b, f, r, -1, -1, opp, false));
    lemma_ray_stage(b, king, opp, s7, 0, 1, true);
    let s8 = push_some(s7, ray_checker(b, f, r, 0, 1, opp, true));
    lemma_ray_stage(b, king, opp, s8, 0, -1, true);
    let s9 = push_some(s8, ray_checker(b, f, r, 0, -1, opp, true));
    lemma_ray_stage(b, king, opp, s9, 1, 0, true);
    let s10 = push_some(s9, ray_checker(b, f, r, 1, 0, opp, true));
    lemma_ray_stage(b, king, opp, s10, -1, 0, true);
}

/// A square on which the check of a piece is answered is the square of the
/// piece or lies strictly inside the clear path from the king to it.
proof fn lemma_answer_shape(b: Seq<Piece>, king: Square, king_color: u8, c: Square, to: Square)
    requires
        b.len() == 64,
        king.valid(),
        checkers(b, king, king_color).contains(c),
        blocking_squares(b, king, c).contains(to),
    ensures
        c.valid(),
        b[c.0 as int] != EMPTY,
        to == c || ({
            let df = sign(c.0 as int % 8 - king.0 as int % 8);
            let dr = sign(c.0 as int / 8 - king.0 as int / 8);
            &&& is_direction(df, dr)
            &&& clear_path(
                b,
                king.0 as int % 8,
                king.0 as int / 8,
                c.0 as int % 8,
                c.0 as int / 8,
                df,
                dr,
            )
            &&& inside(
                king.0 as int % 8,
                king.0 as int / 8,
                c.0 as int % 8,
                c.0 as int / 8,
                df,
                dr,
                to.0 as int % 8,
                to.0 as int / 8,
            )
        }),
{
    let kind = spec_piece_type(b[c.0 as int]);
    let kf = king.0 as int % 8;
    let kr = king.0 as int / 8;
    let cf = c.0 as int % 8;
    let cr = c.0 as int / 8;
    let df = sign(cf - kf);
    let dr = sign(cr - kr);
    lemma_checker_is_attacker(b, king, king_color, c);
    assert(seq![c][0] == c);
    if kind == QUEEN || kind == ROOK || kind == BISHOP {
        let between = between_squares(kf, kr, cf, cr, df, dr);
        lemma_contains_concat(seq![c], between, to);
        if to != c {
            lemma_between_inside(kf, kr, cf, cr, df, dr, to);
            assert(kf - cf != 0 || kr - cr != 0);
            assert(sign(kf - cf) == -df && sign(kr - cr) == -dr);
            assert(clear_path(b, cf, cr, kf, kr, -df, -dr));
            lemma_path_reverse(b, cf, cr, kf, kr, -df, -dr);
        }
    }
}

/// One square answers the checks of two pieces only if the two are one.
proof fn lemma_one_answer_one_check(
    b: Seq<Piece>,
    king: Square,
    king_color: u8,
    c: Square,
    d: Square,
    to: Square,
)
    requires
        b.len() == 64,
        king.valid(),
        to.valid(),
        checkers(b, king, king_color).contains(c),
        checkers(b, king, king_color).contains(d),
        blocking_squares(b, king, c).contains(to),
        blocking_squares(b, king, d).contains(to),
    ensures
        c == d,
{
    let kf = king.0 as int % 8;
    let kr = king.0 as int / 8;
    let cf = c.0 as int % 8;
    let cr = c.0 as int / 8;
    let ef = d.0 as int % 8;
    let er = d.0 as int / 8;
    let tf = to.0 as int % 8;
    let tr = to.0 as int / 8;
    lemma_answer_shape(b, king, king_color, c, to);
    lemma_answer_shape(b, king, king_color, d, to);
    if c != d {
        if to == c {
            lemma_inside_is_empty(
                b,
                kf,
                kr,
                ef,
                er,
                sign(ef - kf),
                sign(er - kr),
                tf,
                tr,
            );
        } else if to == d {
            lemma_inside_is_empty(
                b,
                kf,
                kr,
                cf,
                cr,
                sign(cf - kf),
                sign(cr - kr),
                tf,
                tr,
            );
        } else {
            let df = sign(cf - kf);
            let dr = sign(cr - kr);
            lemma_inside_ahead(b, kf, kr, cf, cr, df, dr, tf, tr);
            lemma_inside_ahead(
                b,
                kf,
                kr,
                ef,
                er,
                sign(ef - kf),
                sign(er - kr),
                tf,
                tr,
            );
            assert(sign(ef - kf) == df && sign(er - kr) == dr);
            assert(cf != ef || cr != er);
            lemma_shorter_path_inside(b, kf, kr, cf, cr, ef, er, df, dr);
            lemma_inside_is_empty(b, kf, kr, ef, er, df, dr, cf, cr);
        }
    }
}

/// A move of a piece other than the king that leaves the king unattacked
/// answers every check: at most one piece gave check, and the move takes
/// it or steps between it and the king.
pub proof fn law_safe_move_answers_check(
    b: Seq<Piece>,
    from: Square,
    to: Square,
    piece: Piece,
    king: Square,
    king_color: u8,
)
    requires
        b.len() == 64,
        from.valid(),
        to.valid(),
        king.valid(),
        from != to,
        piece != EMPTY,
        !spec_is_piece_color(b[from.0 as int], other_side(king_color)),
        !attacked(
            moved(b, from.0 as int, to.0 as int, piece),
            king,
            other_side(king_color),
        ),
    ensures
        checkers(b, king, king_color).len() <= 1,
        checkers(b, king, king_color).len() == 1 ==> blocking_squares(
            b,
            king,
            checkers(b, king, king_color)[0],
        ).contains(to),
{
    let opp = other_side(king_color);
    let a = moved(b, from.0 as int, to.0 as int, piece);
    let checking = checkers(b, king, king_color);
    law_attacked_by_a_piece(a, king, opp);
    assert forall|c: Square| #[trigger] checking.contains(c) implies blocking_squares(
        b,
        king,
        c,
    ).contains(to) by {
        if !blocking_squares(b, king, c).contains(to) {
            lemma_check_stands(b, from, to, piece, king, king_color, c);
        }
    }
    if checking.len() >= 1 {
        assert(checking.contains(checking[0]));
    }
    if checking.len() >= 2 {
        assert(checking.contains(checking[1]));
        lemma_checkers_distinct(b, king, king_color);
        lemma_one_answer_one_check(b, king, king_color, checking[0], checking[1], to);
    }
}

/// Two clear paths in one direction that meet on an empty square make one
/// clear path.
proof fn lemma_path_join(
    b: Seq<Piece>,
    f: int,
    r: int,
    mf: int,
    mr: int,
    tf: int,
    tr: int,
    df: int,
    dr: int,
)
    requires
        is_direction(df, dr),
        on_board(mf, mr),
        b[mr * 8 + mf] == EMPTY,
        clear_path(b, f, r, mf, mr, df, dr),
        clear_path(b, mf, mr, tf, tr, df, dr),
    ensures
        clear_path(b, f, r, tf, tr, df, dr),
    decreases ray_measure(mf, mr, df, dr),
{
    lemma_path_extend(b, f, r, mf, mr, df, dr);
    let nf = mf + df;
    let nr = mr + dr;
    if nf == tf && nr == tr {
    } else {
        lemma_path_join(b, f, r, nf, nr, tf, tr, df, dr);
    }
}

/// What a pin is: the piece stands on a clear line between its king and
/// the enemy slider that is first behind it.
pub open spec fn pin_line(
    b: Seq<Piece>,
    from: Square,
    king: Square,
    x: Square,
    df: int,
    dr: int,
) -> bool {
    let ff = from.0 as int % 8;
    let fr = from.0 as int / 8;
    &&& king.valid()
    &&& x.valid()
    &&& x != from
    &&& king != from
    &&& is_direction(df, dr)
    &&& spec_is_piece_color(b[king.0 as int], spec_piece_color(b[from.0 as int]))
    &&& spec_is_piece_color(
        b[x.0 as int],
        spec_opposite_color(spec_piece_color(b[from.0 as int])),
    )
    &&& slider_kind(spec_piece_type(b[x.0 as int]), df == 0 || dr == 0)
    &&& clear_path(b, ff, fr, king.0 as int % 8, king.0 as int / 8, df, dr)
    &&& clear_path(b, ff, fr, x.0 as int % 8, x.0 as int / 8, -df, -dr)
}

/// A pinned piece has a pinning piece: the enemy slider first behind it on
/// the line to its king.
pub proof fn lemma_pinner(b: Seq<Piece>, from: Square) -> (x: Square)
    requires
        b.len() == 64,
        from.valid(),
        pinned(b, from) is Some,
    ensures
        spec_find_king(b, spec_piece_color(b[from.0 as int])) is Some,
        pin_line(
            b,
            from,
            spec_find_king(
                b,
                spec_piece_color(b[from.0 as int]),
            ).unwrap(),
            x,
            pinned(b, from).unwrap().0 as int,
            pinned(b, from).unwrap().1 as int,
        ),
{
    let color = spec_piece_color(b[from.0 as int]);
    let king = spec_find_king(b, color).unwrap();
    lemma_king_from_is_king(b, color, 0);
    let ff = from.0 as int % 8;
    let fr = from.0 as int / 8;
    let kf = king.0 as int % 8;
    let kr = king.0 as int / 8;
    let df = sign(kf - ff);
    let dr = sign(kr - fr);
    lemma_ray_hit_path(b, ff, fr, -df, -dr);
    let x = ray_hit(b, ff, fr, -df, -dr).unwrap();
    lemma_path_ahead(b, ff, fr, x.0 as int % 8, x.0 as int / 8, -df, -dr);
    x
}

/// With the pinned piece lifted from the board, the line from the pinning
/// piece to the king is clear.
proof fn lemma_pin_line_opens(
    b: Seq<Piece>,
    from: Square,
    king: Square,
    x: Square,
    df: int,
    dr: int,
)
    requires
        b.len() == 64,
        from.valid(),
        pin_line(b, from, king, x, df, dr),
    ensures
        clear_path(
            b.update(from.0 as int, EMPTY),
            x.0 as int % 8,
            x.0 as int / 8,
            king.0 as int % 8,
            king.0 as int / 8,
            df,
            dr,
        ),
        ahead(x.0 as int % 8, x.0 as int / 8, from.0 as int % 8, from.0 as int / 8, df, dr),
        ahead(from.0 as int % 8, from.0 as int / 8, king.0 as int % 8, king.0 as int / 8, df, dr),
{
    let lifted = b.update(from.0 as int, EMPTY);
    let ff = from.0 as int % 8;
    let fr = from.0 as int / 8;
    let kf = king.0 as int % 8;
    let kr = king.0 as int / 8;
    let xf = x.0 as int % 8;
    let xr = x.0 as int / 8;
    lemma_path_reverse(b, ff, fr, xf, xr, -df, -dr);
    lemma_path_ahead(b, xf, xr, ff, fr, df, dr);
    lemma_path_ahead(b, ff, fr, kf, kr, df, dr);
    lemma_not_inside_own_end(b, xf, xr, ff, fr, df, dr);
    lemma_not_inside_own_start(b, ff, fr, kf, kr, df, dr);
    lemma_path_on_other_board(
        b,
        lifted,
        from.0 as int,
        from.0 as int,
        xf,
        xr,
        ff,
        fr,
        df,
        dr,
    );
    lemma_path_on_other_board(
        b,
        lifted,
        from.0 as int,
        from.0 as int,
        ff,
        fr,
        kf,
        kr,
        df,
        dr,
    );
    assert(lifted[fr * 8 + ff] == EMPTY);
    lemma_path_join(lifted, xf, xr, ff, fr, kf, kr, df, dr);
}

/// A pinning piece attacks the king on a board that holds the piece as
/// before and is empty wherever the first board is and where the pinned
/// piece stood, but for one square that does not lie between the pinning
/// piece and the king.
proof fn lemma_pin_stands(
    b: Seq<Piece>,
    a: Seq<Piece>,
    from: Square,
    to: Square,
    king: Square,
    x: Square,
    df: int,
    dr: int,
)
    requires
        b.len() == 64,
        a.len() == 64,
        from.valid(),
        to.valid(),
        pin_line(b, from, king, x, df, dr),
        a[x.0 as int] == b[x.0 as int],
        forall|i: int|
            0 <= i < 64 && (#[trigger] b[i] == EMPTY || i == from.0) && i != to.0 ==> a[i]
                == EMPTY,
        !inside(
            x.0 as int % 8,
            x.0 as int / 8,
            king.0 as int % 8,
            king.0 as int / 8,
            df,
            dr,
            to.0 as int % 8,
            to.0 as int / 8,
        ),
    ensures
        is_attacker(
            a,
            x,
            king,
            spec_opposite_color(spec_piece_color(b[from.0 as int])),
        ),
{
    let lifted = b.update(from.0 as int, EMPTY);
    let kf = king.0 as int % 8;
    let kr = king.0 as int / 8;
    let xf = x.0 as int % 8;
    let xr = x.0 as int / 8;
    lemma_pin_line_opens(b, from, king, x, df, dr);
    assert forall|i: int| 0 <= i < 64 && #[trigger] lifted[i] == EMPTY && i != to.0 implies a[i]
        == EMPTY by {
        if i != from.0 {
            assert(b[i] == EMPTY);
        }
    }
    lemma_path_on_other_board(
        lifted,
        a,
        to.0 as int,
        to.0 as int,
        xf,
        xr,
        kf,
        kr,
        df,
        dr,
    );
    lemma_path_ahead(a, xf, xr, kf, kr, df, dr);
    assert(sign(kf - xf) == df && sign(kr - xr) == dr);
}

/// A pinned piece that leaves its square for a square off the line of the
/// pin lets the pinning piece attack the king, on any board that holds the
/// pinning piece as before and is empty wherever the first board is and
/// where the pinned piece stood, but for the square on which it arrives.
proof fn lemma_leaving_the_line(
    b: Seq<Piece>,
    a: Seq<Piece>,
    from: Square,
    to: Square,
    king: Square,
    x: Square,
    df: int,
    dr: int,
)
    requires
        b.len() == 64,
        a.len() == 64,
        from.valid(),
        to.valid(),
        from != to,
        to != x,
        pin_line(b, from, king, x, df, dr),
        a[x.0 as int] == b[x.0 as int],
        forall|i: int|
            0 <= i < 64 && (#[trigger] b[i] == EMPTY || i == from.0) && i != to.0 ==> a[i]
                == EMPTY,
        !attacked(
            a,
            king,
            spec_opposite_color(spec_piece_color(b[from.0 as int])),
        ),
    ensures
        ahead(from.0 as int % 8, from.0 as int / 8, to.0 as int % 8, to.0 as int / 8, df, dr)
            || ahead(
            from.0 as int % 8,
            from.0 as int / 8,
            to.0 as int % 8,
            to.0 as int / 8,
            -df,
            -dr,
        ),
{
    let opp = spec_opposite_color(spec_piece_color(b[from.0 as int]));
    let lifted = b.update(from.0 as int, EMPTY);
    let ff = from.0 as int % 8;
    let fr = from.0 as int / 8;
    let tf = to.0 as int % 8;
    let tr = to.0 as int / 8;
    let kf = king.0 as int % 8;
    let kr = king.0 as int / 8;
    let xf = x.0 as int % 8;
    let xr = x.0 as int / 8;
    law_attacked_by_a_piece(a, king, opp);
    lemma_pin_line_opens(b, from, king, x, df, dr);
    if inside(xf, xr, kf, kr, df, dr, tf, tr) {
        lemma_inside_ahead(lifted, xf, xr, kf, kr, df, dr, tf, tr);
        assert(tf != ff || tr != fr) by {
            assert(to.0 as int == tr * 8 + tf);
            assert(from.0 as int == fr * 8 + ff);
        }
    } else {
        lemma_pin_stands(b, a, from, to, king, x, df, dr);
    }
}

/// A pinned piece whose move leaves the king unattacked has stayed on the
/// line of the pin.
pub proof fn lemma_safe_move_keeps_line(
    b: Seq<Piece>,
    from: Square,
    to: Square,
    piece: Piece,
    king: Square,
    x: Square,
    df: int,
    dr: int,
)
    requires
        b.len() == 64,
        from.valid(),
        to.valid(),
        from != to,
        piece != EMPTY,
        pin_line(b, from, king, x, df, dr),
        !attacked(
            moved(b, from.0 as int, to.0 as int, piece),
            king,
            spec_opposite_color(spec_piece_color(b[from.0 as int])),
        ),
    ensures
        ahead(from.0 as int % 8, from.0 as int / 8, to.0 as int % 8, to.0 as int / 8, df, dr)
            || ahead(
            from.0 as int % 8,
            from.0 as int / 8,
            to.0 as int % 8,
            to.0 as int / 8,
            -df,
            -dr,
        ),
{
    let a = moved(b, from.0 as int, to.0 as int, piece);
    if to == x {
        lemma_path_ahead(
            b,
            from.0 as int % 8,
            from.0 as int / 8,
            x.0 as int % 8,
            x.0 as int / 8,
            -df,
            -dr,
        );
    } else {
        assert(a[x.0 as int] == b[x.0 as int]);
        lemma_leaving_the_line(b, a, from, to, king, x, df, dr);
    }
}

/// Where the piece on the square may go by the way its kind moves, pins
/// and checks left aside.
pub open spec fn free_moves(s: Position, square: Square) -> Seq<Square> {
    let b = s.squares;
    let piece = b[square.0 as int];
    let kind = spec_piece_type(piece);
    let color = spec_piece_color(piece);
    if kind == KNIGHT {
        s.knight_moves(square)
    } else if kind == ROOK {
        rook_moves(b, square, color)
    } else if kind == BISHOP {
        bishop_moves(b, square, color)
    } else if kind == QUEEN {
        queen_moves(b, square, color)
    } else if kind == KING {
        s.king_moves(square)
    } else if kind == PAWN {
        pawn_moves(b, square, color, s.en_passant_target)
    } else {
        Seq::empty()
    }
}

/// A move along a ray that ends on the line of a pin goes along that line.
proof fn lemma_ray_on_line(
    b: Seq<Piece>,
    from: Square,
    ef: int,
    er: int,
    color: u8,
    to: Square,
    pin: (i8, i8),
)
    requires
        b.len() == 64,
        is_direction(ef, er),
        is_direction(pin.0 as int, pin.1 as int),
        ray_moves(b, from.0 as int % 8, from.0 as int / 8, ef, er, color).contains(
            to,
        ),
        ahead(
            from.0 as int % 8,
            from.0 as int / 8,
            to.0 as int % 8,
            to.0 as int / 8,
            pin.0 as int,
            pin.1 as int,
        ) || ahead(
            from.0 as int % 8,
            from.0 as int / 8,
            to.0 as int % 8,
            to.0 as int / 8,
            -pin.0,
            -pin.1,
        ),
    ensures
        (ef == pin.0 && er == pin.1) || (ef == -pin.0 && er == -pin.1),
{
    let f = from.0 as int % 8;
    let r = from.0 as int / 8;
    lemma_ray_move_path(b, f, r, ef, er, color, to);
    lemma_path_ahead(b, f, r, to.0 as int % 8, to.0 as int / 8, ef, er);
}

/// A rook's move that ends on the line of a pin is a move of the pinned
/// rook.
proof fn lemma_rook_on_line(b: Seq<Piece>, from: Square, color: u8, to: Square, pin: (i8, i8))
    requires
        b.len() == 64,
        is_direction(pin.0 as int, pin.1 as int),
        rook_moves(b, from, color).contains(to),
        ahead(
            from.0 as int % 8,
            from.0 as int / 8,
            to.0 as int % 8,
            to.0 as int / 8,
            pin.0 as int,
            pin.1 as int,
        ) || ahead(
            from.0 as int % 8,
            from.0 as int / 8,
            to.0 as int % 8,
            to.0 as int / 8,
            -pin.0,
            -pin.1,
        ),
    ensures
        pin.0 == 0 || pin.1 == 0,
        (ray_moves(
            b,
            from.0 as int % 8,
            from.0 as int / 8,
            pin.0 as int,
            pin.1 as int,
            color,
        ) + ray_moves(
            b,
            from.0 as int % 8,
            from.0 as int / 8,
            -pin.0,
            -pin.1,
            color,
        )).contains(to),
{
    let f = from.0 as int % 8;
    let r = from.0 as int / 8;
    let up = ray_moves(b, f, r, 0, 1, color);
    let down = ray_moves(b, f, r, 0, -1, color);
    let right = ray_moves(b, f, r, 1, 0, color);
    let left = ray_moves(b, f, r, -1, 0, color);
    lemma_contains_concat(up + down + right, left, to);
    lemma_contains_concat(up + down, right, to);
    lemma_contains_concat(up, down, to);
    lemma_contains_concat(
        ray_moves(b, f, r, pin.0 as int, pin.1 as int, color),
        ray_moves(b, f, r, -pin.0, -pin.1, color),
        to,
    );
    if up.contains(to) {
        lemma_ray_on_line(b, from, 0, 1, color, to, pin);
    } else if down.contains(to) {
        lemma_ray_on_line(b, from, 0, -1, color, to, pin);
    } else if right.contains(to) {
        lemma_ray_on_line(b, from, 1, 0, color, to, pin);
    } else {
        lemma_ray_on_line(b, from, -1, 0, color, to, pin);
    }
}

/// A bishop's move that ends on the line of a pin is a move of the pinned
/// bishop.
proof fn lemma_bishop_on_line(b: Seq<Piece>, from: Square, color: u8, to: Square, pin: (i8, i8))
    requires
        b.len() == 64,
        is_direction(pin.0 as int, pin.1 as int),
        bishop_moves(b, from, color).contains(to),
        ahead(
            from.0 as int % 8,
            from.0 as int / 8,
            to.0 as int % 8,
            to.0 as int / 8,
            pin.0 as int,
            pin.1 as int,
        ) || ahead(
            from.0 as int % 8,
            from.0 as int / 8,
            to.0 as int % 8,
            to.0 as int / 8,
            -pin.0,
            -pin.1,
        ),
    ensures
        pin.0 != 0 && pin.1 != 0,
        (ray_moves(
            b,
            from.0 as int % 8,
            from.0 as int / 8,
            pin.0 as int,
            pin.1 as int,
            color,
        ) + ray_moves(
            b,
            from.0 as int % 8,
            from.0 as int / 8,
            -pin.0,
            -pin.1,
            color,
        )).contains(to),
{
    let f = from.0 as int % 8;
    let r = from.0 as int / 8;
    let a = ray_moves(b, f, r, 1, 1, color);
    let c = ray_moves(b, f, r, 1, -1, color);
    let d = ray_moves(b, f, r, -1, 1, color);
    let e = ray_moves(b, f, r, -1, -1, color);
    lemma_contains_concat(a + c + d, e, to);
    lemma_contains_concat(a + c, d, to);
    lemma_contains_concat(a, c, to);
    lemma_contains_concat(
        ray_moves(b, f, r, pin.0 as int, pin.1 as int, color),
        ray_moves(b, f, r, -pin.0, -pin.1, color),
        to,
    );
    if a.contains(to) {
        lemma_ray_on_line(b, from, 1, 1, color, to, pin);
    } else if c.contains(to) {
        lemma_ray_on_line(b, from, 1, -1, color, to, pin);
    } else if d.contains(to) {
        lemma_ray_on_line(b, from, -1, 1, color, to, pin);
    } else {
        lemma_ray_on_line(b, from, -1, -1, color, to, pin);
    }
}

/// A pawn's move that ends on the line of a pin, and that is no en-passant
/// capture, is a move of the pinned pawn.
proof fn lemma_pawn_on_line(
    b: Seq<Piece>,
    from: Square,
    color: u8,
    target: Option<Square>,
    to: Square,
    pin: (i8, i8),
)
    requires
        b.len() == 64,
        from.valid(),
        is_direction(pin.0 as int, pin.1 as int),
        pawn_moves(b, from, color, target).contains(to),
        !(target == Some(to) && b[to.0 as int] == EMPTY && (to.0 as int % 8 - from.0 as int % 8
            == 1 || to.0 as int % 8 - from.0 as int % 8 == -1) && (to.0 as int / 8
            - from.0 as int / 8 == 1 || to.0 as int / 8 - from.0 as int / 8 == -1)),
        ahead(
            from.0 as int % 8,
            from.0 as int / 8,
            to.0 as int % 8,
            to.0 as int / 8,
            pin.0 as int,
            pin.1 as int,
        ) || ahead(
            from.0 as int % 8,
            from.0 as int / 8,
            to.0 as int % 8,
            to.0 as int / 8,
            -pin.0,
            -pin.1,
        ),
    ensures
        pinned_pawn_moves(b, from, pin, color, target).contains(to),
{
    let f = from.0 as int % 8;
    let r = from.0 as int / 8;
    let d = pawn_step(color);
    let s0 = Seq::<Square>::empty();
    let c1 = empty_at(b, f, r + d);
    let c2 = c1 && r == pawn_start_rank(color) && empty_at(
        b,
        f,
        r + 2 * d,
    );
    let c3 = enemy_at(b, f - 1, r + d, color);
    let c4 = enemy_at(b, f + 1, r + d, color);
    let c5 = en_passant_at(b, f, r, -1, color, target);
    let c6 = en_passant_at(b, f, r, 1, color, target);
    let s1 = push_if(s0, c1, Square::at(f, r + d));
    let s2 = push_if(s1, c2, Square::at(f, r + 2 * d));
    let s3 = push_if(s2, c3, Square::at(f - 1, r + d));
    let s4 = push_if(s3, c4, Square::at(f + 1, r + d));
    let s5 = push_if(s4, c5, target.unwrap());
    lemma_contains_push_if(s5, c6, target.unwrap(), to);
    lemma_contains_push_if(s4, c5, target.unwrap(), to);
    lemma_contains_push_if(s3, c4, Square::at(f + 1, r + d), to);
    lemma_contains_push_if(s2, c3, Square::at(f - 1, r + d), to);
    lemma_contains_push_if(s1, c2, Square::at(f, r + 2 * d), to);
    lemma_contains_push_if(s0, c1, Square::at(f, r + d), to);
    assert(!s0.contains(to));
    if pin.0 == 0 {
        let step1 = push_if(s0, c1, Square::at(f, r + d));
        lemma_contains_push_if(step1, c2, Square::at(f, r + 2 * d), to);
    } else if pin.1 != 0 {
        let q1 = pinned_capture_at(b, f, r, pin, -1, color);
        let q2 = pinned_capture_at(b, f, r, pin, 1, color);
        let q3 = pinned_en_passant_at(b, f, r, pin, -1, color, target);
        let q4 = pinned_en_passant_at(b, f, r, pin, 1, color, target);
        let step1 = push_if(s0, q1, Square::at(f - pin.0, r - pin.1));
        let step2 = push_if(step1, q2, Square::at(f + pin.0, r + pin.1));
        let step3 = push_if(step2, q3, target.unwrap());
        lemma_contains_push_if(step3, q4, target.unwrap(), to);
        lemma_contains_push_if(step2, q3, target.unwrap(), to);
        lemma_contains_push_if(step1, q2, Square::at(f + pin.0, r + pin.1), to);
        lemma_contains_push_if(s0, q1, Square::at(f - pin.0, r - pin.1), to);
    }
}

/// A move of a pinned piece, made the way the piece moves and no en-passant
/// capture, that leaves the king unattacked is one of the moves that the
/// pin allows.
proof fn lemma_safe_move_within_pin(s: Position, mv: Move, piece: Piece, king: Square)
    requires
        s.wf(),
        mv.valid(),
        mv.from != mv.to,
        piece != EMPTY,
        spec_is_piece_color(s.squares[mv.from.0 as int], s.turn),
        spec_piece_type(s.squares[mv.from.0 as int]) != KING,
        !s.is_en_passant(mv),
        free_moves(s, mv.from).contains(mv.to),
        spec_find_king(s.squares, s.turn) == Some(king),
        pinned(s.squares, mv.from) is Some,
        !attacked(
            moved(s.squares, mv.from.0 as int, mv.to.0 as int, piece),
            king,
            spec_opposite_color(s.turn),
        ),
    ensures
        pinned_piece_moves(
            s.squares,
            mv.from,
            pinned(s.squares, mv.from).unwrap(),
            s.en_passant_target,
        ).contains(mv.to),
{
    let b = s.squares;
    let from = mv.from;
    let to = mv.to;
    let pin = pinned(b, from).unwrap();
    let kind = spec_piece_type(b[from.0 as int]);
    let color = spec_piece_color(b[from.0 as int]);
    let x = lemma_pinner(b, from);
    lemma_safe_move_keeps_line(b, from, to, piece, king, x, pin.0 as int, pin.1 as int);
    if kind == KNIGHT {
        lemma_squares_where_contains(
            knight_target_pred(b, from, s.turn),
            64,
        );
    } else if kind == ROOK {
        lemma_rook_on_line(b, from, color, to, pin);
    } else if kind == BISHOP {
        lemma_bishop_on_line(b, from, color, to, pin);
    } else if kind == QUEEN {
        lemma_contains_concat(
            rook_moves(b, from, color),
            bishop_moves(b, from, color),
            to,
        );
        if rook_moves(b, from, color).contains(to) {
            lemma_rook_on_line(b, from, color, to, pin);
        } else {
            lemma_bishop_on_line(b, from, color, to, pin);
        }
    } else if kind == PAWN {
        lemma_pawn_on_line(b, from, color, s.en_passant_target, to, pin);
    }
}

/// A move of a piece other than the king, made the way the piece moves and
/// no en-passant capture, that leaves the king of the side to move
/// unattacked is a legal move.
pub proof fn law_safe_move_is_legal(s: Position, mv: Move)
    requires
        s.wf(),
        mv.valid(),
        mv.from != mv.to,
        spec_is_piece_color(s.squares[mv.from.0 as int], s.turn),
        spec_piece_type(s.squares[mv.from.0 as int]) != KING,
        !s.is_en_passant(mv),
        free_moves(s, mv.from).contains(mv.to),
        s.promotion_ok(mv),
        match spec_find_king(s.squares, s.turn) {
            Some(k) => !attacked(
                moved(
                    s.squares,
                    mv.from.0 as int,
                    mv.to.0 as int,
                    arriving_piece(s.squares[mv.from.0 as int], mv.promotion),
                ),
                k,
                spec_opposite_color(s.turn),
            ),
            None => false,
        },
    ensures
        s.is_legal(mv),
{
    reveal(Position::pseudo_legal_moves);
    reveal(Position::legal_moves);
    reveal(Position::is_legal);
    let b = s.squares;
    let king = spec_find_king(b, s.turn).unwrap();
    let piece = arriving_piece(b[mv.from.0 as int], mv.promotion);
    lemma_king_from_is_king(b, s.turn, 0);
    if mv.promotion is Some {
        lemma_make_piece(
            mv.promotion.unwrap(),
            spec_piece_color(b[mv.from.0 as int]),
        );
    }
    assert(piece != EMPTY);
    assert(other_side(s.turn) == spec_opposite_color(s.turn));
    if pinned(b, mv.from) is Some {
        lemma_safe_move_within_pin(s, mv, piece, king);
    }
    let pseudo = s.pseudo_legal_moves(mv.from);
    assert(pseudo.contains(mv.to));
    law_safe_move_answers_check(b, mv.from, mv.to, piece, king, s.turn);
    let checking = checkers(b, king, s.turn);
    let plain = Move { from: mv.from, to: mv.to, promotion: None };
    assert(s.is_en_passant(plain) == s.is_en_passant(mv));
    lemma_keep_where(
        pseudo,
        s.answers_check(mv.from, king, checking),
        pseudo.len() as int,
    );
    let k = choose|k: int| 0 <= k < pseudo.len() && pseudo[k] == mv.to;
    assert(pseudo[k] == mv.to);
}

/// What a pin allows is a move that the piece makes by the way its kind
/// moves.
pub proof fn lemma_pinned_move_is_free(s: Position, from: Square, pin: (i8, i8), to: Square)
    requires
        s.squares.len() == 64,
        from.valid(),
        is_direction(pin.0 as int, pin.1 as int),
        pinned_piece_moves(s.squares, from, pin, s.en_passant_target).contains(to),
    ensures
        free_moves(s, from).contains(to),
{
    let b = s.squares;
    let f = from.0 as int % 8;
    let r = from.0 as int / 8;
    let kind = spec_piece_type(b[from.0 as int]);
    let color = spec_piece_color(b[from.0 as int]);
    let target = s.en_passant_target;
    let along = ray_moves(b, f, r, pin.0 as int, pin.1 as int, color);
    let back = ray_moves(b, f, r, -pin.0, -pin.1, color);
    let up = ray_moves(b, f, r, 0, 1, color);
    let down = ray_moves(b, f, r, 0, -1, color);
    let right = ray_moves(b, f, r, 1, 0, color);
    let left = ray_moves(b, f, r, -1, 0, color);
    let ne = ray_moves(b, f, r, 1, 1, color);
    let se = ray_moves(b, f, r, 1, -1, color);
    let nw = ray_moves(b, f, r, -1, 1, color);
    let sw = ray_moves(b, f, r, -1, -1, color);
    if kind == PAWN {
        let d = pawn_step(color);
        let s0 = Seq::<Square>::empty();
        let c1 = empty_at(b, f, r + d);
        let c2 = c1 && r == pawn_start_rank(color) && empty_at(
            b,
            f,
            r + 2 * d,
        );
        let c3 = enemy_at(b, f - 1, r + d, color);
        let c4 = enemy_at(b, f + 1, r + d, color);
        let c5 = en_passant_at(b, f, r, -1, color, target);
        let c6 = en_passant_at(b, f, r, 1, color, target);
        let s1 = push_if(s0, c1, Square::at(f, r + d));
        let s2 = push_if(s1, c2, Square::at(f, r + 2 * d));
        let s3 = push_if(s2, c3, Square::at(f - 1, r + d));
        let s4 = push_if(s3, c4, Square::at(f + 1, r + d));
        let s5 = push_if(s4, c5, target.unwrap());
        lemma_contains_push_if(s5, c6, target.unwrap(), to);
        lemma_contains_push_if(s4, c5, target.unwrap(), to);
        lemma_contains_push_if(s3, c4, Square::at(f + 1, r + d), to);
        lemma_contains_push_if(s2, c3, Square::at(f - 1, r + d), to);
        lemma_contains_push_if(s1, c2, Square::at(f, r + 2 * d), to);
        lemma_contains_push_if(s0, c1, Square::at(f, r + d), to);
        assert(!s0.contains(to));
        if pin.0 == 0 {
            let step1 = push_if(s0, c1, Square::at(f, r + d));
            lemma_contains_push_if(step1, c2, Square::at(f, r + 2 * d), to);
        } else if pin.1 != 0 {
            let q1 = pinned_capture_at(b, f, r, pin, -1, color);
            let q2 = pinned_capture_at(b, f, r, pin, 1, color);
            let q3 = pinned_en_passant_at(b, f, r, pin, -1, color, target);
            let q4 = pinned_en_passant_at(b, f, r, pin, 1, color, target);
            let step1 = push_if(s0, q1, Square::at(f - pin.0, r - pin.1));
            let step2 = push_if(step1, q2, Square::at(f + pin.0, r + pin.1));
            let step3 = push_if(step2, q3, target.unwrap());
            lemma_contains_push_if(step3, q4, target.unwrap(), to);
            lemma_contains_push_if(step2, q3, target.unwrap(), to);
            lemma_contains_push_if(step1, q2, Square::at(f + pin.0, r + pin.1), to);
            lemma_contains_push_if(s0, q1, Square::at(f - pin.0, r - pin.1), to);
        }
    } else if kind == ROOK || kind == BISHOP || kind == QUEEN {
        lemma_contains_concat(along, back, to);
        lemma_contains_concat(up + down + right, left, to);
        lemma_contains_concat(up + down, right, to);
        lemma_contains_concat(up, down, to);
        lemma_contains_concat(ne + se + nw, sw, to);
        lemma_contains_concat(ne + se, nw, to);
        lemma_contains_concat(ne, se, to);
        lemma_contains_concat(
            rook_moves(b, from, color),
            bishop_moves(b, from, color),
            to,
        );
    }
}

/// A pawn's move onto the empty en-passant target, one file aside, is the
/// en-passant capture: the pawn stands on its fifth rank beside an enemy
/// pawn on the file of the target.
proof fn lemma_en_passant_shape(
    b: Seq<Piece>,
    from: Square,
    color: u8,
    target: Option<Square>,
    to: Square,
)
    requires
        b.len() == 64,
        from.valid(),
        to.valid(),
        pawn_moves(b, from, color, target).contains(to),
        target == Some(to),
        b[to.0 as int] == EMPTY,
        to.0 as int % 8 - from.0 as int % 8 == 1 || to.0 as int % 8 - from.0 as int % 8 == -1,
    ensures
        en_passant_at(
            b,
            from.0 as int % 8,
            from.0 as int / 8,
            to.0 as int % 8 - from.0 as int % 8,
            color,
            target,
        ),
{
    let f = from.0 as int % 8;
    let r = from.0 as int / 8;
    let d = pawn_step(color);
    let s0 = Seq::<Square>::empty();
    let c1 = empty_at(b, f, r + d);
    let c2 = c1 && r == pawn_start_rank(color) && empty_at(
        b,
        f,
        r + 2 * d,
    );
    let c3 = enemy_at(b, f - 1, r + d, color);
    let c4 = enemy_at(b, f + 1, r + d, color);
    let c5 = en_passant_at(b, f, r, -1, color, target);
    let c6 = en_passant_at(b, f, r, 1, color, target);
    let s1 = push_if(s0, c1, Square::at(f, r + d));
    let s2 = push_if(s1, c2, Square::at(f, r + 2 * d));
    let s3 = push_if(s2, c3, Square::at(f - 1, r + d));
    let s4 = push_if(s3, c4, Square::at(f + 1, r + d));
    let s5 = push_if(s4, c5, target.unwrap());
    lemma_contains_push_if(s5, c6, target.unwrap(), to);
    lemma_contains_push_if(s4, c5, target.unwrap(), to);
    lemma_contains_push_if(s3, c4, Square::at(f + 1, r + d), to);
    lemma_contains_push_if(s2, c3, Square::at(f - 1, r + d), to);
    lemma_contains_push_if(s1, c2, Square::at(f, r + 2 * d), to);
    lemma_contains_push_if(s0, c1, Square::at(f, r + d), to);
    assert(!s0.contains(to));
    assert(to.0 as int == (to.0 as int / 8) * 8 + to.0 as int % 8);
}

/// An en-passant capture by a pinned pawn that leaves the king unattacked
/// is one of the moves that the pin allows.
proof fn lemma_en_passant_within_pin(s: Position, mv: Move, king: Square)
    requires
        s.wf(),
        mv.valid(),
        spec_is_piece_color(s.squares[mv.from.0 as int], s.turn),
        s.is_en_passant(mv),
        free_moves(s, mv.from).contains(mv.to),
        spec_find_king(s.squares, s.turn) == Some(king),
        pinned(s.squares, mv.from) is Some,
        !attacked(
            s.squares_after_en_passant(mv),
            king,
            spec_opposite_color(s.turn),
        ),
    ensures
        pinned_piece_moves(
            s.squares,
            mv.from,
            pinned(s.squares, mv.from).unwrap(),
            s.en_passant_target,
        ).contains(mv.to),
{
    let b = s.squares;
    let from = mv.from;
    let to = mv.to;
    let a = s.squares_after_en_passant(mv);
    let pin = pinned(b, from).unwrap();
    let color = spec_piece_color(b[from.0 as int]);
    let target = s.en_passant_target;
    let f = from.0 as int % 8;
    let r = from.0 as int / 8;
    let victim = en_passant_victim(mv);
    let x = lemma_pinner(b, from);
    lemma_en_passant_shape(b, from, color, target, to);
    assert(victim.0 as int == r * 8 + to.0 as int % 8);
    assert(a[x.0 as int] == b[x.0 as int]);
    lemma_leaving_the_line(b, a, from, to, king, x, pin.0 as int, pin.1 as int);
    let s0 = Seq::<Square>::empty();
    let q1 = pinned_capture_at(b, f, r, pin, -1, color);
    let q2 = pinned_capture_at(b, f, r, pin, 1, color);
    let q3 = pinned_en_passant_at(b, f, r, pin, -1, color, target);
    let q4 = pinned_en_passant_at(b, f, r, pin, 1, color, target);
    let step1 = push_if(s0, q1, Square::at(f - pin.0, r - pin.1));
    let step2 = push_if(step1, q2, Square::at(f + pin.0, r + pin.1));
    let step3 = push_if(step2, q3, target.unwrap());
    lemma_contains_push_if(step3, q4, target.unwrap(), to);
    lemma_contains_push_if(step2, q3, target.unwrap(), to);
    assert(q3 || q4);
}

/// An en-passant capture that leaves the king unattacked answers every
/// check: at most one piece gave check, and the capture takes it, as the
/// pawn it removes or on its square, or steps between it and the king.
proof fn lemma_en_passant_answers_check(s: Position, mv: Move, king: Square)
    requires
        s.wf(),
        mv.valid(),
        spec_is_piece_color(s.squares[mv.from.0 as int], s.turn),
        s.is_en_passant(mv),
        free_moves(s, mv.from).contains(mv.to),
        spec_find_king(s.squares, s.turn) == Some(king),
        !attacked(
            s.squares_after_en_passant(mv),
            king,
            spec_opposite_color(s.turn),
        ),
    ensures
        checkers(s.squares, king, s.turn).len() <= 1,
        checkers(s.squares, king, s.turn).len() == 1 ==> blocking_squares(
            s.squares,
            king,
            checkers(s.squares, king, s.turn)[0],
        ).contains(mv.to) || en_passant_victim(mv) == checkers(
            s.squares,
            king,
            s.turn,
        )[0],
{
    let b = s.squares;
    let from = mv.from;
    let to = mv.to;
    let a = s.squares_after_en_passant(mv);
    let opp = other_side(s.turn);
    let color = spec_piece_color(b[from.0 as int]);
    let victim = en_passant_victim(mv);
    let checking = checkers(b, king, s.turn);
    let r = from.0 as int / 8;
    lemma_king_from_is_king(b, s.turn, 0);
    lemma_en_passant_shape(b, from, color, s.en_passant_target, to);
    assert(victim.0 as int == r * 8 + to.0 as int % 8);
    assert(opp == spec_opposite_color(s.turn));
    law_attacked_by_a_piece(a, king, opp);
    assert forall|c: Square| #[trigger] checking.contains(c) implies c == victim
        || blocking_squares(b, king, c).contains(to) by {
        if c != victim && !blocking_squares(b, king, c).contains(to) {
            lemma_checker_is_attacker(b, king, s.turn, c);
            assert(a[c.0 as int] == b[c.0 as int]);
            lemma_check_stands_on(b, a, to, king, s.turn, c);
        }
    }
    if checking.len() >= 1 {
        assert(checking.contains(checking[0]));
    }
    if checking.len() >= 2 {
        assert(checking.contains(checking[1]));
        lemma_checkers_distinct(b, king, s.turn);
        let c = checking[0];
        let d = checking[1];
        if c != victim && d != victim {
            lemma_one_answer_one_check(b, king, s.turn, c, d, to);
        } else {
            let other = if c == victim {
                d
            } else {
                c
            };
            lemma_checker_is_attacker(b, king, s.turn, victim);
            lemma_answer_shape(b, king, s.turn, other, to);
            let df = sign(other.0 as int % 8 - king.0 as int % 8);
            let dr = sign(other.0 as int / 8 - king.0 as int / 8);
            lemma_inside_ahead(
                b,
                king.0 as int % 8,
                king.0 as int / 8,
                other.0 as int % 8,
                other.0 as int / 8,
                df,
                dr,
                to.0 as int % 8,
                to.0 as int / 8,
            );
        }
    }
}

/// An en-passant capture, made the way a pawn captures en passant, that
/// leaves the king of the side to move unattacked is a legal move.
pub proof fn law_safe_en_passant_is_legal(s: Position, mv: Move)
    requires
        s.wf(),
        mv.valid(),
        spec_is_piece_color(s.squares[mv.from.0 as int], s.turn),
        s.is_en_passant(mv),
        free_moves(s, mv.from).contains(mv.to),
        s.promotion_ok(mv),
        match spec_find_king(s.squares, s.turn) {
            Some(k) => !attacked(
                s.squares_after_en_passant(mv),
                k,
                spec_opposite_color(s.turn),
            ),
            None => false,
        },
    ensures
        s.is_legal(mv),
{
    reveal(Position::pseudo_legal_moves);
    reveal(Position::legal_moves);
    reveal(Position::is_legal);
    let b = s.squares;
    let king = spec_find_king(b, s.turn).unwrap();
    if pinned(b, mv.from) is Some {
        lemma_en_passant_within_pin(s, mv, king);
    }
    let pseudo = s.pseudo_legal_moves(mv.from);
    assert(pseudo.contains(mv.to));
    lemma_en_passant_answers_check(s, mv, king);
    let checking = checkers(b, king, s.turn);
    let plain = Move { from: mv.from, to: mv.to, promotion: None };
    assert(s.is_en_passant(plain));
    assert(s.squares_after_en_passant(plain) == s.squares_after_en_passant(mv));
    assert(en_passant_victim(plain) == en_passant_victim(mv));
    lemma_keep_where(
        pseudo,
        s.answers_check(mv.from, king, checking),
        pseudo.len() as int,
    );
    let k = choose|k: int| 0 <= k < pseudo.len() && pseudo[k] == mv.to;
    assert(pseudo[k] == mv.to);
}

/// Where castling is allowed, the square on which the king arrives is not
/// attacked with the king lifted from the board either: a line that the
/// king closes leads over the king's own square, which is not attacked.
proof fn lemma_castling_square_stays_safe(s: Position, kingside: bool)
    requires
        s.wf(),
        s.can_castle(s.turn, kingside),
    ensures
        !attacked(
            s.squares.update(home_rank(s.turn) * 8 + 4, EMPTY),
            Square::at(
                if kingside {
                    6int
                } else {
                    2int
                },
                home_rank(s.turn),
            ),
            spec_opposite_color(s.turn),
        ),
{
    let b = s.squares;
    let rank = home_rank(s.turn);
    let opp = spec_opposite_color(s.turn);
    let home = Square::at(4, rank);
    let t = Square::at(
        if kingside {
            6int
        } else {
            2int
        },
        rank,
    );
    let lifted = b.update(rank * 8 + 4, EMPTY);
    let tf = t.0 as int % 8;
    assert(t.0 as int == rank * 8 + tf);
    assert(home.0 as int == rank * 8 + 4);
    if attacked(lifted, t, opp) {
        law_attacked_by_a_piece(lifted, t, opp);
        law_attacked_by_a_piece(b, t, opp);
        law_attacked_by_a_piece(b, home, opp);
        let x = choose|x: Square| is_attacker(lifted, x, t, opp);
        let kind = spec_piece_type(b[x.0 as int]);
        let xf = x.0 as int % 8;
        let xr = x.0 as int / 8;
        assert(lifted[x.0 as int] == b[x.0 as int]);
        if kind == ROOK || kind == BISHOP || kind == QUEEN {
            let df = sign(tf - xf);
            let dr = sign(rank - xr);
            assert(tf - xf != 0 || rank - xr != 0);
            assert(clear_path(lifted, xf, xr, tf, rank, df, dr));
            if inside(xf, xr, tf, rank, df, dr, 4, rank) {
                lemma_inside_ahead(lifted, xf, xr, tf, rank, df, dr, 4, rank);
                lemma_path_split(lifted, xf, xr, tf, rank, df, dr, 4, rank);
                lemma_not_inside_own_end(lifted, xf, xr, 4, rank, df, dr);
                lemma_path_on_other_board(
                    lifted,
                    b,
                    rank * 8 + 4,
                    rank * 8 + 4,
                    xf,
                    xr,
                    4,
                    rank,
                    df,
                    dr,
                );
                assert(is_attacker(b, x, home, opp));
            } else {
                lemma_path_on_other_board(
                    lifted,
                    b,
                    rank * 8 + 4,
                    rank * 8 + 4,
                    xf,
                    xr,
                    tf,
                    rank,
                    df,
                    dr,
                );
                assert(is_attacker(b, x, t, opp));
            }
        } else {
            assert(is_attacker(b, x, t, opp));
        }
    }
}

/// A castling that the position allows, made by the king of the side to
/// move from its first square, is a legal move.
pub proof fn law_allowed_castling_is_legal(s: Position, mv: Move)
    requires
        s.wf(),
        mv.valid(),
        mv.promotion is None,
        spec_find_king(s.squares, s.turn) == Some(mv.from),
        mv.from == Square::at(4, home_rank(s.turn)),
        s.castling_side(mv) is Some,
        s.can_castle(s.turn, s.castling_side(mv).unwrap()),
    ensures
        s.is_legal(mv),
{
    reveal(Position::pseudo_legal_moves);
    reveal(Position::legal_moves);
    reveal(Position::is_legal);
    let b = s.squares;
    let rank = home_rank(s.turn);
    let kingside = s.castling_side(mv).unwrap();
    let opp = spec_opposite_color(s.turn);
    let lifted = b.update(mv.from.0 as int, EMPTY);
    lemma_king_from_is_king(b, s.turn, 0);
    assert(mv.from.0 as int == rank * 8 + 4);
    assert(pinned(b, mv.from) is None);
    let steps = squares_where(king_target_pred(b, mv.from, s.turn), 64);
    let to_kingside = Square::at(6, mv.from.0 as int / 8);
    let to_queenside = Square::at(2, mv.from.0 as int / 8);
    let with_kingside = push_if(steps, s.can_castle(s.turn, true), to_kingside);
    lemma_contains_push_if(steps, s.can_castle(s.turn, true), to_kingside, mv.to);
    lemma_contains_push_if(
        with_kingside,
        s.can_castle(s.turn, false),
        to_queenside,
        mv.to,
    );
    assert(mv.to.0 as int == (mv.to.0 as int / 8) * 8 + mv.to.0 as int % 8);
    let pseudo = s.pseudo_legal_moves(mv.from);
    assert(pseudo.contains(mv.to));
    lemma_castling_square_stays_safe(s, kingside);
    lemma_keep_where(
        pseudo,
        safe_pred(lifted, opp),
        pseudo.len() as int,
    );
    let k = choose|k: int| 0 <= k < pseudo.len() && pseudo[k] == mv.to;
    assert(pseudo[k] == mv.to);
}

/// A legal move goes where the piece goes by the way its kind moves.
proof fn lemma_legal_move_is_free(s: Position, mv: Move)
    requires
        s.wf(),
        s.is_legal(mv),
    ensures
        free_moves(s, mv.from).contains(mv.to),
{
    let b = s.squares;
    law_legal_move_is_open(s, mv);
    assert(s.legal_moves(mv.from).contains(mv.to)) by {
        reveal(Position::is_legal);
    }
    lemma_legal_is_pseudo_legal(s, mv.from, mv.to);
    reveal(Position::pseudo_legal_moves);
    match pinned(b, mv.from) {
        Some(pin) => {
            lemma_pinner(b, mv.from);
            lemma_pinned_move_is_free(s, mv.from, pin, mv.to);
        },
        None => {},
    }
}

/// A move of the king of the side to move, made the way a king moves or
/// castles, that leaves it unattacked is a legal move.
proof fn lemma_safe_king_move_is_legal(s: Position, mv: Move)
    requires
        s.wf(),
        mv.valid(),
        mv.from != mv.to,
        spec_piece_type(s.squares[mv.from.0 as int]) == KING,
        spec_find_king(s.squares, s.turn) == Some(mv.from),
        free_moves(s, mv.from).contains(mv.to),
        s.promotion_ok(mv),
        !attacked(
            s.squares_after(mv),
            mv.to,
            spec_opposite_color(s.turn),
        ),
    ensures
        s.is_legal(mv),
{
    let b = s.squares;
    lemma_king_from_is_king(b, s.turn, 0);
    assert(spec_piece_color(b[mv.from.0 as int]) == s.turn);
    if s.castling_side(mv) is Some {
        lemma_king_moves_castle(s, mv.from, mv.to);
        law_allowed_castling_is_legal(s, mv);
    } else {
        let steps = squares_where(king_target_pred(b, mv.from, s.turn), 64);
        let home = mv.from == Square::at(4, home_rank(s.turn));
        let to_kingside = Square::at(6, mv.from.0 as int / 8);
        let to_queenside = Square::at(2, mv.from.0 as int / 8);
        let with_kingside = push_if(
            steps,
            home && s.can_castle(s.turn, true),
            to_kingside,
        );
        lemma_contains_push_if(
            steps,
            home && s.can_castle(s.turn, true),
            to_kingside,
            mv.to,
        );
        lemma_contains_push_if(
            with_kingside,
            home && s.can_castle(s.turn, false),
            to_queenside,
            mv.to,
        );
        lemma_squares_where_contains(
            king_target_pred(b, mv.from, s.turn),
            64,
        );
        assert(steps.contains(mv.to));
        law_safe_king_step_is_legal(s, mv);
    }
}

/// The legal moves are the moves of the rules of chess, in a position in
/// which the enemy king does not stand next to the king of the side to
/// move and that king is the one that moves where a king moves: a move is
/// legal exactly when a piece of the side to move goes where its kind goes
/// (a castling where it is allowed), the promotion it names is the one that
/// the move calls for, and the king of the side to move is not attacked
/// once the move is played.
pub proof fn law_legal_moves_are_the_safe_moves(s: Position, mv: Move)
    requires
        s.wf(),
        mv.valid(),
        is_piece_of(s.squares[mv.from.0 as int], KING, s.turn)
            ==> spec_find_king(s.squares, s.turn) == Some(mv.from),
        match spec_find_king(s.squares, s.turn) {
            Some(k) => !king_threat(
                s.squares,
                k,
                spec_opposite_color(s.turn),
            ),
            None => true,
        },
    ensures
        s.is_legal(mv) <==> ({
            &&& mv.from != mv.to
            &&& spec_is_piece_color(s.squares[mv.from.0 as int], s.turn)
            &&& free_moves(s, mv.from).contains(mv.to)
            &&& s.promotion_ok(mv)
            &&& match king_after(s, mv) {
                Some(k) => !attacked(
                    s.squares_after(mv),
                    k,
                    spec_opposite_color(s.turn),
                ),
                None => false,
            }
        }),
{
    let b = s.squares;
    let opp = spec_opposite_color(s.turn);
    if s.is_legal(mv) {
        law_legal_move_is_open(s, mv);
        lemma_legal_move_is_free(s, mv);
        law_legal_move_is_safe(s, mv);
        assert(s.apply(mv).squares == s.squares_after(mv)) by {
            reveal(Position::apply);
        }
    } else if mv.from != mv.to && spec_is_piece_color(b[mv.from.0 as int], s.turn) && free_moves(
        s,
        mv.from,
    ).contains(mv.to) && s.promotion_ok(mv) {
        match king_after(s, mv) {
            Some(k) => {
                if !attacked(s.squares_after(mv), k, opp) {
                    if spec_piece_type(b[mv.from.0 as int]) == KING {
                        lemma_safe_king_move_is_legal(s, mv);
                    } else if s.is_en_passant(mv) {
                        law_safe_en_passant_is_legal(s, mv);
                    } else {
                        law_safe_move_is_legal(s, mv);
                    }
                }
            },
            None => {},
        }
    }
}

} // verus!
