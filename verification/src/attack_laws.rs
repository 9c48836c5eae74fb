//! Laws of attack detection: a square is attacked exactly when some piece
//! of the attacking color reaches it by the way its kind moves.

use vstd::prelude::*;
use crate::attacks::attacked;
use crate::attacks::clear_path;
use crate::attacks::is_direction;
use crate::attacks::king_threat;
use crate::attacks::knight_threat;
use crate::attacks::offset_holds;
use crate::attacks::pawn_source_step;
use crate::attacks::pawn_threat;
use crate::attacks::ray_hit;
use crate::attacks::ray_measure;
use crate::attacks::ray_threat;
use crate::attacks::sign;
use crate::attacks::sliding_threat;
use crate::board::on_board;
use crate::types::spec_is_piece_color;
use crate::types::spec_piece_color;
use crate::types::spec_piece_type;
use crate::types::{Piece, Square};
use crate::types::{BISHOP, KING, KNIGHT, PAWN, QUEEN, ROOK};
use crate::types::EMPTY;
use crate::validation::bishop_attacks;
use crate::validation::piece_attacks;
use crate::validation::rook_attacks;

verus! {

/// The point `(tf, tr)` lies ahead of `(f, r)` on the line through it in
/// direction `(df, dr)`.
pub open spec fn ahead(f: int, r: int, tf: int, tr: int, df: int, dr: int) -> bool {
    &&& df > 0 ==> tf > f
    &&& df < 0 ==> tf < f
    &&& df == 0 ==> tf == f
    &&& dr > 0 ==> tr > r
    &&& dr < 0 ==> tr < r
    &&& dr == 0 ==> tr == r
    &&& df != 0 && df == dr ==> tf - f == tr - r
    &&& df != 0 && df == -dr ==> tf - f == r - tr
}

/// A clear path leads to a point ahead on the line.
pub proof fn lemma_path_ahead(b: Seq<Piece>, f: int, r: int, tf: int, tr: int, df: int, dr: int)
    requires
        is_direction(df, dr),
        clear_path(b, f, r, tf, tr, df, dr),
    ensures
        ahead(f, r, tf, tr, df, dr),
    decreases ray_measure(f, r, df, dr),
{
    let nf = f + df;
    let nr = r + dr;
    if nf == tf && nr == tr {
    } else {
        lemma_path_ahead(b, nf, nr, tf, tr, df, dr);
    }
}

/// A clear path to an empty square of the board goes on to the square
/// after it.
pub proof fn lemma_path_extend(b: Seq<Piece>, f: int, r: int, tf: int, tr: int, df: int, dr: int)
    requires
        is_direction(df, dr),
        clear_path(b, f, r, tf, tr, df, dr),
        on_board(tf, tr),
        b[tr * 8 + tf] == EMPTY,
    ensures
        clear_path(b, f, r, tf + df, tr + dr, df, dr),
    decreases ray_measure(f, r, df, dr),
{
    let nf = f + df;
    let nr = r + dr;
    if nf == tf && nr == tr {
        assert(clear_path(b, tf, tr, tf + df, tr + dr, df, dr));
    } else {
        lemma_path_ahead(b, nf, nr, tf, tr, df, dr);
        lemma_path_extend(b, nf, nr, tf, tr, df, dr);
    }
}

/// A path that is clear one way is clear the other way.
pub proof fn lemma_path_reverse(b: Seq<Piece>, f: int, r: int, tf: int, tr: int, df: int, dr: int)
    requires
        is_direction(df, dr),
        on_board(f, r),
        clear_path(b, f, r, tf, tr, df, dr),
    ensures
        clear_path(b, tf, tr, f, r, -df, -dr),
    decreases ray_measure(f, r, df, dr),
{
    let nf = f + df;
    let nr = r + dr;
    if nf == tf && nr == tr {
        assert(clear_path(b, tf, tr, f, r, -df, -dr));
    } else {
        lemma_path_reverse(b, nf, nr, tf, tr, df, dr);
        lemma_path_extend(b, tf, tr, nf, nr, -df, -dr);
    }
}

/// The first occupied square of a ray is reached by a clear path.
pub proof fn lemma_ray_hit_path(b: Seq<Piece>, f: int, r: int, df: int, dr: int)
    requires
        is_direction(df, dr),
    ensures
        match ray_hit(b, f, r, df, dr) {
            Some(t) => {
                &&& t.valid()
                &&& on_board(t.0 as int % 8, t.0 as int / 8)
                &&& b[t.0 as int] != EMPTY
                &&& clear_path(b, f, r, t.0 as int % 8, t.0 as int / 8, df, dr)
            },
            None => true,
        },
    decreases ray_measure(f, r, df, dr),
{
    let nf = f + df;
    let nr = r + dr;
    if !on_board(nf, nr) {
    } else if b[nr * 8 + nf] != EMPTY {
        assert(Square::at(nf, nr).0 as int == nr * 8 + nf);
    } else {
        lemma_ray_hit_path(b, nf, nr, df, dr);
        match ray_hit(b, nf, nr, df, dr) {
            Some(t) => {
                lemma_path_ahead(b, nf, nr, t.0 as int % 8, t.0 as int / 8, df, dr);
            },
            None => {},
        }
    }
}

/// An occupied square at the end of a clear path is the first occupied
/// square of the ray.
pub proof fn lemma_path_ray_hit(b: Seq<Piece>, f: int, r: int, tf: int, tr: int, df: int, dr: int)
    requires
        is_direction(df, dr),
        on_board(tf, tr),
        b[tr * 8 + tf] != EMPTY,
        clear_path(b, f, r, tf, tr, df, dr),
    ensures
        ray_hit(b, f, r, df, dr) == Some(Square::at(tf, tr)),
    decreases ray_measure(f, r, df, dr),
{
    let nf = f + df;
    let nr = r + dr;
    if nf == tf && nr == tr {
    } else {
        lemma_path_ray_hit(b, nf, nr, tf, tr, df, dr);
    }
}

/// Some piece of color `by` on a square other than `square` attacks it by
/// the way its kind moves.
pub open spec fn has_attacker(b: Seq<Piece>, square: Square, by: u8) -> bool {
    exists|from: Square| is_attacker(b, from, square, by)
}

/// The piece on `from` is of color `by` and attacks `square`.
pub open spec fn is_attacker(b: Seq<Piece>, from: Square, square: Square, by: u8) -> bool {
    &&& from.valid()
    &&& from != square
    &&& spec_is_piece_color(b[from.0 as int], by)
    &&& piece_attacks(b, from, square)
}

/// A slider that is first on a ray from the square attacks the square.
proof fn lemma_ray_threat_attacker(
    b: Seq<Piece>,
    square: Square,
    df: int,
    dr: int,
    by: u8,
    axial: bool,
)
    requires
        square.valid(),
        is_direction(df, dr),
        axial == (df == 0 || dr == 0),
        ray_threat(b, square.0 as int % 8, square.0 as int / 8, df, dr, by, axial),
    ensures
        has_attacker(b, square, by),
{
    let f = square.0 as int % 8;
    let r = square.0 as int / 8;
    lemma_ray_hit_path(b, f, r, df, dr);
    let t = ray_hit(b, f, r, df, dr).unwrap();
    let tf = t.0 as int % 8;
    let tr = t.0 as int / 8;
    lemma_path_ahead(b, f, r, tf, tr, df, dr);
    lemma_path_reverse(b, f, r, tf, tr, df, dr);
    assert(sign(f - tf) == -df);
    assert(sign(r - tr) == -dr);
    assert(is_attacker(b, t, square, by));
}

/// A slider that attacks the square is first on a ray from it.
proof fn lemma_slider_attacker_threat(b: Seq<Piece>, from: Square, square: Square, by: u8)
    requires
        square.valid(),
        is_attacker(b, from, square, by),
        spec_piece_type(b[from.0 as int]) == ROOK || spec_piece_type(b[from.0 as int]) == BISHOP
            || spec_piece_type(b[from.0 as int]) == QUEEN,
    ensures
        sliding_threat(b, square, by),
{
    let f = square.0 as int % 8;
    let r = square.0 as int / 8;
    let ff = from.0 as int % 8;
    let fr = from.0 as int / 8;
    let fd = f - ff;
    let rd = r - fr;
    let kind = spec_piece_type(b[from.0 as int]);
    let ef = sign(fd);
    let er = sign(rd);
    assert(fd != 0 || rd != 0);
    assert(clear_path(b, ff, fr, f, r, ef, er));
    lemma_path_reverse(b, ff, fr, f, r, ef, er);
    assert(Square::at(ff, fr) == from);
    lemma_path_ray_hit(b, f, r, ff, fr, -ef, -er);
    let axial = fd == 0 || rd == 0;
    if axial {
        assert(rook_attacks(b, from, square));
        assert(kind == ROOK || kind == QUEEN);
    } else {
        assert(bishop_attacks(b, from, square));
        assert(kind == BISHOP || kind == QUEEN);
    }
    assert(ray_threat(b, f, r, -ef, -er, by, axial));
}

/// A piece on one of the given offsets from the square is an attacker of
/// its kind.
proof fn lemma_offset_attacker(
    b: Seq<Piece>,
    square: Square,
    df: int,
    dr: int,
    kind: u8,
    by: u8,
)
    requires
        square.valid(),
        -2 <= df <= 2,
        -2 <= dr <= 2,
        offset_holds(b, square.0 as int % 8, square.0 as int / 8, df, dr, kind, by),
    ensures
        ({
            let from = Square::at(square.0 as int % 8 + df, square.0 as int / 8 + dr);
            &&& from.valid()
            &&& from.0 as int % 8 == square.0 as int % 8 + df
            &&& from.0 as int / 8 == square.0 as int / 8 + dr
            &&& spec_is_piece_color(b[from.0 as int], by)
            &&& spec_piece_type(b[from.0 as int]) == kind
        }),
{
}

proof fn lemma_knight_threat(b: Seq<Piece>, square: Square, by: u8)
    requires
        square.valid(),
    ensures
        knight_threat(b, square, by) <==> exists|from: Square|
            is_attacker(b, from, square, by) && spec_piece_type(b[from.0 as int]) == KNIGHT,
{
    let f = square.0 as int % 8;
    let r = square.0 as int / 8;
    if knight_threat(b, square, by) {
        let (df, dr): (int, int) = if offset_holds(b, f, r, -2, -1, KNIGHT, by) {
            (-2, -1)
        } else if offset_holds(b, f, r, -2, 1, KNIGHT, by) {
            (-2, 1)
        } else if offset_holds(b, f, r, -1, -2, KNIGHT, by) {
            (-1, -2)
        } else if offset_holds(b, f, r, -1, 2, KNIGHT, by) {
            (-1, 2)
        } else if offset_holds(b, f, r, 1, -2, KNIGHT, by) {
            (1, -2)
        } else if offset_holds(b, f, r, 1, 2, KNIGHT, by) {
            (1, 2)
        } else if offset_holds(b, f, r, 2, -1, KNIGHT, by) {
            (2, -1)
        } else {
            (2, 1)
        };
        lemma_offset_attacker(b, square, df, dr, KNIGHT, by);
        let from = Square::at(f + df, r + dr);
        assert(is_attacker(b, from, square, by) && spec_piece_type(b[from.0 as int]) == KNIGHT);
    }
    if exists|from: Square|
        is_attacker(b, from, square, by) && spec_piece_type(b[from.0 as int]) == KNIGHT {
        let from = choose|from: Square|
            is_attacker(b, from, square, by) && spec_piece_type(b[from.0 as int]) == KNIGHT;
        let df = from.0 as int % 8 - f;
        let dr = from.0 as int / 8 - r;
        assert(from.0 as int == (r + dr) * 8 + f + df);
        assert(offset_holds(b, f, r, df, dr, KNIGHT, by));
    }
}

proof fn lemma_king_threat(b: Seq<Piece>, square: Square, by: u8)
    requires
        square.valid(),
    ensures
        king_threat(b, square, by) <==> exists|from: Square|
            is_attacker(b, from, square, by) && spec_piece_type(b[from.0 as int]) == KING,
{
    let f = square.0 as int % 8;
    let r = square.0 as int / 8;
    if king_threat(b, square, by) {
        let (df, dr): (int, int) = if offset_holds(b, f, r, -1, -1, KING, by) {
            (-1, -1)
        } else if offset_holds(b, f, r, -1, 0, KING, by) {
            (-1, 0)
        } else if offset_holds(b, f, r, -1, 1, KING, by) {
            (-1, 1)
        } else if offset_holds(b, f, r, 0, -1, KING, by) {
            (0, -1)
        } else if offset_holds(b, f, r, 0, 1, KING, by) {
            (0, 1)
        } else if offset_holds(b, f, r, 1, -1, KING, by) {
            (1, -1)
        } else if offset_holds(b, f, r, 1, 0, KING, by) {
            (1, 0)
        } else {
            (1, 1)
        };
        lemma_offset_attacker(b, square, df, dr, KING, by);
        let from = Square::at(f + df, r + dr);
        assert(is_attacker(b, from, square, by) && spec_piece_type(b[from.0 as int]) == KING);
    }
    if exists|from: Square|
        is_attacker(b, from, square, by) && spec_piece_type(b[from.0 as int]) == KING {
        let from = choose|from: Square|
            is_attacker(b, from, square, by) && spec_piece_type(b[from.0 as int]) == KING;
        let df = from.0 as int % 8 - f;
        let dr = from.0 as int / 8 - r;
        assert(from.0 as int == (r + dr) * 8 + f + df);
        assert(offset_holds(b, f, r, df, dr, KING, by));
    }
}

proof fn lemma_pawn_threat(b: Seq<Piece>, square: Square, by: u8)
    requires
        square.valid(),
    ensures
        pawn_threat(b, square, by) <==> exists|from: Square|
            is_attacker(b, from, square, by) && spec_piece_type(b[from.0 as int]) == PAWN,
{
    let f = square.0 as int % 8;
    let r = square.0 as int / 8;
    let step = pawn_source_step(by);
    if pawn_threat(b, square, by) {
        let df: int = if offset_holds(b, f, r, -1, step, PAWN, by) {
            -1
        } else {
            1
        };
        lemma_offset_attacker(b, square, df, step, PAWN, by);
        let from = Square::at(f + df, r + step);
        assert(is_attacker(b, from, square, by) && spec_piece_type(b[from.0 as int]) == PAWN);
    }
    if exists|from: Square|
        is_attacker(b, from, square, by) && spec_piece_type(b[from.0 as int]) == PAWN {
        let from = choose|from: Square|
            is_attacker(b, from, square, by) && spec_piece_type(b[from.0 as int]) == PAWN;
        let df = from.0 as int % 8 - f;
        let dr = from.0 as int / 8 - r;
        assert(from.0 as int == (r + dr) * 8 + f + df);
        assert(spec_piece_color(b[from.0 as int]) == by);
        assert(offset_holds(b, f, r, df, dr, PAWN, by));
    }
}

/// A square is attacked by a color exactly when some piece of that color
/// attacks it by the way its kind moves: a pawn one step diagonally ahead
/// of it, a knight a jump away, a king next to it, and a rook, bishop or
/// queen along a line of its kind with nothing in between.
pub proof fn law_attacked_by_a_piece(b: Seq<Piece>, square: Square, by: u8)
    requires
        square.valid(),
    ensures
        attacked(b, square, by) <==> has_attacker(b, square, by),
{
    reveal(attacked);
    let f = square.0 as int % 8;
    let r = square.0 as int / 8;
    lemma_knight_threat(b, square, by);
    lemma_king_threat(b, square, by);
    lemma_pawn_threat(b, square, by);
    if sliding_threat(b, square, by) {
        if ray_threat(b, f, r, 0, 1, by, true) {
            lemma_ray_threat_attacker(b, square, 0, 1, by, true);
        } else if ray_threat(b, f, r, 0, -1, by, true) {
            lemma_ray_threat_attacker(b, square, 0, -1, by, true);
        } else if ray_threat(b, f, r, 1, 0, by, true) {
            lemma_ray_threat_attacker(b, square, 1, 0, by, true);
        } else if ray_threat(b, f, r, -1, 0, by, true) {
            lemma_ray_threat_attacker(b, square, -1, 0, by, true);
        } else if ray_threat(b, f, r, 1, 1, by, false) {
            lemma_ray_threat_attacker(b, square, 1, 1, by, false);
        } else if ray_threat(b, f, r, 1, -1, by, false) {
            lemma_ray_threat_attacker(b, square, 1, -1, by, false);
        } else if ray_threat(b, f, r, -1, 1, by, false) {
            lemma_ray_threat_attacker(b, square, -1, 1, by, false);
        } else {
            lemma_ray_threat_attacker(b, square, -1, -1, by, false);
        }
    }
    if has_attacker(b, square, by) {
        let from = choose|from: Square| is_attacker(b, from, square, by);
        let kind = spec_piece_type(b[from.0 as int]);
        if kind == ROOK || kind == BISHOP || kind == QUEEN {
            lemma_slider_attacker_threat(b, from, square, by);
        }
    }
}

/// What stands on the square where a ray starts does not matter to the
/// ray.
pub proof fn lemma_ray_ignores_start(
    b: Seq<Piece>,
    f: int,
    r: int,
    df: int,
    dr: int,
    sf: int,
    sr: int,
    piece: Piece,
)
    requires
        b.len() == 64,
        is_direction(df, dr),
        on_board(sf, sr),
        on_board(f, r),
        (f == sf && r == sr) || ahead(sf, sr, f, r, df, dr),
    ensures
        ray_hit(b.update(sr * 8 + sf, piece), f, r, df, dr) == ray_hit(b, f, r, df, dr),
    decreases ray_measure(f, r, df, dr),
{
    let nf = f + df;
    let nr = r + dr;
    let c = b.update(sr * 8 + sf, piece);
    if on_board(nf, nr) {
        assert(nr * 8 + nf != sr * 8 + sf);
        assert(c[nr * 8 + nf] == b[nr * 8 + nf]);
        if b[nr * 8 + nf] == EMPTY {
            lemma_ray_ignores_start(b, nf, nr, df, dr, sf, sr, piece);
        }
    }
}

/// Whether a square is attacked does not depend on what stands on it.
pub proof fn law_attack_ignores_target(b: Seq<Piece>, square: Square, by: u8, piece: Piece)
    requires
        b.len() == 64,
        square.valid(),
    ensures
        attacked(b.update(square.0 as int, piece), square, by) == attacked(b, square, by),
{
    reveal(attacked);
    let f = square.0 as int % 8;
    let r = square.0 as int / 8;
    assert(r * 8 + f == square.0 as int);
    lemma_ray_ignores_start(b, f, r, 0, 1, f, r, piece);
    lemma_ray_ignores_start(b, f, r, 0, -1, f, r, piece);
    lemma_ray_ignores_start(b, f, r, 1, 0, f, r, piece);
    lemma_ray_ignores_start(b, f, r, -1, 0, f, r, piece);
    lemma_ray_ignores_start(b, f, r, 1, 1, f, r, piece);
    lemma_ray_ignores_start(b, f, r, 1, -1, f, r, piece);
    lemma_ray_ignores_start(b, f, r, -1, 1, f, r, piece);
    lemma_ray_ignores_start(b, f, r, -1, -1, f, r, piece);
    let c = b.update(square.0 as int, piece);
    assert(sliding_threat(c, square, by) == sliding_threat(b, square, by)) by {
        lemma_ray_hit_path(b, f, r, 0, 1);
        lemma_ray_hit_path(b, f, r, 0, -1);
        lemma_ray_hit_path(b, f, r, 1, 0);
        lemma_ray_hit_path(b, f, r, -1, 0);
        lemma_ray_hit_path(b, f, r, 1, 1);
        lemma_ray_hit_path(b, f, r, 1, -1);
        lemma_ray_hit_path(b, f, r, -1, 1);
        lemma_ray_hit_path(b, f, r, -1, -1);
        lemma_hit_is_not_start(b, f, r, 0, 1);
        lemma_hit_is_not_start(b, f, r, 0, -1);
        lemma_hit_is_not_start(b, f, r, 1, 0);
        lemma_hit_is_not_start(b, f, r, -1, 0);
        lemma_hit_is_not_start(b, f, r, 1, 1);
        lemma_hit_is_not_start(b, f, r, 1, -1);
        lemma_hit_is_not_start(b, f, r, -1, 1);
        lemma_hit_is_not_start(b, f, r, -1, -1);
    }
    assert(knight_threat(c, square, by) == knight_threat(b, square, by));
    assert(pawn_threat(c, square, by) == pawn_threat(b, square, by));
    assert(king_threat(c, square, by) == king_threat(b, square, by));
}

/// The first occupied square of a ray is not the square where it starts.
proof fn lemma_hit_is_not_start(b: Seq<Piece>, f: int, r: int, df: int, dr: int)
    requires
        is_direction(df, dr),
        on_board(f, r),
    ensures
        match ray_hit(b, f, r, df, dr) {
            Some(t) => t.0 as int != r * 8 + f,
            None => true,
        },
{
    lemma_ray_hit_path(b, f, r, df, dr);
    match ray_hit(b, f, r, df, dr) {
        Some(t) => {
            lemma_path_ahead(b, f, r, t.0 as int % 8, t.0 as int / 8, df, dr);
        },
        None => {},
    }
}

/// An enemy king that attacks the square stands next to it.
pub proof fn lemma_king_threat_has(b: Seq<Piece>, square: Square, by: u8, x: Square)
    requires
        square.valid(),
        is_attacker(b, x, square, by),
        spec_piece_type(b[x.0 as int]) == KING,
    ensures
        king_threat(b, square, by),
{
    lemma_king_threat(b, square, by);
}

} // verus!
