//! Who attacks what: rays, knight jumps, pawn and king contacts, the pieces
//! that give check, and pins.

use vstd::prelude::*;
use crate::board::on_board;
use crate::types::is_empty;
use crate::types::piece_color;
use crate::types::piece_type;
use crate::types::spec_is_empty;
use crate::types::spec_piece_color;
use crate::types::spec_piece_type;
use crate::types::{Piece, Square};
use crate::types::{BISHOP, KING, KNIGHT, PAWN, QUEEN, ROOK};
use crate::types::{EMPTY, WHITE};

verus! {

/// A piece of the given kind and color.
pub open spec fn is_piece_of(piece: Piece, kind: u8, color: u8) -> bool {
    !spec_is_empty(piece) && spec_piece_color(piece) == color && spec_piece_type(piece) == kind
}

/// How far a walk from `(file, rank)` in direction `(df, dr)` can still go.
pub open spec fn ray_measure(file: int, rank: int, df: int, dr: int) -> int {
    if df > 0 {
        7 - file
    } else if df < 0 {
        file
    } else if dr > 0 {
        7 - rank
    } else {
        rank
    }
}

/// A direction of the board: each component is -1, 0 or 1, not both 0.
pub open spec fn is_direction(df: int, dr: int) -> bool {
    -1 <= df <= 1 && -1 <= dr <= 1 && (df != 0 || dr != 0)
}

/// The first occupied square met on the walk from `(file, rank)` in
/// direction `(df, dr)`, the start excluded; `None` when the walk leaves the
/// board first.
pub open spec fn ray_hit(b: Seq<Piece>, file: int, rank: int, df: int, dr: int) -> Option<Square>
    decreases ray_measure(file, rank, df, dr),
{
    let f = file + df;
    let r = rank + dr;
    if !on_board(f, r) || (df == 0 && dr == 0) {
        None
    } else if b[r * 8 + f] != EMPTY {
        Some(Square::at(f, r))
    } else {
        ray_hit(b, f, r, df, dr)
    }
}

/// The piece on the first occupied square of the ray.
pub open spec fn ray_piece(b: Seq<Piece>, file: int, rank: int, df: int, dr: int) -> Option<Piece> {
    match ray_hit(b, file, rank, df, dr) {
        Some(s) => Some(b[s.0 as int]),
        None => None,
    }
}

pub fn piece_on(squares: &[Piece; 64], file: i8, rank: i8) -> (piece: Piece)
    requires
        on_board(file as int, rank as int),
    ensures
        piece == squares@[rank * 8 + file],
{
    squares[(rank * 8 + file) as usize]
}

/// Walks the ray and returns its first occupied square.
pub fn first_on_ray(squares: &[Piece; 64], start_file: i8, start_rank: i8, df: i8, dr: i8) -> (hit:
    Option<Square>)
    requires
        on_board(start_file as int, start_rank as int),
        is_direction(df as int, dr as int),
    ensures
        hit == ray_hit(squares@, start_file as int, start_rank as int, df as int, dr as int),
        hit is Some ==> hit.unwrap().valid() && squares@[hit.unwrap().0 as int] != EMPTY,
{
    let mut file: i8 = start_file + df;
    let mut rank: i8 = start_rank + dr;
    while file >= 0 && file < 8 && rank >= 0 && rank < 8
        invariant
            is_direction(df as int, dr as int),
            on_board(file - df, rank - dr),
            ray_hit(squares@, start_file as int, start_rank as int, df as int, dr as int)
                == ray_hit(squares@, file - df, rank - dr, df as int, dr as int),
        decreases ray_measure(file - df, rank - dr, df as int, dr as int),
    {
        let piece = piece_on(squares, file, rank);
        if !is_empty(piece) {
            return Some(Square::new(file as u8, rank as u8));
        }
        file = file + df;
        rank = rank + dr;
    }
    None
}

/// The first piece met on the ray from `(start_file, start_rank)`.
pub fn cast_ray(squares: &[Piece; 64], start_file: i8, start_rank: i8, df: i8, dr: i8) -> (hit:
    Option<Piece>)
    requires
        on_board(start_file as int, start_rank as int),
        is_direction(df as int, dr as int),
    ensures
        hit == ray_piece(squares@, start_file as int, start_rank as int, df as int, dr as int),
{
    match first_on_ray(squares, start_file, start_rank, df, dr) {
        Some(s) => Some(squares[s.0 as usize]),
        None => None,
    }
}

/// Whether a piece of color `by` that moves along this kind of line (rook
/// or queen on files and ranks, bishop or queen on diagonals) is the
/// first piece on the ray.
pub open spec fn ray_threat(
    b: Seq<Piece>,
    file: int,
    rank: int,
    df: int,
    dr: int,
    by: u8,
    axial: bool,
) -> bool {
    match ray_piece(b, file, rank, df, dr) {
        Some(p) => spec_piece_color(p) == by && slider_kind(spec_piece_type(p), axial),
        None => false,
    }
}

/// The kinds that move along a line: queens on all, rooks on files and
/// ranks, bishops on diagonals.
pub open spec fn slider_kind(kind: u8, axial: bool) -> bool {
    kind == QUEEN || (axial && kind == ROOK) || (!axial && kind == BISHOP)
}

fn ray_threatens(squares: &[Piece; 64], file: i8, rank: i8, df: i8, dr: i8, by: u8, axial: bool) -> (t:
    bool)
    requires
        on_board(file as int, rank as int),
        is_direction(df as int, dr as int),
    ensures
        t == ray_threat(squares@, file as int, rank as int, df as int, dr as int, by, axial),
{
    match cast_ray(squares, file, rank, df, dr) {
        Some(p) => {
            let kind = piece_type(p);
            piece_color(p) == by && (kind == QUEEN || (axial && kind == ROOK) || (!axial && kind
                == BISHOP))
        },
        None => false,
    }
}

/// A rook, bishop or queen of color `by` bears on the square along an open
/// line.
pub open spec fn sliding_threat(b: Seq<Piece>, square: Square, by: u8) -> bool {
    let f = square.0 as int % 8;
    let r = square.0 as int / 8;
    ||| ray_threat(b, f, r, 0, 1, by, true)
    ||| ray_threat(b, f, r, 0, -1, by, true)
    ||| ray_threat(b, f, r, 1, 0, by, true)
    ||| ray_threat(b, f, r, -1, 0, by, true)
    ||| ray_threat(b, f, r, 1, 1, by, false)
    ||| ray_threat(b, f, r, 1, -1, by, false)
    ||| ray_threat(b, f, r, -1, 1, by, false)
    ||| ray_threat(b, f, r, -1, -1, by, false)
}

pub fn check_sliding_threats(squares: &[Piece; 64], square: Square, by_color: u8) -> (t: bool)
    requires
        square.valid(),
    ensures
        t == sliding_threat(squares@, square, by_color),
{
    let file: i8 = square.file() as i8;
    let rank: i8 = square.rank() as i8;
    ray_threatens(squares, file, rank, 0, 1, by_color, true) || ray_threatens(
        squares,
        file,
        rank,
        0,
        -1,
        by_color,
        true,
    ) || ray_threatens(squares, file, rank, 1, 0, by_color, true) || ray_threatens(
        squares,
        file,
        rank,
        -1,
        0,
        by_color,
        true,
    ) || ray_threatens(squares, file, rank, 1, 1, by_color, false) || ray_threatens(
        squares,
        file,
        rank,
        1,
        -1,
        by_color,
        false,
    ) || ray_threatens(squares, file, rank, -1, 1, by_color, false) || ray_threatens(
        squares,
        file,
        rank,
        -1,
        -1,
        by_color,
        false,
    )
}

/// The square `(df, dr)` away from `(file, rank)` is on the board and
/// holds a piece of the given kind and color.
pub open spec fn offset_holds(
    b: Seq<Piece>,
    file: int,
    rank: int,
    df: int,
    dr: int,
    kind: u8,
    color: u8,
) -> bool {
    on_board(file + df, rank + dr) && is_piece_of(b[(rank + dr) * 8 + file + df], kind, color)
}

fn holds_at_offset(
    squares: &[Piece; 64],
    file: i8,
    rank: i8,
    df: i8,
    dr: i8,
    kind: u8,
    color: u8,
) -> (h: bool)
    requires
        on_board(file as int, rank as int),
        -2 <= df <= 2,
        -2 <= dr <= 2,
    ensures
        h == offset_holds(squares@, file as int, rank as int, df as int, dr as int, kind, color),
{
    let f: i8 = file + df;
    let r: i8 = rank + dr;
    if f >= 0 && f < 8 && r >= 0 && r < 8 {
        let piece = piece_on(squares, f, r);
        !is_empty(piece) && piece_color(piece) == color && piece_type(piece) == kind
    } else {
        false
    }
}

pub open spec fn knight_threat(b: Seq<Piece>, square: Square, by: u8) -> bool {
    let f = square.0 as int % 8;
    let r = square.0 as int / 8;
    ||| offset_holds(b, f, r, -2, -1, KNIGHT, by)
    ||| offset_holds(b, f, r, -2, 1, KNIGHT, by)
    ||| offset_holds(b, f, r, -1, -2, KNIGHT, by)
    ||| offset_holds(b, f, r, -1, 2, KNIGHT, by)
    ||| offset_holds(b, f, r, 1, -2, KNIGHT, by)
    ||| offset_holds(b, f, r, 1, 2, KNIGHT, by)
    ||| offset_holds(b, f, r, 2, -1, KNIGHT, by)
    ||| offset_holds(b, f, r, 2, 1, KNIGHT, by)
}

pub fn check_knight_threats(squares: &[Piece; 64], square: Square, by_color: u8) -> (t: bool)
    requires
        square.valid(),
    ensures
        t == knight_threat(squares@, square, by_color),
{
    let f: i8 = square.file() as i8;
    let r: i8 = square.rank() as i8;
    holds_at_offset(squares, f, r, -2, -1, KNIGHT, by_color) || holds_at_offset(
        squares,
        f,
        r,
        -2,
        1,
        KNIGHT,
        by_color,
    ) || holds_at_offset(squares, f, r, -1, -2, KNIGHT, by_color) || holds_at_offset(
        squares,
        f,
        r,
        -1,
        2,
        KNIGHT,
        by_color,
    ) || holds_at_offset(squares, f, r, 1, -2, KNIGHT, by_color) || holds_at_offset(
        squares,
        f,
        r,
        1,
        2,
        KNIGHT,
        by_color,
    ) || holds_at_offset(squares, f, r, 2, -1, KNIGHT, by_color) || holds_at_offset(
        squares,
        f,
        r,
        2,
        1,
        KNIGHT,
        by_color,
    )
}

/// The rank step from a square to the pawns of color `by` that attack it:
/// white pawns attack upward, so they stand one rank below.
pub open spec fn pawn_source_step(by: u8) -> int {
    if by == WHITE {
        -1
    } else {
        1
    }
}

pub open spec fn pawn_threat(b: Seq<Piece>, square: Square, by: u8) -> bool {
    let f = square.0 as int % 8;
    let r = square.0 as int / 8;
    ||| offset_holds(b, f, r, -1, pawn_source_step(by), PAWN, by)
    ||| offset_holds(b, f, r, 1, pawn_source_step(by), PAWN, by)
}

pub fn check_pawn_threats(squares: &[Piece; 64], square: Square, by_color: u8) -> (t: bool)
    requires
        square.valid(),
    ensures
        t == pawn_threat(squares@, square, by_color),
{
    let f: i8 = square.file() as i8;
    let r: i8 = square.rank() as i8;
    let attack_direction: i8 = if by_color == WHITE {
        -1
    } else {
        1
    };
    holds_at_offset(squares, f, r, -1, attack_direction, PAWN, by_color) || holds_at_offset(
        squares,
        f,
        r,
        1,
        attack_direction,
        PAWN,
        by_color,
    )
}

pub open spec fn king_threat(b: Seq<Piece>, square: Square, by: u8) -> bool {
    let f = square.0 as int % 8;
    let r = square.0 as int / 8;
    ||| offset_holds(b, f, r, -1, -1, KING, by)
    ||| offset_holds(b, f, r, -1, 0, KING, by)
    ||| offset_holds(b, f, r, -1, 1, KING, by)
    ||| offset_holds(b, f, r, 0, -1, KING, by)
    ||| offset_holds(b, f, r, 0, 1, KING, by)
    ||| offset_holds(b, f, r, 1, -1, KING, by)
    ||| offset_holds(b, f, r, 1, 0, KING, by)
    ||| offset_holds(b, f, r, 1, 1, KING, by)
}

pub fn check_king_threats(squares: &[Piece; 64], square: Square, by_color: u8) -> (t: bool)
    requires
        square.valid(),
    ensures
        t == king_threat(squares@, square, by_color),
{
    let f: i8 = square.file() as i8;
    let r: i8 = square.rank() as i8;
    holds_at_offset(squares, f, r, -1, -1, KING, by_color) || holds_at_offset(
        squares,
        f,
        r,
        -1,
        0,
        KING,
        by_color,
    ) || holds_at_offset(squares, f, r, -1, 1, KING, by_color) || holds_at_offset(
        squares,
        f,
        r,
        0,
        -1,
        KING,
        by_color,
    ) || holds_at_offset(squares, f, r, 0, 1, KING, by_color) || holds_at_offset(
        squares,
        f,
        r,
        1,
        -1,
        KING,
        by_color,
    ) || holds_at_offset(squares, f, r, 1, 0, KING, by_color) || holds_at_offset(
        squares,
        f,
        r,
        1,
        1,
        KING,
        by_color,
    )
}

/// Some piece of color `by` attacks the square: a slider along an open
/// line, a knight, a pawn or a king.
#[verifier::opaque]
pub open spec fn attacked(b: Seq<Piece>, square: Square, by: u8) -> bool {
    sliding_threat(b, square, by) || knight_threat(b, square, by) || pawn_threat(b, square, by)
        || king_threat(b, square, by)
}

/// Whether a piece of color `by_color` attacks `square` on the given
/// squares.
pub fn is_square_attacked(squares: &[Piece; 64], square: Square, by_color: u8) -> (t: bool)
    requires
        square.valid(),
    ensures
        t == attacked(squares@, square, by_color),
{
    reveal(attacked);
    check_sliding_threats(squares, square, by_color) || check_knight_threats(
        squares,
        square,
        by_color,
    ) || check_pawn_threats(squares, square, by_color) || check_king_threats(
        squares,
        square,
        by_color,
    )
}

/// The lowest square from `i` up that holds the king of the color.
pub open spec fn king_from(b: Seq<Piece>, color: u8, i: int) -> Option<Square>
    decreases 64 - i,
{
    if i < 0 || i >= 64 {
        None
    } else if is_piece_of(b[i], KING, color) {
        Some(Square(i as u8))
    } else {
        king_from(b, color, i + 1)
    }
}

/// The square of the king of the color: the lowest one, should there be
/// several.
pub open spec fn spec_find_king(b: Seq<Piece>, color: u8) -> Option<Square> {
    king_from(b, color, 0)
}

pub proof fn lemma_king_from_found(b: Seq<Piece>, color: u8, from: int, t: int)
    requires
        0 <= from <= t < 64,
        forall|i: int| from <= i < t ==> !is_piece_of(#[trigger] b[i], KING, color),
        is_piece_of(b[t], KING, color),
    ensures
        king_from(b, color, from) == Some(Square(t as u8)),
    decreases t - from,
{
    if from < t {
        lemma_king_from_found(b, color, from + 1, t);
    }
}

pub proof fn lemma_king_from_none(b: Seq<Piece>, color: u8, from: int)
    requires
        0 <= from <= 64,
        forall|i: int| from <= i < 64 ==> !is_piece_of(#[trigger] b[i], KING, color),
    ensures
        king_from(b, color, from) is None,
    decreases 64 - from,
{
    if from < 64 {
        lemma_king_from_none(b, color, from + 1);
    }
}

/// The sign of a difference: -1, 0 or 1.
pub open spec fn sign(x: int) -> int {
    if x > 0 {
        1
    } else if x < 0 {
        -1
    } else {
        0
    }
}

pub fn signum(x: i8) -> (s: i8)
    ensures
        s == sign(x as int),
{
    if x > 0 {
        1
    } else if x < 0 {
        -1
    } else {
        0
    }
}

/// The squares strictly between `(file, rank)` and `(to_file, to_rank)`,
/// walking in direction `(df, dr)`, are all on the board and empty, and the
/// walk arrives.
pub open spec fn clear_path(
    b: Seq<Piece>,
    file: int,
    rank: int,
    to_file: int,
    to_rank: int,
    df: int,
    dr: int,
) -> bool
    decreases ray_measure(file, rank, df, dr),
{
    let f = file + df;
    let r = rank + dr;
    if f == to_file && r == to_rank {
        true
    } else if !on_board(f, r) || (df == 0 && dr == 0) {
        false
    } else if b[r * 8 + f] != EMPTY {
        false
    } else {
        clear_path(b, f, r, to_file, to_rank, df, dr)
    }
}

/// Whether the walk from `from` in `direction` reaches `to` over empty
/// squares only.
pub fn path_is_clear(squares: &[Piece; 64], from: Square, to: Square, direction: (i8, i8)) -> (clear:
    bool)
    requires
        from.valid(),
        to.valid(),
        -1 <= direction.0 <= 1,
        -1 <= direction.1 <= 1,
        direction.0 != 0 || direction.1 != 0 || from == to,
    ensures
        clear == clear_path(
            squares@,
            from.0 as int % 8,
            from.0 as int / 8,
            to.0 as int % 8,
            to.0 as int / 8,
            direction.0 as int,
            direction.1 as int,
        ),
{
    let df: i8 = direction.0;
    let dr: i8 = direction.1;
    let mut file: i8 = from.file() as i8 + df;
    let mut rank: i8 = from.rank() as i8 + dr;
    let to_file: i8 = to.file() as i8;
    let to_rank: i8 = to.rank() as i8;
    while file != to_file || rank != to_rank
        invariant
            -1 <= df <= 1,
            -1 <= dr <= 1,
            df != 0 || dr != 0 || (file == to_file && rank == to_rank),
            on_board(file - df, rank - dr),
            to_file == to.0 % 8,
            to_rank == to.0 / 8,
            df == direction.0,
            dr == direction.1,
            clear_path(
                squares@,
                from.0 as int % 8,
                from.0 as int / 8,
                to_file as int,
                to_rank as int,
                df as int,
                dr as int,
            ) == clear_path(
                squares@,
                file - df,
                rank - dr,
                to_file as int,
                to_rank as int,
                df as int,
                dr as int,
            ),
        decreases ray_measure(file - df, rank - dr, df as int, dr as int),
    {
        if file < 0 || file >= 8 || rank < 0 || rank >= 8 {
            return false;
        }
        let piece = piece_on(squares, file, rank);
        if !is_empty(piece) {
            return false;
        }
        file = file + df;
        rank = rank + dr;
    }
    true
}

/// The direction of the line on which the piece on `piece_square` is
/// pinned to the king on `king_square`: the two stand on one line, nothing
/// stands between them, and behind the piece the first piece met is an
/// enemy slider of that line.
pub open spec fn pin_direction(
    b: Seq<Piece>,
    piece_square: Square,
    king_square: Square,
    opponent: u8,
) -> Option<(i8, i8)> {
    let pf = piece_square.0 as int % 8;
    let pr = piece_square.0 as int / 8;
    let kf = king_square.0 as int % 8;
    let kr = king_square.0 as int / 8;
    let fd = kf - pf;
    let rd = kr - pr;
    let aligned = (fd == 0 && rd != 0) || (rd == 0 && fd != 0) || (fd != 0 && (fd == rd || fd
        == -rd));
    if !aligned {
        None
    } else if !clear_path(b, pf, pr, kf, kr, sign(fd), sign(rd)) {
        None
    } else {
        match ray_piece(b, pf, pr, -sign(fd), -sign(rd)) {
            Some(p) => if spec_piece_color(p) == opponent && slider_kind(
                spec_piece_type(p),
                fd == 0 || rd == 0,
            ) {
                Some((sign(fd) as i8, sign(rd) as i8))
            } else {
                None
            },
            None => None,
        }
    }
}

pub fn find_pin_direction(
    squares: &[Piece; 64],
    piece_square: Square,
    king_square: Square,
    opponent_color: u8,
) -> (pin: Option<(i8, i8)>)
    requires
        piece_square.valid(),
        king_square.valid(),
    ensures
        pin == pin_direction(squares@, piece_square, king_square, opponent_color),
        pin is Some ==> is_direction(pin.unwrap().0 as int, pin.unwrap().1 as int),
{
    let piece_file: i8 = piece_square.file() as i8;
    let piece_rank: i8 = piece_square.rank() as i8;
    let king_file: i8 = king_square.file() as i8;
    let king_rank: i8 = king_square.rank() as i8;
    let file_diff: i8 = king_file - piece_file;
    let rank_diff: i8 = king_rank - piece_rank;
    let aligned = (file_diff == 0 && rank_diff != 0) || (rank_diff == 0 && file_diff != 0) || (
    file_diff != 0 && (file_diff == rank_diff || file_diff == -rank_diff));
    if !aligned {
        return None;
    }
    let pin: (i8, i8) = (signum(file_diff), signum(rank_diff));
    if !path_is_clear(squares, piece_square, king_square, pin) {
        return None;
    }
    match find_attacking_piece_in_direction(
        squares,
        piece_square,
        (-pin.0, -pin.1),
        opponent_color,
    ) {
        Some(attacking_piece) => {
            let kind = piece_type(attacking_piece);
            let is_valid_attacker = if pin.0 == 0 || pin.1 == 0 {
                kind == ROOK || kind == QUEEN
            } else {
                kind == BISHOP || kind == QUEEN
            };
            if is_valid_attacker {
                Some(pin)
            } else {
                None
            }
        },
        None => None,
    }
}

/// The first piece on the ray, if it is of the given color.
pub fn find_attacking_piece_in_direction(
    squares: &[Piece; 64],
    from: Square,
    direction: (i8, i8),
    color: u8,
) -> (found: Option<Piece>)
    requires
        from.valid(),
        is_direction(direction.0 as int, direction.1 as int),
    ensures
        found == match ray_piece(
            squares@,
            from.0 as int % 8,
            from.0 as int / 8,
            direction.0 as int,
            direction.1 as int,
        ) {
            Some(p) => if spec_piece_color(p) == color {
                Some(p)
            } else {
                None
            },
            None => None,
        },
{
    match cast_ray(squares, from.file() as i8, from.rank() as i8, direction.0, direction.1) {
        Some(p) => if piece_color(p) == color {
            Some(p)
        } else {
            None
        },
        None => None,
    }
}

/// The square that the search for the king returns is on the board and
/// holds the king of the color.
pub proof fn lemma_king_from_is_king(b: Seq<Piece>, color: u8, from: int)
    requires
        0 <= from,
    ensures
        match king_from(b, color, from) {
            Some(s) => s.valid() && is_piece_of(b[s.0 as int], KING, color),
            None => true,
        },
    decreases 64 - from,
{
    if from < 64 && !is_piece_of(b[from], KING, color) {
        lemma_king_from_is_king(b, color, from + 1);
    }
}

} // verus!
