//! Squares and moves written out in coordinate notation.

use vstd::prelude::*;
use vstd::string::StrSliceExecFns;
use vstd::string::StringExecFns;
use crate::types::{Move, Square};
use crate::types::{BISHOP, KNIGHT, QUEEN, ROOK};

verus! {

/// The file letter and rank digit of a square, as in `e4`.
pub open spec fn spec_square_to_algebraic(square: Square) -> Seq<char> {
    "abcdefgh"@.subrange(square.0 as int % 8, square.0 as int % 8 + 1) + "12345678"@.subrange(
        square.0 as int / 8,
        square.0 as int / 8 + 1,
    )
}

/// The letter of a promotion in lower case; a question mark for a kind that
/// no pawn promotes to.
pub open spec fn promotion_letter(kind: u8) -> Seq<char> {
    if kind == QUEEN {
        "q"@
    } else if kind == ROOK {
        "r"@
    } else if kind == BISHOP {
        "b"@
    } else if kind == KNIGHT {
        "n"@
    } else {
        "?"@
    }
}

/// The letter of a promotion in upper case.
pub open spec fn promotion_capital(kind: u8) -> Seq<char> {
    if kind == QUEEN {
        "Q"@
    } else if kind == ROOK {
        "R"@
    } else if kind == BISHOP {
        "B"@
    } else if kind == KNIGHT {
        "N"@
    } else {
        "?"@
    }
}

/// A move as origin and destination, with the letter of the promotion
/// after them, as in `e2e4` and `e7e8q`.
pub open spec fn spec_move_to_algebraic(mv: Move) -> Seq<char> {
    let squares = spec_square_to_algebraic(mv.from) + spec_square_to_algebraic(mv.to);
    match mv.promotion {
        Some(kind) => squares + promotion_letter(kind),
        None => squares,
    }
}

/// A move as origin, dash and destination, with an equals sign and the
/// capital of the promotion after them, as in `e2-e4` and `e7-e8=Q`.
pub open spec fn spec_move_to_string(mv: Move) -> Seq<char> {
    let squares = spec_square_to_algebraic(mv.from) + "-"@ + spec_square_to_algebraic(mv.to);
    match mv.promotion {
        Some(kind) => squares + "="@ + promotion_capital(kind),
        None => squares,
    }
}

fn append_square(text: &mut String, square: Square)
    requires
        square.valid(),
    ensures
        final(text)@ == old(text)@ + spec_square_to_algebraic(square),
{
    let files = "abcdefgh";
    let ranks = "12345678";
    proof {
        reveal_strlit("abcdefgh");
        reveal_strlit("12345678");
    }
    let file = square.file() as usize;
    let rank = square.rank() as usize;
    text.append(files.substring_ascii(file, file + 1));
    text.append(ranks.substring_ascii(rank, rank + 1));
    proof {
        assert(text@ =~= old(text)@ + spec_square_to_algebraic(square));
    }
}

/// The square in coordinate notation.
pub fn square_to_algebraic(square: Square) -> (text: String)
    requires
        square.valid(),
    ensures
        text@ == spec_square_to_algebraic(square),
{
    let mut text = String::new();
    append_square(&mut text, square);
    proof {
        assert(text@ =~= spec_square_to_algebraic(square));
    }
    text
}

/// The move in coordinate notation.
pub fn move_to_algebraic(mv: Move) -> (text: String)
    requires
        mv.valid(),
    ensures
        text@ == spec_move_to_algebraic(mv),
{
    let mut text = square_to_algebraic(mv.from);
    append_square(&mut text, mv.to);
    match mv.promotion {
        Some(promotion) => {
            let letter = if promotion == QUEEN {
                "q"
            } else if promotion == ROOK {
                "r"
            } else if promotion == BISHOP {
                "b"
            } else if promotion == KNIGHT {
                "n"
            } else {
                "?"
            };
            text.append(letter);
        },
        None => {},
    }
    text
}

/// The move with a dash between its squares.
pub fn move_to_string(mv: Move) -> (text: String)
    requires
        mv.valid(),
    ensures
        text@ == spec_move_to_string(mv),
{
    let mut text = square_to_algebraic(mv.from);
    text.append("-");
    append_square(&mut text, mv.to);
    match mv.promotion {
        Some(promotion) => {
            let letter = if promotion == QUEEN {
                "Q"
            } else if promotion == ROOK {
                "R"
            } else if promotion == BISHOP {
                "B"
            } else if promotion == KNIGHT {
                "N"
            } else {
                "?"
            };
            text.append("=");
            text.append(letter);
        },
        None => {},
    }
    text
}

} // verus!
