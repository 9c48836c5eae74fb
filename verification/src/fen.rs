//! Reading a position from its FEN text: six fields separated by white
//! space, for the piece placement, the side to move, the castling rights,
//! the en-passant target and the two clocks.

use vstd::prelude::*;
use vstd::string::StringSliceAdditionalSpecFns;
use crate::board::Board;
use crate::board::Position;
use crate::types::make_piece;
use crate::types::{ChessError, GameStatus, Piece, Square};
use crate::types::{BISHOP, KING, KNIGHT, PAWN, QUEEN, ROOK};
use crate::types::{BLACK, EMPTY, WHITE};
use crate::types::{BLACK_KINGSIDE, BLACK_QUEENSIDE, WHITE_KINGSIDE, WHITE_QUEENSIDE};

verus! {

/// ASCII white space: the space and the control characters 9 to 13.
pub open spec fn is_space(c: u8) -> bool {
    c == 32 || (9 <= c && c <= 13)
}

/// The fields of the text from index `i` on, where `start` is the index at
/// which the field under way began, or -1 between fields.
pub open spec fn fields_scan(s: Seq<u8>, i: int, start: int) -> Seq<Seq<u8>>
    decreases s.len() - i,
{
    if i >= s.len() {
        if start >= 0 {
            seq![s.subrange(start, s.len() as int)]
        } else {
            Seq::empty()
        }
    } else if is_space(s[i]) {
        if start >= 0 {
            seq![s.subrange(start, i)] + fields_scan(s, i + 1, -1)
        } else {
            fields_scan(s, i + 1, -1)
        }
    } else {
        fields_scan(
            s,
            i + 1,
            if start >= 0 {
                start
            } else {
                i
            },
        )
    }
}

/// The maximal runs of characters other than white space, in order.
pub open spec fn fen_fields(s: Seq<u8>) -> Seq<Seq<u8>> {
    fields_scan(s, 0, -1)
}

/// The piece that a letter of the placement field stands for: `pnbrqk` in
/// either case, upper case for white.
pub open spec fn spec_char_to_piece(c: u8) -> Option<Piece> {
    let lower = if 65 <= c && c <= 90 {
        (c + 32) as u8
    } else {
        c
    };
    let color = if 65 <= c && c <= 90 {
        WHITE
    } else {
        BLACK
    };
    if lower == 112 {
        Some((PAWN + color) as u8)
    } else if lower == 110 {
        Some((KNIGHT + color) as u8)
    } else if lower == 98 {
        Some((BISHOP + color) as u8)
    } else if lower == 114 {
        Some((ROOK + color) as u8)
    } else if lower == 113 {
        Some((QUEEN + color) as u8)
    } else if lower == 107 {
        Some((KING + color) as u8)
    } else {
        None
    }
}

/// Reads the placement field from index `i` on, having reached `file` on
/// `rank` with the given squares filled: a digit skips that many files, a
/// letter puts a piece, a slash ends a full rank, and the field must end
/// with the first rank full.
pub open spec fn placement_scan(
    f: Seq<u8>,
    i: int,
    rank: int,
    file: int,
    squares: Seq<Piece>,
) -> Option<Seq<Piece>>
    decreases f.len() - i,
{
    if i >= f.len() {
        if rank == 0 && file == 8 {
            Some(squares)
        } else {
            None
        }
    } else if f[i] == 47 {
        if file == 8 && rank > 0 {
            placement_scan(f, i + 1, rank - 1, 0, squares)
        } else {
            None
        }
    } else if 48 <= f[i] && f[i] <= 57 {
        if file + (f[i] - 48) <= 8 {
            placement_scan(f, i + 1, rank, file + (f[i] - 48), squares)
        } else {
            None
        }
    } else {
        match spec_char_to_piece(f[i]) {
            Some(p) => if file < 8 {
                placement_scan(f, i + 1, rank, file + 1, squares.update(rank * 8 + file, p))
            } else {
                None
            },
            None => None,
        }
    }
}

/// The squares that the placement field describes, from the eighth rank
/// down.
pub open spec fn parse_placement(f: Seq<u8>) -> Option<Seq<Piece>> {
    placement_scan(f, 0, 7, 0, Seq::new(64, |i: int| EMPTY))
}

/// The side to move: `w` or `b`.
pub open spec fn parse_turn(f: Seq<u8>) -> Option<u8> {
    if f == seq![119u8] {
        Some(WHITE)
    } else if f == seq![98u8] {
        Some(BLACK)
    } else {
        None
    }
}

/// The right that a letter of the castling field grants.
pub open spec fn castling_letter(c: u8) -> Option<u8> {
    if c == 75 {
        Some(WHITE_KINGSIDE)
    } else if c == 81 {
        Some(WHITE_QUEENSIDE)
    } else if c == 107 {
        Some(BLACK_KINGSIDE)
    } else if c == 113 {
        Some(BLACK_QUEENSIDE)
    } else {
        None
    }
}

pub open spec fn castling_scan(f: Seq<u8>, i: int, rights: u8) -> Option<u8>
    decreases f.len() - i,
{
    if i >= f.len() {
        Some(rights)
    } else {
        match castling_letter(f[i]) {
            Some(right) => castling_scan(f, i + 1, rights | right),
            None => None,
        }
    }
}

/// The castling rights: `-` for none, or letters among `KQkq`.
pub open spec fn parse_castling(f: Seq<u8>) -> Option<u8> {
    if f == seq![45u8] {
        Some(0u8)
    } else {
        castling_scan(f, 0, 0)
    }
}

/// The en-passant target and the pawn it exposes: `-` for none, or a file
/// letter and a rank digit. The pawn stands on the fourth rank behind a
/// target on the third, and on the fifth rank otherwise.
pub open spec fn parse_en_passant_field(f: Seq<u8>) -> Option<(Option<Square>, Option<Square>)> {
    if f == seq![45u8] {
        Some((None, None))
    } else if f.len() != 2 {
        None
    } else if 97 <= f[0] && f[0] <= 104 && 49 <= f[1] && f[1] <= 56 {
        let file = f[0] - 97;
        let rank = f[1] - 49;
        Some(
            (
                Some(Square::at(file, rank)),
                Some(
                    Square::at(
                        file,
                        if rank == 2 {
                            3
                        } else {
                            4
                        },
                    ),
                ),
            ),
        )
    } else {
        None
    }
}

pub open spec fn digits_scan(f: Seq<u8>, i: int, value: int) -> Option<u16>
    decreases f.len() - i,
{
    if i >= f.len() {
        Some(value as u16)
    } else if 48 <= f[i] && f[i] <= 57 && value * 10 + (f[i] - 48) <= u16::MAX {
        digits_scan(f, i + 1, value * 10 + (f[i] - 48))
    } else {
        None
    }
}

/// A clock: decimal digits, with an optional plus sign before them, worth
/// no more than 65535.
pub open spec fn parse_clock(f: Seq<u8>) -> Option<u16> {
    let first = if f.len() > 0 && f[0] == 43 {
        1int
    } else {
        0int
    };
    if first >= f.len() {
        None
    } else {
        digits_scan(f, first, 0)
    }
}

/// The position that a FEN text describes, if it is well formed: exactly
/// six fields, each of them readable. No move has been played and the
/// game is in progress.
pub open spec fn parse_fen(s: Seq<u8>) -> Option<Position> {
    let f = fen_fields(s);
    if f.len() != 6 {
        None
    } else {
        match (
            parse_placement(f[0]),
            parse_turn(f[1]),
            parse_castling(f[2]),
            parse_en_passant_field(f[3]),
            parse_clock(f[4]),
            parse_clock(f[5]),
        ) {
            (Some(squares), Some(turn), Some(rights), Some(ep), Some(half), Some(full)) => Some(
                Position {
                    squares,
                    turn,
                    castling_rights: rights,
                    en_passant_target: ep.0,
                    en_passant_pawn: ep.1,
                    half_move_clock: half,
                    full_move_number: full,
                    history: Seq::empty(),
                    status: GameStatus::InProgress,
                },
            ),
            _ => None,
        }
    }
}

/// The fields that the ranges cut out of the text.
pub open spec fn ranges_to_fields(s: Seq<u8>, ranges: Seq<(usize, usize)>) -> Seq<Seq<u8>> {
    Seq::new(ranges.len(), |k: int| s.subrange(ranges[k].0 as int, ranges[k].1 as int))
}

fn is_space_byte(c: u8) -> (space: bool)
    ensures
        space == is_space(c),
{
    c == 32 || (9 <= c && c <= 13)
}

/// Cuts the text into its fields, each given by where it starts and ends.
fn split_fields(bytes: &[u8]) -> (ranges: Vec<(usize, usize)>)
    ensures
        ranges_to_fields(bytes@, ranges@) == fen_fields(bytes@),
        forall|k: int|
            0 <= k < ranges.len() ==> (#[trigger] ranges[k]).0 <= ranges[k].1 <= bytes@.len(),
{
    let mut ranges: Vec<(usize, usize)> = Vec::new();
    let mut i: usize = 0;
    let mut in_field: bool = false;
    let mut start: usize = 0;
    let ghost s = bytes@;
    proof {
        assert(ranges_to_fields(s, ranges@) =~= Seq::empty());
        assert(Seq::<Seq<u8>>::empty() + fields_scan(s, 0, -1) =~= fields_scan(s, 0, -1));
    }
    while i < bytes.len()
        invariant
            i <= bytes.len(),
            s == bytes@,
            in_field ==> start < i,
            ranges_to_fields(s, ranges@) + fields_scan(
                s,
                i as int,
                if in_field {
                    start as int
                } else {
                    -1
                },
            ) == fen_fields(s),
            forall|k: int|
                0 <= k < ranges.len() ==> (#[trigger] ranges[k]).0 <= ranges[k].1 <= s.len(),
        decreases bytes.len() - i,
    {
        let c = bytes[i];
        let ghost before = ranges@;
        if is_space_byte(c) {
            if in_field {
                ranges.push((start, i));
                in_field = false;
                proof {
                    assert(ranges_to_fields(s, ranges@) =~= ranges_to_fields(s, before).push(
                        s.subrange(start as int, i as int),
                    ));
                    assert(ranges_to_fields(s, ranges@) + fields_scan(s, i + 1, -1)
                        =~= ranges_to_fields(s, before) + (seq![
                        s.subrange(start as int, i as int),
                    ] + fields_scan(s, i + 1, -1)));
                }
            }
        } else {
            if !in_field {
                in_field = true;
                start = i;
            }
        }
        i = i + 1;
    }
    if in_field {
        let ghost before = ranges@;
        ranges.push((start, i));
        proof {
            assert(ranges_to_fields(s, ranges@) =~= ranges_to_fields(s, before) + seq![
                s.subrange(start as int, s.len() as int),
            ]);
        }
    } else {
        proof {
            assert(ranges_to_fields(s, ranges@) + Seq::<Seq<u8>>::empty() =~= ranges_to_fields(
                s,
                ranges@,
            ));
        }
    }
    ranges
}

/// Reads a clock from the bytes of one field.
fn parse_clock_field(bytes: &[u8], start: usize, end: usize) -> (value: Option<u16>)
    requires
        start <= end <= bytes@.len(),
    ensures
        value == parse_clock(bytes@.subrange(start as int, end as int)),
{
    let ghost f = bytes@.subrange(start as int, end as int);
    let mut i: usize = start;
    if i < end && bytes[i] == 43 {
        i = i + 1;
    }
    if i >= end {
        return None;
    }
    let mut value: u32 = 0;
    let ghost first = i - start;
    while i < end
        invariant
            start <= i <= end <= bytes@.len(),
            f == bytes@.subrange(start as int, end as int),
            value <= u16::MAX,
            parse_clock(f) == digits_scan(f, first as int, 0),
            digits_scan(f, i - start, value as int) == digits_scan(f, first as int, 0),
        decreases end - i,
    {
        let c = bytes[i];
        proof {
            assert(f[i - start] == c);
        }
        if c < 48 || c > 57 {
            return None;
        }
        let next: u32 = value * 10 + (c - 48) as u32;
        if next > 65535 {
            return None;
        }
        value = next;
        i = i + 1;
    }
    Some(value as u16)
}

impl Board {
    /// The piece that a letter of the placement field stands for.
    fn char_to_piece(ch: u8) -> (piece: Option<Piece>)
        ensures
            piece == spec_char_to_piece(ch),
            piece is Some ==> crate::types::piece_valid(piece.unwrap()),
    {
        let upper = 65 <= ch && ch <= 90;
        let lower: u8 = if upper {
            ch + 32
        } else {
            ch
        };
        let color: u8 = if upper {
            WHITE
        } else {
            BLACK
        };
        let piece_type: u8 = if lower == 112 {
            PAWN
        } else if lower == 110 {
            KNIGHT
        } else if lower == 98 {
            BISHOP
        } else if lower == 114 {
            ROOK
        } else if lower == 113 {
            QUEEN
        } else if lower == 107 {
            KING
        } else {
            return None;
        };
        Some(make_piece(piece_type, color))
    }

    /// Fills the squares from the placement field.
    fn parse_piece_placement(&mut self, bytes: &[u8], start: usize, end: usize) -> (ok: bool)
        requires
            old(self).wf(),
            old(self)@.squares == Seq::new(64, |i: int| EMPTY),
            start <= end <= bytes@.len(),
        ensures
            final(self).wf(),
            match parse_placement(bytes@.subrange(start as int, end as int)) {
                Some(squares) => ok && final(self)@ == (Position { squares, ..old(self)@ }),
                None => !ok,
            },
    {
        let ghost f = bytes@.subrange(start as int, end as int);
        let mut i: usize = start;
        let mut rank: u8 = 7;
        let mut file: u8 = 0;
        while i < end
            invariant
                start <= i <= end <= bytes@.len(),
                f == bytes@.subrange(start as int, end as int),
                rank <= 7,
                file <= 8,
                self.wf(),
                self@ == (Position { squares: self@.squares, ..old(self)@ }),
                placement_scan(f, i - start, rank as int, file as int, self@.squares)
                    == parse_placement(f),
            decreases end - i,
        {
            let ch = bytes[i];
            proof {
                assert(f[i - start] == ch);
            }
            if ch == 47 {
                if file != 8 || rank == 0 {
                    return false;
                }
                rank = rank - 1;
                file = 0;
            } else if 48 <= ch && ch <= 57 {
                let empty_squares: u8 = ch - 48;
                if file + empty_squares > 8 {
                    return false;
                }
                file = file + empty_squares;
            } else {
                if file >= 8 {
                    return false;
                }
                match Board::char_to_piece(ch) {
                    Some(piece) => {
                        self.set_piece(Square::new(file, rank), piece);
                        file = file + 1;
                    },
                    None => {
                        return false;
                    },
                }
            }
            i = i + 1;
        }
        rank == 0 && file == 8
    }

    /// Reads the castling rights.
    fn parse_castling_rights(&mut self, bytes: &[u8], start: usize, end: usize) -> (ok: bool)
        requires
            start <= end <= bytes@.len(),
        ensures
            match parse_castling(bytes@.subrange(start as int, end as int)) {
                Some(rights) => ok && *final(self) == (Board {
                    castling_rights: rights,
                    ..*old(self)
                }),
                None => !ok && *final(self) == *old(self),
            },
    {
        let ghost f = bytes@.subrange(start as int, end as int);
        if end - start == 1 && bytes[start] == 45 {
            proof {
                assert(f =~= seq![45u8]);
            }
            self.castling_rights = 0;
            return true;
        }
        proof {
            if f == seq![45u8] {
                assert(f.len() == 1);
                assert(f[0] == 45u8);
            }
        }
        let mut rights: u8 = 0;
        let mut i: usize = start;
        while i < end
            invariant
                start <= i <= end <= bytes@.len(),
                f == bytes@.subrange(start as int, end as int),
                *self == *old(self),
                parse_castling(f) == castling_scan(f, 0, 0),
                castling_scan(f, i - start, rights) == castling_scan(f, 0, 0),
            decreases end - i,
        {
            let ch = bytes[i];
            proof {
                assert(f[i - start] == ch);
            }
            if ch == 75 {
                rights = rights | WHITE_KINGSIDE;
            } else if ch == 81 {
                rights = rights | WHITE_QUEENSIDE;
            } else if ch == 107 {
                rights = rights | BLACK_KINGSIDE;
            } else if ch == 113 {
                rights = rights | BLACK_QUEENSIDE;
            } else {
                return false;
            }
            i = i + 1;
        }
        self.castling_rights = rights;
        true
    }

    /// Reads the en-passant target.
    fn parse_en_passant(&mut self, bytes: &[u8], start: usize, end: usize) -> (ok: bool)
        requires
            start <= end <= bytes@.len(),
        ensures
            match parse_en_passant_field(bytes@.subrange(start as int, end as int)) {
                Some(ep) => ok && *final(self) == (Board {
                    en_passant_target: ep.0,
                    en_passant_pawn: ep.1,
                    ..*old(self)
                }) && crate::board::en_passant_pair_valid(ep.0, ep.1),
                None => !ok && *final(self) == *old(self),
            },
    {
        let ghost f = bytes@.subrange(start as int, end as int);
        if end - start == 1 && bytes[start] == 45 {
            proof {
                assert(f =~= seq![45u8]);
            }
            self.en_passant_target = None;
            self.en_passant_pawn = None;
            return true;
        }
        proof {
            if f == seq![45u8] {
                assert(f.len() == 1);
                assert(f[0] == 45u8);
            }
        }
        if end - start != 2 {
            return false;
        }
        let c0 = bytes[start];
        let c1 = bytes[start + 1];
        proof {
            assert(f[0] == c0);
            assert(f[1] == c1);
        }
        if c0 < 97 || c0 > 104 || c1 < 49 || c1 > 56 {
            return false;
        }
        let file: u8 = c0 - 97;
        let rank: u8 = c1 - 49;
        self.en_passant_target = Some(Square::new(file, rank));
        let pawn_rank: u8 = if rank == 2 {
            3
        } else {
            4
        };
        self.en_passant_pawn = Some(Square::new(file, pawn_rank));
        true
    }

    /// Reads a board from a FEN text.
    pub fn from_fen(fen: &str) -> (result: Result<Board, ChessError>)
        ensures
            match result {
                Ok(board) => board.wf() && parse_fen(fen.spec_bytes()) == Some(board@),
                Err(e) => e == ChessError::InvalidFen && parse_fen(fen.spec_bytes()) is None,
            },
    {
        let bytes: &[u8] = fen.as_bytes();
        let parts = split_fields(bytes);
        if parts.len() != 6 {
            return Err(ChessError::InvalidFen);
        }
        let ghost f = fen_fields(bytes@);
        proof {
            assert forall|k: int| 0 <= k < 6 implies #[trigger] f[k] == bytes@.subrange(
                parts[k].0 as int,
                parts[k].1 as int,
            ) by {
                assert(ranges_to_fields(bytes@, parts@)[k] == f[k]);
            }
        }
        let mut board = Board::empty(0);
        if !board.parse_piece_placement(bytes, parts[0].0, parts[0].1) {
            return Err(ChessError::InvalidFen);
        }
        let turn_field = parts[1];
        if turn_field.1 - turn_field.0 != 1 {
            proof {
                assert(f[1].len() != 1);
            }
            return Err(ChessError::InvalidFen);
        }
        let turn_byte = bytes[turn_field.0];
        proof {
            assert(f[1][0] == turn_byte);
            assert(f[1] =~= seq![turn_byte]);
            if turn_byte != 119 {
                assert(seq![119u8][0] == 119u8);
            }
            if turn_byte != 98 {
                assert(seq![98u8][0] == 98u8);
            }
        }
        if turn_byte == 119 {
            board.current_turn = WHITE;
        } else if turn_byte == 98 {
            board.current_turn = BLACK;
        } else {
            return Err(ChessError::InvalidFen);
        }
        if !board.parse_castling_rights(bytes, parts[2].0, parts[2].1) {
            return Err(ChessError::InvalidFen);
        }
        if !board.parse_en_passant(bytes, parts[3].0, parts[3].1) {
            return Err(ChessError::InvalidFen);
        }
        match parse_clock_field(bytes, parts[4].0, parts[4].1) {
            Some(value) => {
                board.half_move_clock = value;
            },
            None => {
                return Err(ChessError::InvalidFen);
            },
        }
        match parse_clock_field(bytes, parts[5].0, parts[5].1) {
            Some(value) => {
                board.full_move_number = value;
            },
            None => {
                return Err(ChessError::InvalidFen);
            },
        }
        proof {
            assert(board@.history =~= Seq::empty());
        }
        Ok(board)
    }
}

} // verus!
