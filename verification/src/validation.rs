//! Check detection, pins and the squares that answer a check, as methods of
//! the board.

use vstd::prelude::*;
use crate::attacks::attacked;
use crate::attacks::clear_path;
use crate::attacks::find_pin_direction;
use crate::attacks::first_on_ray;
use crate::attacks::is_direction;
use crate::attacks::is_piece_of;
use crate::attacks::is_square_attacked;
use crate::attacks::lemma_king_from_found;
use crate::attacks::lemma_king_from_none;
use crate::attacks::offset_holds;
use crate::attacks::path_is_clear;
use crate::attacks::pawn_source_step;
use crate::attacks::pin_direction;
use crate::attacks::ray_hit;
use crate::attacks::ray_measure;
use crate::attacks::sign;
use crate::attacks::signum;
use crate::attacks::slider_kind;
use crate::attacks::spec_find_king;
use crate::bitboard::bit_pred;
use crate::bitboard::bitboard_squares;
use crate::bitboard::get_knight_attacks;
use crate::bitboard::king_step;
use crate::bitboard::knight_jump;
use crate::bitboard::lemma_bit_ops;
use crate::bitboard::lemma_single_bit;
use crate::bitboard::lemma_squares_where_ext;
use crate::bitboard::pop_lsb;
use crate::bitboard::spec_get_bit;
use crate::bitboard::squares_where;
use crate::bitboard::Bitboard;
use crate::board::on_board;
use crate::board::Board;
use crate::seqs::all_valid;
use crate::seqs::contains_square;
use crate::seqs::extend_squares;
use crate::seqs::keep_all;
use crate::seqs::keep_where;
use crate::seqs::push_some;
use crate::types::is_empty;
use crate::types::opposite_color;
use crate::types::piece_color;
use crate::types::piece_type;
use crate::types::spec_opposite_color;
use crate::types::spec_piece_color;
use crate::types::spec_piece_type;
use crate::types::{Piece, Square};
use crate::types::{BISHOP, KING, KNIGHT, PAWN, QUEEN, ROOK};
use crate::types::{BLACK, EMPTY, WHITE};

verus! {

/// The square `(df, dr)` away, if it is on the board and holds a piece of
/// the given kind and color.
pub open spec fn offset_square(
    b: Seq<Piece>,
    file: int,
    rank: int,
    df: int,
    dr: int,
    kind: u8,
    color: u8,
) -> Option<Square> {
    if offset_holds(b, file, rank, df, dr, kind, color) {
        Some(Square::at(file + df, rank + dr))
    } else {
        None
    }
}

/// The first piece on the ray, if it is a slider of color `opp` that moves
/// along this kind of line.
pub open spec fn ray_checker(
    b: Seq<Piece>,
    file: int,
    rank: int,
    df: int,
    dr: int,
    opp: u8,
    axial: bool,
) -> Option<Square> {
    match ray_hit(b, file, rank, df, dr) {
        Some(s) => if spec_piece_color(b[s.0 as int]) == opp && slider_kind(
            spec_piece_type(b[s.0 as int]),
            axial,
        ) {
            Some(s)
        } else {
            None
        },
        None => None,
    }
}

/// "Square `i` holds a knight of color `opp` a jump away from the king."
pub open spec fn knight_checker_pred(b: Seq<Piece>, king_square: Square, opp: u8) -> spec_fn(
    int,
) -> bool {
    |i: int| knight_jump(king_square.0 as int, i) && is_piece_of(b[i], KNIGHT, opp)
}

/// The color that is not `color`, black for anything but white.
pub open spec fn other_side(color: u8) -> u8 {
    if color == WHITE {
        BLACK
    } else {
        WHITE
    }
}

/// The squares of the enemy pieces that attack the king of `king_color` on
/// `king_square`: pawns first, then knights from the lowest square up,
/// then the sliders on the four diagonals and on the four files and ranks.
#[verifier::opaque]
pub open spec fn checkers(b: Seq<Piece>, king_square: Square, king_color: u8) -> Seq<Square> {
    let opp = other_side(king_color);
    let f = king_square.0 as int % 8;
    let r = king_square.0 as int / 8;
    let s1 = push_some(
        Seq::empty(),
        offset_square(b, f, r, -1, pawn_source_step(opp), PAWN, opp),
    );
    let s2 = push_some(s1, offset_square(b, f, r, 1, pawn_source_step(opp), PAWN, opp));
    let s3 = s2 + squares_where(knight_checker_pred(b, king_square, opp), 64);
    let s4 = push_some(s3, ray_checker(b, f, r, 1, 1, opp, false));
    let s5 = push_some(s4, ray_checker(b, f, r, 1, -1, opp, false));
    let s6 = push_some(s5, ray_checker(b, f, r, -1, 1, opp, false));
    let s7 = push_some(s6, ray_checker(b, f, r, -1, -1, opp, false));
    let s8 = push_some(s7, ray_checker(b, f, r, 0, 1, opp, true));
    let s9 = push_some(s8, ray_checker(b, f, r, 0, -1, opp, true));
    let s10 = push_some(s9, ray_checker(b, f, r, 1, 0, opp, true));
    push_some(s10, ray_checker(b, f, r, -1, 0, opp, true))
}

/// The side to move has a king and it is attacked.
#[verifier::opaque]
pub open spec fn in_check(b: Seq<Piece>, turn: u8) -> bool {
    match spec_find_king(b, turn) {
        Some(k) => attacked(b, k, spec_opposite_color(turn)),
        None => false,
    }
}

/// The pin on the piece of a square, as `is_piece_pinned` returns it.
pub open spec fn pinned(b: Seq<Piece>, square: Square) -> Option<(i8, i8)> {
    let piece = b[square.0 as int];
    if piece == EMPTY {
        None
    } else {
        match spec_find_king(b, spec_piece_color(piece)) {
            Some(k) => pin_direction(b, square, k, spec_opposite_color(spec_piece_color(piece))),
            None => None,
        }
    }
}

/// The squares from `(file, rank)`, excluded, to `(to_file, to_rank)`,
/// excluded, walking in direction `(df, dr)` while on the board.
pub open spec fn between_squares(
    file: int,
    rank: int,
    to_file: int,
    to_rank: int,
    df: int,
    dr: int,
) -> Seq<Square>
    decreases ray_measure(file, rank, df, dr),
{
    let f = file + df;
    let r = rank + dr;
    if (f == to_file && r == to_rank) || !on_board(f, r) || (df == 0 && dr == 0) {
        Seq::empty()
    } else {
        seq![Square::at(f, r)] + between_squares(f, r, to_file, to_rank, df, dr)
    }
}

/// The squares on which a check by the piece on `checker` can be answered
/// by a piece other than the king: the checker's own square and, for a
/// slider, the squares between the king and it.
pub open spec fn blocking_squares(b: Seq<Piece>, king_square: Square, checker: Square) -> Seq<
    Square,
> {
    let kind = spec_piece_type(b[checker.0 as int]);
    if kind == QUEEN || kind == ROOK || kind == BISHOP {
        let kf = king_square.0 as int % 8;
        let kr = king_square.0 as int / 8;
        let cf = checker.0 as int % 8;
        let cr = checker.0 as int / 8;
        seq![checker] + between_squares(kf, kr, cf, cr, sign(cf - kf), sign(cr - kr))
    } else {
        seq![checker]
    }
}

/// The squares with `exclude`, if any, emptied.
pub open spec fn without_piece(b: Seq<Piece>, exclude: Option<Square>) -> Seq<Piece> {
    match exclude {
        Some(e) => b.update(e.0 as int, EMPTY),
        None => b,
    }
}

/// "No piece of color `opp` attacks the square."
pub open spec fn safe_pred(b: Seq<Piece>, opp: u8) -> spec_fn(Square) -> bool {
    |t: Square| !attacked(b, t, opp)
}

/// "The square is in the list."
pub open spec fn in_list_pred(list: Seq<Square>) -> spec_fn(Square) -> bool {
    |t: Square| list.contains(t)
}

pub open spec fn pawn_attacks(from: Square, to: Square, color: u8) -> bool {
    let fd = to.0 as int % 8 - from.0 as int % 8;
    let rd = to.0 as int / 8 - from.0 as int / 8;
    (fd == 1 || fd == -1) && rd == (if color == WHITE {
        1int
    } else {
        -1int
    })
}

pub open spec fn bishop_attacks(b: Seq<Piece>, from: Square, to: Square) -> bool {
    let fd = to.0 as int % 8 - from.0 as int % 8;
    let rd = to.0 as int / 8 - from.0 as int / 8;
    (fd == rd || fd == -rd) && clear_path(
        b,
        from.0 as int % 8,
        from.0 as int / 8,
        to.0 as int % 8,
        to.0 as int / 8,
        sign(fd),
        sign(rd),
    )
}

pub open spec fn rook_attacks(b: Seq<Piece>, from: Square, to: Square) -> bool {
    let fd = to.0 as int % 8 - from.0 as int % 8;
    let rd = to.0 as int / 8 - from.0 as int / 8;
    (fd == 0 || rd == 0) && clear_path(
        b,
        from.0 as int % 8,
        from.0 as int / 8,
        to.0 as int % 8,
        to.0 as int / 8,
        sign(fd),
        sign(rd),
    )
}

/// Whether the piece on `from` attacks `to` by the way its kind moves,
/// whatever stands on `to`.
pub open spec fn piece_attacks(b: Seq<Piece>, from: Square, to: Square) -> bool {
    let piece = b[from.0 as int];
    let kind = spec_piece_type(piece);
    if kind == PAWN {
        pawn_attacks(from, to, spec_piece_color(piece))
    } else if kind == KNIGHT {
        knight_jump(from.0 as int, to.0 as int)
    } else if kind == BISHOP {
        bishop_attacks(b, from, to)
    } else if kind == ROOK {
        rook_attacks(b, from, to)
    } else if kind == QUEEN {
        rook_attacks(b, from, to) || bishop_attacks(b, from, to)
    } else if kind == KING {
        king_step(from.0 as int, to.0 as int)
    } else {
        false
    }
}

fn square_at_offset(
    squares: &[Piece; 64],
    file: i8,
    rank: i8,
    df: i8,
    dr: i8,
    kind: u8,
    color: u8,
) -> (found: Option<Square>)
    requires
        on_board(file as int, rank as int),
        -2 <= df <= 2,
        -2 <= dr <= 2,
    ensures
        found == offset_square(squares@, file as int, rank as int, df as int, dr as int, kind, color),
        found is Some ==> found.unwrap().valid(),
{
    let f: i8 = file + df;
    let r: i8 = rank + dr;
    if f >= 0 && f < 8 && r >= 0 && r < 8 {
        let piece = squares[(r * 8 + f) as usize];
        if !is_empty(piece) && piece_color(piece) == color && piece_type(piece) == kind {
            Some(Square::new(f as u8, r as u8))
        } else {
            None
        }
    } else {
        None
    }
}

fn trace_ray_for_check(
    squares: &[Piece; 64],
    file: i8,
    rank: i8,
    df: i8,
    dr: i8,
    opponent_color: u8,
    axial: bool,
) -> (found: Option<Square>)
    requires
        on_board(file as int, rank as int),
        is_direction(df as int, dr as int),
    ensures
        found == ray_checker(
            squares@,
            file as int,
            rank as int,
            df as int,
            dr as int,
            opponent_color,
            axial,
        ),
        found is Some ==> found.unwrap().valid(),
{
    match first_on_ray(squares, file, rank, df, dr) {
        Some(s) => {
            let piece = squares[s.0 as usize];
            let kind = piece_type(piece);
            if piece_color(piece) == opponent_color && (kind == QUEEN || (axial && kind == ROOK)
                || (!axial && kind == BISHOP)) {
                Some(s)
            } else {
                None
            }
        },
        None => None,
    }
}

fn push_found(out: &mut Vec<Square>, found: Option<Square>)
    ensures
        final(out)@ == push_some(old(out)@, found),
        all_valid(old(out)@) && (found is Some ==> found.unwrap().valid()) ==> all_valid(
            final(out)@,
        ),
{
    match found {
        Some(s) => {
            out.push(s);
        },
        None => {},
    }
}

impl Board {
    /// Whether a piece of color `by_color` attacks `square`.
    pub fn is_under_threat(&self, square: Square, by_color: u8) -> (t: bool)
        requires
            square.valid(),
        ensures
            t == attacked(self@.squares, square, by_color),
    {
        is_square_attacked(&self.squares, square, by_color)
    }

    /// The square of the king of the color, read from its bitboard.
    pub fn find_king(&self, color: u8) -> (king: Option<Square>)
        requires
            self.wf(),
        ensures
            king == spec_find_king(self@.squares, color),
            king is Some ==> king.unwrap().valid() && is_piece_of(
                self@.squares[king.unwrap().0 as int],
                KING,
                color,
            ),
    {
        let king_bb: Bitboard = self.bitboards.get_pieces(color, KING);
        let ghost b = self.squares@;
        if king_bb == 0 {
            proof {
                lemma_single_bit(0);
                assert forall|i: int| 0 <= i < 64 implies !is_piece_of(
                    #[trigger] b[i],
                    KING,
                    color,
                ) by {
                    let j = i as u8;
                    assert(!spec_get_bit(king_bb, j));
                }
                lemma_king_from_none(b, color, 0);
            }
            None
        } else {
            let mut rest: Bitboard = king_bb;
            let popped = pop_lsb(&mut rest);
            let idx: u8 = popped.unwrap();
            proof {
                assert(spec_get_bit(king_bb, idx));
                assert forall|i: int| 0 <= i < idx implies !is_piece_of(
                    #[trigger] b[i],
                    KING,
                    color,
                ) by {
                    let j = i as u8;
                    assert(!spec_get_bit(king_bb, j));
                }
                lemma_king_from_found(b, color, 0, idx as int);
            }
            Some(Square(idx))
        }
    }

    /// Whether the king of the side to move is attacked.
    pub fn is_in_check(&self) -> (check: bool)
        requires
            self.wf(),
        ensures
            check == in_check(self@.squares, self@.turn),
    {
        reveal(in_check);
        match self.find_king(self.current_turn) {
            Some(king_square) => self.is_under_threat(
                king_square,
                opposite_color(self.current_turn),
            ),
            None => false,
        }
    }

    /// The squares of the enemy pieces that give check to the king of
    /// `king_color` standing on `king_square`.
    pub fn find_checking_pieces(&self, king_square: Square, king_color: u8) -> (checking: Vec<
        Square,
    >)
        requires
            self.wf(),
            king_square.valid(),
        ensures
            checking@ == checkers(self@.squares, king_square, king_color),
            all_valid(checking@),
    {
        reveal(checkers);
        let opponent_color: u8 = if king_color == WHITE {
            BLACK
        } else {
            WHITE
        };
        let f: i8 = king_square.file() as i8;
        let r: i8 = king_square.rank() as i8;
        let attack_direction: i8 = if opponent_color == WHITE {
            -1
        } else {
            1
        };
        let ghost b = self.squares@;
        let mut checking: Vec<Square> = Vec::new();
        push_found(
            &mut checking,
            square_at_offset(&self.squares, f, r, -1, attack_direction, PAWN, opponent_color),
        );
        push_found(
            &mut checking,
            square_at_offset(&self.squares, f, r, 1, attack_direction, PAWN, opponent_color),
        );
        let knights = self.find_knight_checks(king_square, opponent_color);
        extend_squares(&mut checking, &knights);
        push_found(
            &mut checking,
            trace_ray_for_check(&self.squares, f, r, 1, 1, opponent_color, false),
        );
        push_found(
            &mut checking,
            trace_ray_for_check(&self.squares, f, r, 1, -1, opponent_color, false),
        );
        push_found(
            &mut checking,
            trace_ray_for_check(&self.squares, f, r, -1, 1, opponent_color, false),
        );
        push_found(
            &mut checking,
            trace_ray_for_check(&self.squares, f, r, -1, -1, opponent_color, false),
        );
        push_found(
            &mut checking,
            trace_ray_for_check(&self.squares, f, r, 0, 1, opponent_color, true),
        );
        push_found(
            &mut checking,
            trace_ray_for_check(&self.squares, f, r, 0, -1, opponent_color, true),
        );
        push_found(
            &mut checking,
            trace_ray_for_check(&self.squares, f, r, 1, 0, opponent_color, true),
        );
        push_found(
            &mut checking,
            trace_ray_for_check(&self.squares, f, r, -1, 0, opponent_color, true),
        );
        checking
    }

    /// The enemy knights a jump away from the king: the knight mask of the
    /// king's square met with the bitboard of the enemy knights.
    fn find_knight_checks(&self, king_square: Square, opponent_color: u8) -> (knights: Vec<Square>)
        requires
            self.wf(),
            king_square.valid(),
            opponent_color == WHITE || opponent_color == BLACK,
        ensures
            knights@ == squares_where(
                knight_checker_pred(self@.squares, king_square, opponent_color),
                64,
            ),
            all_valid(knights@),
    {
        let knight_attack_mask: Bitboard = get_knight_attacks(king_square.0);
        let opponent_knights: Bitboard = self.bitboards.get_pieces(opponent_color, KNIGHT);
        let checking_knights: Bitboard = knight_attack_mask & opponent_knights;
        let ghost b = self.squares@;
        proof {
            lemma_bit_ops(knight_attack_mask, opponent_knights);
            let p = bit_pred(checking_knights);
            let q = knight_checker_pred(b, king_square, opponent_color);
            assert forall|i: int| 0 <= i < 64 implies #[trigger] p(i) == q(i) by {
                let j = i as u8;
                assert(spec_get_bit(checking_knights, j) == (spec_get_bit(knight_attack_mask, j)
                    && spec_get_bit(opponent_knights, j)));
                assert(spec_get_bit(opponent_knights, j) == (b[i] == KNIGHT + opponent_color));
                assert(crate::types::piece_valid(b[i]));
            }
            lemma_squares_where_ext(p, q, 64);
        }
        bitboard_squares(checking_knights)
    }

    /// Whether the piece on `from` attacks `to` by the way its kind moves.
    pub fn piece_attacks_square(&self, from: Square, to: Square) -> (attacks: bool)
        requires
            from.valid(),
            to.valid(),
        ensures
            attacks == piece_attacks(self@.squares, from, to),
    {
        let piece = self.get_piece(from);
        let kind = piece_type(piece);
        if kind == PAWN {
            self.pawn_attacks_square(from, to, piece_color(piece))
        } else if kind == KNIGHT {
            self.knight_attacks_square(from, to)
        } else if kind == BISHOP {
            self.bishop_attacks_square(from, to)
        } else if kind == ROOK {
            self.rook_attacks_square(from, to)
        } else if kind == QUEEN {
            self.queen_attacks_square(from, to)
        } else if kind == KING {
            self.king_attacks_square(from, to)
        } else {
            false
        }
    }

    fn pawn_attacks_square(&self, from: Square, to: Square, color: u8) -> (attacks: bool)
        requires
            from.valid(),
            to.valid(),
        ensures
            attacks == pawn_attacks(from, to, color),
    {
        let file_diff: i8 = to.file() as i8 - from.file() as i8;
        let rank_diff: i8 = to.rank() as i8 - from.rank() as i8;
        let direction: i8 = if color == WHITE {
            1
        } else {
            -1
        };
        (file_diff == 1 || file_diff == -1) && rank_diff == direction
    }

    fn knight_attacks_square(&self, from: Square, to: Square) -> (attacks: bool)
        requires
            from.valid(),
            to.valid(),
        ensures
            attacks == knight_jump(from.0 as int, to.0 as int),
    {
        let file_diff: i8 = to.file() as i8 - from.file() as i8;
        let rank_diff: i8 = to.rank() as i8 - from.rank() as i8;
        ((file_diff == 2 || file_diff == -2) && (rank_diff == 1 || rank_diff == -1)) || ((
        file_diff == 1 || file_diff == -1) && (rank_diff == 2 || rank_diff == -2))
    }

    fn bishop_attacks_square(&self, from: Square, to: Square) -> (attacks: bool)
        requires
            from.valid(),
            to.valid(),
        ensures
            attacks == bishop_attacks(self@.squares, from, to),
    {
        let file_diff: i8 = to.file() as i8 - from.file() as i8;
        let rank_diff: i8 = to.rank() as i8 - from.rank() as i8;
        if file_diff != rank_diff && file_diff != -rank_diff {
            return false;
        }
        let direction: (i8, i8) = (signum(file_diff), signum(rank_diff));
        self.is_clear_path(from, to, direction)
    }

    fn rook_attacks_square(&self, from: Square, to: Square) -> (attacks: bool)
        requires
            from.valid(),
            to.valid(),
        ensures
            attacks == rook_attacks(self@.squares, from, to),
    {
        if from.file() != to.file() && from.rank() != to.rank() {
            return false;
        }
        let direction: (i8, i8) = (
            signum(to.file() as i8 - from.file() as i8),
            signum(to.rank() as i8 - from.rank() as i8),
        );
        self.is_clear_path(from, to, direction)
    }

    fn queen_attacks_square(&self, from: Square, to: Square) -> (attacks: bool)
        requires
            from.valid(),
            to.valid(),
        ensures
            attacks == (rook_attacks(self@.squares, from, to) || bishop_attacks(
                self@.squares,
                from,
                to,
            )),
    {
        self.rook_attacks_square(from, to) || self.bishop_attacks_square(from, to)
    }

    fn king_attacks_square(&self, from: Square, to: Square) -> (attacks: bool)
        requires
            from.valid(),
            to.valid(),
        ensures
            attacks == king_step(from.0 as int, to.0 as int),
    {
        let file_diff: i8 = to.file() as i8 - from.file() as i8;
        let rank_diff: i8 = to.rank() as i8 - from.rank() as i8;
        -1 <= file_diff && file_diff <= 1 && -1 <= rank_diff && rank_diff <= 1 && (file_diff != 0
            || rank_diff != 0)
    }

    /// The squares that answer a check from `checking_piece_square`: that
    /// square and, for a slider, those between the king and it.
    pub fn get_blocking_squares(&self, king_square: Square, checking_piece_square: Square) -> (out:
        Vec<Square>)
        requires
            king_square.valid(),
            checking_piece_square.valid(),
        ensures
            out@ == blocking_squares(self@.squares, king_square, checking_piece_square),
    {
        let mut out: Vec<Square> = Vec::new();
        out.push(checking_piece_square);
        let checking_piece = self.get_piece(checking_piece_square);
        let kind = piece_type(checking_piece);
        if kind == QUEEN || kind == ROOK || kind == BISHOP {
            let king_file: i8 = king_square.file() as i8;
            let king_rank: i8 = king_square.rank() as i8;
            let checker_file: i8 = checking_piece_square.file() as i8;
            let checker_rank: i8 = checking_piece_square.rank() as i8;
            let df: i8 = signum(checker_file - king_file);
            let dr: i8 = signum(checker_rank - king_rank);
            let mut file: i8 = king_file + df;
            let mut rank: i8 = king_rank + dr;
            let ghost all = seq![checking_piece_square] + between_squares(
                king_file as int,
                king_rank as int,
                checker_file as int,
                checker_rank as int,
                df as int,
                dr as int,
            );
            proof {
                assert(out@ =~= seq![checking_piece_square]);
            }
            while (file != checker_file || rank != checker_rank) && file >= 0 && file < 8 && rank
                >= 0 && rank < 8
                invariant
                    -1 <= df <= 1,
                    -1 <= dr <= 1,
                    (df == 0 && dr == 0) ==> (file == checker_file && rank == checker_rank),
                    on_board(file - df, rank - dr),
                    out@ + between_squares(
                        file - df,
                        rank - dr,
                        checker_file as int,
                        checker_rank as int,
                        df as int,
                        dr as int,
                    ) == all,
                decreases ray_measure(file - df, rank - dr, df as int, dr as int),
            {
                let ghost rest = between_squares(
                    file as int,
                    rank as int,
                    checker_file as int,
                    checker_rank as int,
                    df as int,
                    dr as int,
                );
                let ghost before = out@;
                let sq = Square::new(file as u8, rank as u8);
                out.push(sq);
                proof {
                    assert(out@ + rest =~= before + (seq![sq] + rest));
                }
                file = file + df;
                rank = rank + dr;
            }
            proof {
                assert(out@ + Seq::<Square>::empty() =~= out@);
            }
        }
        out
    }

    /// Whether the walk from `from` in `direction` reaches `to` over empty
    /// squares only.
    pub fn is_clear_path(&self, from: Square, to: Square, direction: (i8, i8)) -> (clear: bool)
        requires
            from.valid(),
            to.valid(),
            -1 <= direction.0 <= 1,
            -1 <= direction.1 <= 1,
            direction.0 != 0 || direction.1 != 0 || from == to,
        ensures
            clear == clear_path(
                self@.squares,
                from.0 as int % 8,
                from.0 as int / 8,
                to.0 as int % 8,
                to.0 as int / 8,
                direction.0 as int,
                direction.1 as int,
            ),
    {
        path_is_clear(&self.squares, from, to, direction)
    }

    /// The direction of the line on which the piece of the square is pinned
    /// to its own king, if it is.
    pub fn is_piece_pinned(&self, square: Square) -> (pin: Option<(i8, i8)>)
        requires
            self.wf(),
            square.valid(),
        ensures
            pin == pinned(self@.squares, square),
            pin is Some ==> is_direction(pin.unwrap().0 as int, pin.unwrap().1 as int),
    {
        let piece = self.get_piece(square);
        if is_empty(piece) {
            return None;
        }
        let piece_color_val = piece_color(piece);
        let opponent_color = opposite_color(piece_color_val);
        match self.find_king(piece_color_val) {
            Some(king_square) => find_pin_direction(
                &self.squares,
                square,
                king_square,
                opponent_color,
            ),
            None => None,
        }
    }

    /// Keeps the squares that no piece of `opponent_color` attacks once the
    /// piece on `exclude`, if any, is lifted from the board.
    pub fn filter_king_moves_in_check(
        &self,
        moves: Vec<Square>,
        opponent_color: u8,
        exclude: Option<Square>,
    ) -> (safe: Vec<Square>)
        requires
            forall|k: int| 0 <= k < moves.len() ==> (#[trigger] moves[k]).valid(),
            exclude is Some ==> exclude.unwrap().valid(),
        ensures
            safe@ == keep_all(
                moves@,
                safe_pred(without_piece(self@.squares, exclude), opponent_color),
            ),
            all_valid(safe@),
    {
        let mut lifted: [Piece; 64] = self.squares;
        match exclude {
            Some(e) => {
                lifted[e.0 as usize] = EMPTY;
            },
            None => {},
        }
        let ghost keep = safe_pred(without_piece(self@.squares, exclude), opponent_color);
        let mut safe: Vec<Square> = Vec::new();
        let mut i: usize = 0;
        while i < moves.len()
            invariant
                i <= moves.len(),
                forall|k: int| 0 <= k < moves.len() ==> (#[trigger] moves[k]).valid(),
                lifted@ == without_piece(self@.squares, exclude),
                keep == safe_pred(without_piece(self@.squares, exclude), opponent_color),
                safe@ == keep_where(moves@, keep, i as int),
                all_valid(safe@),
            decreases moves.len() - i,
        {
            let target = moves[i];
            if !is_square_attacked(&lifted, target, opponent_color) {
                safe.push(target);
            }
            i = i + 1;
        }
        safe
    }

    /// Keeps the moves that capture the checking piece or step between it
    /// and the king of the side to move.
    pub fn filter_moves_to_escape_check(
        &self,
        _square: Square,
        moves: Vec<Square>,
        checking_piece_square: Square,
    ) -> (kept: Vec<Square>)
        requires
            self.wf(),
            checking_piece_square.valid(),
        ensures
            kept@ == (match spec_find_king(self@.squares, self@.turn) {
                Some(k) => keep_all(
                    moves@,
                    in_list_pred(blocking_squares(self@.squares, k, checking_piece_square)),
                ),
                None => Seq::empty(),
            }),
    {
        let king_square = match self.find_king(self.current_turn) {
            Some(square) => square,
            None => {
                return Vec::new();
            },
        };
        let blocking = self.get_blocking_squares(king_square, checking_piece_square);
        let ghost keep = in_list_pred(blocking@);
        let mut kept: Vec<Square> = Vec::new();
        let mut i: usize = 0;
        while i < moves.len()
            invariant
                i <= moves.len(),
                keep == in_list_pred(blocking@),
                kept@ == keep_where(moves@, keep, i as int),
            decreases moves.len() - i,
        {
            let target = moves[i];
            if contains_square(&blocking, target) {
                kept.push(target);
            }
            i = i + 1;
        }
        kept
    }
}

impl Board {
    /// A board of its own with the same position.
    pub fn duplicate(&self) -> (copy: Board)
        ensures
            copy@ == self@,
            copy.bitboards == self.bitboards,
            copy.wf() == self.wf(),
    {
        let mut history: Vec<crate::types::GameMove> = Vec::new();
        let mut i: usize = 0;
        while i < self.move_history.len()
            invariant
                i <= self.move_history.len(),
                history@ == self.move_history@.take(i as int),
            decreases self.move_history.len() - i,
        {
            history.push(self.move_history[i]);
            i = i + 1;
            proof {
                assert(history@ =~= self.move_history@.take(i as int));
            }
        }
        proof {
            assert(self.move_history@.take(self.move_history.len() as int) =~= self.move_history@);
        }
        Board {
            squares: self.squares,
            bitboards: self.bitboards,
            current_turn: self.current_turn,
            move_history: history,
            game_status: self.game_status,
            half_move_clock: self.half_move_clock,
            full_move_number: self.full_move_number,
            castling_rights: self.castling_rights,
            en_passant_target: self.en_passant_target,
            en_passant_pawn: self.en_passant_pawn,
        }
    }

    /// Whether the move, played on a copy of the board, leaves the king of
    /// the side that moved attacked; false for a move that the board
    /// refuses.
    pub fn would_king_be_in_check_after_move(&self, mv: crate::types::Move) -> (check: bool)
        requires
            self.wf(),
            mv.valid(),
            self@.clock_room() >= 1,
        ensures
            check == (if self@.is_legal(mv) && self@.status.playable() {
                match spec_find_king(self@.apply(mv).squares, self@.turn) {
                    Some(k) => attacked(self@.apply(mv).squares, k, spec_opposite_color(self@.turn)),
                    None => false,
                }
            } else {
                false
            }),
    {
        let mut temp_board = self.duplicate();
        proof {
            crate::laws::law_apply_shape(self@, mv);
        }
        match temp_board.try_make_move(mv) {
            Ok(_) => {
                let king_color = opposite_color(temp_board.current_turn);
                match temp_board.find_king(king_color) {
                    Some(king_square) => {
                        let opponent_color = opposite_color(king_color);
                        temp_board.is_under_threat(king_square, opponent_color)
                    },
                    None => false,
                }
            },
            Err(_) => false,
        }
    }
}

} // verus!
