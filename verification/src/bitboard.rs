//! 64-bit occupancy masks: bit `i` of a bitboard stands for square `i`.

use vstd::prelude::*;
use vstd::std_specs::bits::axiom_u64_trailing_zeros;
use vstd::std_specs::bits::u64_trailing_zeros;
use crate::types::Piece;
use crate::types::Square;
use crate::types::{BLACK, WHITE};
use crate::types::{BISHOP, KING, KNIGHT, PAWN, QUEEN, ROOK};

verus! {

pub type Bitboard = u64;

pub const BITBOARD_EMPTY: Bitboard = 0;

pub const FULL: Bitboard = 0xFFFFFFFFFFFFFFFF;

pub const FILE_A: Bitboard = 0x0101010101010101;

pub const FILE_B: Bitboard = 0x0202020202020202;

pub const FILE_C: Bitboard = 0x0404040404040404;

pub const FILE_D: Bitboard = 0x0808080808080808;

pub const FILE_E: Bitboard = 0x1010101010101010;

pub const FILE_F: Bitboard = 0x2020202020202020;

pub const FILE_G: Bitboard = 0x4040404040404040;

pub const FILE_H: Bitboard = 0x8080808080808080;

pub const RANK_1: Bitboard = 0x00000000000000FF;

pub const RANK_2: Bitboard = 0x000000000000FF00;

pub const RANK_3: Bitboard = 0x0000000000FF0000;

pub const RANK_4: Bitboard = 0x00000000FF000000;

pub const RANK_5: Bitboard = 0x000000FF00000000;

pub const RANK_6: Bitboard = 0x0000FF0000000000;

pub const RANK_7: Bitboard = 0x00FF000000000000;

pub const RANK_8: Bitboard = 0xFF00000000000000;

/// Whether bit `square` of the bitboard is set.
pub open spec fn spec_get_bit(bitboard: Bitboard, square: u8) -> bool {
    (bitboard >> (square as u64)) & 1u64 == 1u64
}

pub open spec fn spec_square_to_bitboard(square: u8) -> Bitboard {
    1u64 << (square as u64)
}

/// The lowest set bit of the bitboard is bit `square`.
pub open spec fn is_lowest_bit(bitboard: Bitboard, square: u8) -> bool {
    &&& square < 64
    &&& spec_get_bit(bitboard, square)
    &&& forall|j: u8| j < square ==> !#[trigger] spec_get_bit(bitboard, j)
}

/// Bit by bit: what `|`, `&`, `& !` and a single-bit mask hold.
pub proof fn lemma_bit_ops(a: Bitboard, b: Bitboard)
    ensures
        forall|i: u8|
            i < 64 ==> #[trigger] spec_get_bit(a | b, i) == (spec_get_bit(a, i) || spec_get_bit(
                b,
                i,
            )),
        forall|i: u8|
            i < 64 ==> #[trigger] spec_get_bit(a & b, i) == (spec_get_bit(a, i) && spec_get_bit(
                b,
                i,
            )),
        forall|i: u8|
            i < 64 ==> #[trigger] spec_get_bit(a & !b, i) == (spec_get_bit(a, i) && !spec_get_bit(
                b,
                i,
            )),
{
    assert forall|i: u8| i < 64 implies #[trigger] spec_get_bit(a | b, i) == (spec_get_bit(a, i)
        || spec_get_bit(b, i)) by {
        let j = i as u64;
        assert((((a | b) >> j) & 1 == 1) == (((a >> j) & 1 == 1) || ((b >> j) & 1 == 1)))
            by (bit_vector);
    }
    assert forall|i: u8| i < 64 implies #[trigger] spec_get_bit(a & b, i) == (spec_get_bit(a, i)
        && spec_get_bit(b, i)) by {
        let j = i as u64;
        assert((((a & b) >> j) & 1 == 1) == (((a >> j) & 1 == 1) && ((b >> j) & 1 == 1)))
            by (bit_vector);
    }
    assert forall|i: u8| i < 64 implies #[trigger] spec_get_bit(a & !b, i) == (spec_get_bit(a, i)
        && !spec_get_bit(b, i)) by {
        let j = i as u64;
        assert((((a & !b) >> j) & 1 == 1) == (((a >> j) & 1 == 1) && !((b >> j) & 1 == 1)))
            by (bit_vector)
            requires
                j < 64,
        ;
    }
}

/// The mask of one square has that bit set and no other; the empty
/// bitboard has none.
pub proof fn lemma_single_bit(square: u8)
    requires
        square < 64,
    ensures
        forall|i: u8|
            i < 64 ==> #[trigger] spec_get_bit(spec_square_to_bitboard(square), i) == (i
                == square),
        forall|i: u8| i < 64 ==> !#[trigger] spec_get_bit(0, i),
{
    let s = square as u64;
    assert forall|i: u8| i < 64 implies #[trigger] spec_get_bit(spec_square_to_bitboard(square), i)
        == (i == square) by {
        let j = i as u64;
        assert((((1u64 << s) >> j) & 1 == 1) == (j == s)) by (bit_vector)
            requires
                j < 64,
                s < 64,
        ;
    }
    assert forall|i: u8| i < 64 implies !#[trigger] spec_get_bit(0, i) by {
        let j = i as u64;
        assert((0u64 >> j) & 1 == 0) by (bit_vector);
    }
}

/// Two bitboards with the same 64 bits are equal.
pub proof fn lemma_bits_equal(a: Bitboard, b: Bitboard)
    requires
        forall|i: u8| i < 64 ==> spec_get_bit(a, i) == spec_get_bit(b, i),
    ensures
        a == b,
{
    let d: u64 = a ^ b;
    if d != 0 {
        axiom_u64_trailing_zeros(d);
        let t: u64 = u64_trailing_zeros(d) as u64;
        assert(spec_get_bit(a, t as u8) == spec_get_bit(b, t as u8));
        assert((((a ^ b) >> t) & 1 == 1) ==> (((a >> t) & 1 == 1) != ((b >> t) & 1 == 1)))
            by (bit_vector);
    }
    assert((a ^ b) == 0 ==> a == b) by (bit_vector);
}

pub fn set_bit(bitboard: &mut Bitboard, square: u8)
    requires
        square < 64,
    ensures
        *final(bitboard) == *old(bitboard) | spec_square_to_bitboard(square),
        forall|i: u8|
            i < 64 ==> #[trigger] spec_get_bit(*final(bitboard), i) == (i == square
                || spec_get_bit(*old(bitboard), i)),
{
    proof {
        lemma_single_bit(square);
        lemma_bit_ops(*bitboard, spec_square_to_bitboard(square));
    }
    *bitboard = *bitboard | (1u64 << (square as u64));
}

pub fn clear_bit(bitboard: &mut Bitboard, square: u8)
    requires
        square < 64,
    ensures
        *final(bitboard) == *old(bitboard) & !spec_square_to_bitboard(square),
        forall|i: u8|
            i < 64 ==> #[trigger] spec_get_bit(*final(bitboard), i) == (i != square
                && spec_get_bit(*old(bitboard), i)),
{
    proof {
        lemma_single_bit(square);
        lemma_bit_ops(*bitboard, spec_square_to_bitboard(square));
    }
    *bitboard = *bitboard & !(1u64 << (square as u64));
}

#[verifier::when_used_as_spec(spec_get_bit)]
pub fn get_bit(bitboard: Bitboard, square: u8) -> (set: bool)
    requires
        square < 64,
    ensures
        set == spec_get_bit(bitboard, square),
{
    let s: u64 = square as u64;
    assert(((bitboard & (1u64 << s)) != 0) == ((bitboard >> s) & 1 == 1)) by (bit_vector)
        requires
            s < 64,
    ;
    (bitboard & (1u64 << s)) != 0
}

#[verifier::when_used_as_spec(spec_square_to_bitboard)]
pub fn square_to_bitboard(square: u8) -> (bitboard: Bitboard)
    requires
        square < 64,
    ensures
        bitboard == spec_square_to_bitboard(square),
        forall|i: u8| i < 64 ==> #[trigger] spec_get_bit(bitboard, i) == (i == square),
{
    let bitboard: Bitboard = 1u64 << (square as u64);
    proof {
        assert(bitboard == spec_square_to_bitboard(square));
        lemma_single_bit(square);
    }
    bitboard
}

/// How many of the lowest `n` bits are set.
pub open spec fn count_bits_below(bitboard: Bitboard, n: nat) -> nat
    decreases n,
{
    if n == 0 {
        0
    } else {
        count_bits_below(bitboard, (n - 1) as nat) + if spec_get_bit(bitboard, (n - 1) as u8) {
            1nat
        } else {
            0nat
        }
    }
}

/// The number of set bits.
pub open spec fn spec_count_bits(bitboard: Bitboard) -> nat {
    count_bits_below(bitboard, 64)
}

pub proof fn lemma_count_bits_bound(bitboard: Bitboard, n: nat)
    ensures
        count_bits_below(bitboard, n) <= n,
    decreases n,
{
    if n > 0 {
        lemma_count_bits_bound(bitboard, (n - 1) as nat);
    }
}

/// `u64::count_ones` of std: the number of ones in the binary form of the
/// value, stated here as the count of the set bits among the 64.
#[verifier::external_body]
fn count_ones_u64(bitboard: u64) -> (ones: u32)
    ensures
        ones == spec_count_bits(bitboard),
{
    bitboard.count_ones()
}

pub fn count_bits(bitboard: Bitboard) -> (count: u32)
    ensures
        count == spec_count_bits(bitboard),
        count <= 64,
{
    proof {
        lemma_count_bits_bound(bitboard, 64);
    }
    count_ones_u64(bitboard)
}

pub fn is_bitboard_empty(bitboard: Bitboard) -> (empty: bool)
    ensures
        empty == (bitboard == 0),
{
    bitboard == 0
}

pub fn square_to_index(square: Square) -> (index: u8)
    ensures
        index == square.0,
{
    square.0
}

pub fn index_to_square(index: u8) -> (square: Square)
    ensures
        square == Square(index),
{
    Square(index)
}

/// Takes the lowest set bit out of the bitboard and returns its index;
/// `None` when no bit is set.
pub fn pop_lsb(bitboard: &mut Bitboard) -> (lsb: Option<u8>)
    ensures
        *old(bitboard) == 0 ==> lsb is None && *final(bitboard) == 0,
        *old(bitboard) != 0 ==> lsb is Some && is_lowest_bit(*old(bitboard), lsb.unwrap())
            && *final(bitboard) == *old(bitboard) & !spec_square_to_bitboard(lsb.unwrap()),
        lsb is Some ==> forall|i: u8|
            i < 64 ==> #[trigger] spec_get_bit(*final(bitboard), i) == (i != lsb.unwrap()
                && spec_get_bit(*old(bitboard), i)),
{
    if *bitboard == 0 {
        None
    } else {
        let x: u64 = *bitboard;
        let zeros: u32 = x.trailing_zeros();
        proof {
            axiom_u64_trailing_zeros(x);
        }
        let t: u64 = zeros as u64;
        let lsb: u8 = zeros as u8;
        proof {
            assert((x >> t) & 1u64 == 1u64);
            assert forall|j: u8| j < lsb implies !#[trigger] spec_get_bit(x, j) by {
                let k = j as u64;
                assert((x >> k) & 1u64 == 0u64);
            }
            lemma_single_bit(lsb);
            lemma_bit_ops(x, spec_square_to_bitboard(lsb));
        }
        *bitboard = x & !(1u64 << t);
        Some(lsb)
    }
}

/// Walks the set bits of a bitboard from the lowest up.
pub struct BitboardIterator {
    bitboard: Bitboard,
}

impl BitboardIterator {
    /// The bits not handed out yet.
    pub closed spec fn remaining(&self) -> Bitboard {
        self.bitboard
    }

    pub fn new(bitboard: Bitboard) -> (it: BitboardIterator)
        ensures
            it.remaining() == bitboard,
    {
        BitboardIterator { bitboard }
    }

    /// The index of the lowest bit not handed out yet, which is then taken
    /// out; `None` when none is left.
    pub fn next(&mut self) -> (item: Option<u8>)
        ensures
            old(self).remaining() == 0 ==> item is None && final(self).remaining() == 0,
            old(self).remaining() != 0 ==> item is Some && is_lowest_bit(
                old(self).remaining(),
                item.unwrap(),
            ) && final(self).remaining() == old(self).remaining() & !spec_square_to_bitboard(
                item.unwrap(),
            ),
    {
        pop_lsb(&mut self.bitboard)
    }
}

pub fn iterate_bits(bitboard: Bitboard) -> (it: BitboardIterator)
    ensures
        it.remaining() == bitboard,
{
    BitboardIterator::new(bitboard)
}

/// The squares below `n` whose index satisfies `p`, in ascending order.
pub open spec fn squares_where(p: spec_fn(int) -> bool, n: int) -> Seq<Square>
    decreases n,
{
    if n <= 0 {
        Seq::empty()
    } else if p(n - 1) {
        squares_where(p, n - 1).push(Square((n - 1) as u8))
    } else {
        squares_where(p, n - 1)
    }
}

/// The predicate "bit `i` of the bitboard is set".
pub open spec fn bit_pred(bitboard: Bitboard) -> spec_fn(int) -> bool {
    |i: int| spec_get_bit(bitboard, i as u8)
}

/// The squares of the set bits, in ascending order.
pub open spec fn spec_bitboard_squares(bitboard: Bitboard) -> Seq<Square> {
    squares_where(bit_pred(bitboard), 64)
}

/// Indices that fail the predicate add nothing.
pub proof fn lemma_squares_where_skip(p: spec_fn(int) -> bool, a: int, b: int)
    requires
        0 <= a <= b,
        forall|i: int| a <= i < b ==> !#[trigger] p(i),
    ensures
        squares_where(p, a) == squares_where(p, b),
    decreases b - a,
{
    if a < b {
        lemma_squares_where_skip(p, a, b - 1);
    }
}

/// Two predicates that agree below `n` select the same squares.
pub proof fn lemma_squares_where_ext(p: spec_fn(int) -> bool, q: spec_fn(int) -> bool, n: int)
    requires
        forall|i: int| 0 <= i < n ==> #[trigger] p(i) == q(i),
    ensures
        squares_where(p, n) == squares_where(q, n),
    decreases n,
{
    if n > 0 {
        lemma_squares_where_ext(p, q, n - 1);
    }
}

/// A square is selected exactly when its index is below `n` and satisfies
/// the predicate; the selection has no more than `n` squares.
pub proof fn lemma_squares_where_contains(p: spec_fn(int) -> bool, n: int)
    requires
        0 <= n <= 64,
    ensures
        forall|s: Square| #[trigger]
            squares_where(p, n).contains(s) <==> (s.0 < n && p(s.0 as int)),
        squares_where(p, n).len() <= n,
    decreases n,
{
    if n > 0 {
        lemma_squares_where_contains(p, n - 1);
        let prev = squares_where(p, n - 1);
        let last = Square((n - 1) as u8);
        assert forall|s: Square| #[trigger]
            squares_where(p, n).contains(s) <==> (s.0 < n && p(s.0 as int)) by {
            if p(n - 1) {
                let cur = prev.push(last);
                if cur.contains(s) {
                    let k = choose|k: int| 0 <= k < cur.len() && cur[k] == s;
                    if k < prev.len() {
                        assert(prev[k] == s);
                        assert(prev.contains(s));
                    }
                }
                if s.0 < n && p(s.0 as int) {
                    if s.0 == n - 1 {
                        assert(cur[prev.len() as int] == s);
                    } else {
                        assert(prev.contains(s));
                        let k = choose|k: int| 0 <= k < prev.len() && prev[k] == s;
                        assert(cur[k] == s);
                    }
                }
            }
        }
    } else {
        assert forall|s: Square| #[trigger]
            squares_where(p, n).contains(s) <==> (s.0 < n && p(s.0 as int)) by {}
    }
}

/// The squares of the set bits of a bitboard, lowest first.
pub fn bitboard_squares(bitboard: Bitboard) -> (squares: Vec<Square>)
    ensures
        squares@ == spec_bitboard_squares(bitboard),
        forall|k: int| 0 <= k < squares.len() ==> (#[trigger] squares[k]).valid(),
{
    let mut out: Vec<Square> = Vec::new();
    let mut rest: Bitboard = bitboard;
    let ghost p = bit_pred(bitboard);
    let ghost mut done: int = 0;
    proof {
        lemma_single_bit(0);
    }
    while rest != 0
        invariant
            0 <= done <= 64,
            p == bit_pred(bitboard),
            out@ == squares_where(p, done),
            forall|i: u8|
                i < 64 ==> #[trigger] spec_get_bit(rest, i) == (i >= done && spec_get_bit(
                    bitboard,
                    i,
                )),
            forall|i: u8| i < 64 ==> !#[trigger] spec_get_bit(0, i),
            forall|k: int| 0 <= k < out.len() ==> (#[trigger] out[k]).valid(),
        decreases 64 - done,
    {
        let ghost before = rest;
        let popped = pop_lsb(&mut rest);
        let idx: u8 = popped.unwrap();
        proof {
            assert(spec_get_bit(before, idx));
            assert(idx >= done);
            assert forall|i: int| done <= i < idx implies !#[trigger] p(i) by {
                let j = i as u8;
                assert(!spec_get_bit(before, j));
            }
            lemma_squares_where_skip(p, done, idx as int);
            assert(p(idx as int));
            done = idx + 1;
        }
        out.push(Square(idx));
    }
    proof {
        assert forall|i: int| done <= i < 64 implies !#[trigger] p(i) by {
            let j = i as u8;
            assert(!spec_get_bit(rest, j));
        }
        lemma_squares_where_skip(p, done, 64);
    }
    out
}

/// Whether a knight on square `from` reaches square `to` in one jump.
pub open spec fn knight_jump(from: int, to: int) -> bool {
    let df = to % 8 - from % 8;
    let dr = to / 8 - from / 8;
    ((df == 1 || df == -1) && (dr == 2 || dr == -2)) || ((df == 2 || df == -2) && (dr == 1 || dr
        == -1))
}

/// Whether square `to` is next to square `from`, diagonals included.
pub open spec fn king_step(from: int, to: int) -> bool {
    let df = to % 8 - from % 8;
    let dr = to / 8 - from / 8;
    -1 <= df <= 1 && -1 <= dr <= 1 && from != to
}

/// Adds to the mask the square that lies `(df, dr)` away from
/// `(file, rank)`, if it is on the board.
fn with_offset(attacks: Bitboard, file: u8, rank: u8, df: i8, dr: i8) -> (mask: Bitboard)
    requires
        file < 8,
        rank < 8,
        -2 <= df <= 2,
        -2 <= dr <= 2,
    ensures
        forall|i: u8|
            i < 64 ==> #[trigger] spec_get_bit(mask, i) == (spec_get_bit(attacks, i) || (i % 8
                == file + df && i / 8 == rank + dr)),
{
    let new_file: i8 = file as i8 + df;
    let new_rank: i8 = rank as i8 + dr;
    if new_file >= 0 && new_file < 8 && new_rank >= 0 && new_rank < 8 {
        let target_square: u8 = (new_rank * 8 + new_file) as u8;
        proof {
            assert(1u64 << (target_square as u64) == spec_square_to_bitboard(target_square));
            lemma_single_bit(target_square);
            lemma_bit_ops(attacks, spec_square_to_bitboard(target_square));
        }
        attacks | (1u64 << (target_square as u64))
    } else {
        attacks
    }
}

/// The squares a knight attacks from `square`, as a bitboard.
pub fn generate_knight_attack_mask(square: u8) -> (mask: Bitboard)
    requires
        square < 64,
    ensures
        forall|i: u8| i < 64 ==> #[trigger] spec_get_bit(mask, i) == knight_jump(square as int, i as int),
{
    let file: u8 = square % 8;
    let rank: u8 = square / 8;
    proof {
        lemma_single_bit(0);
    }
    let a0: Bitboard = 0;
    let a1 = with_offset(a0, file, rank, -2, -1);
    let a2 = with_offset(a1, file, rank, -2, 1);
    let a3 = with_offset(a2, file, rank, -1, -2);
    let a4 = with_offset(a3, file, rank, -1, 2);
    let a5 = with_offset(a4, file, rank, 1, -2);
    let a6 = with_offset(a5, file, rank, 1, 2);
    let a7 = with_offset(a6, file, rank, 2, -1);
    let a8 = with_offset(a7, file, rank, 2, 1);
    a8
}

/// The knight mask computed square by square, kept for cross-checking a
/// table against it.
pub fn generate_expected_knight_mask(square: u8) -> (mask: Bitboard)
    requires
        square < 64,
    ensures
        forall|i: u8| i < 64 ==> #[trigger] spec_get_bit(mask, i) == knight_jump(square as int, i as int),
{
    generate_knight_attack_mask(square)
}

/// The squares a king attacks from `square`, as a bitboard.
pub fn generate_king_attack_mask(square: u8) -> (mask: Bitboard)
    requires
        square < 64,
    ensures
        forall|i: u8| i < 64 ==> #[trigger] spec_get_bit(mask, i) == king_step(square as int, i as int),
{
    let file: u8 = square % 8;
    let rank: u8 = square / 8;
    proof {
        lemma_single_bit(0);
    }
    let a0: Bitboard = 0;
    let a1 = with_offset(a0, file, rank, -1, -1);
    let a2 = with_offset(a1, file, rank, -1, 0);
    let a3 = with_offset(a2, file, rank, -1, 1);
    let a4 = with_offset(a3, file, rank, 0, -1);
    let a5 = with_offset(a4, file, rank, 0, 1);
    let a6 = with_offset(a5, file, rank, 1, -1);
    let a7 = with_offset(a6, file, rank, 1, 0);
    let a8 = with_offset(a7, file, rank, 1, 1);
    a8
}

pub fn get_knight_attacks(square: u8) -> (mask: Bitboard)
    requires
        square < 64,
    ensures
        forall|i: u8| i < 64 ==> #[trigger] spec_get_bit(mask, i) == knight_jump(square as int, i as int),
{
    generate_knight_attack_mask(square)
}

pub fn get_king_attacks(square: u8) -> (mask: Bitboard)
    requires
        square < 64,
    ensures
        forall|i: u8| i < 64 ==> #[trigger] spec_get_bit(mask, i) == king_step(square as int, i as int),
{
    generate_king_attack_mask(square)
}

/// The table of the 64 knight masks, indexed by square.
pub fn initialize_knight_attacks() -> (table: Vec<Bitboard>)
    ensures
        table.len() == 64,
        forall|s: u8, i: u8|
            s < 64 && i < 64 ==> #[trigger] spec_get_bit(table[s as int], i) == knight_jump(
                s as int,
                i as int,
            ),
{
    let mut table: Vec<Bitboard> = Vec::new();
    let mut square: u8 = 0;
    while square < 64
        invariant
            square <= 64,
            table.len() == square,
            forall|s: u8, i: u8|
                s < square && i < 64 ==> #[trigger] spec_get_bit(table[s as int], i)
                    == knight_jump(s as int, i as int),
        decreases 64 - square,
    {
        let mask = generate_knight_attack_mask(square);
        table.push(mask);
        square = square + 1;
    }
    table
}

/// The table of the 64 king masks, indexed by square.
pub fn initialize_king_attacks() -> (table: Vec<Bitboard>)
    ensures
        table.len() == 64,
        forall|s: u8, i: u8|
            s < 64 && i < 64 ==> #[trigger] spec_get_bit(table[s as int], i) == king_step(
                s as int,
                i as int,
            ),
{
    let mut table: Vec<Bitboard> = Vec::new();
    let mut square: u8 = 0;
    while square < 64
        invariant
            square <= 64,
            table.len() == square,
            forall|s: u8, i: u8|
                s < square && i < 64 ==> #[trigger] spec_get_bit(table[s as int], i) == king_step(
                    s as int,
                    i as int,
                ),
        decreases 64 - square,
    {
        let mask = generate_king_attack_mask(square);
        table.push(mask);
        square = square + 1;
    }
    table
}

/// Both attack tables: the knight masks, then the king masks.
pub fn initialize_engine() -> (tables: (Vec<Bitboard>, Vec<Bitboard>))
    ensures
        tables.0.len() == 64,
        tables.1.len() == 64,
        forall|s: u8, i: u8|
            s < 64 && i < 64 ==> #[trigger] spec_get_bit(tables.0[s as int], i) == knight_jump(
                s as int,
                i as int,
            ),
        forall|s: u8, i: u8|
            s < 64 && i < 64 ==> #[trigger] spec_get_bit(tables.1[s as int], i) == king_step(
                s as int,
                i as int,
            ),
{
    let knights = initialize_knight_attacks();
    let kings = initialize_king_attacks();
    (knights, kings)
}

/// Bit `i` of the bitboard is set exactly where square `i` holds `code`.
pub open spec fn bits_match(bitboard: Bitboard, squares: Seq<Piece>, code: Piece) -> bool {
    forall|i: u8| i < 64 ==> #[trigger] spec_get_bit(bitboard, i) == (squares[i as int] == code)
}

/// The six piece encodings of one color.
pub open spec fn color_code(piece: Piece, color: u8) -> bool {
    color + 1 <= piece <= color + 6
}

/// The bitboard with bit `index` set or cleared as `set` says.
pub open spec fn spec_with_bit(bitboard: Bitboard, index: u8, set: bool) -> Bitboard {
    if set {
        (bitboard & !spec_square_to_bitboard(index)) | spec_square_to_bitboard(index)
    } else {
        bitboard & !spec_square_to_bitboard(index)
    }
}

fn with_bit(bitboard: Bitboard, index: u8, set: bool) -> (out: Bitboard)
    requires
        index < 64,
    ensures
        out == spec_with_bit(bitboard, index, set),
        forall|i: u8|
            i < 64 ==> #[trigger] spec_get_bit(out, i) == (if i == index {
                set
            } else {
                spec_get_bit(bitboard, i)
            }),
{
    let bit: Bitboard = 1u64 << (index as u64);
    let cleared: Bitboard = bitboard & !bit;
    proof {
        assert(bit == spec_square_to_bitboard(index));
        lemma_single_bit(index);
        lemma_bit_ops(bitboard, bit);
        lemma_bit_ops(cleared, bit);
    }
    if set {
        cleared | bit
    } else {
        cleared
    }
}

pub open spec fn spec_union6(
    a: Bitboard,
    b: Bitboard,
    c: Bitboard,
    d: Bitboard,
    e: Bitboard,
    f: Bitboard,
) -> Bitboard {
    a | b | c | d | e | f
}

fn union6(a: Bitboard, b: Bitboard, c: Bitboard, d: Bitboard, e: Bitboard, f: Bitboard) -> (out:
    Bitboard)
    ensures
        out == spec_union6(a, b, c, d, e, f),
        forall|i: u8|
            i < 64 ==> #[trigger] spec_get_bit(out, i) == (spec_get_bit(a, i) || spec_get_bit(b, i)
                || spec_get_bit(c, i) || spec_get_bit(d, i) || spec_get_bit(e, i) || spec_get_bit(
                f,
                i,
            )),
{
    proof {
        lemma_bit_ops(a, b);
        lemma_bit_ops(a | b, c);
        lemma_bit_ops(a | b | c, d);
        lemma_bit_ops(a | b | c | d, e);
        lemma_bit_ops(a | b | c | d | e, f);
    }
    a | b | c | d | e | f
}

/// One bitboard per color and kind, and the three unions of them.
#[derive(Clone, Copy, Debug)]
pub struct BitboardManager {
    pub white_pawns: Bitboard,
    pub white_knights: Bitboard,
    pub white_bishops: Bitboard,
    pub white_rooks: Bitboard,
    pub white_queens: Bitboard,
    pub white_king: Bitboard,
    pub black_pawns: Bitboard,
    pub black_knights: Bitboard,
    pub black_bishops: Bitboard,
    pub black_rooks: Bitboard,
    pub black_queens: Bitboard,
    pub black_king: Bitboard,
    pub white_pieces: Bitboard,
    pub black_pieces: Bitboard,
    pub all_pieces: Bitboard,
}

impl BitboardManager {
    pub open spec fn spec_new() -> BitboardManager {
        BitboardManager {
            white_pawns: 0,
            white_knights: 0,
            white_bishops: 0,
            white_rooks: 0,
            white_queens: 0,
            white_king: 0,
            black_pawns: 0,
            black_knights: 0,
            black_bishops: 0,
            black_rooks: 0,
            black_queens: 0,
            black_king: 0,
            white_pieces: 0,
            black_pieces: 0,
            all_pieces: 0,
        }
    }

    /// The bitboards describe the 64 squares: each kind's bitboard has its
    /// bits where that piece stands, and the unions hold the colors.
    pub open spec fn matches(&self, squares: Seq<Piece>) -> bool {
        &&& squares.len() == 64
        &&& bits_match(self.white_pawns, squares, 9)
        &&& bits_match(self.white_knights, squares, 10)
        &&& bits_match(self.white_bishops, squares, 11)
        &&& bits_match(self.white_rooks, squares, 12)
        &&& bits_match(self.white_queens, squares, 13)
        &&& bits_match(self.white_king, squares, 14)
        &&& bits_match(self.black_pawns, squares, 1)
        &&& bits_match(self.black_knights, squares, 2)
        &&& bits_match(self.black_bishops, squares, 3)
        &&& bits_match(self.black_rooks, squares, 4)
        &&& bits_match(self.black_queens, squares, 5)
        &&& bits_match(self.black_king, squares, 6)
        &&& forall|i: u8|
            i < 64 ==> #[trigger] spec_get_bit(self.white_pieces, i) == color_code(
                squares[i as int],
                WHITE,
            )
        &&& forall|i: u8|
            i < 64 ==> #[trigger] spec_get_bit(self.black_pieces, i) == color_code(
                squares[i as int],
                BLACK,
            )
        &&& forall|i: u8|
            i < 64 ==> #[trigger] spec_get_bit(self.all_pieces, i) == (color_code(
                squares[i as int],
                WHITE,
            ) || color_code(squares[i as int], BLACK))
    }

    /// The unions recomputed from the twelve bitboards.
    pub open spec fn spec_with_aggregates(self) -> BitboardManager {
        let white = spec_union6(
            self.white_pawns,
            self.white_knights,
            self.white_bishops,
            self.white_rooks,
            self.white_queens,
            self.white_king,
        );
        let black = spec_union6(
            self.black_pawns,
            self.black_knights,
            self.black_bishops,
            self.black_rooks,
            self.black_queens,
            self.black_king,
        );
        BitboardManager { white_pieces: white, black_pieces: black, all_pieces: white | black, ..self }
    }

    /// The bitboards after `piece` is put on `square`.
    pub open spec fn spec_update_square(self, square: Square, piece: Piece) -> BitboardManager {
        (BitboardManager {
            white_pawns: spec_with_bit(self.white_pawns, square.0, piece == 9),
            white_knights: spec_with_bit(self.white_knights, square.0, piece == 10),
            white_bishops: spec_with_bit(self.white_bishops, square.0, piece == 11),
            white_rooks: spec_with_bit(self.white_rooks, square.0, piece == 12),
            white_queens: spec_with_bit(self.white_queens, square.0, piece == 13),
            white_king: spec_with_bit(self.white_king, square.0, piece == 14),
            black_pawns: spec_with_bit(self.black_pawns, square.0, piece == 1),
            black_knights: spec_with_bit(self.black_knights, square.0, piece == 2),
            black_bishops: spec_with_bit(self.black_bishops, square.0, piece == 3),
            black_rooks: spec_with_bit(self.black_rooks, square.0, piece == 4),
            black_queens: spec_with_bit(self.black_queens, square.0, piece == 5),
            black_king: spec_with_bit(self.black_king, square.0, piece == 6),
            ..self
        }).spec_with_aggregates()
    }

    pub open spec fn spec_pieces(&self, color: u8, piece_type: u8) -> Bitboard {
        if color == WHITE {
            if piece_type == PAWN {
                self.white_pawns
            } else if piece_type == KNIGHT {
                self.white_knights
            } else if piece_type == BISHOP {
                self.white_bishops
            } else if piece_type == ROOK {
                self.white_rooks
            } else if piece_type == QUEEN {
                self.white_queens
            } else if piece_type == KING {
                self.white_king
            } else {
                BITBOARD_EMPTY
            }
        } else if color == BLACK {
            if piece_type == PAWN {
                self.black_pawns
            } else if piece_type == KNIGHT {
                self.black_knights
            } else if piece_type == BISHOP {
                self.black_bishops
            } else if piece_type == ROOK {
                self.black_rooks
            } else if piece_type == QUEEN {
                self.black_queens
            } else if piece_type == KING {
                self.black_king
            } else {
                BITBOARD_EMPTY
            }
        } else {
            BITBOARD_EMPTY
        }
    }

    pub open spec fn spec_all_pieces(&self, color: u8) -> Bitboard {
        if color == WHITE {
            self.white_pieces
        } else if color == BLACK {
            self.black_pieces
        } else {
            BITBOARD_EMPTY
        }
    }

    pub fn new() -> (manager: BitboardManager)
        ensures
            manager == BitboardManager::spec_new(),
            manager.matches(Seq::new(64, |i: int| 0u8)),
    {
        proof {
            lemma_single_bit(0);
        }
        BitboardManager {
            white_pawns: BITBOARD_EMPTY,
            white_knights: BITBOARD_EMPTY,
            white_bishops: BITBOARD_EMPTY,
            white_rooks: BITBOARD_EMPTY,
            white_queens: BITBOARD_EMPTY,
            white_king: BITBOARD_EMPTY,
            black_pawns: BITBOARD_EMPTY,
            black_knights: BITBOARD_EMPTY,
            black_bishops: BITBOARD_EMPTY,
            black_rooks: BITBOARD_EMPTY,
            black_queens: BITBOARD_EMPTY,
            black_king: BITBOARD_EMPTY,
            white_pieces: BITBOARD_EMPTY,
            black_pieces: BITBOARD_EMPTY,
            all_pieces: BITBOARD_EMPTY,
        }
    }

    /// Sets the bitboards to describe the given 64 squares.
    pub fn rebuild_from_squares(&mut self, squares: &[Piece; 64])
        ensures
            final(self).matches(squares@),
    {
        *self = BitboardManager::new();
        let ghost empty = Seq::new(64, |i: int| 0u8);
        let mut index: usize = 0;
        while index < 64
            invariant
                index <= 64,
                squares@.len() == 64,
                self.matches(Seq::new(64, |i: int| if i < index { squares@[i] } else { 0u8 })),
            decreases 64 - index,
        {
            let ghost before = Seq::new(64, |i: int| if i < index { squares@[i] } else { 0u8 });
            let piece: Piece = squares[index];
            self.update_square(Square(index as u8), piece);
            index = index + 1;
            proof {
                let after = Seq::new(64, |i: int| if i < index { squares@[i] } else { 0u8 });
                assert(before.update(index - 1, piece) =~= after);
            }
        }
        proof {
            assert(Seq::new(64, |i: int| if i < 64 { squares@[i] } else { 0u8 }) =~= squares@);
        }
    }

    /// Records that `square` now holds `piece`: the square is cleared in
    /// every bitboard and set in the one of that piece.
    pub fn update_square(&mut self, square: Square, piece: Piece)
        requires
            square.valid(),
        ensures
            *final(self) == old(self).spec_update_square(square, piece),
            forall|s: Seq<Piece>| #[trigger]
                old(self).matches(s) ==> final(self).matches(s.update(square.0 as int, piece)),
    {
        let square_index: u8 = square_to_index(square);
        self.white_pawns = with_bit(self.white_pawns, square_index, piece == 9);
        self.white_knights = with_bit(self.white_knights, square_index, piece == 10);
        self.white_bishops = with_bit(self.white_bishops, square_index, piece == 11);
        self.white_rooks = with_bit(self.white_rooks, square_index, piece == 12);
        self.white_queens = with_bit(self.white_queens, square_index, piece == 13);
        self.white_king = with_bit(self.white_king, square_index, piece == 14);
        self.black_pawns = with_bit(self.black_pawns, square_index, piece == 1);
        self.black_knights = with_bit(self.black_knights, square_index, piece == 2);
        self.black_bishops = with_bit(self.black_bishops, square_index, piece == 3);
        self.black_rooks = with_bit(self.black_rooks, square_index, piece == 4);
        self.black_queens = with_bit(self.black_queens, square_index, piece == 5);
        self.black_king = with_bit(self.black_king, square_index, piece == 6);
        self.update_aggregate_bitboards();
    }

    fn update_aggregate_bitboards(&mut self)
        ensures
            *final(self) == old(self).spec_with_aggregates(),
            forall|i: u8|
                i < 64 ==> #[trigger] spec_get_bit(final(self).white_pieces, i) == (spec_get_bit(
                    old(self).white_pawns,
                    i,
                ) || spec_get_bit(old(self).white_knights, i) || spec_get_bit(
                    old(self).white_bishops,
                    i,
                ) || spec_get_bit(old(self).white_rooks, i) || spec_get_bit(
                    old(self).white_queens,
                    i,
                ) || spec_get_bit(old(self).white_king, i)),
            forall|i: u8|
                i < 64 ==> #[trigger] spec_get_bit(final(self).black_pieces, i) == (spec_get_bit(
                    old(self).black_pawns,
                    i,
                ) || spec_get_bit(old(self).black_knights, i) || spec_get_bit(
                    old(self).black_bishops,
                    i,
                ) || spec_get_bit(old(self).black_rooks, i) || spec_get_bit(
                    old(self).black_queens,
                    i,
                ) || spec_get_bit(old(self).black_king, i)),
            forall|i: u8|
                i < 64 ==> #[trigger] spec_get_bit(final(self).all_pieces, i) == (spec_get_bit(
                    final(self).white_pieces,
                    i,
                ) || spec_get_bit(final(self).black_pieces, i)),
    {
        self.white_pieces = union6(
            self.white_pawns,
            self.white_knights,
            self.white_bishops,
            self.white_rooks,
            self.white_queens,
            self.white_king,
        );
        self.black_pieces = union6(
            self.black_pawns,
            self.black_knights,
            self.black_bishops,
            self.black_rooks,
            self.black_queens,
            self.black_king,
        );
        proof {
            lemma_bit_ops(self.white_pieces, self.black_pieces);
        }
        self.all_pieces = self.white_pieces | self.black_pieces;
    }

    /// The bitboard of one color and kind; empty for any other arguments.
    #[verifier::when_used_as_spec(spec_pieces)]
    pub fn get_pieces(&self, color: u8, piece_type: u8) -> (bitboard: Bitboard)
        ensures
            bitboard == self.spec_pieces(color, piece_type),
    {
        if color == WHITE {
            if piece_type == PAWN {
                self.white_pawns
            } else if piece_type == KNIGHT {
                self.white_knights
            } else if piece_type == BISHOP {
                self.white_bishops
            } else if piece_type == ROOK {
                self.white_rooks
            } else if piece_type == QUEEN {
                self.white_queens
            } else if piece_type == KING {
                self.white_king
            } else {
                BITBOARD_EMPTY
            }
        } else if color == BLACK {
            if piece_type == PAWN {
                self.black_pawns
            } else if piece_type == KNIGHT {
                self.black_knights
            } else if piece_type == BISHOP {
                self.black_bishops
            } else if piece_type == ROOK {
                self.black_rooks
            } else if piece_type == QUEEN {
                self.black_queens
            } else if piece_type == KING {
                self.black_king
            } else {
                BITBOARD_EMPTY
            }
        } else {
            BITBOARD_EMPTY
        }
    }

    /// The union of one color's bitboards; empty for any other argument.
    #[verifier::when_used_as_spec(spec_all_pieces)]
    pub fn get_all_pieces(&self, color: u8) -> (bitboard: Bitboard)
        ensures
            bitboard == self.spec_all_pieces(color),
    {
        if color == WHITE {
            self.white_pieces
        } else if color == BLACK {
            self.black_pieces
        } else {
            BITBOARD_EMPTY
        }
    }

    pub fn count_pieces(&self, color: u8, piece_type: u8) -> (count: u32)
        ensures
            count == spec_count_bits(self.spec_pieces(color, piece_type)),
            count <= 64,
    {
        count_bits(self.get_pieces(color, piece_type))
    }

    /// The squares that hold a piece of the given color and kind, lowest
    /// first.
    pub fn find_pieces(&self, color: u8, piece_type: u8) -> (squares: Vec<Square>)
        ensures
            squares@ == spec_bitboard_squares(self.spec_pieces(color, piece_type)),
            forall|k: int| 0 <= k < squares.len() ==> (#[trigger] squares[k]).valid(),
    {
        bitboard_squares(self.get_pieces(color, piece_type))
    }

    pub fn is_occupied(&self, square: Square) -> (occupied: bool)
        requires
            square.valid(),
        ensures
            occupied == spec_get_bit(self.all_pieces, square.0),
    {
        let square_index: u8 = square_to_index(square);
        get_bit(self.all_pieces, square_index)
    }

    pub fn is_occupied_by(&self, square: Square, color: u8) -> (occupied: bool)
        requires
            square.valid(),
        ensures
            occupied == spec_get_bit(self.spec_all_pieces(color), square.0),
    {
        let square_index: u8 = square_to_index(square);
        let color_pieces: Bitboard = self.get_all_pieces(color);
        get_bit(color_pieces, square_index)
    }
}

/// The bitboard of a kind of piece counts the squares that hold it.
pub open spec fn count_code_below(squares: Seq<Piece>, code: Piece, n: nat) -> nat
    decreases n,
{
    if n == 0 {
        0
    } else {
        count_code_below(squares, code, (n - 1) as nat) + if squares[n - 1] == code {
            1nat
        } else {
            0nat
        }
    }
}

pub proof fn lemma_count_matches(bitboard: Bitboard, squares: Seq<Piece>, code: Piece, n: nat)
    requires
        squares.len() == 64,
        bits_match(bitboard, squares, code),
        n <= 64,
    ensures
        count_bits_below(bitboard, n) == count_code_below(squares, code, n),
    decreases n,
{
    if n > 0 {
        lemma_count_matches(bitboard, squares, code, (n - 1) as nat);
        let i = (n - 1) as u8;
        assert(spec_get_bit(bitboard, i) == (squares[i as int] == code));
    }
}

} // verus!
