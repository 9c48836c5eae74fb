//! The transposition table: scores and best moves of positions already
//! searched, found again by a Zobrist signature of the position.

use vstd::prelude::*;
use vstd::std_specs::hash::group_hash_axioms;
use std::collections::HashMap;
use crate::board::Board;
use crate::board::Position;
use crate::search_types::MATE_SCORE;
use crate::types::is_empty;
use crate::types::piece_color;
use crate::types::piece_type;
use crate::types::piece_valid;
use crate::types::spec_piece_color;
use crate::types::spec_piece_type;
use crate::types::{Move, Piece, Square};
use crate::types::{BLACK, EMPTY, WHITE};

verus! {

broadcast use group_hash_axioms;

/// What the score of an entry says about the true score of its position.
#[derive(Debug, Clone, Copy, PartialEq, Eq, Structural)]
pub enum NodeType {
    /// The score is exact.
    Exact,
    /// The true score is at least the stored one: the search was cut off.
    LowerBound,
    /// The true score is at most the stored one: no move raised alpha.
    UpperBound,
}

/// An entry of the table.
#[derive(Debug, Clone, Copy)]
pub struct TTEntry {
    pub zobrist_key: u64,
    pub depth: i32,
    pub score: i32,
    pub best_move: Option<Move>,
    pub node_type: NodeType,
    pub age: u8,
}

impl TTEntry {
    /// Whether the entry was stored in a search later than the one numbered
    /// `age`.
    pub fn is_newer_than(&self, age: u8) -> (newer: bool)
        ensures
            newer == (self.age > age),
    {
        self.age > age
    }

    /// Whether the entry was stored in the search numbered `age` or in the
    /// one before it, the numbers counted round from 255 to 0.
    pub open spec fn spec_is_recent(&self, age: u8) -> bool {
        age.wrapping_sub(self.age) < 2
    }

    #[verifier::when_used_as_spec(spec_is_recent)]
    pub fn is_recent(&self, age: u8) -> (recent: bool)
        ensures
            recent == self.spec_is_recent(age),
    {
        age.wrapping_sub(self.age) < 2
    }
}

/// The next state of the generator of the keys.
pub open spec fn lcg_next(x: u64) -> u64 {
    x.wrapping_mul(1103515245).wrapping_add(12345)
}

/// The `n`-th key: the generator starts at 1.
pub open spec fn zobrist_key(n: nat) -> u64
    decreases n,
{
    if n == 0 {
        1
    } else {
        lcg_next(zobrist_key((n - 1) as nat))
    }
}

pub const PIECE_KEYS: usize = 768;

pub const CASTLING_KEYS: usize = 16;

pub const EN_PASSANT_KEYS: usize = 8;

/// The number of the key of a piece on square `i`: twelve blocks of 64
/// keys, white pawn to king and then black pawn to king, and within a
/// block file by file.
pub open spec fn piece_key_number(piece: Piece, i: int) -> int {
    let kind_index = (spec_piece_type(piece) - 1) + (if spec_piece_color(piece) == WHITE {
        0int
    } else {
        6int
    });
    kind_index * 64 + (i % 8) * 8 + i / 8
}

/// The signature of the pieces on the first `n` squares: the keys of the
/// pieces, combined by exclusive or.
pub open spec fn pieces_hash(b: Seq<Piece>, n: int) -> u64
    decreases n,
{
    if n <= 0 {
        0
    } else if b[n - 1] != EMPTY {
        pieces_hash(b, n - 1) ^ zobrist_key(piece_key_number(b[n - 1], n - 1) as nat)
    } else {
        pieces_hash(b, n - 1)
    }
}

/// The Zobrist signature of a position: the keys of its pieces, of black
/// to move, of its castling rights and of the file of its en-passant
/// target, combined by exclusive or.
pub open spec fn zobrist_hash(s: Position) -> u64 {
    let h1 = pieces_hash(s.squares, 64);
    let h2 = if s.turn == BLACK {
        h1 ^ zobrist_key(768)
    } else {
        h1
    };
    let h3 = h2 ^ zobrist_key((769 + (s.castling_rights & 15)) as nat);
    match s.en_passant_target {
        Some(e) => h3 ^ zobrist_key((785 + e.0 % 8) as nat),
        None => h3,
    }
}

/// The keys of the signature.
pub struct ZobristKeys {
    pieces: Vec<u64>,
    side_to_move: u64,
    castling_rights: Vec<u64>,
    en_passant: Vec<u64>,
}

/// Appends `count` keys to `keys`, starting with the key numbered `first`
/// whose value is `counter`, and returns the value of the key after them.
fn push_keys(keys: &mut Vec<u64>, count: usize, counter: u64, Ghost(first): Ghost<nat>) -> (next: u64)
    requires
        old(keys).len() == 0,
        counter == zobrist_key(first),
    ensures
        final(keys).len() == count,
        forall|k: int| 0 <= k < count ==> #[trigger] final(keys)@[k] == zobrist_key((first + k) as nat),
        next == zobrist_key(first + count as nat),
{
    let mut counter = counter;
    let mut i: usize = 0;
    while i < count
        invariant
            i <= count,
            keys.len() == i,
            forall|k: int| 0 <= k < i ==> #[trigger] keys@[k] == zobrist_key((first + k) as nat),
            counter == zobrist_key(first + i as nat),
        decreases count - i,
    {
        keys.push(counter);
        counter = counter.wrapping_mul(1103515245).wrapping_add(12345);
        i = i + 1;
    }
    counter
}

impl ZobristKeys {
    /// The keys are those of the generator, in order: the piece keys, the
    /// key of black to move, the castling keys, the en-passant keys.
    pub closed spec fn wf(&self) -> bool {
        &&& self.pieces.len() == PIECE_KEYS
        &&& self.castling_rights.len() == CASTLING_KEYS
        &&& self.en_passant.len() == EN_PASSANT_KEYS
        &&& forall|k: int| 0 <= k < 768 ==> #[trigger] self.pieces@[k] == zobrist_key(k as nat)
        &&& self.side_to_move == zobrist_key(768)
        &&& forall|k: int|
            0 <= k < 16 ==> #[trigger] self.castling_rights@[k] == zobrist_key((769 + k) as nat)
        &&& forall|k: int|
            0 <= k < 8 ==> #[trigger] self.en_passant@[k] == zobrist_key((785 + k) as nat)
    }

    pub fn new() -> (keys: ZobristKeys)
        ensures
            keys.wf(),
    {
        let mut pieces: Vec<u64> = Vec::new();
        let mut castling_rights: Vec<u64> = Vec::new();
        let mut en_passant: Vec<u64> = Vec::new();
        let counter: u64 = 1;
        let counter = push_keys(&mut pieces, PIECE_KEYS, counter, Ghost(0));
        let side_to_move = counter;
        let counter = counter.wrapping_mul(1103515245).wrapping_add(12345);
        let counter = push_keys(&mut castling_rights, CASTLING_KEYS, counter, Ghost(769));
        let _end = push_keys(&mut en_passant, EN_PASSANT_KEYS, counter, Ghost(785));
        ZobristKeys { pieces, side_to_move, castling_rights, en_passant }
    }

    /// The signature of the board's position.
    pub fn hash_position(&self, board: &Board) -> (hash: u64)
        requires
            self.wf(),
            board.wf(),
        ensures
            hash == zobrist_hash(board@),
    {
        let mut hash: u64 = 0;
        let mut index: u8 = 0;
        while index < 64
            invariant
                index <= 64,
                self.wf(),
                board.wf(),
                hash == pieces_hash(board@.squares, index as int),
            decreases 64 - index,
        {
            let square = Square(index);
            let piece = board.get_piece(square);
            if !is_empty(piece) {
                proof {
                    assert(piece_valid(board@.squares[index as int]));
                }
                let kind = piece_type(piece);
                let color = piece_color(piece);
                let piece_index: usize = (kind - 1) as usize + if color == WHITE {
                    0
                } else {
                    6
                };
                let file = square.file() as usize;
                let rank = square.rank() as usize;
                hash = hash ^ self.pieces[piece_index * 64 + file * 8 + rank];
            }
            index = index + 1;
        }
        if board.current_turn == BLACK {
            hash = hash ^ self.side_to_move;
        }
        let all_rights: u8 = board.castling_rights;
        let rights: u8 = all_rights & 15;
        assert(rights < 16) by (bit_vector)
            requires
                rights == all_rights & 15,
        ;
        hash = hash ^ self.castling_rights[rights as usize];
        match board.en_passant_target {
            Some(en_passant_square) => {
                hash = hash ^ self.en_passant[en_passant_square.file() as usize];
            },
            None => {},
        }
        hash
    }
}

/// The entries of `m` that are less than two searches old in the search
/// numbered `age`.
pub open spec fn recent_entries(m: Map<u64, TTEntry>, age: u8) -> Map<u64, TTEntry> {
    m.restrict(Set::new(|k: u64| m.contains_key(k) && m[k].spec_is_recent(age)))
}

/// `HashMap::retain` of std: keeps the entries for which the closure
/// returns true and drops the others. Here the closure keeps an entry
/// that is less than two searches old.
#[verifier::external_body]
fn retain_recent(table: &mut HashMap<u64, TTEntry>, age: u8)
    ensures
        final(table)@ == recent_entries(old(table)@, age),
{
    table.retain(|_, entry| entry.is_recent(age));
}

/// Whether an entry settles a search of `depth` with the window
/// `(alpha, beta)`: it was searched at least as deep, and its score is
/// exact, or a lower bound that reaches beta, or an upper bound that stays
/// at or below alpha.
pub open spec fn usable(entry: TTEntry, depth: i32, alpha: i32, beta: i32) -> bool {
    entry.depth >= depth && (entry.node_type == NodeType::Exact || (entry.node_type
        == NodeType::LowerBound && entry.score >= beta) || (entry.node_type
        == NodeType::UpperBound && entry.score <= alpha))
}

/// Whether a new result of `depth` replaces what the table holds for the
/// signature: nothing is held, or the new result is at least as deep, or
/// the entry held is from an earlier search.
pub open spec fn replaces(m: Map<u64, TTEntry>, hash: u64, depth: i32, age: u8) -> bool {
    !m.contains_key(hash) || depth >= m[hash].depth || m[hash].age < age
}

/// What a table holds after a result of `depth` is stored for the
/// signature in the search numbered `age`: the map as it was if the result
/// does not replace what is held; else the result is entered, after the
/// entries two searches old or older were dropped from a map that had
/// reached `capacity`.
pub open spec fn stored(
    m: Map<u64, TTEntry>,
    age: u8,
    capacity: usize,
    hash: u64,
    depth: i32,
    score: i32,
    best_move: Option<Move>,
    node_type: NodeType,
) -> Map<u64, TTEntry> {
    if replaces(m, hash, depth, age) {
        (if m.len() >= capacity {
            recent_entries(m, age)
        } else {
            m
        }).insert(hash, TTEntry { zobrist_key: hash, depth, score, best_move, node_type, age })
    } else {
        m
    }
}

/// An entry holds about this many bytes; the table's capacity is counted
/// with it.
pub const ENTRY_BYTES: usize = 32;

pub const ENTRIES_PER_MB: usize = 32768;

/// The transposition table.
pub struct TranspositionTable {
    table: HashMap<u64, TTEntry>,
    zobrist: ZobristKeys,
    age: u8,
    max_size: usize,
}

impl View for TranspositionTable {
    type V = Map<u64, TTEntry>;

    closed spec fn view(&self) -> Map<u64, TTEntry> {
        self.table@
    }
}

impl TranspositionTable {
    /// The keys are in place.
    pub closed spec fn wf(&self) -> bool {
        self.zobrist.wf()
    }

    /// The number of the current search.
    pub closed spec fn spec_age(&self) -> u8 {
        self.age
    }

    /// The number of entries at which old entries are dropped.
    pub closed spec fn capacity(&self) -> usize {
        self.max_size
    }

    /// Every score held is a score that a search can return.
    pub open spec fn bounded(&self) -> bool {
        forall|k: u64| self@.contains_key(k) ==> -MATE_SCORE <= (#[trigger] self@[k]).score <= MATE_SCORE
    }

    /// An empty table for about `size_mb` megabytes of entries.
    pub fn new(size_mb: usize) -> (table: TranspositionTable)
        requires
            size_mb * ENTRIES_PER_MB <= usize::MAX,
        ensures
            table.wf(),
            table@ == Map::<u64, TTEntry>::empty(),
            table.spec_age() == 0,
            table.capacity() == size_mb * ENTRIES_PER_MB,
            table.bounded(),
    {
        let entries_per_mb: usize = 1024 * 1024 / ENTRY_BYTES;
        let max_size: usize = size_mb * entries_per_mb;
        TranspositionTable {
            table: HashMap::with_capacity(max_size),
            zobrist: ZobristKeys::new(),
            age: 0,
            max_size,
        }
    }

    /// The signature of the board's position.
    pub fn get_hash(&self, board: &Board) -> (hash: u64)
        requires
            self.wf(),
            board.wf(),
        ensures
            hash == zobrist_hash(board@),
    {
        self.zobrist.hash_position(board)
    }

    /// The score and best move held for the signature, if they settle a
    /// search of `depth` with the window `(alpha, beta)`.
    pub fn probe(&self, hash: u64, depth: i32, alpha: i32, beta: i32) -> (hit: Option<
        (i32, Option<Move>),
    >)
        ensures
            hit == (if self@.contains_key(hash) && usable(self@[hash], depth, alpha, beta) {
                Some((self@[hash].score, self@[hash].best_move))
            } else {
                None
            }),
    {
        match self.table.get(&hash) {
            Some(entry) => {
                if entry.depth >= depth {
                    match entry.node_type {
                        NodeType::Exact => {
                            return Some((entry.score, entry.best_move));
                        },
                        NodeType::LowerBound => {
                            if entry.score >= beta {
                                return Some((entry.score, entry.best_move));
                            }
                        },
                        NodeType::UpperBound => {
                            if entry.score <= alpha {
                                return Some((entry.score, entry.best_move));
                            }
                        },
                    }
                }
                None
            },
            None => None,
        }
    }

    /// The best move held for the signature, whatever the depth of its
    /// search: a hint for the order in which moves are tried.
    pub fn probe_move(&self, hash: u64) -> (hint: Option<Move>)
        ensures
            hint == (if self@.contains_key(hash) {
                self@[hash].best_move
            } else {
                None
            }),
    {
        match self.table.get(&hash) {
            Some(entry) => entry.best_move,
            None => None,
        }
    }

    /// Stores a result for the signature if it replaces what is held. A
    /// table that has reached its capacity first drops the entries that
    /// are two searches old or older.
    pub fn store(&mut self, hash: u64, depth: i32, score: i32, best_move: Option<Move>, node_type: NodeType)
        ensures
            final(self).wf() == old(self).wf(),
            final(self).spec_age() == old(self).spec_age(),
            final(self).capacity() == old(self).capacity(),
            final(self)@ == stored(
                old(self)@,
                old(self).spec_age(),
                old(self).capacity(),
                hash,
                depth,
                score,
                best_move,
                node_type,
            ),
            old(self).bounded() && -MATE_SCORE <= score <= MATE_SCORE ==> final(self).bounded(),
    {
        let should_replace = match self.table.get(&hash) {
            Some(existing) => depth >= existing.depth || existing.age < self.age,
            None => true,
        };
        if should_replace {
            if self.table.len() >= self.max_size {
                self.clear_old_entries();
            }
            let entry = TTEntry { zobrist_key: hash, depth, score, best_move, node_type, age: self.age };
            self.table.insert(hash, entry);
        }
    }

    /// Starts a new search: the age goes up by one, from 255 back to 0.
    pub fn new_search(&mut self)
        ensures
            final(self).wf() == old(self).wf(),
            final(self)@ == old(self)@,
            final(self).capacity() == old(self).capacity(),
            final(self).spec_age() == old(self).spec_age().wrapping_add(1),
    {
        self.age = self.age.wrapping_add(1);
    }

    /// Drops the entries that are two searches old or older.
    fn clear_old_entries(&mut self)
        ensures
            final(self).wf() == old(self).wf(),
            final(self).spec_age() == old(self).spec_age(),
            final(self).capacity() == old(self).capacity(),
            final(self)@ == recent_entries(old(self)@, old(self).spec_age()),
    {
        retain_recent(&mut self.table, self.age);
    }

    /// Empties the table.
    pub fn clear(&mut self)
        ensures
            final(self).wf() == old(self).wf(),
            final(self).spec_age() == old(self).spec_age(),
            final(self).capacity() == old(self).capacity(),
            final(self)@ == Map::<u64, TTEntry>::empty(),
            final(self).bounded(),
    {
        self.table.clear();
    }

    /// The number of entries held; there are finitely many.
    pub fn size(&self) -> (count: usize)
        ensures
            count == self@.len(),
            self@.dom().finite(),
    {
        broadcast use vstd::std_specs::hash::axiom_hashmap_view_finite_dom;

        self.table.len()
    }
}

} // verus!
