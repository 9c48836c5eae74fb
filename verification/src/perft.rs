//! Counting the positions reached by every line of legal moves of a given
//! length.

use vstd::prelude::*;
use crate::board::Board;
use crate::board::Position;
use crate::laws::law_undo_restores;
use crate::types::{GameStatus, Move};

verus! {

/// The number of lines of `depth` legal moves from the position: one for
/// depth 0, none when the status says that the game has ended.
pub open spec fn perft_count(s: Position, depth: nat) -> nat
    decreases depth, 1nat, 0nat,
{
    if depth == 0 {
        1
    } else if !s.status.playable() {
        0
    } else {
        perft_sum(s, s.all_legal_moves(), s.all_legal_moves().len(), depth)
    }
}

/// The lines of `depth` moves that start with one of the first `n` of the
/// given moves.
pub open spec fn perft_sum(s: Position, moves: Seq<Move>, n: nat, depth: nat) -> nat
    decreases depth, 0nat, n,
{
    if n == 0 || depth == 0 {
        0
    } else {
        perft_sum(s, moves, (n - 1) as nat, depth) + perft_count(
            s.apply(moves[n - 1]),
            (depth - 1) as nat,
        )
    }
}

/// The sum over a prefix of the moves is no more than the sum over all.
pub proof fn lemma_perft_sum_monotone(s: Position, moves: Seq<Move>, n: nat, m: nat, depth: nat)
    requires
        n <= m,
    ensures
        perft_sum(s, moves, n, depth) <= perft_sum(s, moves, m, depth),
    decreases m - n,
{
    if n < m {
        lemma_perft_sum_monotone(s, moves, n, (m - 1) as nat, depth);
    }
}

/// The position as a search leaves it: as it was, with the status "in
/// progress" if a move was played and taken back on the way.
pub open spec fn restored(before: Position, after: Position, touched: bool) -> bool {
    after == (if touched {
        before.with_status(GameStatus::InProgress)
    } else {
        before
    })
}

/// Counts the lines of `depth` legal moves from the board's position. The
/// board is given back as it was.
pub fn perft(board: &mut Board, depth: u32) -> (nodes: u64)
    requires
        old(board).wf(),
        old(board)@.clock_room() >= depth,
        perft_count(old(board)@, depth as nat) <= u64::MAX,
    ensures
        nodes == perft_count(old(board)@, depth as nat),
        final(board).wf(),
        restored(
            old(board)@,
            final(board)@,
            depth > 0 && old(board)@.status.playable() && old(board)@.all_legal_moves().len() > 0,
        ),
    decreases depth, 1nat,
{
    if depth == 0 {
        return 1;
    }
    let mut nodes: u64 = 0;
    let moves = board.get_all_legal_moves();
    let ghost start = board@;
    let mut i: usize = 0;
    while i < moves.len()
        invariant
            i <= moves.len(),
            depth > 0,
            board.wf(),
            start == old(board)@,
            start.wf(),
            moves@ == start.all_legal_moves(),
            forall|k: int| 0 <= k < moves.len() ==> start.is_legal(#[trigger] moves[k]),
            perft_count(start, depth as nat) <= u64::MAX,
            start.clock_room() >= depth,
            restored(start, board@, i > 0 && start.status.playable()),
            nodes == (if start.status.playable() {
                perft_sum(start, moves@, i as nat, depth as nat)
            } else {
                0
            }),
        decreases moves.len() - i,
    {
        let mv = moves[i];
        proof {
            assert(start.is_legal(mv));
            crate::laws::law_legality_ignores_status(start, GameStatus::InProgress, mv);
            crate::movegen::law_legal_is_valid(start, mv);
            crate::laws::law_apply_ignores_status(start, GameStatus::InProgress, mv);
            if start.status.playable() {
                lemma_perft_sum_monotone(
                    start,
                    moves@,
                    (i + 1) as nat,
                    moves@.len(),
                    depth as nat,
                );
            }
        }
        match perft_after(board, mv, depth) {
            Some(sub) => {
                nodes = nodes + sub;
            },
            None => {},
        }
        i = i + 1;
    }
    nodes
}

/// The number of lines of `depth` moves that start with the legal move
/// `mv`: the move is played, the lines of one move less are counted from
/// there, and the move is taken back. `None` when the status says that the
/// game has ended.
fn perft_after(board: &mut Board, mv: Move, depth: u32) -> (nodes: Option<u64>)
    requires
        old(board).wf(),
        old(board)@.is_legal(mv),
        depth >= 1,
        old(board)@.clock_room() >= depth,
        old(board)@.status.playable() ==> perft_count(
            old(board)@.apply(mv),
            (depth - 1) as nat,
        ) <= u64::MAX,
    ensures
        final(board).wf(),
        restored(old(board)@, final(board)@, old(board)@.status.playable()),
        nodes == (if old(board)@.status.playable() {
            Some(perft_count(old(board)@.apply(mv), (depth - 1) as nat) as u64)
        } else {
            None
        }),
    decreases depth, 0nat,
{
    let ghost start = board@;
    proof {
        crate::movegen::law_legal_is_valid(start, mv);
    }
    match board.try_make_move(mv) {
        Ok(_) => {
            let nodes = perft(board, depth - 1);
            let _undone = board.undo_move();
            proof {
                law_undo_restores(start, mv);
            }
            Some(nodes)
        },
        Err(_) => None,
    }
}

/// Counts the lines of `depth` legal moves from the board's position with
/// checked sums: the count where it fits in 64 bits, and `None` where it
/// does not. The board is given back as it was. A count that comes back
/// shows that `perft`, `perft_detailed` and `perft_divide` can be called on
/// the position to that depth.
pub fn perft_checked(board: &mut Board, depth: u32) -> (nodes: Option<u64>)
    requires
        old(board).wf(),
        old(board)@.clock_room() >= depth,
    ensures
        nodes == (if perft_count(old(board)@, depth as nat) <= u64::MAX {
            Some(perft_count(old(board)@, depth as nat) as u64)
        } else {
            None
        }),
        final(board).wf(),
        restored(
            old(board)@,
            final(board)@,
            depth > 0 && old(board)@.status.playable() && old(board)@.all_legal_moves().len() > 0,
        ),
    decreases depth, 1nat,
{
    if depth == 0 {
        return Some(1);
    }
    let playable = match board.game_status {
        GameStatus::InProgress => true,
        GameStatus::Check(_) => true,
        _ => false,
    };
    if !playable {
        return Some(0);
    }
    let mut nodes: u64 = 0;
    let moves = board.get_all_legal_moves();
    let ghost start = board@;
    let mut i: usize = 0;
    while i < moves.len()
        invariant
            i <= moves.len(),
            depth > 0,
            board.wf(),
            start == old(board)@,
            start.wf(),
            start.status.playable(),
            moves@ == start.all_legal_moves(),
            forall|k: int| 0 <= k < moves.len() ==> start.is_legal(#[trigger] moves[k]),
            start.clock_room() >= depth,
            restored(start, board@, i > 0),
            nodes == perft_sum(start, moves@, i as nat, depth as nat),
        decreases moves.len() - i,
    {
        let mv = moves[i];
        proof {
            assert(start.is_legal(mv));
            crate::laws::law_legality_ignores_status(start, GameStatus::InProgress, mv);
            crate::movegen::law_legal_is_valid(start, mv);
            crate::laws::law_apply_ignores_status(start, GameStatus::InProgress, mv);
            lemma_perft_sum_monotone(start, moves@, (i + 1) as nat, moves@.len(), depth as nat);
        }
        match perft_checked_after(board, mv, depth) {
            Some(sub) => {
                if sub > u64::MAX - nodes {
                    return None;
                }
                nodes = nodes + sub;
            },
            None => {
                return None;
            },
        }
        i = i + 1;
    }
    Some(nodes)
}

/// The number of lines of `depth` moves that start with the legal move
/// `mv`, with checked sums: the move is played, the lines of one move less
/// are counted from there, and the move is taken back.
fn perft_checked_after(board: &mut Board, mv: Move, depth: u32) -> (nodes: Option<u64>)
    requires
        old(board).wf(),
        old(board)@.is_legal(mv),
        old(board)@.status.playable(),
        depth >= 1,
        old(board)@.clock_room() >= depth,
    ensures
        final(board).wf(),
        restored(old(board)@, final(board)@, true),
        nodes == (if perft_count(old(board)@.apply(mv), (depth - 1) as nat) <= u64::MAX {
            Some(perft_count(old(board)@.apply(mv), (depth - 1) as nat) as u64)
        } else {
            None
        }),
    decreases depth, 0nat,
{
    let ghost start = board@;
    proof {
        crate::movegen::law_legal_is_valid(start, mv);
    }
    match board.try_make_move(mv) {
        Ok(_) => {
            let nodes = perft_checked(board, depth - 1);
            let _undone = board.undo_move();
            proof {
                law_undo_restores(start, mv);
            }
            nodes
        },
        Err(_) => None,
    }
}

/// Where the lines from a position can be counted in 64 bits, so can the
/// lines that start with each of its legal moves.
pub proof fn lemma_divide_counts_fit(s: Position, depth: nat, k: int)
    requires
        s.status.playable(),
        depth >= 1,
        0 <= k < s.all_legal_moves().len(),
        perft_count(s, depth) <= u64::MAX,
    ensures
        divide_count(s, s.all_legal_moves()[k], depth) <= u64::MAX,
{
    let moves = s.all_legal_moves();
    lemma_perft_sum_monotone(s, moves, (k + 1) as nat, moves.len(), depth);
}

/// What a detailed count returns: the lines counted and, among their last
/// moves, the captures, the en-passant captures and the castlings. The
/// promotions, checks and checkmates are not counted and stay at 0, and the
/// time is left to the caller.
#[derive(Debug, Clone, Copy)]
pub struct PerftResult {
    pub nodes: u64,
    pub captures: u64,
    pub en_passant: u64,
    pub castles: u64,
    pub promotions: u64,
    pub checks: u64,
    pub checkmates: u64,
    pub time_ms: u128,
}

impl PerftResult {
    pub fn new() -> (result: PerftResult)
        ensures
            result.nodes == 0,
            result.captures == 0,
            result.en_passant == 0,
            result.castles == 0,
            result.promotions == 0,
            result.checks == 0,
            result.checkmates == 0,
            result.time_ms == 0,
    {
        PerftResult {
            nodes: 0,
            captures: 0,
            en_passant: 0,
            castles: 0,
            promotions: 0,
            checks: 0,
            checkmates: 0,
            time_ms: 0,
        }
    }

    /// The lines counted per second: `nodes * 1000 / time_ms`, and 0 when no
    /// time was noted.
    pub fn nodes_per_second(&self) -> (rate: u64)
        requires
            self.nodes * 1000 <= u64::MAX,
        ensures
            rate == (if self.time_ms == 0 {
                0int
            } else {
                (self.nodes * 1000) / (self.time_ms as int)
            }),
    {
        if self.time_ms == 0 {
            return 0;
        }
        let scaled: u128 = (self.nodes * 1000) as u128;
        let rate: u128 = scaled / self.time_ms;
        rate as u64
    }
}

/// The counts of a detailed count.
pub struct PerftCounts {
    pub nodes: nat,
    pub captures: nat,
    pub en_passant: nat,
    pub castles: nat,
}

/// 1 if the condition holds, else 0.
pub open spec fn one_if(cond: bool) -> nat {
    if cond {
        1
    } else {
        0
    }
}

/// The detailed count of the lines of `depth` legal moves from the
/// position.
pub open spec fn detail_count(s: Position, depth: nat) -> PerftCounts
    decreases depth, 1nat, 0nat,
{
    if depth == 0 {
        PerftCounts { nodes: 1, captures: 0, en_passant: 0, castles: 0 }
    } else if !s.status.playable() {
        PerftCounts { nodes: 0, captures: 0, en_passant: 0, castles: 0 }
    } else {
        detail_sum(s, s.all_legal_moves(), s.all_legal_moves().len(), depth)
    }
}

/// The detailed count of the lines of `depth` moves that start with one of
/// the first `n` of the given moves. At depth 1 the kinds of the moves
/// themselves are counted; deeper, those of the last moves of the lines.
pub open spec fn detail_sum(s: Position, moves: Seq<Move>, n: nat, depth: nat) -> PerftCounts
    decreases depth, 0nat, n,
{
    if n == 0 || depth == 0 {
        PerftCounts { nodes: 0, captures: 0, en_passant: 0, castles: 0 }
    } else {
        let before = detail_sum(s, moves, (n - 1) as nat, depth);
        let mv = moves[n - 1];
        let sub = detail_count(s.apply(mv), (depth - 1) as nat);
        let record = s.record(mv);
        PerftCounts {
            nodes: before.nodes + sub.nodes,
            captures: before.captures + (if depth == 1 {
                one_if(record.captured_piece != 0)
            } else {
                sub.captures
            }),
            en_passant: before.en_passant + (if depth == 1 {
                one_if(record.is_en_passant)
            } else {
                sub.en_passant
            }),
            castles: before.castles + (if depth == 1 {
                one_if(record.is_castling)
            } else {
                sub.castles
            }),
        }
    }
}

/// A detailed count counts the same lines as the plain count, and no kind
/// of move more often than there are lines.
pub proof fn lemma_detail_count(s: Position, depth: nat)
    ensures
        detail_count(s, depth).nodes == perft_count(s, depth),
        detail_count(s, depth).captures <= perft_count(s, depth),
        detail_count(s, depth).en_passant <= perft_count(s, depth),
        detail_count(s, depth).castles <= perft_count(s, depth),
    decreases depth, 1nat, 0nat,
{
    if depth > 0 && s.status.playable() {
        lemma_detail_sum(s, s.all_legal_moves(), s.all_legal_moves().len(), depth);
    }
}

pub proof fn lemma_detail_sum(s: Position, moves: Seq<Move>, n: nat, depth: nat)
    ensures
        detail_sum(s, moves, n, depth).nodes == perft_sum(s, moves, n, depth),
        detail_sum(s, moves, n, depth).captures <= perft_sum(s, moves, n, depth),
        detail_sum(s, moves, n, depth).en_passant <= perft_sum(s, moves, n, depth),
        detail_sum(s, moves, n, depth).castles <= perft_sum(s, moves, n, depth),
    decreases depth, 0nat, n,
{
    if n > 0 && depth > 0 {
        lemma_detail_sum(s, moves, (n - 1) as nat, depth);
        lemma_detail_count(s.apply(moves[n - 1]), (depth - 1) as nat);
    }
}

/// Counts the lines of `depth` legal moves from the board's position and,
/// among their last moves, the captures, en-passant captures and
/// castlings. The board is given back as it was.
pub fn perft_detailed(board: &mut Board, depth: u32) -> (result: PerftResult)
    requires
        old(board).wf(),
        old(board)@.clock_room() >= depth,
        perft_count(old(board)@, depth as nat) <= u64::MAX,
    ensures
        result.nodes == detail_count(old(board)@, depth as nat).nodes,
        result.captures == detail_count(old(board)@, depth as nat).captures,
        result.en_passant == detail_count(old(board)@, depth as nat).en_passant,
        result.castles == detail_count(old(board)@, depth as nat).castles,
        result.promotions == 0,
        result.checks == 0,
        result.checkmates == 0,
        result.time_ms == 0,
        final(board).wf(),
        restored(
            old(board)@,
            final(board)@,
            depth > 0 && old(board)@.status.playable() && old(board)@.all_legal_moves().len() > 0,
        ),
    decreases depth, 1nat,
{
    let mut result = PerftResult::new();
    if depth == 0 {
        result.nodes = 1;
        return result;
    }
    let moves = board.get_all_legal_moves();
    let ghost start = board@;
    let mut i: usize = 0;
    while i < moves.len()
        invariant
            i <= moves.len(),
            depth > 0,
            board.wf(),
            start == old(board)@,
            start.wf(),
            moves@ == start.all_legal_moves(),
            forall|k: int| 0 <= k < moves.len() ==> start.is_legal(#[trigger] moves[k]),
            perft_count(start, depth as nat) <= u64::MAX,
            start.clock_room() >= depth,
            restored(start, board@, i > 0 && start.status.playable()),
            result.promotions == 0,
            result.checks == 0,
            result.checkmates == 0,
            result.time_ms == 0,
            start.status.playable() ==> {
                &&& result.nodes == detail_sum(start, moves@, i as nat, depth as nat).nodes
                &&& result.captures == detail_sum(start, moves@, i as nat, depth as nat).captures
                &&& result.en_passant == detail_sum(
                    start,
                    moves@,
                    i as nat,
                    depth as nat,
                ).en_passant
                &&& result.castles == detail_sum(start, moves@, i as nat, depth as nat).castles
            },
            !start.status.playable() ==> result.nodes == 0 && result.captures == 0
                && result.en_passant == 0 && result.castles == 0,
        decreases moves.len() - i,
    {
        let mv = moves[i];
        let ghost current = board@;
        proof {
            assert(start.is_legal(mv));
            crate::laws::law_legality_ignores_status(start, GameStatus::InProgress, mv);
            crate::movegen::law_legal_is_valid(start, mv);
            crate::laws::law_apply_ignores_status(start, GameStatus::InProgress, mv);
            assert(current.record(mv) == start.record(mv));
            if start.status.playable() {
                lemma_perft_sum_monotone(
                    start,
                    moves@,
                    (i + 1) as nat,
                    moves@.len(),
                    depth as nat,
                );
                lemma_detail_sum(start, moves@, (i + 1) as nat, depth as nat);
                lemma_detail_count(start.apply(mv), (depth - 1) as nat);
            }
        }
        match detail_after(board, mv, depth) {
            Some((sub_result, game_move)) => {
                result.nodes = result.nodes + sub_result.nodes;
                if depth == 1 {
                    if game_move.captured_piece != 0 {
                        result.captures = result.captures + 1;
                    }
                    if game_move.is_en_passant {
                        result.en_passant = result.en_passant + 1;
                    }
                    if game_move.is_castling {
                        result.castles = result.castles + 1;
                    }
                } else {
                    result.captures = result.captures + sub_result.captures;
                    result.en_passant = result.en_passant + sub_result.en_passant;
                    result.castles = result.castles + sub_result.castles;
                    result.promotions = result.promotions + sub_result.promotions;
                    result.checks = result.checks + sub_result.checks;
                    result.checkmates = result.checkmates + sub_result.checkmates;
                }
            },
            None => {},
        }
        i = i + 1;
    }
    result
}

/// The detailed count of the lines of one move less after the legal move
/// `mv`, with the record of the move: the move is played, the lines are
/// counted, and the move is taken back. `None` when the status says that
/// the game has ended.
fn detail_after(board: &mut Board, mv: Move, depth: u32) -> (counted: Option<
    (PerftResult, crate::types::GameMove),
>)
    requires
        old(board).wf(),
        old(board)@.is_legal(mv),
        depth >= 1,
        old(board)@.clock_room() >= depth,
        old(board)@.status.playable() ==> perft_count(
            old(board)@.apply(mv),
            (depth - 1) as nat,
        ) <= u64::MAX,
    ensures
        final(board).wf(),
        restored(old(board)@, final(board)@, old(board)@.status.playable()),
        counted is Some <==> old(board)@.status.playable(),
        counted is Some ==> {
            let sub = counted.unwrap().0;
            let counts = detail_count(old(board)@.apply(mv), (depth - 1) as nat);
            &&& counted.unwrap().1 == old(board)@.record(mv)
            &&& sub.nodes == counts.nodes
            &&& sub.captures == counts.captures
            &&& sub.en_passant == counts.en_passant
            &&& sub.castles == counts.castles
            &&& sub.promotions == 0
            &&& sub.checks == 0
            &&& sub.checkmates == 0
        },
    decreases depth, 0nat,
{
    let ghost start = board@;
    proof {
        crate::movegen::law_legal_is_valid(start, mv);
    }
    match board.try_make_move(mv) {
        Ok(game_move) => {
            let sub_result = perft_detailed(board, depth - 1);
            let _undone = board.undo_move();
            proof {
                law_undo_restores(start, mv);
            }
            Some((sub_result, game_move))
        },
        Err(_) => None,
    }
}

/// The number of lines of `depth` moves that start with the move: 1 at
/// depth 1 or less.
pub open spec fn divide_count(s: Position, mv: Move, depth: nat) -> nat {
    if depth > 1 {
        perft_count(s.apply(mv), (depth - 1) as nat)
    } else {
        1
    }
}

/// The first `n` of the moves, each with the number of lines that start
/// with it; none when the status says that the game has ended.
pub open spec fn divide_entries(s: Position, moves: Seq<Move>, n: int, depth: nat) -> Seq<(Move, u64)>
    decreases n,
{
    if n <= 0 || !s.status.playable() {
        Seq::empty()
    } else {
        divide_entries(s, moves, n - 1, depth).push(
            (moves[n - 1], divide_count(s, moves[n - 1], depth) as u64),
        )
    }
}

/// No entry has a lower count than an entry after it.
pub open spec fn counts_descend(entries: Seq<(Move, u64)>) -> bool {
    forall|i: int, j: int| 0 <= i < j < entries.len() ==> entries[i].1 >= entries[j].1
}

/// Where an entry with the count goes among the first `n` entries of the
/// list: behind the last of them whose count is not lower.
pub open spec fn insert_pos(list: Seq<(Move, u64)>, count: u64, n: int) -> int
    decreases n,
{
    if n <= 0 {
        0
    } else if list[n - 1].1 < count {
        insert_pos(list, count, n - 1)
    } else {
        n
    }
}

/// The list with the entry put behind the last entry whose count is not
/// lower.
pub open spec fn with_entry(list: Seq<(Move, u64)>, entry: (Move, u64)) -> Seq<(Move, u64)> {
    list.insert(insert_pos(list, entry.1, list.len() as int), entry)
}

/// The entries of the first `n` moves, put into the list one after the
/// other, each behind the last entry whose count is not lower.
pub open spec fn divide_sorted(s: Position, moves: Seq<Move>, n: int, depth: nat) -> Seq<(Move, u64)>
    decreases n,
{
    if n <= 0 || !s.status.playable() {
        Seq::empty()
    } else {
        with_entry(
            divide_sorted(s, moves, n - 1, depth),
            (moves[n - 1], divide_count(s, moves[n - 1], depth) as u64),
        )
    }
}

/// Puts the entry into the list behind the last entry whose count is not
/// lower.
fn insert_by_count(results: &mut Vec<(Move, u64)>, entry: (Move, u64))
    requires
        counts_descend(old(results)@),
    ensures
        final(results)@ == with_entry(old(results)@, entry),
        counts_descend(final(results)@),
        final(results)@.to_multiset() == old(results)@.to_multiset().insert(entry),
{
    let mut pos: usize = results.len();
    while pos > 0 && results[pos - 1].1 < entry.1
        invariant
            pos <= results.len(),
            forall|k: int| pos <= k < results.len() ==> results@[k].1 < entry.1,
            insert_pos(results@, entry.1, results.len() as int) == insert_pos(
                results@,
                entry.1,
                pos as int,
            ),
        decreases pos,
    {
        pos = pos - 1;
    }
    proof {
        vstd::seq_lib::to_multiset_insert(results@, pos as int, entry);
    }
    results.insert(pos, entry);
}

/// The legal moves, each with the number of lines of `depth` moves that
/// start with it, the highest count first. The board is given back as it
/// was.
pub fn perft_divide(board: &mut Board, depth: u32) -> (results: Vec<(Move, u64)>)
    requires
        old(board).wf(),
        old(board)@.clock_room() >= depth,
        old(board)@.clock_room() >= 1,
        forall|k: int|
            0 <= k < old(board)@.all_legal_moves().len() ==> divide_count(
                old(board)@,
                #[trigger] old(board)@.all_legal_moves()[k],
                depth as nat,
            ) <= u64::MAX,
    ensures
        results@ == divide_sorted(
            old(board)@,
            old(board)@.all_legal_moves(),
            old(board)@.all_legal_moves().len() as int,
            depth as nat,
        ),
        results@.to_multiset() == divide_entries(
            old(board)@,
            old(board)@.all_legal_moves(),
            old(board)@.all_legal_moves().len() as int,
            depth as nat,
        ).to_multiset(),
        counts_descend(results@),
        final(board).wf(),
        restored(
            old(board)@,
            final(board)@,
            old(board)@.status.playable() && old(board)@.all_legal_moves().len() > 0,
        ),
{
    let mut results: Vec<(Move, u64)> = Vec::new();
    let moves = board.get_all_legal_moves();
    let ghost start = board@;
    let mut i: usize = 0;
    while i < moves.len()
        invariant
            i <= moves.len(),
            board.wf(),
            start == old(board)@,
            start.wf(),
            moves@ == start.all_legal_moves(),
            forall|k: int| 0 <= k < moves.len() ==> start.is_legal(#[trigger] moves[k]),
            forall|k: int|
                0 <= k < moves.len() ==> divide_count(start, #[trigger] moves@[k], depth as nat)
                    <= u64::MAX,
            start.clock_room() >= depth,
            start.clock_room() >= 1,
            restored(start, board@, i > 0 && start.status.playable()),
            counts_descend(results@),
            results@ == divide_sorted(start, moves@, i as int, depth as nat),
            results@.to_multiset() == divide_entries(start, moves@, i as int, depth as nat).to_multiset(),
        decreases moves.len() - i,
    {
        let mv = moves[i];
        proof {
            assert(start.is_legal(mv));
            crate::laws::law_legality_ignores_status(start, GameStatus::InProgress, mv);
            crate::laws::law_apply_ignores_status(start, GameStatus::InProgress, mv);
            assert(divide_count(start, moves@[i as int], depth as nat) <= u64::MAX);
        }
        match count_after(board, mv, depth) {
            Some(nodes) => {
                proof {
                    vstd::seq_lib::to_multiset_build(
                        divide_entries(start, moves@, i as int, depth as nat),
                        (mv, nodes),
                    );
                }
                insert_by_count(&mut results, (mv, nodes));
            },
            None => {},
        }
        i = i + 1;
    }
    results
}

/// The number of lines of `depth` moves that start with the legal move
/// `mv`: the move is played, the lines after it are counted, and the move is
/// taken back. `None` when the status says that the game has ended.
fn count_after(board: &mut Board, mv: Move, depth: u32) -> (nodes: Option<u64>)
    requires
        old(board).wf(),
        old(board)@.is_legal(mv),
        old(board)@.clock_room() >= depth,
        old(board)@.clock_room() >= 1,
        divide_count(old(board)@, mv, depth as nat) <= u64::MAX,
    ensures
        final(board).wf(),
        restored(old(board)@, final(board)@, old(board)@.status.playable()),
        nodes == (if old(board)@.status.playable() {
            Some(divide_count(old(board)@, mv, depth as nat) as u64)
        } else {
            None
        }),
{
    let ghost start = board@;
    proof {
        crate::movegen::law_legal_is_valid(start, mv);
    }
    match board.try_make_move(mv) {
        Ok(_) => {
            let nodes: u64 = if depth > 1 {
                perft(board, depth - 1)
            } else {
                1
            };
            let _undone = board.undo_move();
            proof {
                law_undo_restores(start, mv);
            }
            Some(nodes)
        },
        Err(_) => None,
    }
}

} // verus!
