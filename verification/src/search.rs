//! The search: negamax with alpha-beta pruning, a quiescence search at the
//! horizon, move ordering and a transposition table.

use vstd::prelude::*;
use crate::board::Board;
use crate::board::Position;
use crate::evaluation::evaluate_position;
use crate::laws::law_undo_restores;
use crate::minimax::best_legal_line;
use crate::minimax::line_value;
use crate::minimax::lines_searched;
use crate::minimax::search_value;
use crate::movegen::all_legal;
use crate::quiescence::quiescence_value;
use crate::search_run::node_run;
use crate::search_run::node_tries;
use crate::search_run::quiescence_run;
use crate::search_run::reply_run;
use crate::search_run::root_run;
use crate::search_run::root_tries;
use crate::search_run::search_start;
use crate::search_run::quiescence_tries;
use crate::search_run::run_left;
use crate::search_run::saturated;
use crate::quiescence::reply_value;
use crate::quiescence::searched;
use crate::quiescence::within_window;
use crate::search_types::SearchResult;
use crate::search_types::{MATE_SCORE, PIECE_VALUES};
use crate::transposition::NodeType;
use crate::transposition::TranspositionTable;
use crate::types::is_empty;
use crate::types::piece_type;
use crate::types::piece_valid;
use crate::types::spec_piece_type;
use crate::types::{GameStatus, Move, Piece};
use crate::types::{EMPTY, PAWN};
use crate::validation::in_check;

verus! {

/// A line is extended by no more than this many plies in all.
pub const MAX_EXTENSIONS: i32 = 1;

/// The quiescence search goes no deeper than this.
pub const MAX_QS_DEPTH: i32 = 4;

/// No line of the main search is longer than this many plies; the killer
/// moves are kept for as many depths.
pub const MAX_PLY: i32 = 128;

/// The clocks must be able to count this many more moves for a search:
/// the longest line of the main search and of the quiescence search after
/// it.
pub const SEARCH_CLOCK_ROOM: i32 = 134;

/// The value of a kind of piece in centipawns.
pub open spec fn kind_value(kind: u8) -> int {
    if kind < 7 {
        PIECE_VALUES[kind as int] as int
    } else {
        0
    }
}

/// A rough static exchange value of a move: nothing for a move to an empty
/// square, else the value of the piece taken less half that of the piece
/// that takes.
pub open spec fn see_value(b: Seq<Piece>, mv: Move) -> int {
    let target = b[mv.to.0 as int];
    if target == EMPTY {
        0
    } else {
        kind_value(spec_piece_type(target)) - kind_value(spec_piece_type(b[mv.from.0 as int])) / 2
    }
}

/// The plies by which the line is extended after the move `mv`, played
/// already on the squares `after`: one if the move gives check without
/// losing material or if it answered a check, within what is left of the
/// allowance; none at depth below 2.
pub open spec fn extension(
    after: Position,
    mv: Move,
    was_in_check: bool,
    extensions_used: int,
    depth: int,
) -> int {
    if extensions_used >= MAX_EXTENSIONS || depth < 2 {
        0
    } else {
        let gives = if in_check(after.squares, after.turn) && see_value(after.squares, mv) >= 0 {
            1int
        } else {
            0int
        };
        let answered = if was_in_check {
            1int
        } else {
            0int
        };
        if gives + answered <= MAX_EXTENSIONS - extensions_used {
            gives + answered
        } else {
            MAX_EXTENSIONS - extensions_used
        }
    }
}

/// The two killer moves of a depth: quiet moves that cut a search off at
/// that depth, the latest first.
pub type Killers = (Option<Move>, Option<Move>);

/// The rank of a move in the order of trial, higher first, class by class:
/// the hinted move (100000 more than its rank otherwise); then the captures
/// by the value of the piece taken less that of the piece that takes
/// (`30000 + victim - attacker`, no less than 10100); then the promotions of
/// a pawn that steps from its seventh rank (9000); then the first killer
/// move of the depth (8000) and the second (7000); then the other moves
/// (0).
pub open spec fn order_score(
    b: Seq<Piece>,
    killers: Seq<Killers>,
    mv: Move,
    depth: int,
    hint: Option<Move>,
) -> int {
    let from_piece = b[mv.from.0 as int];
    let to_piece = b[mv.to.0 as int];
    let from_rank = mv.from.0 / 8;
    let to_rank = mv.to.0 / 8;
    let base = if to_piece != EMPTY {
        30000 + kind_value(spec_piece_type(to_piece)) - kind_value(spec_piece_type(from_piece))
    } else if spec_piece_type(from_piece) == PAWN {
        if (from_rank == 6 && to_rank == 7) || (from_rank == 1 && to_rank == 0) {
            9000
        } else {
            0
        }
    } else if 0 <= depth < killers.len() {
        if killers[depth].0 == Some(mv) {
            8000int
        } else if killers[depth].1 == Some(mv) {
            7000int
        } else {
            0int
        }
    } else {
        0
    };
    if hint == Some(mv) {
        base + 100000
    } else {
        base
    }
}

/// Without a hint, a capture ranks above every move to an empty square, and
/// a promotion by a step from the seventh rank above every other move to an
/// empty square.
pub proof fn law_order_by_class(
    b: Seq<Piece>,
    killers: Seq<Killers>,
    capture: Move,
    promotion: Move,
    quiet: Move,
    depth: int,
)
    requires
        b[capture.to.0 as int] != EMPTY,
        piece_valid(b[capture.to.0 as int]),
        b[promotion.to.0 as int] == EMPTY,
        spec_piece_type(b[promotion.from.0 as int]) == PAWN,
        (promotion.from.0 / 8 == 6 && promotion.to.0 / 8 == 7) || (promotion.from.0 / 8 == 1
            && promotion.to.0 / 8 == 0),
        b[quiet.to.0 as int] == EMPTY,
        !(spec_piece_type(b[quiet.from.0 as int]) == PAWN && ((quiet.from.0 / 8 == 6 && quiet.to.0
            / 8 == 7) || (quiet.from.0 / 8 == 1 && quiet.to.0 / 8 == 0))),
    ensures
        order_score(b, killers, capture, depth, None) >= 10100,
        order_score(b, killers, promotion, depth, None) == 9000,
        order_score(b, killers, quiet, depth, None) <= 8000,
        order_score(b, killers, capture, depth, None) == 30000 + kind_value(
            spec_piece_type(b[capture.to.0 as int]),
        ) - kind_value(spec_piece_type(b[capture.from.0 as int])),
{
    let victim = spec_piece_type(b[capture.to.0 as int]);
    let attacker = spec_piece_type(b[capture.from.0 as int]);
    assert(1 <= victim <= 6);
    assert(kind_value(victim) >= 100);
    assert(kind_value(attacker) <= 20000);
}

/// Where a move of rank `key` goes into the first `n` moves of a list in
/// the order of trial: behind the last of them whose rank is no lower.
pub open spec fn trial_place(
    b: Seq<Piece>,
    killers: Seq<Killers>,
    sorted: Seq<Move>,
    key: int,
    depth: int,
    hint: Option<Move>,
    n: int,
) -> int
    decreases n,
{
    if n <= 0 {
        0
    } else if order_score(b, killers, sorted[n - 1], depth, hint) < key {
        trial_place(b, killers, sorted, key, depth, hint, n - 1)
    } else {
        n
    }
}

/// The first `n` of the moves in the order of trial: the higher rank
/// first, and of two moves of one rank the one that came first.
pub open spec fn in_trial_order(
    b: Seq<Piece>,
    killers: Seq<Killers>,
    moves: Seq<Move>,
    depth: int,
    hint: Option<Move>,
    n: int,
) -> Seq<Move>
    decreases n,
{
    if n <= 0 {
        Seq::empty()
    } else {
        let prev = in_trial_order(b, killers, moves, depth, hint, n - 1);
        prev.insert(
            trial_place(
                b,
                killers,
                prev,
                order_score(b, killers, moves[n - 1], depth, hint),
                depth,
                hint,
                prev.len() as int,
            ),
            moves[n - 1],
        )
    }
}

/// The moves are in the order of trial: no move has a lower rank than a
/// move after it.
pub open spec fn ordered(
    moves: Seq<Move>,
    b: Seq<Piece>,
    killers: Seq<Killers>,
    depth: int,
    hint: Option<Move>,
) -> bool {
    forall|i: int, j: int|
        0 <= i < j < moves.len() ==> order_score(b, killers, moves[i], depth, hint) >= order_score(
            b,
            killers,
            moves[j],
            depth,
            hint,
        )
}

/// The killer moves of a depth after the quiet move `mv` cut a search off
/// there: `mv` comes first and the former first move second, unless `mv`
/// was first already.
pub open spec fn killers_with(killers: Killers, mv: Move) -> Killers {
    if killers.0 == Some(mv) {
        killers
    } else {
        (Some(mv), killers.0)
    }
}

/// The killer moves, by depth, after the quiet move `mv` cut a search off
/// at `depth`: those of that depth take the move in, and nothing changes
/// for a depth beyond the longest line.
pub open spec fn killers_after(killers: Seq<Killers>, mv: Move, depth: int) -> Seq<Killers> {
    if 0 <= depth < MAX_PLY {
        killers.update(depth, killers_with(killers[depth], mv))
    } else {
        killers
    }
}

/// The captures among the first `n` of the moves.
pub open spec fn captures_of(b: Seq<Piece>, moves: Seq<Move>, n: int) -> Seq<Move>
    decreases n,
{
    if n <= 0 {
        Seq::empty()
    } else if b[moves[n - 1].to.0 as int] != EMPTY {
        captures_of(b, moves, n - 1).push(moves[n - 1])
    } else {
        captures_of(b, moves, n - 1)
    }
}

/// A quiet move that gives check without losing material: its destination
/// is empty, and after it the side to move is in check.
pub open spec fn safe_check(s: Position, mv: Move) -> bool {
    s.squares[mv.to.0 as int] == EMPTY && in_check(s.apply(mv).squares, s.apply(mv).turn)
        && see_value(s.apply(mv).squares, mv) >= 0
}

/// The safe checks among the first `n` of the moves.
pub open spec fn safe_checks_of(s: Position, moves: Seq<Move>, n: int) -> Seq<Move>
    decreases n,
{
    if n <= 0 {
        Seq::empty()
    } else if safe_check(s, moves[n - 1]) {
        safe_checks_of(s, moves, n - 1).push(moves[n - 1])
    } else {
        safe_checks_of(s, moves, n - 1)
    }
}

/// The moves that give check among the first `n` of the moves.
pub open spec fn checks_of(s: Position, moves: Seq<Move>, n: int) -> Seq<Move>
    decreases n,
{
    if n <= 0 {
        Seq::empty()
    } else if in_check(s.apply(moves[n - 1]).squares, s.apply(moves[n - 1]).turn) {
        checks_of(s, moves, n - 1).push(moves[n - 1])
    } else {
        checks_of(s, moves, n - 1)
    }
}

/// Those of the first `n` of `more` that do not occur in `have`.
pub open spec fn missing_from(have: Seq<Move>, more: Seq<Move>, n: int) -> Seq<Move>
    decreases n,
{
    if n <= 0 {
        Seq::empty()
    } else if !have.contains(more[n - 1]) {
        missing_from(have, more, n - 1).push(more[n - 1])
    } else {
        missing_from(have, more, n - 1)
    }
}

/// Whether the move occurs in the list.
pub fn contains_move(list: &Vec<Move>, mv: Move) -> (found: bool)
    ensures
        found == list@.contains(mv),
{
    let mut i: usize = 0;
    while i < list.len()
        invariant
            i <= list.len(),
            forall|k: int| 0 <= k < i ==> list@[k] != mv,
        decreases list.len() - i,
    {
        if list[i] == mv {
            return true;
        }
        i = i + 1;
    }
    false
}

/// The search engine: its table, its killer moves, the count of the
/// positions it has visited and the count of those that its table has
/// settled.
pub struct SearchEngine {
    pub nodes_searched: u64,
    pub table_hits: u64,
    transposition_table: TranspositionTable,
    killer_moves: Vec<Killers>,
}

impl SearchEngine {
    /// The table is in order and holds only scores that a search can
    /// return, and there are killer moves for each depth up to the
    /// longest line.
    pub closed spec fn wf(&self) -> bool {
        &&& self.transposition_table.wf()
        &&& self.transposition_table.bounded()
        &&& self.killer_moves.len() == MAX_PLY
    }

    /// The killer moves, by depth.
    pub closed spec fn killers(&self) -> Seq<Killers> {
        self.killer_moves@
    }

    /// The number of positions visited, as `nodes_searched` holds it.
    pub closed spec fn nodes(&self) -> u64 {
        self.nodes_searched
    }

    /// The number of positions that the table has settled, as `table_hits`
    /// holds it.
    pub closed spec fn hits(&self) -> u64 {
        self.table_hits
    }

    pub fn new() -> (engine: SearchEngine)
        ensures
            engine.wf(),
            engine.nodes() == 0,
            engine.hits() == 0,
            engine.cached() == Map::<u64, crate::transposition::TTEntry>::empty(),
            engine.table_age() == 0,
            engine.table_capacity() == 64 * crate::transposition::ENTRIES_PER_MB,
            engine.killers().len() == MAX_PLY,
            forall|d: int| 0 <= d < MAX_PLY ==> #[trigger] engine.killers()[d] == (None::<Move>, None::<Move>),
    {
        let mut killer_moves: Vec<Killers> = Vec::new();
        let mut i: i32 = 0;
        while i < MAX_PLY
            invariant
                0 <= i <= MAX_PLY,
                killer_moves.len() == i,
                forall|d: int| 0 <= d < i ==> #[trigger] killer_moves@[d] == (None::<Move>, None::<Move>),
            decreases MAX_PLY - i,
        {
            killer_moves.push((None, None));
            i = i + 1;
        }
        SearchEngine {
            nodes_searched: 0,
            table_hits: 0,
            transposition_table: TranspositionTable::new(64),
            killer_moves,
        }
    }

    /// Counts one more position, up to the largest count.
    fn count_node(&mut self)
        ensures
            final(self).wf() == old(self).wf(),
            final(self).killers() == old(self).killers(),
            final(self).cached() == old(self).cached(),
            final(self).limits() == old(self).limits(),
            final(self).hits() == old(self).hits(),
            final(self).nodes() == bumped(old(self).nodes()),
    {
        if self.nodes_searched < u64::MAX {
            self.nodes_searched = self.nodes_searched + 1;
        }
    }

    /// Counts one more position that the table has settled, up to the
    /// largest count.
    fn count_hit(&mut self)
        ensures
            final(self).wf() == old(self).wf(),
            final(self).killers() == old(self).killers(),
            final(self).cached() == old(self).cached(),
            final(self).limits() == old(self).limits(),
            final(self).nodes() == old(self).nodes(),
            final(self).hits() == bumped(old(self).hits()),
    {
        if self.table_hits < u64::MAX {
            self.table_hits = self.table_hits + 1;
        }
    }

    /// A rough static exchange value of the move on the board.
    fn see(&self, board: &Board, mv: Move) -> (value: i32)
        requires
            board.wf(),
            mv.valid(),
        ensures
            value == see_value(board@.squares, mv),
            -10000 <= value <= 20000,
    {
        let target_piece = board.get_piece(mv.to);
        if is_empty(target_piece) {
            return 0;
        }
        let from_piece = board.get_piece(mv.from);
        proof {
            assert(piece_valid(board@.squares[mv.to.0 as int]));
            assert(piece_valid(board@.squares[mv.from.0 as int]));
        }
        let victim_value: i32 = PIECE_VALUES[piece_type(target_piece) as usize];
        let attacker_value: i32 = PIECE_VALUES[piece_type(from_piece) as usize];
        victim_value - attacker_value / 2
    }

    /// The plies by which to extend the line after the move `mv`, which
    /// has been played on the board.
    fn calculate_extensions(
        &self,
        mv: Move,
        board: &Board,
        was_in_check: bool,
        extensions_used: i32,
        depth: i32,
    ) -> (plies: i32)
        requires
            board.wf(),
            mv.valid(),
            0 <= extensions_used <= MAX_EXTENSIONS,
        ensures
            plies == extension(board@, mv, was_in_check, extensions_used as int, depth as int),
            0 <= plies <= MAX_EXTENSIONS - extensions_used,
    {
        if extensions_used >= MAX_EXTENSIONS || depth < 2 {
            return 0;
        }
        let mut extension: i32 = 0;
        let gives_check = board.is_in_check();
        if gives_check && self.see(board, mv) >= 0 {
            extension = extension + 1;
        }
        if was_in_check {
            extension = extension + 1;
        }
        if extension <= MAX_EXTENSIONS - extensions_used {
            extension
        } else {
            MAX_EXTENSIONS - extensions_used
        }
    }

    /// The rank of a move in the order of trial.
    fn move_score(&self, board: &Board, mv: Move, depth: i32, hint: Option<Move>) -> (score: i32)
        requires
            self.wf(),
            board.wf(),
            mv.valid(),
        ensures
            score == order_score(board@.squares, self.killers(), mv, depth as int, hint),
    {
        let from_piece = board.get_piece(mv.from);
        let to_piece = board.get_piece(mv.to);
        proof {
            assert(piece_valid(board@.squares[mv.to.0 as int]));
            assert(piece_valid(board@.squares[mv.from.0 as int]));
        }
        let mut score: i32 = 0;
        if !is_empty(to_piece) {
            let victim_value: i32 = PIECE_VALUES[piece_type(to_piece) as usize];
            let attacker_value: i32 = PIECE_VALUES[piece_type(from_piece) as usize];
            score = score + 30000 + victim_value - attacker_value;
        } else if piece_type(from_piece) == PAWN {
            let from_rank = mv.from.rank();
            let to_rank = mv.to.rank();
            if (from_rank == 6 && to_rank == 7) || (from_rank == 1 && to_rank == 0) {
                score = score + 9000;
            }
        } else if depth >= 0 && depth < MAX_PLY {
            let depth_idx = depth as usize;
            let killers = self.killer_moves[depth_idx];
            let first = match killers.0 {
                Some(killer1) => killer1 == mv,
                None => false,
            };
            let second = match killers.1 {
                Some(killer2) => killer2 == mv,
                None => false,
            };
            if first {
                score = score + 8000;
            } else if second {
                score = score + 7000;
            }
        }
        match hint {
            Some(hinted) => {
                if hinted == mv {
                    score = score + 100000;
                }
            },
            None => {},
        }
        score
    }

    /// Puts the moves in the order of trial, the best ranked first.
    fn order_moves(&self, board: &Board, moves: &mut Vec<Move>, depth: i32, hint: Option<Move>)
        requires
            self.wf(),
            board.wf(),
            forall|k: int| 0 <= k < old(moves).len() ==> (#[trigger] old(moves)[k]).valid(),
        ensures
            final(moves)@ == in_trial_order(
                board@.squares,
                self.killers(),
                old(moves)@,
                depth as int,
                hint,
                old(moves).len() as int,
            ),
            final(moves)@.to_multiset() == old(moves)@.to_multiset(),
            final(moves).len() == old(moves).len(),
            ordered(final(moves)@, board@.squares, self.killers(), depth as int, hint),
            forall|m: Move| final(moves)@.contains(m) <==> old(moves)@.contains(m),
    {
        let mut sorted: Vec<Move> = Vec::new();
        let mut keys: Vec<i32> = Vec::new();
        let ghost b = board@.squares;
        let ghost killers = self.killers();
        let mut i: usize = 0;
        proof {
            assert(moves@.take(0) =~= Seq::empty());
        }
        while i < moves.len()
            invariant
                i <= moves.len(),
                moves@ == old(moves)@,
                self.wf(),
                board.wf(),
                b == board@.squares,
                killers == self.killers(),
                forall|k: int| 0 <= k < moves.len() ==> (#[trigger] moves[k]).valid(),
                sorted.len() == i,
                keys.len() == i,
                sorted@ == in_trial_order(b, killers, moves@, depth as int, hint, i as int),
                sorted@.to_multiset() == moves@.take(i as int).to_multiset(),
                forall|k: int|
                    0 <= k < i ==> #[trigger] keys@[k] == order_score(
                        b,
                        killers,
                        sorted@[k],
                        depth as int,
                        hint,
                    ),
                forall|x: int, y: int| 0 <= x < y < i ==> keys@[x] >= keys@[y],
            decreases moves.len() - i,
        {
            let mv = moves[i];
            let key = self.move_score(board, mv, depth, hint);
            let mut pos: usize = sorted.len();
            while pos > 0 && keys[pos - 1] < key
                invariant
                    pos <= keys.len(),
                    keys.len() == i,
                    sorted.len() == i,
                    forall|k: int| pos <= k < keys.len() ==> keys@[k] < key,
                    forall|k: int|
                        0 <= k < i ==> #[trigger] keys@[k] == order_score(
                            b,
                            killers,
                            sorted@[k],
                            depth as int,
                            hint,
                        ),
                    trial_place(b, killers, sorted@, key as int, depth as int, hint, i as int)
                        == trial_place(
                        b,
                        killers,
                        sorted@,
                        key as int,
                        depth as int,
                        hint,
                        pos as int,
                    ),
                decreases pos,
            {
                proof {
                    assert(keys@[pos - 1] == order_score(
                        b,
                        killers,
                        sorted@[pos - 1],
                        depth as int,
                        hint,
                    ));
                }
                pos = pos - 1;
            }
            proof {
                if pos > 0 {
                    assert(keys@[pos - 1] == order_score(
                        b,
                        killers,
                        sorted@[pos - 1],
                        depth as int,
                        hint,
                    ));
                }
                assert(trial_place(
                    b,
                    killers,
                    sorted@,
                    key as int,
                    depth as int,
                    hint,
                    pos as int,
                ) == pos);
            }
            proof {
                vstd::seq_lib::to_multiset_insert(sorted@, pos as int, mv);
                vstd::seq_lib::to_multiset_build(moves@.take(i as int), mv);
                assert(moves@.take(i as int).push(mv) =~= moves@.take(i + 1));
            }
            sorted.insert(pos, mv);
            keys.insert(pos, key);
            i = i + 1;
        }
        proof {
            assert(moves@.take(moves.len() as int) =~= moves@);
            assert forall|m: Move| sorted@.contains(m) <==> moves@.contains(m) by {
                vstd::seq_lib::to_multiset_contains(sorted@, m);
                vstd::seq_lib::to_multiset_contains(moves@, m);
            }
            vstd::seq_lib::to_multiset_len(sorted@);
            vstd::seq_lib::to_multiset_len(moves@);
            assert forall|x: int, y: int| 0 <= x < y < sorted.len() implies order_score(
                b,
                killers,
                sorted@[x],
                depth as int,
                hint,
            ) >= order_score(b, killers, sorted@[y], depth as int, hint) by {
                assert(keys@[x] >= keys@[y]);
            }
        }
        *moves = sorted;
    }

    /// The legal moves that capture on their destination.
    fn get_capture_moves(&self, board: &Board) -> (captures: Vec<Move>)
        requires
            board.wf(),
        ensures
            captures@ == captures_of(
                board@.squares,
                board@.all_legal_moves(),
                board@.all_legal_moves().len() as int,
            ),
            all_legal(board@, captures@),
    {
        let moves = board.get_all_legal_moves();
        let mut captures: Vec<Move> = Vec::new();
        let mut i: usize = 0;
        while i < moves.len()
            invariant
                i <= moves.len(),
                board.wf(),
                moves@ == board@.all_legal_moves(),
                all_legal(board@, moves@),
                captures@ == captures_of(board@.squares, moves@, i as int),
                all_legal(board@, captures@),
            decreases moves.len() - i,
        {
            let mv = moves[i];
            proof {
                assert(board@.is_legal(mv));
            }
            let to_piece = board.get_piece(mv.to);
            if !is_empty(to_piece) {
                captures.push(mv);
            }
            i = i + 1;
        }
        captures
    }

    /// Notes a quiet move that cut a search off at `depth` as the first
    /// killer move of that depth.
    fn store_killer_move(&mut self, mv: Move, depth: i32)
        requires
            old(self).wf(),
        ensures
            final(self).wf(),
            final(self).nodes() == old(self).nodes(),
            final(self).hits() == old(self).hits(),
            final(self).cached() == old(self).cached(),
            final(self).table_age() == old(self).table_age(),
            final(self).table_capacity() == old(self).table_capacity(),
            final(self).killers() == killers_after(old(self).killers(), mv, depth as int),
    {
        if depth < 0 || depth >= MAX_PLY {
            return ;
        }
        let depth_idx = depth as usize;
        let current = self.killer_moves[depth_idx];
        match current.0 {
            Some(first_killer) => {
                if first_killer == mv {
                    proof {
                        assert(self.killer_moves@ =~= self.killer_moves@.update(
                            depth as int,
                            current,
                        ));
                    }
                    return ;
                }
            },
            None => {},
        }
        self.killer_moves[depth_idx] = (Some(mv), current.0);
    }
}

/// Moves drawn from a list of legal moves are legal.
pub proof fn lemma_all_legal_subset(s: Position, all: Seq<Move>, some: Seq<Move>)
    requires
        all_legal(s, all),
        forall|m: Move| some.contains(m) ==> all.contains(m),
    ensures
        all_legal(s, some),
{
    assert forall|k: int| 0 <= k < some.len() implies s.is_legal(#[trigger] some[k])
        && some[k].valid() by {
        assert(some.contains(some[k]));
        let j = choose|j: int| 0 <= j < all.len() && all[j] == some[k];
        assert(s.is_legal(all[j]));
    }
}

/// Moves drawn from two lists of legal moves are legal.
pub proof fn lemma_all_legal_union(s: Position, a: Seq<Move>, b: Seq<Move>, some: Seq<Move>)
    requires
        all_legal(s, a),
        all_legal(s, b),
        forall|m: Move| some.contains(m) ==> a.contains(m) || b.contains(m),
    ensures
        all_legal(s, some),
{
    assert forall|k: int| 0 <= k < some.len() implies s.is_legal(#[trigger] some[k])
        && some[k].valid() by {
        assert(some.contains(some[k]));
        if a.contains(some[k]) {
            let j = choose|j: int| 0 <= j < a.len() && a[j] == some[k];
            assert(s.is_legal(a[j]));
        } else {
            let j = choose|j: int| 0 <= j < b.len() && b[j] == some[k];
            assert(s.is_legal(b[j]));
        }
    }
}

/// A score that a search can return.
pub open spec fn is_score(score: i32) -> bool {
    -MATE_SCORE <= score <= MATE_SCORE
}

/// A bound of a search window: a score, or one step beyond the scores.
pub open spec fn is_window_bound(bound: i32) -> bool {
    -MATE_SCORE - 1 <= bound <= MATE_SCORE + 1
}

impl SearchEngine {
    /// What the table holds.
    pub closed spec fn cached(&self) -> Map<u64, crate::transposition::TTEntry> {
        self.transposition_table@
    }

    /// The number of the search for which the table stores.
    pub closed spec fn table_age(&self) -> u8 {
        self.transposition_table.spec_age()
    }

    /// The number of entries at which the table drops old entries.
    pub closed spec fn table_capacity(&self) -> usize {
        self.transposition_table.capacity()
    }

    /// The number of the table's search and its capacity.
    pub open spec fn limits(&self) -> (u8, usize) {
        (self.table_age(), self.table_capacity())
    }

    /// What the engine holds.
    pub open spec fn state(&self) -> EngineState {
        EngineState {
            cached: self.cached(),
            age: self.table_age(),
            capacity: self.table_capacity(),
            killers: self.killers(),
            nodes: self.nodes(),
            hits: self.hits(),
        }
    }

    /// The quiet legal moves that give check without losing material. Each
    /// candidate is played on the board and taken back.
    fn get_safe_checking_moves(&self, board: &mut Board) -> (checks: Vec<Move>)
        requires
            old(board).wf(),
            old(board)@.status is InProgress,
            old(board)@.clock_room() >= 1,
        ensures
            final(board).wf(),
            final(board)@ == old(board)@,
            checks@ == safe_checks_of(
                old(board)@,
                old(board)@.all_legal_moves(),
                old(board)@.all_legal_moves().len() as int,
            ),
            all_legal(old(board)@, checks@),
    {
        let moves = board.get_all_legal_moves();
        let mut checks: Vec<Move> = Vec::new();
        let ghost start = board@;
        let mut i: usize = 0;
        while i < moves.len()
            invariant
                i <= moves.len(),
                board.wf(),
                board@ == start,
                start == old(board)@,
                start.status is InProgress,
                start.clock_room() >= 1,
                moves@ == start.all_legal_moves(),
                all_legal(start, moves@),
                checks@ == safe_checks_of(start, moves@, i as int),
                all_legal(start, checks@),
            decreases moves.len() - i,
        {
            let mv = moves[i];
            proof {
                assert(start.is_legal(mv));
            }
            let to_piece = board.get_piece(mv.to);
            if is_empty(to_piece) {
                match board.try_make_move(mv) {
                    Ok(_) => {
                        let gives_check = board.is_in_check() && self.see(board, mv) >= 0;
                        let _undone = board.undo_move();
                        proof {
                            law_undo_restores(start, mv);
                        }
                        if gives_check {
                            checks.push(mv);
                        }
                    },
                    Err(_) => {},
                }
            }
            i = i + 1;
        }
        checks
    }

    /// The legal moves that give check. Each move is played on the board
    /// and taken back.
    pub fn get_checking_moves(&self, board: &mut Board) -> (checks: Vec<Move>)
        requires
            old(board).wf(),
            old(board)@.status is InProgress,
            old(board)@.clock_room() >= 1,
        ensures
            final(board).wf(),
            final(board)@ == old(board)@,
            checks@ == checks_of(
                old(board)@,
                old(board)@.all_legal_moves(),
                old(board)@.all_legal_moves().len() as int,
            ),
    {
        let moves = board.get_all_legal_moves();
        let mut checks: Vec<Move> = Vec::new();
        let ghost start = board@;
        let mut i: usize = 0;
        while i < moves.len()
            invariant
                i <= moves.len(),
                board.wf(),
                board@ == start,
                start == old(board)@,
                start.status is InProgress,
                start.clock_room() >= 1,
                moves@ == start.all_legal_moves(),
                all_legal(start, moves@),
                checks@ == checks_of(start, moves@, i as int),
            decreases moves.len() - i,
        {
            let mv = moves[i];
            proof {
                assert(start.is_legal(mv));
            }
            match board.try_make_move(mv) {
                Ok(_) => {
                    let gives_check = board.is_in_check();
                    let _undone = board.undo_move();
                    proof {
                        law_undo_restores(start, mv);
                    }
                    if gives_check {
                        checks.push(mv);
                    }
                },
                Err(_) => {},
            }
            i = i + 1;
        }
        checks
    }

    /// Appends to `moves` those of `more` that it does not hold yet.
    fn add_missing(moves: &mut Vec<Move>, more: &Vec<Move>)
        ensures
            final(moves)@ == old(moves)@ + missing_from(old(moves)@, more@, more.len() as int),
            forall|m: Move|
                final(moves)@.contains(m) ==> old(moves)@.contains(m) || more@.contains(m),
    {
        let mut i: usize = 0;
        let ghost have = moves@;
        let mut extra: Vec<Move> = Vec::new();
        while i < more.len()
            invariant
                i <= more.len(),
                moves@ == have,
                have == old(moves)@,
                extra@ == missing_from(have, more@, i as int),
                forall|m: Move| extra@.contains(m) ==> more@.contains(m),
            decreases more.len() - i,
        {
            let mv = more[i];
            let ghost before = extra@;
            if !contains_move(moves, mv) {
                extra.push(mv);
                proof {
                    assert forall|m: Move| extra@.contains(m) implies more@.contains(m) by {
                        crate::seqs::lemma_contains_push(before, mv, m);
                        if m == mv {
                            assert(more@[i as int] == m);
                        }
                    }
                }
            }
            i = i + 1;
        }
        let mut j: usize = 0;
        while j < extra.len()
            invariant
                j <= extra.len(),
                moves@ == have + extra@.take(j as int),
            decreases extra.len() - j,
        {
            moves.push(extra[j]);
            j = j + 1;
            proof {
                assert(moves@ =~= have + extra@.take(j as int));
            }
        }
        proof {
            assert(extra@.take(extra.len() as int) =~= extra@);
            assert forall|m: Move| moves@.contains(m) implies have.contains(m) || more@.contains(
                m,
            ) by {
                crate::seqs::lemma_contains_concat(have, extra@, m);
            }
        }
    }

    /// The moves that the quiescence search tries, in the order of trial.
    /// The board is given back as it was.
    fn quiescence_moves(&self, board: &mut Board, in_check: bool, qs_depth: i32) -> (moves: Vec<Move>)
        requires
            self.wf(),
            old(board).wf(),
            old(board)@.status is InProgress,
            old(board)@.clock_room() >= 1,
        ensures
            final(board).wf(),
            final(board)@ == old(board)@,
            moves@.to_multiset() == tactical_moves(old(board)@, in_check, qs_depth as int).to_multiset(),
            forall|m: Move|
                moves@.contains(m) <==> tactical_moves(
                    old(board)@,
                    in_check,
                    qs_depth as int,
                ).contains(m),
            moves.len() == tactical_moves(old(board)@, in_check, qs_depth as int).len(),
            moves@ == in_trial_order(
                old(board)@.squares,
                self.killers(),
                tactical_moves(old(board)@, in_check, qs_depth as int),
                0,
                None,
                tactical_moves(old(board)@, in_check, qs_depth as int).len() as int,
            ),
            ordered(moves@, old(board)@.squares, self.killers(), 0, None),
            all_legal(old(board)@, moves@),
            old(board)@.all_legal_moves().len() == 0 ==> moves.len() == 0,
    {
        let ghost start = board@;
        let mut tactical = if in_check {
            board.get_all_legal_moves()
        } else {
            self.get_capture_moves(board)
        };
        if !in_check && qs_depth == 0 {
            let checking_moves = self.get_safe_checking_moves(board);
            let ghost before = tactical@;
            SearchEngine::add_missing(&mut tactical, &checking_moves);
            proof {
                lemma_all_legal_union(start, before, checking_moves@, tactical@);
            }
        }
        let ghost unordered = tactical@;
        self.order_moves(board, &mut tactical, 0, None);
        proof {
            tactical@.to_multiset_ensures();
            unordered.to_multiset_ensures();
            lemma_all_legal_subset(start, unordered, tactical@);
            if start.all_legal_moves().len() == 0 {
                if tactical.len() > 0 {
                    assert(start.is_legal(tactical[0]));
                    crate::laws::law_all_legal_moves_are_the_legal_moves(start, tactical[0]);
                }
            }
        }
        tactical
    }

    /// The quiescence search: the static evaluation, improved by the
    /// captures (and, at its first ply, the safe checks) that do not lose
    /// material, down to a fixed depth. The score is seen from the side to
    /// move. Within a window whose lower bound lies below its upper bound,
    /// pruning does not change what the search finds: a score inside the
    /// window is the value that a search of every line gives, a score at
    /// or above `beta` is a lower bound of that value and a score at or
    /// below `alpha` an upper bound; within the widest window the score is
    /// the value. Where the side to move is not in check, the score is no
    /// less than the evaluation. The score and the positions counted are
    /// those of `quiescence_run`; the table and the killer moves are left
    /// alone. The board is given back as it was.
    pub fn quiescence_search(&mut self, board: &mut Board, alpha: i32, beta: i32, qs_depth: i32) -> (score:
        i32)
        requires
            old(self).wf(),
            old(board).wf(),
            old(board)@.status is InProgress,
            old(board)@.clock_room() >= MAX_QS_DEPTH + 2 - qs_depth,
            0 <= qs_depth <= MAX_QS_DEPTH + 1,
            is_window_bound(alpha),
            is_window_bound(beta),
        ensures
            final(self).wf(),
            score == quiescence_run(old(board)@, old(self).killers(), alpha, beta, qs_depth as int).0,
            final(self).nodes() == saturated(
                old(self).nodes(),
                quiescence_run(old(board)@, old(self).killers(), alpha, beta, qs_depth as int).1,
            ),
            final(self).nodes() >= bumped(old(self).nodes()),
            qs_depth > MAX_QS_DEPTH || tactical_moves(
                old(board)@,
                in_check(old(board)@.squares, old(board)@.turn),
                qs_depth as int,
            ).len() == 0 ==> final(self).nodes() == bumped(old(self).nodes()),
            final(self).hits() == old(self).hits(),
            final(self).cached() == old(self).cached(),
            final(self).killers() == old(self).killers(),
            final(self).limits() == old(self).limits(),
            final(board).wf(),
            final(board)@ == old(board)@,
            is_score(score),
            old(board)@.all_legal_moves().len() == 0 ==> score == crate::evaluation::spec_evaluate(
                old(board)@,
            ),
            !in_check(old(board)@.squares, old(board)@.turn) ==> score
                >= crate::evaluation::spec_evaluate(old(board)@),
            alpha < beta ==> within_window(
                score as int,
                quiescence_value(old(board)@, qs_depth as int),
                alpha as int,
                beta as int,
            ),
            alpha < -MATE_SCORE && beta > MATE_SCORE ==> score == quiescence_value(
                old(board)@,
                qs_depth as int,
            ),
        decreases MAX_QS_DEPTH + 1 - qs_depth, 1nat,
    {
        self.count_node();
        if qs_depth > MAX_QS_DEPTH {
            return evaluate_position(board);
        }
        let checked = board.is_in_check();
        let stand_pat: i32 = if checked {
            -MATE_SCORE
        } else {
            evaluate_position(board)
        };
        let ghost start = board@;
        proof {
            crate::quiescence::lemma_quiescence_value(start, qs_depth as int);
        }
        let mut lower: i32 = alpha;
        if !checked {
            if stand_pat >= beta {
                return stand_pat;
            }
            if stand_pat > lower {
                lower = stand_pat;
            }
        }
        let moves = self.quiescence_moves(board, checked, qs_depth);
        proof {
            if alpha < beta {
                crate::quiescence::lemma_search_start(
                    start,
                    moves@,
                    qs_depth as int,
                    alpha as int,
                    beta as int,
                );
            }
        }
        let ghost counted = self.nodes();
        let ghost first_lower = lower;
        let ghost killers = self.killers();
        let ghost whole = quiescence_tries(
            start,
            killers,
            moves@,
            0,
            first_lower,
            beta,
            stand_pat,
            qs_depth as int,
        );
        proof {
            if moves.len() == 0 {
                crate::search_run::lemma_quiescence_tries_end(
                    start,
                    killers,
                    moves@,
                    first_lower,
                    beta,
                    stand_pat,
                    qs_depth as int,
                );
            }
        }
        let big_delta: i32 = 900;
        if !checked && stand_pat + big_delta < lower && moves.len() == 0 {
            proof {
                if alpha < beta {
                    crate::quiescence::lemma_search_end(
                        start,
                        moves@,
                        qs_depth as int,
                        alpha as int,
                        beta as int,
                        lower as int,
                        stand_pat as int,
                    );
                }
            }
            return stand_pat;
        }
        let mut best_score: i32 = stand_pat;
        let mut i: usize = 0;
        while i < moves.len()
            invariant
                i <= moves.len(),
                self.wf(),
                self.nodes() >= bumped(old(self).nodes()),
                moves.len() == 0 ==> self.nodes() == bumped(old(self).nodes()),
                moves.len() == tactical_moves(start, checked, qs_depth as int).len(),
                counted == bumped(old(self).nodes()),
                killers == old(self).killers(),
                whole == quiescence_tries(
                    start,
                    killers,
                    moves@,
                    0,
                    first_lower,
                    beta,
                    stand_pat,
                    qs_depth as int,
                ),
                quiescence_run(start, killers, alpha, beta, qs_depth as int) == (
                    whole.0,
                    (whole.1 + 1) as nat,
                ),
                run_left(
                    self.nodes(),
                    quiescence_tries(
                        start,
                        killers,
                        moves@,
                        i as int,
                        lower,
                        beta,
                        best_score,
                        qs_depth as int,
                    ),
                    counted,
                    whole,
                ),
                self.hits() == old(self).hits(),
                self.cached() == old(self).cached(),
                self.killers() == old(self).killers(),
                self.limits() == old(self).limits(),
                best_score >= stand_pat,
                !checked ==> stand_pat == crate::evaluation::spec_evaluate(start) && stand_pat
                    < beta,
                board.wf(),
                board@ == start,
                start == old(board)@,
                start.status is InProgress,
                start.clock_room() >= MAX_QS_DEPTH + 2 - qs_depth,
                0 <= qs_depth <= MAX_QS_DEPTH,
                all_legal(start, moves@),
                is_window_bound(alpha),
                is_window_bound(lower),
                is_window_bound(beta),
                is_score(best_score),
                start.all_legal_moves().len() == 0 ==> moves.len() == 0 && best_score
                    == crate::evaluation::spec_evaluate(start),
                checked == in_check(start.squares, start.turn),
                forall|m: Move|
                    moves@.contains(m) <==> tactical_moves(start, checked, qs_depth as int).contains(
                        m,
                    ),
                alpha < beta ==> searched(
                    start,
                    moves@,
                    i as int,
                    qs_depth as int,
                    alpha as int,
                    beta as int,
                    lower as int,
                    best_score as int,
                ),
            decreases moves.len() - i,
        {
            let mv = moves[i];
            proof {
                assert(start.is_legal(mv));
                assert(moves@.contains(moves@[i as int]));
            }
            if self.see(board, mv) >= 0 {
                let ghost nodes_before = self.nodes();
                let reply = self.quiescence_reply(board, mv, lower, beta, qs_depth);
                match reply {
                    Some(score) => {
                        proof {
                            crate::search_run::lemma_quiescence_tries_step(
                                start,
                                killers,
                                moves@,
                                i as int,
                                lower,
                                beta,
                                best_score,
                                qs_depth as int,
                                nodes_before,
                                self.nodes(),
                                counted,
                                whole,
                            );
                            if alpha < beta {
                                crate::quiescence::lemma_search_step(
                                    start,
                                    moves@,
                                    i as int,
                                    qs_depth as int,
                                    alpha as int,
                                    beta as int,
                                    lower as int,
                                    best_score as int,
                                    score as int,
                                );
                            }
                        }
                        if score > best_score {
                            best_score = score;
                        }
                        if score >= beta {
                            return score;
                        }
                        if score > lower {
                            lower = score;
                        }
                    },
                    None => {},
                }
            } else {
                proof {
                    crate::search_run::lemma_quiescence_tries_pass(
                        start,
                        killers,
                        moves@,
                        i as int,
                        lower,
                        beta,
                        best_score,
                        qs_depth as int,
                    );
                    if alpha < beta {
                        crate::quiescence::lemma_search_skip(
                            start,
                            moves@,
                            i as int,
                            qs_depth as int,
                            alpha as int,
                            beta as int,
                            lower as int,
                            best_score as int,
                        );
                    }
                }
            }
            i = i + 1;
        }
        proof {
            crate::search_run::lemma_quiescence_tries_end(
                start,
                killers,
                moves@,
                lower,
                beta,
                best_score,
                qs_depth as int,
            );
            if alpha < beta {
                crate::quiescence::lemma_search_end(
                    start,
                    moves@,
                    qs_depth as int,
                    alpha as int,
                    beta as int,
                    lower as int,
                    best_score as int,
                );
            }
        }
        best_score
    }

    /// The score of the move `mv` for the side to move, by a quiescence
    /// search of the position after it: the move is played, the reply
    /// searched, and the move taken back.
    fn quiescence_reply(&mut self, board: &mut Board, mv: Move, alpha: i32, beta: i32, qs_depth: i32) -> (score:
        Option<i32>)
        requires
            old(self).wf(),
            old(board).wf(),
            old(board)@.status is InProgress,
            old(board)@.clock_room() >= MAX_QS_DEPTH + 2 - qs_depth,
            old(board)@.is_legal(mv),
            0 <= qs_depth <= MAX_QS_DEPTH,
            is_window_bound(alpha),
            is_window_bound(beta),
        ensures
            final(self).wf(),
            final(self).nodes() >= old(self).nodes(),
            final(self).hits() == old(self).hits(),
            final(self).cached() == old(self).cached(),
            final(self).killers() == old(self).killers(),
            final(self).limits() == old(self).limits(),
            final(board).wf(),
            final(board)@ == old(board)@,
            score is Some,
            is_score(score.unwrap()),
            score.unwrap() == -quiescence_run(
                old(board)@.apply(mv),
                old(self).killers(),
                (-beta) as i32,
                (-alpha) as i32,
                qs_depth + 1,
            ).0,
            final(self).nodes() == saturated(
                old(self).nodes(),
                quiescence_run(
                    old(board)@.apply(mv),
                    old(self).killers(),
                    (-beta) as i32,
                    (-alpha) as i32,
                    qs_depth + 1,
                ).1,
            ),
            alpha < beta ==> within_window(
                score.unwrap() as int,
                reply_value(old(board)@, mv, qs_depth as int),
                alpha as int,
                beta as int,
            ),
        decreases MAX_QS_DEPTH + 1 - qs_depth, 0nat,
    {
        let ghost start = board@;
        proof {
            crate::movegen::law_legal_is_valid(start, mv);
        }
        match board.try_make_move(mv) {
            Ok(_) => {
                let reply = self.quiescence_search(board, -beta, -alpha, qs_depth + 1);
                let _undone = board.undo_move();
                proof {
                    law_undo_restores(start, mv);
                    if alpha < beta {
                        crate::quiescence::lemma_reply_window(
                            reply as int,
                            quiescence_value(start.apply(mv), qs_depth + 1),
                            alpha as int,
                            beta as int,
                        );
                    }
                }
                Some(-reply)
            },
            Err(_) => None,
        }
    }
}

impl SearchEngine {
    /// Notes that the move `mv` cut the search of a position off: a quiet
    /// move becomes a killer move of the depth, and the table takes the
    /// score as a lower bound.
    fn note_cutoff(
        &mut self,
        board: &Board,
        mv: Move,
        hash: u64,
        depth: i32,
        best_score: i32,
        best_move: Option<Move>,
    )
        requires
            old(self).wf(),
            mv.valid(),
            is_score(best_score),
        ensures
            final(self).wf(),
            final(self).nodes() == old(self).nodes(),
            final(self).hits() == old(self).hits(),
            final(self).killers() == (if board@.piece_at(mv.to) == EMPTY {
                killers_after(old(self).killers(), mv, depth as int)
            } else {
                old(self).killers()
            }),
            final(self).cached() == crate::transposition::stored(
                old(self).cached(),
                old(self).table_age(),
                old(self).table_capacity(),
                hash,
                depth,
                best_score,
                best_move,
                NodeType::LowerBound,
            ),
            final(self).table_age() == old(self).table_age(),
            final(self).table_capacity() == old(self).table_capacity(),
    {
        let to_piece = board.get_piece(mv.to);
        if is_empty(to_piece) {
            self.store_killer_move(mv, depth);
        }
        self.transposition_table.store(hash, depth, best_score, best_move, NodeType::LowerBound);
    }

    /// The score of the move `mv` for the side to move, by a search of the
    /// position after it: the move is played, the reply searched to the
    /// depth left (one ply more if the line is extended), and the move
    /// taken back.
    fn alphabeta_reply(
        &mut self,
        board: &mut Board,
        mv: Move,
        depth: i32,
        alpha: i32,
        beta: i32,
        was_in_check: bool,
        extensions_used: i32,
        ply: i32,
        extend: bool,
    ) -> (score: Option<i32>)
        requires
            old(self).wf(),
            old(board).wf(),
            old(board)@.status is InProgress,
            old(board)@.is_legal(mv),
            0 <= ply < MAX_PLY,
            0 <= extensions_used <= MAX_EXTENSIONS,
            depth + ply >= 0,
            old(board)@.clock_room() >= (MAX_PLY - ply) + MAX_QS_DEPTH + 2,
            is_window_bound(alpha),
            is_window_bound(beta),
            extend ==> was_in_check == in_check(old(board)@.squares, old(board)@.turn),
        ensures
            final(self).wf(),
            final(self).nodes() >= old(self).nodes(),
            final(self).hits() >= old(self).hits(),
            final(self).limits() == old(self).limits(),
            (score.unwrap(), final(self).state()) == reply_run(
                old(board)@,
                old(self).state(),
                mv,
                depth,
                alpha,
                beta,
                was_in_check,
                extensions_used,
                ply,
                extend,
            ),
            !extend && depth <= 1 && quiet(old(board)@.apply(mv)) ==> final(self).nodes()
                <= old(self).nodes() + 2,
            final(board).wf(),
            final(board)@ == old(board)@,
            score is Some,
            is_score(score.unwrap()),
            counted(old(self).nodes(), final(self).nodes()),
            alpha < beta && no_hit(old(self).hits(), final(self).hits()) ==> within_window(
                score.unwrap() as int,
                line_value(
                    old(board)@,
                    mv,
                    depth as int,
                    extensions_used as int,
                    ply as int,
                    extend,
                ),
                alpha as int,
                beta as int,
            ),
        decreases MAX_PLY - ply, 0nat,
    {
        let ghost start = board@;
        proof {
            crate::movegen::law_legal_is_valid(start, mv);
        }
        match board.try_make_move(mv) {
            Ok(_) => {
                let extension: i32 = if extend {
                    self.calculate_extensions(mv, board, was_in_check, extensions_used, depth)
                } else {
                    0
                };
                let new_depth: i32 = depth - 1 + extension;
                let new_extensions: i32 = extensions_used + extension;
                let reply = self.alphabeta(board, new_depth, -beta, -alpha, new_extensions, ply + 1);
                let _undone = board.undo_move();
                proof {
                    law_undo_restores(start, mv);
                    if alpha < beta && no_hit(old(self).hits(), self.hits()) {
                        crate::quiescence::lemma_reply_window(
                            reply as int,
                            search_value(
                                start.apply(mv),
                                new_depth as int,
                                new_extensions as int,
                                ply + 1,
                            ),
                            alpha as int,
                            beta as int,
                        );
                    }
                }
                Some(-reply)
            },
            Err(_) => None,
        }
    }

    /// The score of the position for the side to move, searched `depth`
    /// plies deep within the window `(alpha, beta)`. A result that the
    /// table holds and that settles the search is returned at once; at
    /// the horizon the quiescence search takes over unless the side to
    /// move is in check; a position without a legal move scores as a mate,
    /// the worse the nearer it is to the root, or as a draw. The score and
    /// what the engine holds afterwards are those of `node_run`. As long
    /// as the table settles no position of the search, pruning does not
    /// change what the search finds: the score is what a search within the
    /// window owes of the value that a search of every line gives. The
    /// board is given back as it was.
    fn alphabeta(
        &mut self,
        board: &mut Board,
        depth: i32,
        alpha: i32,
        beta: i32,
        extensions_used: i32,
        ply: i32,
    ) -> (score: i32)
        requires
            old(self).wf(),
            old(board).wf(),
            old(board)@.status is InProgress,
            0 <= ply <= MAX_PLY,
            0 <= extensions_used <= MAX_EXTENSIONS,
            depth + ply >= 0,
            old(board)@.clock_room() >= (MAX_PLY - ply) + MAX_QS_DEPTH + 2,
            is_window_bound(alpha),
            is_window_bound(beta),
        ensures
            final(self).wf(),
            final(self).nodes() >= old(self).nodes(),
            final(board).wf(),
            final(board)@ == old(board)@,
            is_score(score),
            counted(old(self).nodes(), final(self).nodes()),
            ply < MAX_PLY && old(board)@.all_legal_moves().len() == 0 && !settled(
                old(self).cached(),
                crate::transposition::zobrist_hash(old(board)@),
                depth,
                alpha,
                beta,
            ) ==> score == terminal_score(old(board)@, ply as int),
            ply < MAX_PLY && depth <= 0 && alpha < beta && !in_check(
                old(board)@.squares,
                old(board)@.turn,
            ) && !settled(
                old(self).cached(),
                crate::transposition::zobrist_hash(old(board)@),
                depth,
                alpha,
                beta,
            ) ==> within_window(
                score as int,
                quiescence_value(old(board)@, 0),
                alpha as int,
                beta as int,
            ),
            final(self).hits() >= old(self).hits(),
            final(self).limits() == old(self).limits(),
            (score, final(self).state()) == node_run(
                old(board)@,
                old(self).state(),
                depth,
                alpha,
                beta,
                extensions_used,
                ply,
            ),
            node_outcome(
                old(board)@,
                old(self).state(),
                final(self).state(),
                score,
                depth,
                alpha,
                beta,
                ply,
            ),
            alpha < beta && no_hit(old(self).hits(), final(self).hits()) ==> within_window(
                score as int,
                search_value(old(board)@, depth as int, extensions_used as int, ply as int),
                alpha as int,
                beta as int,
            ),
        decreases MAX_PLY - ply, 2nat,
    {
        self.count_node();
        if ply >= MAX_PLY {
            return evaluate_position(board);
        }
        let hash = self.transposition_table.get_hash(board);
        match self.probe_score(hash, depth, alpha, beta) {
            Some(cached_score) => {
                self.count_hit();
                return cached_score;
            },
            None => {},
        }
        let in_check = board.is_in_check();
        if depth <= 0 && !in_check {
            let eval = self.quiescence_search(board, alpha, beta, 0);
            self.store_leaf(hash, depth, eval, alpha, beta);
            return eval;
        }
        let moves = self.ordered_moves(board, hash, depth);
        if moves.len() == 0 {
            let eval: i32 = if in_check {
                -MATE_SCORE + ply
            } else {
                0
            };
            self.store_exact(hash, depth, eval);
            return eval;
        }
        self.search_moves(board, &moves, hash, depth, alpha, beta, in_check, extensions_used, ply)
    }

    /// The score that the table holds for the signature, if it settles a
    /// search of `depth` with the window `(alpha, beta)`.
    fn probe_score(&self, hash: u64, depth: i32, alpha: i32, beta: i32) -> (cached_score: Option<i32>)
        requires
            self.wf(),
        ensures
            cached_score is Some <==> settled(self.cached(), hash, depth, alpha, beta),
            cached_score is Some ==> cached_score.unwrap() == self.cached()[hash].score && is_score(
                cached_score.unwrap(),
            ),
    {
        match self.transposition_table.probe(hash, depth, alpha, beta) {
            Some(hit) => Some(hit.0),
            None => None,
        }
    }

    /// Stores an exact score for the signature, without a best move: the
    /// table takes it where it replaces what is held.
    fn store_exact(&mut self, hash: u64, depth: i32, eval: i32)
        requires
            old(self).wf(),
            is_score(eval),
        ensures
            final(self).wf(),
            final(self).nodes() == old(self).nodes(),
            final(self).hits() == old(self).hits(),
            final(self).killers() == old(self).killers(),
            final(self).cached() == crate::transposition::stored(
                old(self).cached(),
                old(self).table_age(),
                old(self).table_capacity(),
                hash,
                depth,
                eval,
                None,
                NodeType::Exact,
            ),
            final(self).table_age() == old(self).table_age(),
            final(self).table_capacity() == old(self).table_capacity(),
    {
        self.transposition_table.store(hash, depth, eval, None, NodeType::Exact);
    }

    /// Stores a score found at the horizon within the window
    /// `(alpha, beta)`, without a best move, as the kind of bound that it
    /// is within the window.
    fn store_leaf(&mut self, hash: u64, depth: i32, eval: i32, alpha: i32, beta: i32)
        requires
            old(self).wf(),
            is_score(eval),
        ensures
            final(self).wf(),
            final(self).nodes() == old(self).nodes(),
            final(self).hits() == old(self).hits(),
            final(self).killers() == old(self).killers(),
            final(self).cached() == crate::transposition::stored(
                old(self).cached(),
                old(self).table_age(),
                old(self).table_capacity(),
                hash,
                depth,
                eval,
                None,
                bound_kind(eval, alpha, beta),
            ),
            final(self).limits() == old(self).limits(),
    {
        let kind = if eval >= beta {
            NodeType::LowerBound
        } else if eval <= alpha {
            NodeType::UpperBound
        } else {
            NodeType::Exact
        };
        self.transposition_table.store(hash, depth, eval, None, kind);
    }

    /// The legal moves of the board's position in the order of trial, the
    /// move that the table holds for the signature first.
    fn ordered_moves(&self, board: &Board, hash: u64, depth: i32) -> (moves: Vec<Move>)
        requires
            self.wf(),
            board.wf(),
        ensures
            moves@ == in_trial_order(
                board@.squares,
                self.killers(),
                board@.all_legal_moves(),
                depth as int,
                hinted(self.cached(), hash),
                board@.all_legal_moves().len() as int,
            ),
            moves@.to_multiset() == board@.all_legal_moves().to_multiset(),
            moves.len() == board@.all_legal_moves().len(),
            all_legal(board@, moves@),
            forall|m: Move| moves@.contains(m) <==> board@.all_legal_moves().contains(m),
            ordered(
                moves@,
                board@.squares,
                self.killers(),
                depth as int,
                if self.cached().contains_key(hash) {
                    self.cached()[hash].best_move
                } else {
                    None
                },
            ),
    {
        let mut moves = board.get_all_legal_moves();
        let hint = self.transposition_table.probe_move(hash);
        let ghost unordered = moves@;
        self.order_moves(board, &mut moves, depth, hint);
        proof {
            lemma_all_legal_subset(board@, unordered, moves@);
        }
        moves
    }

    /// Tries the moves in turn and returns the best score: each move's
    /// reply is searched with the window narrowed by the scores found so
    /// far, and a score that reaches beta cuts the search off. The result
    /// goes into the table as a lower bound after a cut-off, as an upper
    /// bound if no move raised alpha, and as exact otherwise. As long as
    /// the table settles no position, the score is what a search within
    /// the window owes of the best of the legal moves.
    fn search_moves(
        &mut self,
        board: &mut Board,
        moves: &Vec<Move>,
        hash: u64,
        depth: i32,
        alpha: i32,
        beta: i32,
        in_check: bool,
        extensions_used: i32,
        ply: i32,
    ) -> (score: i32)
        requires
            old(self).wf(),
            old(board).wf(),
            old(board)@.status is InProgress,
            moves.len() > 0,
            all_legal(old(board)@, moves@),
            0 <= ply < MAX_PLY,
            0 <= extensions_used <= MAX_EXTENSIONS,
            depth + ply >= 0,
            old(board)@.clock_room() >= (MAX_PLY - ply) + MAX_QS_DEPTH + 2,
            is_window_bound(alpha),
            is_window_bound(beta),
            in_check == crate::validation::in_check(old(board)@.squares, old(board)@.turn),
            forall|m: Move| moves@.contains(m) <==> old(board)@.all_legal_moves().contains(m),
        ensures
            final(self).wf(),
            final(self).nodes() >= old(self).nodes(),
            final(self).hits() >= old(self).hits(),
            final(self).limits() == old(self).limits(),
            (score, final(self).state()) == node_tries(
                old(board)@,
                old(self).state(),
                moves@,
                0,
                hash,
                depth,
                alpha,
                alpha,
                beta,
                (-MATE_SCORE - 1) as i32,
                None,
                in_check,
                extensions_used,
                ply,
            ),
            final(board).wf(),
            final(board)@ == old(board)@,
            is_score(score),
            alpha < beta && no_hit(old(self).hits(), final(self).hits()) ==> within_window(
                score as int,
                best_legal_line(
                    old(board)@,
                    depth as int,
                    extensions_used as int,
                    ply as int,
                    true,
                ),
                alpha as int,
                beta as int,
            ),
        decreases MAX_PLY - ply, 1nat,
    {
        let ghost start = board@;
        let mut lower: i32 = alpha;
        let mut best_move: Option<Move> = None;
        let mut best_score: i32 = -MATE_SCORE - 1;
        let mut i: usize = 0;
        let ghost whole = node_tries(
            start,
            self.state(),
            moves@,
            0,
            hash,
            depth,
            alpha,
            alpha,
            beta,
            (-MATE_SCORE - 1) as i32,
            None,
            in_check,
            extensions_used,
            ply,
        );
        proof {
            if alpha < beta {
                crate::minimax::lemma_lines_start(
                    start,
                    moves@,
                    depth as int,
                    extensions_used as int,
                    ply as int,
                    true,
                    alpha as int,
                    beta as int,
                );
            }
        }
        while i < moves.len()
            invariant
                i <= moves.len(),
                moves.len() > 0,
                self.wf(),
                self.nodes() >= old(self).nodes(),
                board.wf(),
                board@ == start,
                start == old(board)@,
                start.status is InProgress,
                0 <= ply < MAX_PLY,
                0 <= extensions_used <= MAX_EXTENSIONS,
                depth + ply >= 0,
                start.clock_room() >= (MAX_PLY - ply) + MAX_QS_DEPTH + 2,
                all_legal(start, moves@),
                is_window_bound(alpha),
                is_window_bound(lower),
                is_window_bound(beta),
                -MATE_SCORE - 1 <= best_score <= MATE_SCORE,
                i > 0 ==> is_score(best_score),
                self.hits() >= old(self).hits(),
                self.limits() == old(self).limits(),
                whole == node_tries(
                    start,
                    old(self).state(),
                    moves@,
                    0,
                    hash,
                    depth,
                    alpha,
                    alpha,
                    beta,
                    (-MATE_SCORE - 1) as i32,
                    None,
                    in_check,
                    extensions_used,
                    ply,
                ),
                node_tries(
                    start,
                    self.state(),
                    moves@,
                    i as int,
                    hash,
                    depth,
                    alpha,
                    lower,
                    beta,
                    best_score,
                    best_move,
                    in_check,
                    extensions_used,
                    ply,
                ) == whole,
                in_check == crate::validation::in_check(start.squares, start.turn),
                forall|m: Move| moves@.contains(m) <==> start.all_legal_moves().contains(m),
                alpha < beta && no_hit(old(self).hits(), self.hits()) ==> lines_searched(
                    start,
                    moves@,
                    i as int,
                    depth as int,
                    extensions_used as int,
                    ply as int,
                    true,
                    alpha as int,
                    beta as int,
                    lower as int,
                    best_score as int,
                ),
            decreases moves.len() - i,
        {
            let mv = moves[i];
            proof {
                assert(start.is_legal(mv) && mv.valid());
                assert(moves@.contains(moves@[i as int]));
                crate::search_run::lemma_node_tries_step(
                    start,
                    self.state(),
                    moves@,
                    i as int,
                    hash,
                    depth,
                    alpha,
                    lower,
                    beta,
                    best_score,
                    best_move,
                    in_check,
                    extensions_used,
                    ply,
                );
            }
            let reply = self.alphabeta_reply(
                board,
                mv,
                depth,
                lower,
                beta,
                in_check,
                extensions_used,
                ply,
                true,
            );
            let score: i32 = reply.unwrap();
            proof {
                if alpha < beta && no_hit(old(self).hits(), self.hits()) {
                    crate::minimax::lemma_lines_step(
                        start,
                        moves@,
                        i as int,
                        depth as int,
                        extensions_used as int,
                        ply as int,
                        true,
                        alpha as int,
                        beta as int,
                        lower as int,
                        best_score as int,
                        score as int,
                    );
                }
            }
            if score > best_score {
                best_score = score;
                best_move = Some(mv);
            }
            if score > lower {
                lower = score;
            }
            if lower >= beta {
                self.note_cutoff(board, mv, hash, depth, best_score, best_move);
                return best_score;
            }
            i = i + 1;
        }
        proof {
            crate::search_run::lemma_node_tries_end(
                start,
                self.state(),
                moves@,
                hash,
                depth,
                alpha,
                lower,
                beta,
                best_score,
                best_move,
                in_check,
                extensions_used,
                ply,
            );
            if alpha < beta && no_hit(old(self).hits(), self.hits()) {
                crate::minimax::lemma_lines_end(
                    start,
                    moves@,
                    depth as int,
                    extensions_used as int,
                    ply as int,
                    true,
                    alpha as int,
                    beta as int,
                    lower as int,
                    best_score as int,
                );
            }
        }
        let node_type = if lower <= alpha {
            NodeType::UpperBound
        } else {
            NodeType::Exact
        };
        self.transposition_table.store(hash, depth, best_score, best_move, node_type);
        best_score
    }

    /// The best move of the side to move and its score, by a search of
    /// each legal move `depth` plies deep. As long as the table settles no
    /// position, the score is the best of the values of the legal moves and
    /// the best move is worth it. The board is given back as it was, with
    /// the status "in progress" if moves were tried.
    fn alphabeta_root(&mut self, board: &mut Board, depth: i32) -> (result: (Option<Move>, i32))
        requires
            old(self).wf(),
            old(board).wf(),
            depth >= 0,
            old(board)@.clock_room() >= SEARCH_CLOCK_ROOM,
        ensures
            final(self).wf(),
            final(self).nodes() >= old(self).nodes(),
            final(self).hits() >= old(self).hits(),
            final(board).wf(),
            final(self).limits() == old(self).limits(),
            (result, final(self).state()) == root_run(old(board)@, old(self).state(), depth),
            root_outcome(old(board)@, final(board)@, result),
            root_nodes(old(board)@, old(self).nodes(), final(self).nodes()),
            root_nodes_at_rest(
                old(board)@,
                depth as int,
                old(self).nodes(),
                final(self).nodes(),
            ),
            no_hit(old(self).hits(), final(self).hits()) ==> root_value(
                old(board)@,
                depth as int,
                result,
            ),
    {
        let hash = self.transposition_table.get_hash(board);
        let moves = self.ordered_moves(board, hash, depth);
        if moves.len() == 0 {
            let eval: i32 = if board.is_in_check() {
                -MATE_SCORE
            } else {
                0
            };
            return (None, eval);
        }
        let ghost first = board@;
        let playable = match board.game_status {
            GameStatus::InProgress => true,
            GameStatus::Check(_) => true,
            _ => false,
        };
        if !playable {
            return (None, -MATE_SCORE - 1);
        }
        board.update_game_status();
        let ghost start = board@;
        proof {
            assert(start == first.with_status(GameStatus::InProgress));
            assert forall|k: int| 0 <= k < moves.len() implies start.is_legal(#[trigger] moves[k])
                && moves[k].valid() by {
                crate::laws::law_legality_ignores_status(
                    first,
                    GameStatus::InProgress,
                    moves[k],
                );
            }
            assert forall|m: Move| moves@.contains(m) implies first.all_legal_moves().contains(
                m,
            ) by {}
            crate::laws::law_moves_ignore_status(first, GameStatus::InProgress);
            crate::minimax::lemma_lines_start(
                start,
                moves@,
                depth as int,
                0,
                0,
                false,
                -MATE_SCORE - 1,
                MATE_SCORE + 1,
            );
        }
        let mut best_score: i32 = -MATE_SCORE - 1;
        let mut best_move: Option<Move> = None;
        let mut alpha: i32 = -MATE_SCORE - 1;
        let beta: i32 = MATE_SCORE + 1;
        let mut i: usize = 0;
        let ghost whole = root_tries(
            start,
            self.state(),
            moves@,
            0,
            depth,
            (-MATE_SCORE - 1) as i32,
            (-MATE_SCORE - 1) as i32,
            None,
        );
        while i < moves.len()
            invariant
                i <= moves.len(),
                moves.len() > 0,
                self.wf(),
                self.nodes() >= old(self).nodes(),
                board.wf(),
                board@ == start,
                start.status is InProgress,
                depth >= 0,
                start.clock_room() >= SEARCH_CLOCK_ROOM,
                all_legal(start, moves@),
                is_window_bound(alpha),
                beta == MATE_SCORE + 1,
                -MATE_SCORE - 1 <= best_score <= MATE_SCORE,
                i == 0 ==> best_move is None && best_score == -MATE_SCORE - 1,
                i > 0 ==> is_score(best_score) && best_move is Some,
                best_move is Some ==> moves@.contains(best_move.unwrap()),
                self.nodes() >= old(self).nodes() + i || self.nodes() == u64::MAX,
                self.limits() == old(self).limits(),
                root_tries(
                    start,
                    self.state(),
                    moves@,
                    i as int,
                    depth,
                    alpha,
                    best_score,
                    best_move,
                ) == whole,
                whole == root_run(first, old(self).state(), depth),
                first == old(board)@,
                start == first.with_status(GameStatus::InProgress),
                depth <= 1 && replies_at_rest(first) ==> self.nodes() <= old(self).nodes() + 2 * i,
                self.hits() >= old(self).hits(),
                forall|m: Move| moves@.contains(m) <==> start.all_legal_moves().contains(m),
                no_hit(old(self).hits(), self.hits()) ==> lines_searched(
                    start,
                    moves@,
                    i as int,
                    depth as int,
                    0,
                    0,
                    false,
                    -MATE_SCORE - 1,
                    MATE_SCORE + 1,
                    alpha as int,
                    best_score as int,
                ),
                no_hit(old(self).hits(), self.hits()) && best_move is Some ==> line_value(
                    start,
                    best_move.unwrap(),
                    depth as int,
                    0,
                    0,
                    false,
                ) == best_score,
            decreases moves.len() - i,
        {
            let mv = moves[i];
            proof {
                assert(start.is_legal(mv) && mv.valid());
                assert(moves@.contains(moves@[i as int]));
                crate::laws::law_apply_ignores_status(first, GameStatus::InProgress, mv);
                crate::laws::law_moves_ignore_status(first, GameStatus::InProgress);
                crate::search_run::lemma_root_tries_step(
                    start,
                    self.state(),
                    moves@,
                    i as int,
                    depth,
                    alpha,
                    best_score,
                    best_move,
                );
            }
            let reply = self.alphabeta_reply(board, mv, depth, alpha, beta, false, 0, 0, false);
            let score: i32 = reply.unwrap();
            proof {
                if no_hit(old(self).hits(), self.hits()) {
                    crate::minimax::lemma_lines_step(
                        start,
                        moves@,
                        i as int,
                        depth as int,
                        0,
                        0,
                        false,
                        -MATE_SCORE - 1,
                        MATE_SCORE + 1,
                        alpha as int,
                        best_score as int,
                        score as int,
                    );
                }
            }
            if score > best_score {
                best_score = score;
                best_move = Some(mv);
                if score > alpha {
                    alpha = score;
                }
            }
            i = i + 1;
        }
        proof {
            crate::search_run::lemma_root_tries_end(
                start,
                self.state(),
                moves@,
                depth,
                alpha,
                best_score,
                best_move,
            );
            if no_hit(old(self).hits(), self.hits()) {
                crate::minimax::lemma_lines_end(
                    start,
                    moves@,
                    depth as int,
                    0,
                    0,
                    false,
                    -MATE_SCORE - 1,
                    MATE_SCORE + 1,
                    alpha as int,
                    best_score as int,
                );
            }
        }
        (best_move, best_score)
    }

    /// Searches the board's position `depth` plies deep and returns the
    /// best move found with its score. Without a legal move there is no
    /// best move, and the score is that of a mate or of a draw; with a
    /// legal move and a game that goes on, the best move is one of the
    /// legal moves. The positions visited and those that the table settled
    /// are counted from zero, and the table starts its next search. The
    /// best move, the score and what the engine holds afterwards are those
    /// of `root_run`. Where the table settled no position, the score is the
    /// best of the values of the legal moves, every line searched in full,
    /// and the best move is worth it. The board is given back as it was,
    /// with the status "in progress" if moves were tried.
    pub fn search(&mut self, board: &mut Board, depth: u32) -> (result: SearchResult)
        requires
            old(self).wf(),
            old(board).wf(),
            depth <= i32::MAX,
            old(board)@.clock_room() >= SEARCH_CLOCK_ROOM,
        ensures
            final(self).wf(),
            final(board).wf(),
            result.depth == depth,
            result.nodes_searched == final(self).nodes(),
            final(self).table_age() == old(self).table_age().wrapping_add(1),
            final(self).table_capacity() == old(self).table_capacity(),
            ((result.best_move, result.evaluation), final(self).state()) == root_run(
                old(board)@,
                search_start(old(self).state()),
                depth as i32,
            ),
            root_outcome(old(board)@, final(board)@, (result.best_move, result.evaluation)),
            root_nodes(old(board)@, 0, result.nodes_searched),
            root_nodes_at_rest(old(board)@, depth as int, 0, result.nodes_searched),
            final(self).hits() == 0 ==> root_value(
                old(board)@,
                depth as int,
                (result.best_move, result.evaluation),
            ),
    {
        self.nodes_searched = 0;
        self.table_hits = 0;
        self.transposition_table.new_search();
        let (best_move, evaluation) = self.alphabeta_root(board, depth as i32);
        SearchResult { best_move, evaluation, depth, nodes_searched: self.nodes_searched }
    }
}

/// The score of a position without a legal move, seen from the side to
/// move: a mate score if it is in check, the worse the nearer to the root,
/// and the draw score if not.
pub open spec fn terminal_score(s: Position, ply: int) -> int {
    if in_check(s.squares, s.turn) {
        -MATE_SCORE + ply
    } else {
        0
    }
}

/// A count after one more was counted: one more, up to the largest count.
pub open spec fn bumped(count: u64) -> u64 {
    if count < u64::MAX {
        (count + 1) as u64
    } else {
        count
    }
}

/// The kind of bound that a score found within the window `(alpha, beta)`
/// is: a lower bound where it reaches beta, an upper bound where it stays
/// at or below alpha, and exact between them.
pub open spec fn bound_kind(score: i32, alpha: i32, beta: i32) -> NodeType {
    if score >= beta {
        NodeType::LowerBound
    } else if score <= alpha {
        NodeType::UpperBound
    } else {
        NodeType::Exact
    }
}

/// The best move that the table holds for the signature, if any: the move
/// to try first.
pub open spec fn hinted(cached: Map<u64, crate::transposition::TTEntry>, hash: u64) -> Option<
    Move,
> {
    if cached.contains_key(hash) {
        cached[hash].best_move
    } else {
        None
    }
}

/// A position at rest: the side to move is not in check and has neither a
/// capture nor a safe check.
pub open spec fn quiet(s: Position) -> bool {
    !in_check(s.squares, s.turn) && tactical_moves(s, false, 0).len() == 0
}

/// What a search engine holds: the table with the number of its search and
/// its capacity, the killer moves, and the two counts.
pub struct EngineState {
    pub cached: Map<u64, crate::transposition::TTEntry>,
    pub age: u8,
    pub capacity: usize,
    pub killers: Seq<Killers>,
    pub nodes: u64,
    pub hits: u64,
}

/// What the search of one position does, by the way it ends. At the
/// longest line: the evaluation, one position counted. Where the table
/// settles the position: the score held, one position and one hit counted,
/// nothing else changed. At the horizon, not in check: the score of the
/// quiescence search, no less than the evaluation, entered in the table
/// with the kind of bound that it is within the window; two positions
/// counted at least, and no more where the position is at rest. Without a
/// legal move: the score of a mate or of a draw, entered as exact, one
/// position counted. Else the moves are searched, and the counts do not go
/// down.
pub open spec fn node_outcome(
    s: Position,
    before: EngineState,
    after: EngineState,
    score: i32,
    depth: i32,
    alpha: i32,
    beta: i32,
    ply: i32,
) -> bool {
    let hash = crate::transposition::zobrist_hash(s);
    &&& after.age == before.age
    &&& after.capacity == before.capacity
    &&& if ply >= MAX_PLY {
        &&& score == crate::evaluation::spec_evaluate(s)
        &&& after == (EngineState { nodes: bumped(before.nodes), ..before })
    } else if settled(before.cached, hash, depth, alpha, beta) {
        &&& score == before.cached[hash].score
        &&& after == (EngineState {
            nodes: bumped(before.nodes),
            hits: bumped(before.hits),
            ..before
        })
    } else if depth <= 0 && !in_check(s.squares, s.turn) {
        &&& score >= crate::evaluation::spec_evaluate(s)
        &&& s.all_legal_moves().len() == 0 ==> score == crate::evaluation::spec_evaluate(s)
        &&& alpha < beta ==> within_window(
            score as int,
            quiescence_value(s, 0),
            alpha as int,
            beta as int,
        )
        &&& after.hits == before.hits
        &&& after.killers == before.killers
        &&& after.cached == crate::transposition::stored(
            before.cached,
            before.age,
            before.capacity,
            hash,
            depth,
            score,
            None,
            bound_kind(score, alpha, beta),
        )
        &&& after.nodes >= bumped(bumped(before.nodes))
        &&& tactical_moves(s, false, 0).len() == 0 ==> after.nodes == bumped(bumped(before.nodes))
    } else if s.all_legal_moves().len() == 0 {
        &&& score == terminal_score(s, ply as int)
        &&& after == (EngineState {
            nodes: bumped(before.nodes),
            cached: crate::transposition::stored(
                before.cached,
                before.age,
                before.capacity,
                hash,
                depth,
                score,
                None,
                NodeType::Exact,
            ),
            ..before
        })
    } else {
        &&& after.hits >= before.hits
        &&& after.nodes >= bumped(before.nodes)
    }
}

/// The count of positions went up, unless it stands at the largest count.
pub open spec fn counted(before: u64, after: u64) -> bool {
    after > before || after == u64::MAX
}

/// The table has settled no position between two counts of its hits, the
/// first of which is not the largest count.
pub open spec fn no_hit(before: u64, after: u64) -> bool {
    after == before && before < u64::MAX
}

/// How the count of positions moves in a search from the root: it stays
/// when no move is tried, and else goes up by at least one for each legal
/// move, up to the largest count.
pub open spec fn root_nodes(before: Position, nodes_before: u64, nodes_after: u64) -> bool {
    let legal = before.all_legal_moves();
    if legal.len() == 0 || !before.status.playable() {
        nodes_after == nodes_before
    } else {
        nodes_after >= nodes_before + legal.len() || nodes_after == u64::MAX
    }
}

/// Every position after a legal move is at rest.
pub open spec fn replies_at_rest(before: Position) -> bool {
    forall|m: Move| before.all_legal_moves().contains(m) ==> quiet(#[trigger] before.apply(m))
}

/// In a search from the root of one ply or none, where every position
/// after a legal move is at rest, no more than two positions are counted
/// for each legal move: the position after it and its quiescence search.
pub open spec fn root_nodes_at_rest(
    before: Position,
    depth: int,
    nodes_before: u64,
    nodes_after: u64,
) -> bool {
    depth <= 1 && replies_at_rest(before) ==> nodes_after <= nodes_before + 2
        * before.all_legal_moves().len()
}

/// The table holds for the signature a result that settles a search of
/// `depth` with the window `(alpha, beta)`.
pub open spec fn settled(
    cached: Map<u64, crate::transposition::TTEntry>,
    hash: u64,
    depth: i32,
    alpha: i32,
    beta: i32,
) -> bool {
    cached.contains_key(hash) && crate::transposition::usable(cached[hash], depth, alpha, beta)
}

/// What a search from the root returns for the position `before`, and how
/// it leaves the board. Without a legal move: no move, the score of a mate
/// if the side to move is in check and of a draw if not, the board
/// untouched. With legal moves but a status that says that the game has
/// ended: no move, a score below every score, the board untouched. Else: a
/// best move that is one of the legal moves, a score within the scores, and
/// the board as before with the status "in progress".
pub open spec fn root_outcome(before: Position, after: Position, result: (Option<Move>, i32)) -> bool {
    let legal = before.all_legal_moves();
    if legal.len() == 0 {
        &&& after == before
        &&& result.0 is None
        &&& result.1 == (if in_check(before.squares, before.turn) {
            -MATE_SCORE
        } else {
            0
        })
    } else if !before.status.playable() {
        &&& after == before
        &&& result.0 is None
        &&& result.1 == -MATE_SCORE - 1
    } else {
        &&& after == before.with_status(GameStatus::InProgress)
        &&& result.0 is Some
        &&& legal.contains(result.0.unwrap())
        &&& before.is_legal(result.0.unwrap())
        &&& is_score(result.1)
    }
}

/// What a search from the root finds where moves are tried: the score is
/// the best of the values of the legal moves, every line searched to the
/// depth given, and the best move is worth that score.
pub open spec fn root_value(before: Position, depth: int, result: (Option<Move>, i32)) -> bool {
    let start = before.with_status(GameStatus::InProgress);
    before.all_legal_moves().len() > 0 && before.status.playable() ==> {
        &&& result.1 == best_legal_line(start, depth, 0, 0, false)
        &&& result.0 is Some
        &&& line_value(start, result.0.unwrap(), depth, 0, 0, false) == result.1
    }
}

/// The moves that the quiescence search tries: every legal move when in
/// check; otherwise the captures and, at the first ply, the safe checks
/// not among them.
pub open spec fn tactical_moves(s: Position, in_check: bool, qs_depth: int) -> Seq<Move> {
    let legal = s.all_legal_moves();
    let captures = captures_of(s.squares, legal, legal.len() as int);
    if in_check {
        legal
    } else if qs_depth == 0 {
        captures + missing_from(
            captures,
            safe_checks_of(s, legal, legal.len() as int),
            safe_checks_of(s, legal, legal.len() as int).len() as int,
        )
    } else {
        captures
    }
}

} // verus!
