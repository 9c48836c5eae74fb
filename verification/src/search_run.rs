//! What the searches return and how they leave the engine, move by move:
//! the score, the positions counted, and for the main search the table, the
//! killer moves and the hits.

use vstd::prelude::*;
use crate::board::Position;
use crate::evaluation::spec_evaluate;
use crate::search::bound_kind;
use crate::search::bumped;
use crate::search::extension;
use crate::search::hinted;
use crate::search::in_trial_order;
use crate::search::killers_after;
use crate::search::settled;
use crate::search::terminal_score;
use crate::search::EngineState;
use crate::search::MAX_PLY;
use crate::transposition::stored;
use crate::transposition::zobrist_hash;
use crate::transposition::NodeType;
use crate::types::GameStatus;
use crate::types::EMPTY;
use crate::search::see_value;
use crate::search::tactical_moves;
use crate::search::Killers;
use crate::search::MAX_QS_DEPTH;
use crate::search_types::MATE_SCORE;
use crate::types::Move;
use crate::validation::in_check;

verus! {

/// A count after `more` were counted: the sum, up to the largest count.
pub open spec fn saturated(count: u64, more: nat) -> u64 {
    if count + more > u64::MAX {
        u64::MAX
    } else {
        (count + more) as u64
    }
}

/// Counting in two steps is counting the sum.
pub proof fn lemma_saturated_twice(count: u64, a: nat, b: nat)
    ensures
        saturated(saturated(count, a), b) == saturated(count, a + b),
{
}

/// The score of the quiescence search of a position within the window
/// `(alpha, beta)` at the ply `qs_depth`, and the number of positions that
/// it visits. Beyond the last ply: the evaluation. Else the side to move
/// stands pat, which ends the search where it is not in check and standing
/// pat reaches beta, and raises the lower bound; then the tactical moves
/// are tried in the order of trial.
pub open spec fn quiescence_run(
    s: Position,
    killers: Seq<Killers>,
    alpha: i32,
    beta: i32,
    qs_depth: int,
) -> (i32, nat)
    decreases MAX_QS_DEPTH + 1 - qs_depth, 1int, 0int,
{
    let checked = in_check(s.squares, s.turn);
    let stand = if checked {
        (-MATE_SCORE) as i32
    } else {
        spec_evaluate(s) as i32
    };
    if qs_depth > MAX_QS_DEPTH {
        (spec_evaluate(s) as i32, 1)
    } else if !checked && stand >= beta {
        (stand, 1)
    } else {
        let lower = if !checked && stand > alpha {
            stand
        } else {
            alpha
        };
        let tactical = tactical_moves(s, checked, qs_depth);
        let moves = in_trial_order(s.squares, killers, tactical, 0, None, tactical.len() as int);
        let tries = quiescence_tries(s, killers, moves, 0, lower, beta, stand, qs_depth);
        (tries.0, tries.1 + 1)
    }
}

/// The score of the quiescence search from the move `i` of the list on,
/// with the lower bound and the best score reached so far, and the number
/// of positions visited from there. A move that loses material is passed
/// over; a score that reaches beta ends the search and is returned; else
/// the score raises the best score and the lower bound.
#[verifier::opaque]
pub open spec fn quiescence_tries(
    s: Position,
    killers: Seq<Killers>,
    moves: Seq<Move>,
    i: int,
    lower: i32,
    beta: i32,
    best: i32,
    qs_depth: int,
) -> (i32, nat)
    decreases MAX_QS_DEPTH + 1 - qs_depth, 0int, moves.len() - i,
{
    if i < 0 || i >= moves.len() || qs_depth > MAX_QS_DEPTH {
        (best, 0)
    } else if see_value(s.squares, moves[i]) < 0 {
        quiescence_tries(s, killers, moves, i + 1, lower, beta, best, qs_depth)
    } else {
        let reply = quiescence_run(
            s.apply(moves[i]),
            killers,
            (-beta) as i32,
            (-lower) as i32,
            qs_depth + 1,
        );
        let score = (-reply.0) as i32;
        if score >= beta {
            (score, reply.1)
        } else {
            let rest = quiescence_tries(
                s,
                killers,
                moves,
                i + 1,
                if score > lower {
                    score
                } else {
                    lower
                },
                beta,
                if score > best {
                    score
                } else {
                    best
                },
                qs_depth,
            );
            (rest.0, rest.1 + reply.1)
        }
    }
}

/// What is left of a run agrees with the whole: the score left to find is
/// the score of the whole, and the positions counted so far with those left
/// to count are those of the whole.
pub open spec fn run_left(nodes: u64, left: (i32, nat), counted: u64, all: (i32, nat)) -> bool {
    left.0 == all.0 && saturated(nodes, left.1) == saturated(counted, all.1)
}

/// When no move is left, the best score is the score and nothing more is
/// counted.
pub proof fn lemma_quiescence_tries_end(
    s: Position,
    killers: Seq<Killers>,
    moves: Seq<Move>,
    lower: i32,
    beta: i32,
    best: i32,
    qs_depth: int,
)
    ensures
        quiescence_tries(s, killers, moves, moves.len() as int, lower, beta, best, qs_depth) == (
            best,
            0nat,
        ),
{
    reveal_with_fuel(quiescence_tries, 1);
}

/// A move that loses material is passed over.
pub proof fn lemma_quiescence_tries_pass(
    s: Position,
    killers: Seq<Killers>,
    moves: Seq<Move>,
    i: int,
    lower: i32,
    beta: i32,
    best: i32,
    qs_depth: int,
)
    requires
        0 <= i < moves.len(),
        qs_depth <= MAX_QS_DEPTH,
        see_value(s.squares, moves[i]) < 0,
    ensures
        quiescence_tries(s, killers, moves, i, lower, beta, best, qs_depth) == quiescence_tries(
            s,
            killers,
            moves,
            i + 1,
            lower,
            beta,
            best,
            qs_depth,
        ),
{
    reveal_with_fuel(quiescence_tries, 1);
}

/// A move that is tried: its score ends the run where it reaches beta, and
/// else the run goes on with the score taken in.
pub proof fn lemma_quiescence_tries_step(
    s: Position,
    killers: Seq<Killers>,
    moves: Seq<Move>,
    i: int,
    lower: i32,
    beta: i32,
    best: i32,
    qs_depth: int,
    nodes: u64,
    after: u64,
    counted: u64,
    all: (i32, nat),
)
    requires
        0 <= i < moves.len(),
        qs_depth <= MAX_QS_DEPTH,
        see_value(s.squares, moves[i]) >= 0,
        run_left(
            nodes,
            quiescence_tries(s, killers, moves, i, lower, beta, best, qs_depth),
            counted,
            all,
        ),
        after == saturated(
            nodes,
            quiescence_run(
                s.apply(moves[i]),
                killers,
                (-beta) as i32,
                (-lower) as i32,
                qs_depth + 1,
            ).1,
        ),
    ensures
        ({
            let score = (-quiescence_run(
                s.apply(moves[i]),
                killers,
                (-beta) as i32,
                (-lower) as i32,
                qs_depth + 1,
            ).0) as i32;
            &&& score >= beta ==> score == all.0 && after == saturated(counted, all.1)
            &&& score < beta ==> run_left(
                after,
                quiescence_tries(
                    s,
                    killers,
                    moves,
                    i + 1,
                    if score > lower {
                        score
                    } else {
                        lower
                    },
                    beta,
                    if score > best {
                        score
                    } else {
                        best
                    },
                    qs_depth,
                ),
                counted,
                all,
            )
        }),
{
    reveal_with_fuel(quiescence_tries, 1);
}

/// The score of the search of a position `depth` plies deep within the
/// window `(alpha, beta)`, and what the engine holds after it. The position
/// is counted. At the longest line: the evaluation. Where the table settles
/// the position: the score held, and a hit is counted. At the horizon, not
/// in check: the run of the quiescence search, entered in the table with
/// the kind of bound that its score is within the window. Else the legal
/// moves are put in the order of trial, the table's move first: without a
/// move the score is that of a mate or of a draw, entered as exact; with
/// moves they are tried in turn.
pub open spec fn node_run(
    s: Position,
    e: EngineState,
    depth: i32,
    alpha: i32,
    beta: i32,
    extensions_used: i32,
    ply: i32,
) -> (i32, EngineState)
    decreases MAX_PLY - ply, 2int, 0int,
{
    let hash = zobrist_hash(s);
    let counted = EngineState { nodes: bumped(e.nodes), ..e };
    let checked = in_check(s.squares, s.turn);
    if ply >= MAX_PLY {
        (spec_evaluate(s) as i32, counted)
    } else if settled(e.cached, hash, depth, alpha, beta) {
        (e.cached[hash].score, EngineState { hits: bumped(e.hits), ..counted })
    } else if depth <= 0 && !checked {
        let run = quiescence_run(s, e.killers, alpha, beta, 0);
        (
            run.0,
            EngineState {
                nodes: saturated(counted.nodes, run.1),
                cached: stored(
                    e.cached,
                    e.age,
                    e.capacity,
                    hash,
                    depth,
                    run.0,
                    None,
                    bound_kind(run.0, alpha, beta),
                ),
                ..counted
            },
        )
    } else {
        let legal = s.all_legal_moves();
        let moves = in_trial_order(
            s.squares,
            e.killers,
            legal,
            depth as int,
            hinted(e.cached, hash),
            legal.len() as int,
        );
        if moves.len() == 0 {
            let score = terminal_score(s, ply as int) as i32;
            (
                score,
                EngineState {
                    cached: stored(
                        e.cached,
                        e.age,
                        e.capacity,
                        hash,
                        depth,
                        score,
                        None,
                        NodeType::Exact,
                    ),
                    ..counted
                },
            )
        } else {
            node_tries(
                s,
                counted,
                moves,
                0,
                hash,
                depth,
                alpha,
                alpha,
                beta,
                (-MATE_SCORE - 1) as i32,
                None,
                checked,
                extensions_used,
                ply,
            )
        }
    }
}

/// The score of the move `mv` for the side that plays it, searched within
/// the window `(alpha, beta)`, and what the engine holds after it: the
/// search of the position after the move to the depth left (one ply more
/// where the line is extended) within the window turned round, negated.
pub open spec fn reply_run(
    s: Position,
    e: EngineState,
    mv: Move,
    depth: i32,
    alpha: i32,
    beta: i32,
    was_in_check: bool,
    extensions_used: i32,
    ply: i32,
    extend: bool,
) -> (i32, EngineState)
    decreases MAX_PLY - ply, 0int, 0int,
{
    if ply >= MAX_PLY {
        (0, e)
    } else {
        let after = s.apply(mv);
        let plies = if extend {
            extension(after, mv, was_in_check, extensions_used as int, depth as int)
        } else {
            0
        };
        let reply = node_run(
            after,
            e,
            (depth - 1 + plies) as i32,
            (-beta) as i32,
            (-alpha) as i32,
            (extensions_used + plies) as i32,
            (ply + 1) as i32,
        );
        ((-reply.0) as i32, reply.1)
    }
}

/// What the engine holds after a move cut the search of a position off:
/// a quiet move has become a killer move of the depth, and the table has
/// taken the score as a lower bound.
pub open spec fn cut_off(
    s: Position,
    e: EngineState,
    mv: Move,
    hash: u64,
    depth: i32,
    best: i32,
    best_move: Option<Move>,
) -> EngineState {
    EngineState {
        killers: if s.squares[mv.to.0 as int] == EMPTY {
            killers_after(e.killers, mv, depth as int)
        } else {
            e.killers
        },
        cached: stored(
            e.cached,
            e.age,
            e.capacity,
            hash,
            depth,
            best,
            best_move,
            NodeType::LowerBound,
        ),
        ..e
    }
}

/// What the engine holds after every move of a position was tried: the
/// table has taken the best score, as an upper bound where no move raised
/// the lower bound and as exact otherwise.
pub open spec fn tried_all(
    e: EngineState,
    hash: u64,
    depth: i32,
    alpha: i32,
    lower: i32,
    best: i32,
    best_move: Option<Move>,
) -> EngineState {
    EngineState {
        cached: stored(
            e.cached,
            e.age,
            e.capacity,
            hash,
            depth,
            best,
            best_move,
            if lower <= alpha {
                NodeType::UpperBound
            } else {
                NodeType::Exact
            },
        ),
        ..e
    }
}

/// The score of the search of a position from the move `i` of the list on,
/// with the lower bound, the best score and the best move reached so far,
/// and what the engine holds after it. Each move is searched within the
/// window from the lower bound to beta; its score raises the best score
/// and the lower bound; a lower bound that reaches beta cuts the search
/// off.
#[verifier::opaque]
pub open spec fn node_tries(
    s: Position,
    e: EngineState,
    moves: Seq<Move>,
    i: int,
    hash: u64,
    depth: i32,
    alpha: i32,
    lower: i32,
    beta: i32,
    best: i32,
    best_move: Option<Move>,
    checked: bool,
    extensions_used: i32,
    ply: i32,
) -> (i32, EngineState)
    decreases MAX_PLY - ply, 1int, moves.len() - i,
{
    if ply >= MAX_PLY {
        (best, e)
    } else if i < 0 || i >= moves.len() {
        (best, tried_all(e, hash, depth, alpha, lower, best, best_move))
    } else {
        let mv = moves[i];
        let reply = reply_run(s, e, mv, depth, lower, beta, checked, extensions_used, ply, true);
        let score = reply.0;
        let best_now = if score > best {
            score
        } else {
            best
        };
        let move_now = if score > best {
            Some(mv)
        } else {
            best_move
        };
        let lower_now = if score > lower {
            score
        } else {
            lower
        };
        if lower_now >= beta {
            (best_now, cut_off(s, reply.1, mv, hash, depth, best_now, move_now))
        } else {
            node_tries(
                s,
                reply.1,
                moves,
                i + 1,
                hash,
                depth,
                alpha,
                lower_now,
                beta,
                best_now,
                move_now,
                checked,
                extensions_used,
                ply,
            )
        }
    }
}

/// When no move is left, the best score is the score, and the table takes
/// it.
pub proof fn lemma_node_tries_end(
    s: Position,
    e: EngineState,
    moves: Seq<Move>,
    hash: u64,
    depth: i32,
    alpha: i32,
    lower: i32,
    beta: i32,
    best: i32,
    best_move: Option<Move>,
    checked: bool,
    extensions_used: i32,
    ply: i32,
)
    requires
        ply < MAX_PLY,
    ensures
        node_tries(
            s,
            e,
            moves,
            moves.len() as int,
            hash,
            depth,
            alpha,
            lower,
            beta,
            best,
            best_move,
            checked,
            extensions_used,
            ply,
        ) == (best, tried_all(e, hash, depth, alpha, lower, best, best_move)),
{
    reveal_with_fuel(node_tries, 1);
}

/// A move that is tried: it cuts the search off where the lower bound
/// reaches beta with it, and else the search goes on with its score taken
/// in.
pub proof fn lemma_node_tries_step(
    s: Position,
    e: EngineState,
    moves: Seq<Move>,
    i: int,
    hash: u64,
    depth: i32,
    alpha: i32,
    lower: i32,
    beta: i32,
    best: i32,
    best_move: Option<Move>,
    checked: bool,
    extensions_used: i32,
    ply: i32,
)
    requires
        ply < MAX_PLY,
        0 <= i < moves.len(),
    ensures
        ({
            let reply = reply_run(
                s,
                e,
                moves[i],
                depth,
                lower,
                beta,
                checked,
                extensions_used,
                ply,
                true,
            );
            let score = reply.0;
            let best_now = if score > best {
                score
            } else {
                best
            };
            let move_now = if score > best {
                Some(moves[i])
            } else {
                best_move
            };
            let lower_now = if score > lower {
                score
            } else {
                lower
            };
            node_tries(
                s,
                e,
                moves,
                i,
                hash,
                depth,
                alpha,
                lower,
                beta,
                best,
                best_move,
                checked,
                extensions_used,
                ply,
            ) == (if lower_now >= beta {
                (best_now, cut_off(s, reply.1, moves[i], hash, depth, best_now, move_now))
            } else {
                node_tries(
                    s,
                    reply.1,
                    moves,
                    i + 1,
                    hash,
                    depth,
                    alpha,
                    lower_now,
                    beta,
                    best_now,
                    move_now,
                    checked,
                    extensions_used,
                    ply,
                )
            })
        }),
{
    reveal_with_fuel(node_tries, 1);
}

/// The best move and its score in the search from the root from the move
/// `i` of the list on, with the lower bound, the best score and the best
/// move reached so far, and what the engine holds after it. Each move is
/// searched within the window from the lower bound to one step beyond the
/// scores, without extension; a score above the best becomes the best.
#[verifier::opaque]
pub open spec fn root_tries(
    s: Position,
    e: EngineState,
    moves: Seq<Move>,
    i: int,
    depth: i32,
    lower: i32,
    best: i32,
    best_move: Option<Move>,
) -> ((Option<Move>, i32), EngineState)
    decreases moves.len() - i,
{
    if i < 0 || i >= moves.len() {
        ((best_move, best), e)
    } else {
        let reply = reply_run(
            s,
            e,
            moves[i],
            depth,
            lower,
            (MATE_SCORE + 1) as i32,
            false,
            0,
            0,
            false,
        );
        let score = reply.0;
        if score > best {
            root_tries(
                s,
                reply.1,
                moves,
                i + 1,
                depth,
                if score > lower {
                    score
                } else {
                    lower
                },
                score,
                Some(moves[i]),
            )
        } else {
            root_tries(s, reply.1, moves, i + 1, depth, lower, best, best_move)
        }
    }
}

/// The best move and its score in the search of a position from the root,
/// and what the engine holds after it. The legal moves are put in the
/// order of trial, the table's move first. Without a move: no best move,
/// and the score of a mate or of a draw. With moves but a status that says
/// that the game has ended: no best move and a score below every score.
/// Else the moves are tried in turn on the position with the status "in
/// progress".
pub open spec fn root_run(s: Position, e: EngineState, depth: i32) -> (
    (Option<Move>, i32),
    EngineState,
) {
    let legal = s.all_legal_moves();
    let moves = in_trial_order(
        s.squares,
        e.killers,
        legal,
        depth as int,
        hinted(e.cached, zobrist_hash(s)),
        legal.len() as int,
    );
    if moves.len() == 0 {
        (
            (
                None,
                if in_check(s.squares, s.turn) {
                    (-MATE_SCORE) as i32
                } else {
                    0
                },
            ),
            e,
        )
    } else if !s.status.playable() {
        ((None, (-MATE_SCORE - 1) as i32), e)
    } else {
        root_tries(
            s.with_status(GameStatus::InProgress),
            e,
            moves,
            0,
            depth,
            (-MATE_SCORE - 1) as i32,
            (-MATE_SCORE - 1) as i32,
            None,
        )
    }
}

/// What the engine holds when a search starts: the two counts at zero and
/// the number of the table's search one up, from 255 back to 0.
pub open spec fn search_start(e: EngineState) -> EngineState {
    EngineState { nodes: 0, hits: 0, age: e.age.wrapping_add(1), ..e }
}

/// When no move is left at the root, the best move and the best score are
/// the result.
pub proof fn lemma_root_tries_end(
    s: Position,
    e: EngineState,
    moves: Seq<Move>,
    depth: i32,
    lower: i32,
    best: i32,
    best_move: Option<Move>,
)
    ensures
        root_tries(s, e, moves, moves.len() as int, depth, lower, best, best_move) == (
            (best_move, best),
            e,
        ),
{
    reveal_with_fuel(root_tries, 1);
}

/// A move that is tried at the root: the search goes on with its score
/// taken in.
pub proof fn lemma_root_tries_step(
    s: Position,
    e: EngineState,
    moves: Seq<Move>,
    i: int,
    depth: i32,
    lower: i32,
    best: i32,
    best_move: Option<Move>,
)
    requires
        0 <= i < moves.len(),
    ensures
        ({
            let reply = reply_run(
                s,
                e,
                moves[i],
                depth,
                lower,
                (MATE_SCORE + 1) as i32,
                false,
                0,
                0,
                false,
            );
            let score = reply.0;
            root_tries(s, e, moves, i, depth, lower, best, best_move) == (if score > best {
                root_tries(
                    s,
                    reply.1,
                    moves,
                    i + 1,
                    depth,
                    if score > lower {
                        score
                    } else {
                        lower
                    },
                    score,
                    Some(moves[i]),
                )
            } else {
                root_tries(s, reply.1, moves, i + 1, depth, lower, best, best_move)
            })
        }),
{
    reveal_with_fuel(root_tries, 1);
}

} // verus!
