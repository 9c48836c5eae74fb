//! What the quiescence search computes: the value of a position by a
//! full-width search of its tactical moves, and what a search within a
//! window says of that value.

use vstd::prelude::*;
use crate::board::Position;
use crate::evaluation::spec_evaluate;
use crate::search::see_value;
use crate::search::tactical_moves;
use crate::search::MAX_QS_DEPTH;
use crate::search_types::MATE_SCORE;
use crate::types::Move;
use crate::validation::in_check;

verus! {

/// What the side to move has without moving: the evaluation of the
/// position, or the mate score against it where it is in check.
pub open spec fn stand_pat(s: Position) -> int {
    if in_check(s.squares, s.turn) {
        -MATE_SCORE as int
    } else {
        spec_evaluate(s)
    }
}

/// The value of a position for the side to move at the ply `qs_depth` of
/// the quiescence search, every line searched in full: beyond the last ply
/// the evaluation, and else the best of standing pat and of the tactical
/// moves that do not lose material.
pub open spec fn quiescence_value(s: Position, qs_depth: int) -> int
    decreases MAX_QS_DEPTH + 1 - qs_depth, 1int, 0int,
{
    if qs_depth > MAX_QS_DEPTH {
        spec_evaluate(s)
    } else {
        let moves = tactical_moves(s, in_check(s.squares, s.turn), qs_depth);
        best_reply(s, moves, moves.len() as int, qs_depth)
    }
}

/// The best of standing pat and of those of the first `n` moves that do
/// not lose material.
pub open spec fn best_reply(s: Position, moves: Seq<Move>, n: int, qs_depth: int) -> int
    decreases MAX_QS_DEPTH + 1 - qs_depth, 0int, n,
{
    if n <= 0 || qs_depth > MAX_QS_DEPTH {
        stand_pat(s)
    } else {
        let rest = best_reply(s, moves, n - 1, qs_depth);
        let mv = moves[n - 1];
        if see_value(s.squares, mv) >= 0 {
            let value = -quiescence_value(s.apply(mv), qs_depth + 1);
            if value > rest {
                value
            } else {
                rest
            }
        } else {
            rest
        }
    }
}

/// The value of the move `mv` for the side that plays it at the ply
/// `qs_depth`: what the position after it is worth to the other side,
/// negated.
pub open spec fn reply_value(s: Position, mv: Move, qs_depth: int) -> int {
    -quiescence_value(s.apply(mv), qs_depth + 1)
}

/// What the score of a search within the window `(alpha, beta)` says of
/// the value searched for: a score inside the window is the value, a score
/// at or above `beta` is a lower bound of it, and a score at or below
/// `alpha` an upper bound.
pub open spec fn within_window(score: int, value: int, alpha: int, beta: int) -> bool {
    &&& score >= beta ==> value >= score
    &&& score <= alpha ==> value <= score
    &&& alpha < score < beta ==> value == score
}

/// The best of the first `n` moves is no less than standing pat and than
/// each of those moves that does not lose material, and it is one of them.
pub proof fn lemma_best_reply(s: Position, moves: Seq<Move>, n: int, qs_depth: int)
    requires
        0 <= n <= moves.len(),
        qs_depth <= MAX_QS_DEPTH,
    ensures
        best_reply(s, moves, n, qs_depth) >= stand_pat(s),
        forall|k: int|
            0 <= k < n && see_value(s.squares, #[trigger] moves[k]) >= 0 ==> best_reply(
                s,
                moves,
                n,
                qs_depth,
            ) >= reply_value(s, moves[k], qs_depth),
        best_reply(s, moves, n, qs_depth) == stand_pat(s) || exists|k: int|
            0 <= k < n && see_value(s.squares, #[trigger] moves[k]) >= 0 && best_reply(
                s,
                moves,
                n,
                qs_depth,
            ) == reply_value(s, moves[k], qs_depth),
    decreases n,
{
    if n > 0 {
        lemma_best_reply(s, moves, n - 1, qs_depth);
        let rest = best_reply(s, moves, n - 1, qs_depth);
        let best = best_reply(s, moves, n, qs_depth);
        let mv = moves[n - 1];
        if best != stand_pat(s) {
            if see_value(s.squares, mv) >= 0 && reply_value(s, mv, qs_depth) > rest {
                assert(best == reply_value(s, moves[n - 1], qs_depth));
            } else {
                let k = choose|k: int|
                    0 <= k < n - 1 && see_value(s.squares, #[trigger] moves[k]) >= 0 && rest
                        == reply_value(s, moves[k], qs_depth);
                assert(best == reply_value(s, moves[k], qs_depth));
            }
        }
    }
}

/// The value of a position within the plies of the quiescence search is no
/// less than standing pat and than each tactical move that does not lose
/// material, and it is one of them.
pub proof fn lemma_quiescence_value(s: Position, qs_depth: int)
    requires
        qs_depth <= MAX_QS_DEPTH,
    ensures
        quiescence_value(s, qs_depth) >= stand_pat(s),
        forall|m: Move|
            #![trigger reply_value(s, m, qs_depth)]
            tactical_moves(s, in_check(s.squares, s.turn), qs_depth).contains(m) && see_value(
                s.squares,
                m,
            ) >= 0 ==> quiescence_value(s, qs_depth) >= reply_value(s, m, qs_depth),
        quiescence_value(s, qs_depth) == stand_pat(s) || exists|m: Move|
            #![trigger reply_value(s, m, qs_depth)]
            tactical_moves(s, in_check(s.squares, s.turn), qs_depth).contains(m) && see_value(
                s.squares,
                m,
            ) >= 0 && quiescence_value(s, qs_depth) == reply_value(s, m, qs_depth),
{
    let moves = tactical_moves(s, in_check(s.squares, s.turn), qs_depth);
    let value = quiescence_value(s, qs_depth);
    lemma_best_reply(s, moves, moves.len() as int, qs_depth);
    assert forall|m: Move|
        #![trigger reply_value(s, m, qs_depth)]
        moves.contains(m) && see_value(s.squares, m) >= 0 implies value >= reply_value(
        s,
        m,
        qs_depth,
    ) by {
        let k = choose|k: int| 0 <= k < moves.len() && moves[k] == m;
        assert(see_value(s.squares, moves[k]) >= 0);
    }
    if value != stand_pat(s) {
        let k = choose|k: int|
            0 <= k < moves.len() && see_value(s.squares, #[trigger] moves[k]) >= 0 && value
                == reply_value(s, moves[k], qs_depth);
        assert(moves.contains(moves[k]));
    }
}

/// How far a search of the position `s` within the window `(alpha, beta)`
/// has come after the first `i` of the moves: `lower` is the raised lower
/// bound of the window and `best` the best score so far. No move tried is
/// worth more than `best`, and `best` is no more than the value of the
/// position once it lies above `alpha`.
#[verifier::opaque]
pub open spec fn searched(
    s: Position,
    moves: Seq<Move>,
    i: int,
    qs_depth: int,
    alpha: int,
    beta: int,
    lower: int,
    best: int,
) -> bool {
    &&& alpha <= lower < beta
    &&& lower <= best || lower == alpha
    &&& stand_pat(s) <= best
    &&& forall|j: int|
        0 <= j < i && see_value(s.squares, #[trigger] moves[j]) >= 0 ==> reply_value(
            s,
            moves[j],
            qs_depth,
        ) <= best
    &&& best > alpha ==> best <= quiescence_value(s, qs_depth)
}

/// Before the first move the best score is standing pat, which has raised
/// the lower bound where the side to move is not in check.
pub proof fn lemma_search_start(s: Position, moves: Seq<Move>, qs_depth: int, alpha: int, beta: int)
    requires
        qs_depth <= MAX_QS_DEPTH,
        alpha < beta,
        !in_check(s.squares, s.turn) ==> stand_pat(s) < beta,
    ensures
        searched(
            s,
            moves,
            0,
            qs_depth,
            alpha,
            beta,
            if !in_check(s.squares, s.turn) && stand_pat(s) > alpha {
                stand_pat(s)
            } else {
                alpha
            },
            stand_pat(s),
        ),
{
    reveal(searched);
    lemma_quiescence_value(s, qs_depth);
}

/// A move that is passed over leaves the search where it was.
pub proof fn lemma_search_skip(
    s: Position,
    moves: Seq<Move>,
    i: int,
    qs_depth: int,
    alpha: int,
    beta: int,
    lower: int,
    best: int,
)
    requires
        0 <= i < moves.len(),
        searched(s, moves, i, qs_depth, alpha, beta, lower, best),
        see_value(s.squares, moves[i]) < 0,
    ensures
        searched(s, moves, i + 1, qs_depth, alpha, beta, lower, best),
{
    reveal(searched);
}

/// The score of the next move, searched within the window `(lower, beta)`:
/// at or above `beta` it is a lower bound of the value of the position, and
/// below `beta` the search goes on with it.
pub proof fn lemma_search_step(
    s: Position,
    moves: Seq<Move>,
    i: int,
    qs_depth: int,
    alpha: int,
    beta: int,
    lower: int,
    best: int,
    score: int,
)
    requires
        qs_depth <= MAX_QS_DEPTH,
        0 <= i < moves.len(),
        tactical_moves(s, in_check(s.squares, s.turn), qs_depth).contains(moves[i]),
        searched(s, moves, i, qs_depth, alpha, beta, lower, best),
        see_value(s.squares, moves[i]) >= 0,
        lower < beta ==> within_window(score, reply_value(s, moves[i], qs_depth), lower, beta),
    ensures
        score >= beta ==> quiescence_value(s, qs_depth) >= score,
        score < beta ==> searched(
            s,
            moves,
            i + 1,
            qs_depth,
            alpha,
            beta,
            if score > lower {
                score
            } else {
                lower
            },
            if score > best {
                score
            } else {
                best
            },
        ),
{
    reveal(searched);
    lemma_quiescence_value(s, qs_depth);
    let value = reply_value(s, moves[i], qs_depth);
    assert(quiescence_value(s, qs_depth) >= value);
}

/// When every move has been tried, the best score is what a search within
/// the window owes.
pub proof fn lemma_search_end(
    s: Position,
    moves: Seq<Move>,
    qs_depth: int,
    alpha: int,
    beta: int,
    lower: int,
    best: int,
)
    requires
        qs_depth <= MAX_QS_DEPTH,
        searched(s, moves, moves.len() as int, qs_depth, alpha, beta, lower, best),
        forall|m: Move|
            tactical_moves(s, in_check(s.squares, s.turn), qs_depth).contains(m)
                ==> #[trigger] moves.contains(m),
    ensures
        within_window(best, quiescence_value(s, qs_depth), alpha, beta),
{
    reveal(searched);
    lemma_quiescence_value(s, qs_depth);
    let value = quiescence_value(s, qs_depth);
    if value != stand_pat(s) {
        let m = choose|m: Move|
            #![trigger reply_value(s, m, qs_depth)]
            tactical_moves(s, in_check(s.squares, s.turn), qs_depth).contains(m) && see_value(
                s.squares,
                m,
            ) >= 0 && value == reply_value(s, m, qs_depth);
        assert(moves.contains(m));
        let j = choose|j: int| 0 <= j < moves.len() && moves[j] == m;
        assert(see_value(s.squares, moves[j]) >= 0);
    }
    assert(value <= best);
}

/// The score of a move is the score of the position after it for the other
/// side, negated, and the window is turned round with it.
pub proof fn lemma_reply_window(reply: int, value: int, alpha: int, beta: int)
    requires
        within_window(reply, value, -beta, -alpha),
    ensures
        within_window(-reply, -value, alpha, beta),
{
}

} // verus!
