//! What the main search computes: the value of a position by a search of
//! every line to the depth given, and what a search within a window says of
//! that value as long as the table settles none of its positions.

use vstd::prelude::*;
use crate::board::Position;
use crate::evaluation::spec_evaluate;
use crate::quiescence::quiescence_value;
use crate::quiescence::within_window;
use crate::search::extension;
use crate::search::terminal_score;
use crate::search::MAX_PLY;
use crate::search_types::MATE_SCORE;
use crate::types::Move;
use crate::validation::in_check;

verus! {

/// The value of a position for the side to move, every line searched
/// `depth` plies deep at the ply `ply` of the search: at the longest line
/// the evaluation; at the horizon, unless the side to move is in check, the
/// value of the quiescence search; without a legal move the score of a mate
/// or of a draw; and else the best of the legal moves.
pub open spec fn search_value(s: Position, depth: int, extensions_used: int, ply: int) -> int
    decreases MAX_PLY - ply, 2int, 0int,
{
    if ply >= MAX_PLY {
        spec_evaluate(s)
    } else if depth <= 0 && !in_check(s.squares, s.turn) {
        quiescence_value(s, 0)
    } else {
        let moves = s.all_legal_moves();
        if moves.len() == 0 {
            terminal_score(s, ply)
        } else {
            best_line(s, moves, moves.len() as int, depth, extensions_used, ply, true)
        }
    }
}

/// The value of the move `mv` for the side that plays it: what the position
/// after it is worth to the other side, searched to the depth left (and one
/// ply more where the line is extended), negated.
pub open spec fn line_value(
    s: Position,
    mv: Move,
    depth: int,
    extensions_used: int,
    ply: int,
    extend: bool,
) -> int
    decreases MAX_PLY - ply, 0int, 0int,
{
    if ply >= MAX_PLY {
        0
    } else {
        let after = s.apply(mv);
        let plies = if extend {
            extension(after, mv, in_check(s.squares, s.turn), extensions_used, depth)
        } else {
            0
        };
        -search_value(after, depth - 1 + plies, extensions_used + plies, ply + 1)
    }
}

/// The best of the first `n` moves, and a score below every score if there
/// is none.
pub open spec fn best_line(
    s: Position,
    moves: Seq<Move>,
    n: int,
    depth: int,
    extensions_used: int,
    ply: int,
    extend: bool,
) -> int
    decreases MAX_PLY - ply, 1int, n,
{
    if n <= 0 || ply >= MAX_PLY {
        -MATE_SCORE - 1
    } else {
        let rest = best_line(s, moves, n - 1, depth, extensions_used, ply, extend);
        let value = line_value(s, moves[n - 1], depth, extensions_used, ply, extend);
        if value > rest {
            value
        } else {
            rest
        }
    }
}

/// The best of all the legal moves of the position.
pub open spec fn best_legal_line(
    s: Position,
    depth: int,
    extensions_used: int,
    ply: int,
    extend: bool,
) -> int {
    best_line(
        s,
        s.all_legal_moves(),
        s.all_legal_moves().len() as int,
        depth,
        extensions_used,
        ply,
        extend,
    )
}

/// The best of the first `n` moves is no less than each of them, and it is
/// one of them unless it lies below every score.
pub proof fn lemma_best_line(
    s: Position,
    moves: Seq<Move>,
    n: int,
    depth: int,
    extensions_used: int,
    ply: int,
    extend: bool,
)
    requires
        0 <= n <= moves.len(),
        ply < MAX_PLY,
    ensures
        forall|k: int|
            0 <= k < n ==> best_line(s, moves, n, depth, extensions_used, ply, extend)
                >= line_value(s, #[trigger] moves[k], depth, extensions_used, ply, extend),
        best_line(s, moves, n, depth, extensions_used, ply, extend) == -MATE_SCORE - 1
            || exists|k: int|
            0 <= k < n && best_line(s, moves, n, depth, extensions_used, ply, extend)
                == line_value(s, #[trigger] moves[k], depth, extensions_used, ply, extend),
    decreases n,
{
    if n > 0 {
        lemma_best_line(s, moves, n - 1, depth, extensions_used, ply, extend);
        let rest = best_line(s, moves, n - 1, depth, extensions_used, ply, extend);
        let best = best_line(s, moves, n, depth, extensions_used, ply, extend);
        let last = line_value(s, moves[n - 1], depth, extensions_used, ply, extend);
        if best != -MATE_SCORE - 1 {
            if last > rest {
                assert(best == line_value(s, moves[n - 1], depth, extensions_used, ply, extend));
            } else {
                let k = choose|k: int|
                    0 <= k < n - 1 && rest == line_value(
                        s,
                        #[trigger] moves[k],
                        depth,
                        extensions_used,
                        ply,
                        extend,
                    );
                assert(best == line_value(s, moves[k], depth, extensions_used, ply, extend));
            }
        }
    }
}

/// The best of the legal moves is no less than each of them, and it is one
/// of them unless it lies below every score.
pub proof fn lemma_best_legal_line(
    s: Position,
    depth: int,
    extensions_used: int,
    ply: int,
    extend: bool,
)
    requires
        ply < MAX_PLY,
    ensures
        forall|m: Move|
            #![trigger line_value(s, m, depth, extensions_used, ply, extend)]
            s.all_legal_moves().contains(m) ==> best_legal_line(
                s,
                depth,
                extensions_used,
                ply,
                extend,
            ) >= line_value(s, m, depth, extensions_used, ply, extend),
        best_legal_line(s, depth, extensions_used, ply, extend) == -MATE_SCORE - 1 || exists|
            m: Move,
        |
            #![trigger line_value(s, m, depth, extensions_used, ply, extend)]
            s.all_legal_moves().contains(m) && best_legal_line(
                s,
                depth,
                extensions_used,
                ply,
                extend,
            ) == line_value(s, m, depth, extensions_used, ply, extend),
{
    let moves = s.all_legal_moves();
    let best = best_legal_line(s, depth, extensions_used, ply, extend);
    lemma_best_line(s, moves, moves.len() as int, depth, extensions_used, ply, extend);
    assert forall|m: Move|
        #![trigger line_value(s, m, depth, extensions_used, ply, extend)]
        moves.contains(m) implies best >= line_value(s, m, depth, extensions_used, ply, extend) by {
        let k = choose|k: int| 0 <= k < moves.len() && moves[k] == m;
        assert(best >= line_value(s, moves[k], depth, extensions_used, ply, extend));
    }
    if best != -MATE_SCORE - 1 {
        let k = choose|k: int|
            0 <= k < moves.len() && best == line_value(
                s,
                #[trigger] moves[k],
                depth,
                extensions_used,
                ply,
                extend,
            );
        assert(moves.contains(moves[k]));
    }
}

/// How far a search of the legal moves of the position `s` within the
/// window `(alpha, beta)` has come after the first `i` of the moves:
/// `lower` is the raised lower bound of the window and `best` the best
/// score so far. No move tried is worth more than `best`, and `best` is no
/// more than the best of the legal moves once it lies above `alpha`.
#[verifier::opaque]
pub open spec fn lines_searched(
    s: Position,
    moves: Seq<Move>,
    i: int,
    depth: int,
    extensions_used: int,
    ply: int,
    extend: bool,
    alpha: int,
    beta: int,
    lower: int,
    best: int,
) -> bool {
    &&& alpha <= lower < beta
    &&& -MATE_SCORE - 1 <= best <= lower
    &&& lower <= best || lower == alpha
    &&& forall|j: int|
        0 <= j < i ==> line_value(s, #[trigger] moves[j], depth, extensions_used, ply, extend)
            <= best
    &&& best > alpha ==> best <= best_legal_line(s, depth, extensions_used, ply, extend)
}

/// Before the first move the best score lies below every score.
pub proof fn lemma_lines_start(
    s: Position,
    moves: Seq<Move>,
    depth: int,
    extensions_used: int,
    ply: int,
    extend: bool,
    alpha: int,
    beta: int,
)
    requires
        -MATE_SCORE - 1 <= alpha < beta,
    ensures
        lines_searched(
            s,
            moves,
            0,
            depth,
            extensions_used,
            ply,
            extend,
            alpha,
            beta,
            alpha,
            -MATE_SCORE - 1,
        ),
{
    reveal(lines_searched);
}

/// The score of the next move, searched within the window `(lower, beta)`:
/// at or above `beta` it is a lower bound of the best of the legal moves,
/// and below `beta` the search goes on with it.
pub proof fn lemma_lines_step(
    s: Position,
    moves: Seq<Move>,
    i: int,
    depth: int,
    extensions_used: int,
    ply: int,
    extend: bool,
    alpha: int,
    beta: int,
    lower: int,
    best: int,
    score: int,
)
    requires
        ply < MAX_PLY,
        0 <= i < moves.len(),
        s.all_legal_moves().contains(moves[i]),
        lines_searched(s, moves, i, depth, extensions_used, ply, extend, alpha, beta, lower, best),
        lower < beta ==> within_window(
            score,
            line_value(s, moves[i], depth, extensions_used, ply, extend),
            lower,
            beta,
        ),
    ensures
        alpha <= lower < beta,
        best <= lower,
        score >= beta ==> best_legal_line(s, depth, extensions_used, ply, extend) >= score,
        score > best && score > alpha ==> line_value(
            s,
            moves[i],
            depth,
            extensions_used,
            ply,
            extend,
        ) >= score,
        score > best && alpha < score < beta ==> line_value(
            s,
            moves[i],
            depth,
            extensions_used,
            ply,
            extend,
        ) == score,
        score < beta ==> lines_searched(
            s,
            moves,
            i + 1,
            depth,
            extensions_used,
            ply,
            extend,
            alpha,
            beta,
            if score > lower {
                score
            } else {
                lower
            },
            if score > best {
                score
            } else {
                best
            },
        ),
{
    reveal(lines_searched);
    lemma_best_legal_line(s, depth, extensions_used, ply, extend);
    let value = line_value(s, moves[i], depth, extensions_used, ply, extend);
    assert(best_legal_line(s, depth, extensions_used, ply, extend) >= value);
}

/// When every move has been tried, the best score is what a search within
/// the window owes of the best of the legal moves.
pub proof fn lemma_lines_end(
    s: Position,
    moves: Seq<Move>,
    depth: int,
    extensions_used: int,
    ply: int,
    extend: bool,
    alpha: int,
    beta: int,
    lower: int,
    best: int,
)
    requires
        ply < MAX_PLY,
        lines_searched(
            s,
            moves,
            moves.len() as int,
            depth,
            extensions_used,
            ply,
            extend,
            alpha,
            beta,
            lower,
            best,
        ),
        forall|m: Move| s.all_legal_moves().contains(m) ==> #[trigger] moves.contains(m),
    ensures
        within_window(
            best,
            best_legal_line(s, depth, extensions_used, ply, extend),
            alpha,
            beta,
        ),
{
    reveal(lines_searched);
    lemma_best_legal_line(s, depth, extensions_used, ply, extend);
    let value = best_legal_line(s, depth, extensions_used, ply, extend);
    if value != -MATE_SCORE - 1 {
        let m = choose|m: Move|
            #![trigger line_value(s, m, depth, extensions_used, ply, extend)]
            s.all_legal_moves().contains(m) && value == line_value(
                s,
                m,
                depth,
                extensions_used,
                ply,
                extend,
            );
        assert(moves.contains(m));
        let j = choose|j: int| 0 <= j < moves.len() && moves[j] == m;
        assert(line_value(s, moves[j], depth, extensions_used, ply, extend) <= best);
    }
    assert(value <= best);
}

} // verus!
