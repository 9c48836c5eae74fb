//! Small facts and helpers on sequences of squares.

use vstd::prelude::*;
use crate::types::Square;

verus! {

/// Every square of the sequence lies on the board.
pub open spec fn all_valid(s: Seq<Square>) -> bool {
    forall|k: int| 0 <= k < s.len() ==> (#[trigger] s[k]).valid()
}

/// The sequence with `x` appended when `cond` holds.
pub open spec fn push_if(s: Seq<Square>, cond: bool, x: Square) -> Seq<Square> {
    if cond {
        s.push(x)
    } else {
        s
    }
}

/// The sequence with the square appended, if there is one.
pub open spec fn push_some(s: Seq<Square>, x: Option<Square>) -> Seq<Square> {
    match x {
        Some(sq) => s.push(sq),
        None => s,
    }
}

/// Those of the first `n` squares of `s` that satisfy `keep`, in order.
pub open spec fn keep_where(s: Seq<Square>, keep: spec_fn(Square) -> bool, n: int) -> Seq<Square>
    decreases n,
{
    if n <= 0 {
        Seq::empty()
    } else if keep(s[n - 1]) {
        keep_where(s, keep, n - 1).push(s[n - 1])
    } else {
        keep_where(s, keep, n - 1)
    }
}

/// The squares of `s` that satisfy `keep`, in order.
pub open spec fn keep_all(s: Seq<Square>, keep: spec_fn(Square) -> bool) -> Seq<Square> {
    keep_where(s, keep, s.len() as int)
}

/// A kept square was in the sequence and satisfies the predicate, and the
/// other way round.
pub proof fn lemma_keep_where(s: Seq<Square>, keep: spec_fn(Square) -> bool, n: int)
    requires
        0 <= n <= s.len(),
    ensures
        forall|x: Square| #[trigger]
            keep_where(s, keep, n).contains(x) <==> (keep(x) && exists|k: int|
                0 <= k < n && s[k] == x),
        keep_where(s, keep, n).len() <= n,
    decreases n,
{
    if n > 0 {
        lemma_keep_where(s, keep, n - 1);
        let prev = keep_where(s, keep, n - 1);
        let cur = keep_where(s, keep, n);
        assert forall|x: Square| #[trigger]
            cur.contains(x) <==> (keep(x) && exists|k: int| 0 <= k < n && s[k] == x) by {
            if cur.contains(x) {
                let j = choose|j: int| 0 <= j < cur.len() && cur[j] == x;
                if j < prev.len() {
                    assert(prev[j] == x);
                    assert(prev.contains(x));
                    let k = choose|k: int| 0 <= k < n - 1 && s[k] == x;
                    assert(0 <= k < n && s[k] == x);
                } else {
                    assert(s[n - 1] == x);
                }
            }
            if keep(x) && exists|k: int| 0 <= k < n && s[k] == x {
                let k = choose|k: int| 0 <= k < n && s[k] == x;
                if k < n - 1 {
                    assert(prev.contains(x));
                    let j = choose|j: int| 0 <= j < prev.len() && prev[j] == x;
                    assert(cur[j] == x);
                } else {
                    assert(cur[prev.len() as int] == x);
                }
            }
        }
    } else {
        assert forall|x: Square| #[trigger]
            keep_where(s, keep, n).contains(x) <==> (keep(x) && exists|k: int|
                0 <= k < n && s[k] == x) by {}
    }
}

/// Two predicates that agree on the squares of `s` keep the same squares.
pub proof fn lemma_keep_where_ext(
    s: Seq<Square>,
    p: spec_fn(Square) -> bool,
    q: spec_fn(Square) -> bool,
    n: int,
)
    requires
        n <= s.len(),
        forall|k: int| 0 <= k < n ==> p(#[trigger] s[k]) == q(s[k]),
    ensures
        keep_where(s, p, n) == keep_where(s, q, n),
    decreases n,
{
    if n > 0 {
        lemma_keep_where_ext(s, p, q, n - 1);
    }
}

/// Appends the squares of `more` to `out`.
pub fn extend_squares(out: &mut Vec<Square>, more: &Vec<Square>)
    ensures
        final(out)@ == old(out)@ + more@,
        all_valid(old(out)@) && all_valid(more@) ==> all_valid(final(out)@),
{
    let mut i: usize = 0;
    while i < more.len()
        invariant
            i <= more.len(),
            out@ == old(out)@ + more@.take(i as int),
        decreases more.len() - i,
    {
        out.push(more[i]);
        i = i + 1;
        proof {
            assert(out@ =~= old(out)@ + more@.take(i as int));
        }
    }
    proof {
        assert(more@.take(more.len() as int) =~= more@);
    }
}

/// Whether the square occurs in the list.
pub fn contains_square(list: &Vec<Square>, square: Square) -> (found: bool)
    ensures
        found == list@.contains(square),
{
    let mut i: usize = 0;
    while i < list.len()
        invariant
            i <= list.len(),
            forall|k: int| 0 <= k < i ==> list@[k] != square,
        decreases list.len() - i,
    {
        if list[i] == square {
            return true;
        }
        i = i + 1;
    }
    false
}

/// What a concatenation contains.
pub proof fn lemma_contains_concat<T>(a: Seq<T>, b: Seq<T>, x: T)
    ensures
        (a + b).contains(x) <==> (a.contains(x) || b.contains(x)),
{
    let c = a + b;
    if c.contains(x) {
        let k = choose|k: int| 0 <= k < c.len() && c[k] == x;
        if k < a.len() {
            assert(a[k] == x);
        } else {
            assert(b[k - a.len()] == x);
        }
    }
    if a.contains(x) {
        let k = choose|k: int| 0 <= k < a.len() && a[k] == x;
        assert(c[k] == x);
    }
    if b.contains(x) {
        let k = choose|k: int| 0 <= k < b.len() && b[k] == x;
        assert(c[a.len() + k] == x);
    }
}

/// What a sequence contains after a push.
pub proof fn lemma_contains_push<T>(a: Seq<T>, y: T, x: T)
    ensures
        a.push(y).contains(x) <==> (a.contains(x) || x == y),
{
    let c = a.push(y);
    if c.contains(x) {
        let k = choose|k: int| 0 <= k < c.len() && c[k] == x;
        if k < a.len() {
            assert(a[k] == x);
        }
    }
    if a.contains(x) {
        let k = choose|k: int| 0 <= k < a.len() && a[k] == x;
        assert(c[k] == x);
    }
    if x == y {
        assert(c[a.len() as int] == x);
    }
}

/// What `push_if` contains.
pub proof fn lemma_contains_push_if(a: Seq<Square>, cond: bool, y: Square, x: Square)
    ensures
        push_if(a, cond, y).contains(x) <==> (a.contains(x) || (cond && x == y)),
{
    lemma_contains_push(a, y, x);
}

} // verus!
