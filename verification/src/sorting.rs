//! Sorting positions by a strict order.

use vstd::prelude::*;

verus! {

/// Whether a relation puts any two of the numbers below `n` in one order.
pub open spec fn strict_order(before: spec_fn(int, int) -> bool, n: int) -> bool {
    &&& forall|a: int| 0 <= a < n ==> !#[trigger] before(a, a)
    &&& forall|a: int, b: int|
        0 <= a < n && 0 <= b < n && a != b ==> #[trigger] before(a, b) == !before(b, a)
    &&& forall|a: int, b: int, c: int|
        0 <= a < n && 0 <= b < n && 0 <= c < n && #[trigger] before(a, b) && #[trigger] before(b, c)
            ==> before(a, c)
}

/// Whether earlier elements come before later ones.
pub open spec fn ascending(p: Seq<usize>, before: spec_fn(int, int) -> bool) -> bool {
    forall|i: int, j: int|
        #![trigger p[i], p[j]]
        0 <= i < j < p.len() ==> before(p[i] as int, p[j] as int)
}

/// Whether a list holds the numbers from `lo` up to `hi`, each once.
pub open spec fn covers(p: Seq<usize>, lo: int, hi: int) -> bool {
    &&& p.len() == hi - lo
    &&& forall|i: int| 0 <= i < p.len() ==> lo <= #[trigger] p[i] < hi
    &&& forall|k: usize| lo <= k < hi ==> #[trigger] p.contains(k)
}

/// The numbers below `n` in the order of the relation.
pub open spec fn arranged(n: int, before: spec_fn(int, int) -> bool) -> Seq<usize> {
    choose|p: Seq<usize>| covers(p, 0, n) && ascending(p, before)
}

/// Only one list of given numbers is ascending.
pub proof fn ascending_is_unique(
    p: Seq<usize>,
    q: Seq<usize>,
    before: spec_fn(int, int) -> bool,
    n: int,
)
    requires
        strict_order(before, n),
        p.len() == q.len(),
        forall|i: int| 0 <= i < p.len() ==> 0 <= #[trigger] p[i] < n,
        forall|i: int| 0 <= i < q.len() ==> 0 <= #[trigger] q[i] < n,
        forall|i: int| 0 <= i < p.len() ==> q.contains(#[trigger] p[i]),
        forall|i: int| 0 <= i < q.len() ==> p.contains(#[trigger] q[i]),
        ascending(p, before),
        ascending(q, before),
    ensures
        p == q,
    decreases p.len(),
{
    if p.len() == 0 {
        assert(p =~= q);
    } else {
        assert(q.contains(p[0]));
        assert(p.contains(q[0]));
        let j = choose|j: int| 0 <= j < q.len() && q[j] == p[0];
        let i = choose|i: int| 0 <= i < p.len() && p[i] == q[0];
        assert(p[0] == q[0]) by {
            if j > 0 && i > 0 {
                assert(before(q[0] as int, q[j] as int));
                assert(before(p[0] as int, p[i] as int));
            }
        }
        let (p1, q1) = (p.skip(1), q.skip(1));
        assert forall|k: int| 0 <= k < p1.len() implies q1.contains(#[trigger] p1[k]) by {
            assert(q.contains(p[k + 1]));
            let w = choose|w: int| 0 <= w < q.len() && q[w] == p[k + 1];
            assert(before(p[0] as int, p[k + 1] as int));
            assert(q1[w - 1] == p1[k]);
        }
        assert forall|k: int| 0 <= k < q1.len() implies p1.contains(#[trigger] q1[k]) by {
            assert(p.contains(q[k + 1]));
            let w = choose|w: int| 0 <= w < p.len() && p[w] == q[k + 1];
            assert(before(q[0] as int, q[k + 1] as int));
            assert(p1[w - 1] == q1[k]);
        }
        ascending_is_unique(p1, q1, before, n);
        assert(p =~= seq![p[0]] + p1);
        assert(q =~= seq![q[0]] + q1);
    }
}

/// The first element from `i` on that a number comes before.
spec fn cut(p: Seq<usize>, x: int, before: spec_fn(int, int) -> bool, i: int) -> int
    decreases p.len() - i,
{
    if i < 0 || i >= p.len() || before(x, p[i] as int) {
        i
    } else {
        cut(p, x, before, i + 1)
    }
}

proof fn cut_parts(p: Seq<usize>, x: int, before: spec_fn(int, int) -> bool, i: int)
    requires
        0 <= i <= p.len(),
        forall|j: int| 0 <= j < i ==> !before(x, #[trigger] p[j] as int),
    ensures
        i <= cut(p, x, before, i) <= p.len(),
        forall|j: int| 0 <= j < cut(p, x, before, i) ==> !before(x, #[trigger] p[j] as int),
        cut(p, x, before, i) < p.len() ==> before(x, p[cut(p, x, before, i)] as int),
    decreases p.len() - i,
{
    if i < p.len() && !before(x, p[i] as int) {
        cut_parts(p, x, before, i + 1);
    }
}

proof fn arrange(n: int, before: spec_fn(int, int) -> bool) -> (q: Seq<usize>)
    requires
        0 <= n <= usize::MAX,
        strict_order(before, n),
    ensures
        covers(q, 0, n),
        ascending(q, before),
    decreases n,
{
    if n == 0 {
        Seq::empty()
    } else {
        let p = arrange(n - 1, before);
        let x = (n - 1) as usize;
        cut_parts(p, x as int, before, 0);
        let k = cut(p, x as int, before, 0);
        let q = p.insert(k, x);
        assert forall|c: usize| 0 <= c < n implies #[trigger] q.contains(c) by {
            if c == x {
                assert(q[k] == c);
            } else {
                assert(p.contains(c));
                let w = choose|w: int| 0 <= w < p.len() && p[w] == c;
                if w < k {
                    assert(q[w] == c);
                } else {
                    assert(q[w + 1] == c);
                }
            }
        }
        assert forall|i: int| 0 <= i < q.len() implies 0 <= #[trigger] q[i] < n by {
            if i < k {
                assert(q[i] == p[i]);
            } else if i > k {
                assert(q[i] == p[i - 1]);
            }
        }
        assert forall|i: int, j: int|
            #![trigger q[i], q[j]]
            0 <= i < j < q.len() implies before(q[i] as int, q[j] as int) by {
            let a = if i < k { i } else { i - 1 };
            let b = if j < k { j } else { j - 1 };
            if i == k {
                assert(q[j] == p[b]);
                if b > k {
                    assert(before(p[k] as int, p[b] as int));
                }
            } else if j == k {
                assert(q[i] == p[a]);
                assert(!before(x as int, p[a] as int));
            } else {
                assert(q[i] == p[a] && q[j] == p[b]);
                assert(before(p[a] as int, p[b] as int));
            }
        }
        q
    }
}

/// The numbers can be arranged in a strict order.
pub proof fn arrangement_exists(n: int, before: spec_fn(int, int) -> bool)
    requires
        0 <= n <= usize::MAX,
        strict_order(before, n),
    ensures
        covers(arranged(n, before), 0, n),
        ascending(arranged(n, before), before),
{
    let q = arrange(n, before);
}

/// Whether a function decides the relation on the numbers below `n`.
pub open spec fn decides<C: Fn(usize, usize) -> bool>(
    earlier: C,
    before: spec_fn(int, int) -> bool,
    n: int,
) -> bool {
    &&& forall|a: usize, b: usize| a < n && b < n ==> #[trigger] earlier.requires((a, b))
    &&& forall|a: usize, b: usize, r: bool|
        a < n && b < n && #[trigger] earlier.ensures((a, b), r) ==> r == before(a as int, b as int)
}

/// Merges two ascending lists.
#[verifier::loop_isolation(false)]
fn merge<C: Fn(usize, usize) -> bool>(
    left: &Vec<usize>,
    right: &Vec<usize>,
    earlier: &C,
    Ghost(before): Ghost<spec_fn(int, int) -> bool>,
    Ghost(lo): Ghost<int>,
    Ghost(mid): Ghost<int>,
    Ghost(hi): Ghost<int>,
    Ghost(n): Ghost<int>,
) -> (out: Vec<usize>)
    requires
        0 <= lo <= mid <= hi <= n,
        strict_order(before, n),
        decides(*earlier, before, n),
        covers(left@, lo, mid),
        covers(right@, mid, hi),
        ascending(left@, before),
        ascending(right@, before),
    ensures
        covers(out@, lo, hi),
        ascending(out@, before),
{
    let mut out: Vec<usize> = Vec::new();
    let mut i: usize = 0;
    let mut j: usize = 0;
    while i < left.len() || j < right.len()
        invariant
            i <= left.len(),
            j <= right.len(),
            out.len() == i + j,
            ascending(out@, before),
            forall|k: int| 0 <= k < out.len() ==> lo <= #[trigger] out[k] < hi,
            forall|a: int| 0 <= a < i ==> out@.contains(#[trigger] left[a]),
            forall|b: int| 0 <= b < j ==> out@.contains(#[trigger] right[b]),
            forall|k: int, a: int|
                #![trigger out[k], left[a]]
                0 <= k < out.len() && i <= a < left.len() ==> before(
                    out[k] as int,
                    left[a] as int,
                ),
            forall|k: int, b: int|
                #![trigger out[k], right[b]]
                0 <= k < out.len() && j <= b < right.len() ==> before(
                    out[k] as int,
                    right[b] as int,
                ),
        decreases left.len() + right.len() - i - j,
    {
        let ghost before_push = out@;
        let take_left = if i == left.len() {
            false
        } else if j == right.len() {
            true
        } else {
            earlier(left[i], right[j])
        };
        let next = if take_left {
            left[i]
        } else {
            right[j]
        };
        proof {
            if take_left && j < right.len() {
                assert forall|b: int| j <= b < right.len() implies before(
                    next as int,
                    #[trigger] right[b] as int,
                ) by {
                    if b > j {
                        assert(before(right[j as int] as int, right[b] as int));
                    }
                }
            }
            if !take_left && i < left.len() {
                assert(before(right[j as int] as int, left[i as int] as int));
                assert forall|a: int| i <= a < left.len() implies before(
                    next as int,
                    #[trigger] left[a] as int,
                ) by {
                    if a > i {
                        assert(before(left[i as int] as int, left[a] as int));
                    }
                }
            }
        }
        out.push(next);
        if take_left {
            i = i + 1;
        } else {
            j = j + 1;
        }
        proof {
            assert forall|x: usize| before_push.contains(x) implies #[trigger] out@.contains(x) by {
                let w = choose|w: int| 0 <= w < before_push.len() && before_push[w] == x;
                assert(out@[w] == x);
            }
            assert(out@[out.len() - 1] == next);
            assert(out@.contains(next));
        }
    }
    proof {
        assert forall|k: usize| lo <= k < hi implies #[trigger] out@.contains(k) by {
            if k < mid {
                assert(left@.contains(k));
                let w = choose|w: int| 0 <= w < left.len() && left@[w] == k;
                assert(out@.contains(left[w]));
            } else {
                assert(right@.contains(k));
                let w = choose|w: int| 0 <= w < right.len() && right@[w] == k;
                assert(out@.contains(right[w]));
            }
        }
    }
    out
}

/// Sorts the numbers from `lo` up to `hi`.
fn sort_between<C: Fn(usize, usize) -> bool>(
    lo: usize,
    hi: usize,
    earlier: &C,
    Ghost(before): Ghost<spec_fn(int, int) -> bool>,
    Ghost(n): Ghost<int>,
) -> (out: Vec<usize>)
    requires
        lo <= hi <= n,
        strict_order(before, n),
        decides(*earlier, before, n),
    ensures
        covers(out@, lo as int, hi as int),
        ascending(out@, before),
    decreases hi - lo,
{
    if hi - lo <= 1 {
        let mut out: Vec<usize> = Vec::new();
        if lo < hi {
            out.push(lo);
            assert(out@[0] == lo);
        }
        return out;
    }
    let mid: usize = lo + (hi - lo) / 2;
    let left = sort_between(lo, mid, earlier, Ghost(before), Ghost(n));
    let right = sort_between(mid, hi, earlier, Ghost(before), Ghost(n));
    merge(
        &left,
        &right,
        earlier,
        Ghost(before),
        Ghost(lo as int),
        Ghost(mid as int),
        Ghost(hi as int),
        Ghost(n),
    )
}

/// Sorts the numbers below `n`.
pub(crate) fn sort_positions<C: Fn(usize, usize) -> bool>(
    n: usize,
    earlier: &C,
    Ghost(before): Ghost<spec_fn(int, int) -> bool>,
) -> (out: Vec<usize>)
    requires
        strict_order(before, n as int),
        decides(*earlier, before, n as int),
    ensures
        out@ == arranged(n as int, before),
        covers(out@, 0, n as int),
        ascending(out@, before),
{
    let out = sort_between(0, n, earlier, Ghost(before), Ghost(n as int));
    proof {
        let p = arranged(n as int, before);
        assert(covers(p, 0, n as int) && ascending(p, before));
        assert forall|i: int| 0 <= i < p.len() implies out@.contains(#[trigger] p[i]) by {}
        assert forall|i: int| 0 <= i < out@.len() implies p.contains(#[trigger] out@[i]) by {}
        ascending_is_unique(out@, p, before, n as int);
    }
    out
}

} // verus!
