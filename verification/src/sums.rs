//! Finite sums of integers: over the members of a set, and over the leading
//! entries of a sequence, with the facts that connect the two.

use vstd::prelude::*;
use vstd::seq_lib::*;
use vstd::set::fold::*;
use vstd::set_lib::*;

verus! {

/// The sum of `f` over the members of the finite set `s`.
pub open spec fn sum_over<A>(s: Set<A>, f: spec_fn(A) -> int) -> int {
    s.fold(0int, |acc: int, a: A| acc + f(a))
}

/// The sum of `f` over the first `n` entries of `s`.
pub open spec fn sum_prefix<A>(s: Seq<A>, n: int, f: spec_fn(A) -> int) -> int
    decreases n,
{
    if n <= 0 {
        0
    } else {
        sum_prefix(s, n - 1, f) + f(s[n - 1])
    }
}

/// Integer division that rounds toward zero, as machine division does.
pub open spec fn toward_zero(a: int, n: int) -> int {
    if a >= 0 {
        a / n
    } else {
        -((-a) / n)
    }
}

/// The empty sum is zero.
pub proof fn lemma_sum_over_empty<A>(f: spec_fn(A) -> int)
    ensures
        sum_over(Set::<A>::empty(), f) == 0,
{
    lemma_fold_empty(0int, |acc: int, a: A| acc + f(a));
}

/// Adding a new member to a set adds its term to the sum.
pub proof fn lemma_sum_over_insert<A>(s: Set<A>, f: spec_fn(A) -> int, a: A)
    requires
        s.finite(),
        !s.contains(a),
    ensures
        sum_over(s.insert(a), f) == sum_over(s, f) + f(a),
{
    let step = |acc: int, x: A| acc + f(x);
    assert(is_fun_commutative(step));
    lemma_fold_insert(s, 0int, step, a);
}

/// A sum of zeros is zero.
pub proof fn lemma_sum_over_zero<A>(s: Set<A>, f: spec_fn(A) -> int)
    requires
        s.finite(),
        forall|a: A| s.contains(a) ==> f(a) == 0,
    ensures
        sum_over(s, f) == 0,
    decreases s.len(),
{
    if s.is_empty() {
        assert(s =~= Set::<A>::empty());
        lemma_sum_over_empty(f);
    } else {
        let a = s.choose();
        let rest = s.remove(a);
        lemma_sum_over_zero(rest, f);
        lemma_sum_over_insert(rest, f, a);
        assert(rest.insert(a) =~= s);
    }
}

/// The sum over a one-member set is that member's term.
pub proof fn lemma_sum_over_singleton<A>(a: A, f: spec_fn(A) -> int)
    ensures
        sum_over(Set::<A>::empty().insert(a), f) == f(a),
{
    lemma_sum_over_empty(f);
    lemma_sum_over_insert(Set::<A>::empty(), f, a);
}

/// Bounds on a sum whose terms vanish outside `live` and lie between `lo` and
/// `hi` inside it: only the members that are in `live` count.
pub proof fn lemma_sum_over_bounds<A>(
    s: Set<A>,
    f: spec_fn(A) -> int,
    live: Set<A>,
    lo: int,
    hi: int,
)
    requires
        s.finite(),
        lo <= 0 <= hi,
        forall|a: A| s.contains(a) && live.contains(a) ==> lo <= f(a) <= hi,
        forall|a: A| s.contains(a) && !live.contains(a) ==> f(a) == 0,
    ensures
        lo * s.intersect(live).len() <= sum_over(s, f) <= hi * s.intersect(live).len(),
    decreases s.len(),
{
    if s.is_empty() {
        assert(s =~= Set::<A>::empty());
        assert(s.intersect(live) =~= Set::<A>::empty());
        lemma_sum_over_empty(f);
    } else {
        let a = s.choose();
        let rest = s.remove(a);
        lemma_sum_over_bounds(rest, f, live, lo, hi);
        lemma_sum_over_insert(rest, f, a);
        assert(rest.insert(a) =~= s);
        let k = rest.intersect(live).len() as int;
        lemma_len_intersect(rest, live);
        if live.contains(a) {
            assert(rest.intersect(live).insert(a) =~= s.intersect(live));
            assert(s.intersect(live).len() == k + 1);
            assert(lo * (k + 1) == lo * k + lo) by (nonlinear_arith);
            assert(hi * (k + 1) == hi * k + hi) by (nonlinear_arith);
        } else {
            assert(rest.intersect(live) =~= s.intersect(live));
        }
    }
}

/// The first `n + 1` entries of a sequence are the first `n` and the entry at
/// place `n`.
pub proof fn lemma_take_one_more<A>(s: Seq<A>, n: int, a: A)
    requires
        0 <= n < s.len(),
    ensures
        s.take(n + 1).contains(a) <==> s.take(n).contains(a) || a == s[n],
{
    let head = s.take(n);
    let longer = s.take(n + 1);
    if longer.contains(a) {
        let i = choose|i: int| 0 <= i < longer.len() && #[trigger] longer[i] == a;
        if i < n {
            assert(head[i] == a);
        }
    }
    if head.contains(a) {
        let i = choose|i: int| 0 <= i < head.len() && #[trigger] head[i] == a;
        assert(longer[i] == a);
    }
    if a == s[n] {
        assert(longer[n] == a);
    }
}

/// The sum over the first `n` entries of a sequence without repeats is the
/// sum over the set of those entries.
pub proof fn lemma_sum_prefix_is_sum_over<A>(s: Seq<A>, n: int, f: spec_fn(A) -> int)
    requires
        s.no_duplicates(),
        0 <= n <= s.len(),
    ensures
        sum_prefix(s, n, f) == sum_over(s.take(n).to_set(), f),
    decreases n,
{
    if n == 0 {
        assert(s.take(0).to_set() =~= Set::<A>::empty());
        lemma_sum_over_empty(f);
    } else {
        lemma_sum_prefix_is_sum_over(s, n - 1, f);
        let head = s.take(n - 1);
        let before = head.to_set();
        seq_to_set_is_finite(head);
        assert(!before.contains(s[n - 1])) by {
            if head.contains(s[n - 1]) {
                let i = choose|i: int| 0 <= i < head.len() && #[trigger] head[i] == s[n - 1];
                assert(s[i] == s[n - 1]);
            }
        }
        assert(before.insert(s[n - 1]) =~= s.take(n).to_set()) by {
            assert forall|x: A| s.take(n).contains(x) <==> head.contains(x) || x == s[n - 1] by {
                lemma_take_one_more(s, n - 1, x);
            }
        }
        lemma_sum_over_insert(before, f, s[n - 1]);
    }
}

/// The sum over a whole sequence without repeats is the sum over its set.
pub proof fn lemma_sum_whole_is_sum_over<A>(s: Seq<A>, f: spec_fn(A) -> int)
    requires
        s.no_duplicates(),
    ensures
        sum_prefix(s, s.len() as int, f) == sum_over(s.to_set(), f),
{
    lemma_sum_prefix_is_sum_over(s, s.len() as int, f);
    assert(s.take(s.len() as int) =~= s);
}

/// Dividing a total of at most `n` bounded terms by `n` stays within the bounds.
pub proof fn lemma_toward_zero_bounds(total: int, k: int, n: int, lo: int, hi: int)
    requires
        0 <= k <= n,
        0 < n,
        lo <= 0 <= hi,
        lo * k <= total <= hi * k,
    ensures
        lo <= toward_zero(total, n) <= hi,
{
    assert(hi * k <= hi * n) by (nonlinear_arith)
        requires
            0 <= hi,
            0 <= k <= n,
    ;
    assert(lo * n <= lo * k) by (nonlinear_arith)
        requires
            lo <= 0,
            0 <= k <= n,
    ;
    if total >= 0 {
        assert(0 <= total / n <= hi) by (nonlinear_arith)
            requires
                0 <= total <= hi * n,
                0 < n,
        ;
    } else {
        assert((-lo) * n == -(lo * n)) by (nonlinear_arith);
        assert(0 <= (-total) / n <= -lo) by (nonlinear_arith)
            requires
                0 <= -total <= (-lo) * n,
                0 < n,
        ;
    }
}

} // verus!
