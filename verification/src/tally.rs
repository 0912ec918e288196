//! Adding up over the elements of a sequence and over a range of numbers.
use vstd::prelude::*;

verus! {

/// The sum of `f` over the elements of `s`.
pub open spec fn tally<A>(s: Seq<A>, f: spec_fn(A) -> nat) -> nat
    decreases s.len(),
{
    if s.len() == 0 {
        0
    } else {
        tally(s.drop_last(), f) + f(s.last())
    }
}

/// 1 for `x` and 0 for any other number.
pub open spec fn equals(x: u64) -> spec_fn(u64) -> nat {
    |y: u64|
        if y == x {
            1nat
        } else {
            0nat
        }
}

/// How often `x` occurs in `s`.
pub open spec fn occurrences(s: Seq<u64>, x: u64) -> nat {
    tally(s, equals(x))
}

/// One element more adds its share.
pub proof fn lemma_tally_push<A>(s: Seq<A>, a: A, f: spec_fn(A) -> nat)
    ensures
        tally(s.push(a), f) == tally(s, f) + f(a),
{
    assert(s.push(a).drop_last() =~= s);
}

/// An element that is replaced changes the sum by the difference of the shares.
pub proof fn lemma_tally_update<A>(s: Seq<A>, i: int, a: A, f: spec_fn(A) -> nat)
    requires
        0 <= i < s.len(),
    ensures
        tally(s.update(i, a), f) + f(s[i]) == tally(s, f) + f(a),
    decreases s.len(),
{
    if i == s.len() - 1 {
        assert(s.update(i, a).drop_last() =~= s.drop_last());
    } else {
        assert(s.update(i, a).drop_last() =~= s.drop_last().update(i, a));
        lemma_tally_update(s.drop_last(), i, a, f);
    }
}

/// The first element has its share in the sum.
pub proof fn lemma_tally_drop_first<A>(s: Seq<A>, f: spec_fn(A) -> nat)
    requires
        s.len() > 0,
    ensures
        tally(s, f) == f(s.first()) + tally(s.drop_first(), f),
    decreases s.len(),
{
    if s.len() == 1 {
        assert(s.drop_first() =~= Seq::empty());
        assert(s.drop_last() =~= Seq::empty());
        assert(tally(s.drop_last(), f) == 0);
        assert(tally(s.drop_first(), f) == 0);
    } else {
        assert(s.drop_first().drop_last() =~= s.drop_last().drop_first());
        lemma_tally_drop_first(s.drop_last(), f);
    }
}

/// The sum is positive exactly if some element has a share in it.
pub proof fn lemma_tally_positive<A>(s: Seq<A>, f: spec_fn(A) -> nat)
    ensures
        tally(s, f) > 0 <==> exists|i: int| 0 <= i < s.len() && f(#[trigger] s[i]) > 0,
    decreases s.len(),
{
    if s.len() > 0 {
        let rest = s.drop_last();
        lemma_tally_positive(rest, f);
        if tally(rest, f) > 0 {
            let i = choose|i: int| 0 <= i < rest.len() && f(#[trigger] rest[i]) > 0;
            assert(f(s[i]) > 0);
        }
        if exists|i: int| 0 <= i < s.len() && f(#[trigger] s[i]) > 0 {
            let i = choose|i: int| 0 <= i < s.len() && f(#[trigger] s[i]) > 0;
            if i < rest.len() {
                assert(f(rest[i]) > 0);
            }
        }
        if f(s.last()) > 0 {
            assert(f(s[s.len() - 1]) > 0);
        }
    }
}

/// `x` occurs in `s` exactly if `s` contains it.
pub proof fn lemma_occurs(s: Seq<u64>, x: u64)
    ensures
        occurrences(s, x) > 0 <==> s.contains(x),
{
    let f = equals(x);
    lemma_tally_positive(s, f);
    if s.contains(x) {
        let i = choose|i: int| 0 <= i < s.len() && s[i] == x;
        assert(f(s[i]) > 0);
    }
    if occurrences(s, x) > 0 {
        let i = choose|i: int| 0 <= i < s.len() && f(#[trigger] s[i]) > 0;
        assert(s[i] == x);
    }
}

/// The sum of `f` over the numbers from `lo` up to, but without, `hi`.
pub open spec fn sum(f: spec_fn(int) -> nat, lo: int, hi: int) -> nat
    decreases hi - lo,
{
    if hi <= lo {
        0
    } else {
        sum(f, lo, hi - 1) + f(hi - 1)
    }
}

/// Functions that agree have the same sum.
pub proof fn lemma_sum_same(f: spec_fn(int) -> nat, g: spec_fn(int) -> nat, lo: int, hi: int)
    requires
        forall|i: int| lo <= i < hi ==> #[trigger] g(i) == f(i),
    ensures
        sum(g, lo, hi) == sum(f, lo, hi),
    decreases hi - lo,
{
    if lo < hi {
        lemma_sum_same(f, g, lo, hi - 1);
        assert(g(hi - 1) == f(hi - 1));
    }
}

/// One more at one number is one more in the sum.
pub proof fn lemma_sum_bump(
    f: spec_fn(int) -> nat,
    g: spec_fn(int) -> nat,
    lo: int,
    hi: int,
    at: int,
)
    requires
        lo <= at < hi,
        g(at) == f(at) + 1,
        forall|i: int| lo <= i < hi && i != at ==> #[trigger] g(i) == f(i),
    ensures
        sum(g, lo, hi) == sum(f, lo, hi) + 1,
    decreases hi - lo,
{
    if at == hi - 1 {
        lemma_sum_same(f, g, lo, hi - 1);
    } else {
        lemma_sum_bump(f, g, lo, hi - 1, at);
        assert(g(hi - 1) == f(hi - 1));
    }
}

/// A sum of ones and zeros is as large as the range exactly if all are ones.
pub proof fn lemma_sum_of_ones(f: spec_fn(int) -> nat, lo: int, hi: int)
    requires
        lo <= hi,
        forall|i: int| lo <= i < hi ==> #[trigger] f(i) <= 1,
    ensures
        sum(f, lo, hi) <= hi - lo,
        sum(f, lo, hi) == hi - lo <==> forall|i: int| lo <= i < hi ==> #[trigger] f(i) == 1,
    decreases hi - lo,
{
    if lo < hi {
        lemma_sum_of_ones(f, lo, hi - 1);
        assert(f(hi - 1) <= 1);
        if sum(f, lo, hi) == hi - lo {
            assert forall|i: int| lo <= i < hi implies #[trigger] f(i) == 1 by {
                if i < hi - 1 {
                    assert(f(i) == 1);
                }
            }
        }
    }
}

} // verus!
