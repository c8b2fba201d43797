use vstd::prelude::*;

use super::enumerator::rising;

verus! {

broadcast use vstd::seq_lib::group_seq_properties;

/// What passes a filter was in the list and meets the test.
pub proof fn lemma_filter_member<A>(s: Seq<A>, pred: spec_fn(A) -> bool, x: A)
    requires
        s.filter(pred).contains(x),
    ensures
        s.contains(x),
        pred(x),
{
    s.lemma_filter_contains_rev(pred, x);
    let i = choose|i: int| 0 <= i < s.filter(pred).len() && s.filter(pred)[i] == x;
    s.lemma_filter_pred(pred, i);
}

/// A filter keeps a rising list rising.
pub proof fn lemma_filter_rising(s: Seq<usize>, pred: spec_fn(usize) -> bool)
    requires
        rising(s),
    ensures
        rising(s.filter(pred)),
    decreases s.len(),
{
    reveal(Seq::filter);
    if s.len() > 0 {
        let init = s.drop_last();
        lemma_filter_rising(init, pred);
        let f = init.filter(pred);
        assert forall|i: int, j: int| 0 <= i < j < s.filter(pred).len() implies s.filter(pred)[i]
            < s.filter(pred)[j] by {
            if j == f.len() {
                assert(f.contains(f[i]));
                init.lemma_filter_contains_rev(pred, f[i]);
                let w = choose|w: int| 0 <= w < init.len() && init[w] == f[i];
                assert(s[w] == f[i]);
            }
        }
    }
}

/// A rising list repeats nothing.
pub proof fn lemma_rising_no_duplicates(s: Seq<usize>)
    requires
        rising(s),
    ensures
        s.no_duplicates(),
{
    assert forall|i: int, j: int| 0 <= i < s.len() && 0 <= j < s.len() && i != j implies s[i]
        != s[j] by {
        if i < j {
            assert(s[i] < s[j]);
        } else {
            assert(s[j] < s[i]);
        }
    }
}

/// What is in one of two lists is in the two put together.
pub proof fn lemma_member_of_sum<A>(x: Seq<A>, y: Seq<A>, e: A)
    requires
        x.contains(e) || y.contains(e),
    ensures
        (x + y).contains(e),
{
    if x.contains(e) {
        let i = choose|i: int| 0 <= i < x.len() && x[i] == e;
        assert((x + y)[i] == e);
    } else {
        let i = choose|i: int| 0 <= i < y.len() && y[i] == e;
        assert((x + y)[x.len() + i] == e);
    }
}

/// Two tests that agree on the items of a list leave the same of it.
pub proof fn lemma_filter_congruence<A>(s: Seq<A>, p: spec_fn(A) -> bool, q: spec_fn(A) -> bool)
    requires
        forall|i: int| 0 <= i < s.len() ==> p(#[trigger] s[i]) == q(s[i]),
    ensures
        s.filter(p) == s.filter(q),
    decreases s.len(),
{
    reveal(Seq::filter);
    if s.len() > 0 {
        lemma_filter_congruence(s.drop_last(), p, q);
    }
}

/// A filter keeps a list without repeats free of repeats.
pub proof fn lemma_filter_keeps_distinct<A>(s: Seq<A>, pred: spec_fn(A) -> bool)
    requires
        s.no_duplicates(),
    ensures
        s.filter(pred).no_duplicates(),
    decreases s.len(),
{
    reveal(Seq::filter);
    if s.len() > 0 {
        let init = s.drop_last();
        lemma_filter_keeps_distinct(init, pred);
        let f = init.filter(pred);
        assert forall|i: int, j: int|
            0 <= i < s.filter(pred).len() && 0 <= j < s.filter(pred).len() && i
                != j implies s.filter(pred)[i] != s.filter(pred)[j] by {
            if i == f.len() || j == f.len() {
                let other = if i == f.len() {
                    j
                } else {
                    i
                };
                assert(f.contains(f[other]));
                init.lemma_filter_contains_rev(pred, f[other]);
                let w = choose|w: int| 0 <= w < init.len() && init[w] == f[other];
                assert(s[w] == f[other]);
            }
        }
    }
}

/// Two rising lists with the same items are one list.
pub proof fn lemma_rising_equal(a: Seq<usize>, b: Seq<usize>)
    requires
        rising(a),
        rising(b),
        forall|x: usize| a.contains(x) <==> b.contains(x),
    ensures
        a == b,
    decreases a.len(),
{
    if a.len() == 0 {
        if b.len() > 0 {
            assert(b.contains(b[0]));
        }
        assert(a =~= b);
    } else {
        assert(a.contains(a.last()));
        let w = choose|w: int| 0 <= w < b.len() && b[w] == a.last();
        assert(b.contains(b.last()));
        let v = choose|v: int| 0 <= v < a.len() && a[v] == b.last();
        assert(a.last() == b.last());
        let a0 = a.drop_last();
        let b0 = b.drop_last();
        assert forall|x: usize| a0.contains(x) <==> b0.contains(x) by {
            if a0.contains(x) {
                let i = choose|i: int| 0 <= i < a0.len() && a0[i] == x;
                assert(a[i] == x);
                assert(a.contains(x));
                let j = choose|j: int| 0 <= j < b.len() && b[j] == x;
                assert(x < a.last());
                assert(b0[j] == x);
            }
            if b0.contains(x) {
                let i = choose|i: int| 0 <= i < b0.len() && b0[i] == x;
                assert(b[i] == x);
                assert(b.contains(x));
                let j = choose|j: int| 0 <= j < a.len() && a[j] == x;
                assert(x < b.last());
                assert(a0[j] == x);
            }
        }
        lemma_rising_equal(a0, b0);
        assert(a =~= a0.push(a.last()));
        assert(b =~= b0.push(b.last()));
    }
}

/// A part of a list without repeats holds no item of another part.
pub proof fn lemma_first_not_in_rest<A>(s: Seq<A>, x: A)
    requires
        s.no_duplicates(),
        s.len() > 0,
        s.drop_first().contains(x),
    ensures
        x != s[0],
        s.drop_first().no_duplicates(),
{
    let i = choose|i: int| 0 <= i < s.drop_first().len() && s.drop_first()[i] == x;
    assert(s[i + 1] == x);
}

} // verus!
