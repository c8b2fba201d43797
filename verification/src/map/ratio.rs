use vstd::prelude::*;

verus! {

/// An exact fraction. Its denominator is never 0.
#[derive(Clone, Copy, Debug, PartialEq, Eq, Structural)]
pub struct Ratio {
    pub num: u128,
    pub den: u128,
}

impl Ratio {
    /// The fraction 0, which stands for "nothing known".
    pub open spec fn spec_zero() -> Ratio {
        Ratio { num: 0, den: 1 }
    }

    #[verifier::when_used_as_spec(spec_zero)]
    pub fn zero() -> (r: Ratio)
        ensures
            r == Self::spec_zero(),
    {
        Ratio { num: 0, den: 1 }
    }
}

/// How often `k` occurs among the outcomes.
pub open spec fn occurrences(outcomes: Seq<usize>, k: int) -> nat
    decreases outcomes.len(),
{
    if outcomes.len() == 0 {
        0
    } else {
        occurrences(outcomes.drop_last(), k) + if outcomes.last() == k {
            1nat
        } else {
            0nat
        }
    }
}

/// The squares of the occurrences of the outcomes `0..classes`, summed.
pub open spec fn sum_of_squares(outcomes: Seq<usize>, classes: int) -> nat
    decreases classes,
{
    if classes <= 0 {
        0
    } else {
        sum_of_squares(outcomes, classes - 1) + occurrences(outcomes, classes - 1) * occurrences(
            outcomes,
            classes - 1,
        )
    }
}

/// How mixed a list of outcomes is: one minus the sum of the squared shares
/// of the outcomes, as an exact fraction over the square of the list's
/// length. An empty list gives 0.
pub open spec fn spec_impurity(outcomes: Seq<usize>, classes: int) -> Ratio {
    if outcomes.len() == 0 {
        Ratio::spec_zero()
    } else {
        Ratio {
            num: (outcomes.len() * outcomes.len() - sum_of_squares(outcomes, classes)) as u128,
            den: (outcomes.len() * outcomes.len()) as u128,
        }
    }
}

/// No outcome occurs more often than there are outcomes.
pub proof fn lemma_occurrences_bound(outcomes: Seq<usize>, k: int)
    ensures
        occurrences(outcomes, k) <= outcomes.len(),
    decreases outcomes.len(),
{
    if outcomes.len() > 0 {
        lemma_occurrences_bound(outcomes.drop_last(), k);
    }
}

/// One more outcome `x` adds `2 * occurrences(x) + 1` to the sum of squares
/// when `x` is among the classes summed, and nothing when it is not.
pub proof fn lemma_sum_of_squares_push(outcomes: Seq<usize>, x: usize, classes: int)
    ensures
        sum_of_squares(outcomes.push(x), classes) == sum_of_squares(outcomes, classes) + if x
            < classes {
            2 * occurrences(outcomes, x as int) + 1
        } else {
            0
        },
    decreases classes,
{
    if classes > 0 {
        lemma_sum_of_squares_push(outcomes, x, classes - 1);
        let k = classes - 1;
        assert(outcomes.push(x).drop_last() =~= outcomes);
        let before = occurrences(outcomes, k);
        let after = occurrences(outcomes.push(x), k);
        if x == k {
            assert(after == before + 1);
            assert(after * after == before * before + 2 * before + 1) by (nonlinear_arith)
                requires
                    after == before + 1,
            ;
        } else {
            assert(after == before);
        }
    }
}

/// The sum of squares is at most the square of the number of outcomes.
pub proof fn lemma_sum_of_squares_bound(outcomes: Seq<usize>, classes: int)
    ensures
        sum_of_squares(outcomes, classes) <= outcomes.len() * outcomes.len(),
    decreases outcomes.len(),
{
    if outcomes.len() == 0 {
        lemma_sum_of_squares_empty(outcomes, classes);
    } else {
        let init = outcomes.drop_last();
        let x = outcomes.last();
        assert(init.push(x) =~= outcomes);
        lemma_sum_of_squares_bound(init, classes);
        lemma_sum_of_squares_push(init, x, classes);
        lemma_occurrences_bound(init, x as int);
        let m = init.len();
        assert((m + 1) * (m + 1) == m * m + 2 * m + 1) by (nonlinear_arith);
    }
}

/// Without outcomes the sum of squares is 0.
pub proof fn lemma_sum_of_squares_empty(outcomes: Seq<usize>, classes: int)
    requires
        outcomes.len() == 0,
    ensures
        sum_of_squares(outcomes, classes) == 0,
    decreases classes,
{
    if classes > 0 {
        lemma_sum_of_squares_empty(outcomes, classes - 1);
        assert(occurrences(outcomes, classes - 1) == 0);
    }
}

/// Where all outcomes are one and the same class, nothing is mixed: the sum
/// of squares is the square of their number.
pub proof fn lemma_sum_of_squares_pure(outcomes: Seq<usize>, classes: int, x: usize)
    requires
        x < classes,
        forall|i: int| 0 <= i < outcomes.len() ==> outcomes[i] == x,
    ensures
        sum_of_squares(outcomes, classes) == outcomes.len() * outcomes.len(),
        occurrences(outcomes, x as int) == outcomes.len(),
    decreases outcomes.len(),
{
    if outcomes.len() == 0 {
        lemma_sum_of_squares_empty(outcomes, classes);
    } else {
        let init = outcomes.drop_last();
        assert(init.push(x) =~= outcomes);
        lemma_sum_of_squares_pure(init, classes, x);
        lemma_sum_of_squares_push(init, x, classes);
        let m = init.len();
        assert((m + 1) * (m + 1) == m * m + 2 * m + 1) by (nonlinear_arith);
    }
}

/// How mixed a list of outcomes is, each outcome being one of the classes
/// `0..classes`.
pub fn impurity(outcomes: &Vec<usize>, classes: usize) -> (r: Ratio)
    requires
        forall|i: int| 0 <= i < outcomes@.len() ==> outcomes@[i] < classes,
    ensures
        r == spec_impurity(outcomes@, classes as int),
        r.den > 0,
        r.num <= r.den,
{
    let total = outcomes.len();
    if total == 0 {
        return Ratio::zero();
    }
    let mut hist: Vec<usize> = Vec::new();
    let mut k: usize = 0;
    while k < classes
        invariant
            k <= classes,
            hist@.len() == k,
            forall|j: int| 0 <= j < k ==> hist@[j] == 0,
        decreases classes - k,
    {
        hist.push(0);
        k += 1;
    }
    let mut squares: u128 = 0;
    let mut i: usize = 0;
    assert(outcomes@.take(0) =~= Seq::<usize>::empty());
    proof {
        lemma_sum_of_squares_empty(outcomes@.take(0), classes as int);
    }
    while i < total
        invariant
            total == outcomes@.len(),
            i <= total,
            hist@.len() == classes,
            forall|j: int| 0 <= j < outcomes@.len() ==> outcomes@[j] < classes,
            forall|j: int|
                0 <= j < classes ==> #[trigger] hist@[j] == occurrences(outcomes@.take(i as int), j),
            squares == sum_of_squares(outcomes@.take(i as int), classes as int),
            squares <= i * i,
        decreases total - i,
    {
        let x = outcomes[i];
        let ghost seen = outcomes@.take(i as int);
        proof {
            assert(outcomes@.take(i + 1) =~= seen.push(x));
            assert(seen.push(x).drop_last() =~= seen);
            lemma_sum_of_squares_push(seen, x, classes as int);
            lemma_occurrences_bound(seen, x as int);
            lemma_sum_of_squares_bound(seen.push(x), classes as int);
            assert((i + 1) * (i + 1) <= 0xffff_ffff_ffff_ffff * 0xffff_ffff_ffff_ffff)
                by (nonlinear_arith)
                requires
                    0 <= i < 0xffff_ffff_ffff_ffff,
            ;
        }
        let h = hist[x];
        squares = squares + 2 * (h as u128) + 1;
        hist.set(x, h + 1);
        i += 1;
    }
    assert(outcomes@.take(total as int) =~= outcomes@);
    assert(total * total <= 0xffff_ffff_ffff_ffff * 0xffff_ffff_ffff_ffff) by (nonlinear_arith)
        requires
            0 <= total <= 0xffff_ffff_ffff_ffff,
    ;
    assert(total * total > 0) by (nonlinear_arith)
        requires
            total > 0,
    ;
    let den = (total as u128) * (total as u128);
    Ratio { num: den - squares, den }
}

} // verus!
