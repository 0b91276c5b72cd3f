//! Sums of probability mass over a sequence of cells, and the small
//! arithmetic facts the Bayesian update pass needs about them.

use vstd::arithmetic::div_mod::lemma_fundamental_div_mod;
use vstd::arithmetic::mul::lemma_mul_inequality;
use vstd::prelude::*;

verus! {

/// The sum of a sequence of integers.
pub open spec fn sum(s: Seq<int>) -> int
    decreases s.len(),
{
    if s.len() == 0 {
        0
    } else {
        sum(s.drop_last()) + s.last()
    }
}

/// Extending a prefix by one element adds that element to its sum.
pub proof fn lemma_sum_take_step(s: Seq<int>, i: int)
    requires
        0 <= i < s.len(),
    ensures
        sum(s.take(i + 1)) == sum(s.take(i)) + s[i],
{
    assert(s.take(i + 1).drop_last() =~= s.take(i));
    assert(s.take(i + 1).last() == s[i]);
}

/// A sum of non-negative elements is non-negative.
pub proof fn lemma_sum_nonneg(s: Seq<int>)
    requires
        forall|i: int| 0 <= i < s.len() ==> s[i] >= 0,
    ensures
        sum(s) >= 0,
    decreases s.len(),
{
    if s.len() > 0 {
        lemma_sum_nonneg(s.drop_last());
    }
}

/// For non-negative elements, a prefix sum is at most the whole sum.
pub proof fn lemma_sum_take_le(s: Seq<int>, i: int)
    requires
        forall|j: int| 0 <= j < s.len() ==> s[j] >= 0,
        0 <= i <= s.len(),
    ensures
        sum(s.take(i)) <= sum(s),
    decreases s.len() - i,
{
    if i == s.len() {
        assert(s.take(i) =~= s);
    } else {
        lemma_sum_take_step(s, i);
        lemma_sum_take_le(s, i + 1);
    }
}

/// For non-negative elements, each element is at most the whole sum.
pub proof fn lemma_sum_element_le(s: Seq<int>, i: int)
    requires
        forall|j: int| 0 <= j < s.len() ==> s[j] >= 0,
        0 <= i < s.len(),
    ensures
        s[i] <= sum(s),
{
    lemma_sum_take_step(s, i);
    lemma_sum_take_le(s, i + 1);
    lemma_sum_nonneg(s.take(i));
}

/// Replacing one element changes the sum by the difference.
pub proof fn lemma_sum_update(s: Seq<int>, i: int, v: int)
    requires
        0 <= i < s.len(),
    ensures
        sum(s.update(i, v)) == sum(s) - s[i] + v,
    decreases s.len(),
{
    if i == s.len() - 1 {
        assert(s.update(i, v).drop_last() =~= s.drop_last());
    } else {
        assert(s.update(i, v).drop_last() =~= s.drop_last().update(i, v));
        lemma_sum_update(s.drop_last(), i, v);
    }
}

/// A sum of zeros is zero.
pub proof fn lemma_sum_all_zero(s: Seq<int>)
    requires
        forall|i: int| 0 <= i < s.len() ==> s[i] == 0,
    ensures
        sum(s) == 0,
    decreases s.len(),
{
    if s.len() > 0 {
        lemma_sum_all_zero(s.drop_last());
    }
}

/// Scaling and flooring one summand keeps the scaled-prefix inequality: if
/// the running floor sum stays below the scaled weight prefix, adding
/// `floor(wk * scale / t)` keeps it below the prefix extended by `wk`.
pub proof fn lemma_renorm_step(acc: int, prefix: int, wk: int, t: int, scale: int)
    requires
        t > 0,
        scale >= 0,
        wk >= 0,
        acc * t <= prefix * scale,
    ensures
        (acc + wk * scale / t) * t <= (prefix + wk) * scale,
        wk * scale / t >= 0,
{
    let q = wk * scale / t;
    lemma_mul_inequality(0, wk, scale);
    lemma_fundamental_div_mod(wk * scale, t);
    assert(t * q <= wk * scale);
    assert((acc + q) * t <= (prefix + wk) * scale) by (nonlinear_arith)
        requires
            acc * t <= prefix * scale,
            t * q <= wk * scale,
    {
    }
}

/// Cancelling a positive common factor on both sides of an inequality.
pub proof fn lemma_cancel_factor(a: int, b: int, t: int)
    by (nonlinear_arith)
    requires
        t > 0,
        a * t <= b * t,
    ensures
        a <= b,
{
}

} // verus!
