//! The mathematical model: sums over integer columns, and the facts about
//! sums of squares that the regression contracts rest on.

use vstd::prelude::*;

use crate::rational::Rational;

verus! {

/// One observation of the dataset: `x` the predictor (for instance a time
/// index), `y` the observed response.
#[derive(Clone, Copy, Debug, PartialEq, Eq, Structural)]
pub struct DataPoint {
    pub x: i32,
    pub y: i32,
}

/// The predictor column of a dataset, as unbounded integers.
pub open spec fn xs(s: Seq<DataPoint>) -> Seq<int> {
    Seq::new(s.len(), |i: int| s[i].x as int)
}

/// The response column of a dataset, as unbounded integers.
pub open spec fn ys(s: Seq<DataPoint>) -> Seq<int> {
    Seq::new(s.len(), |i: int| s[i].y as int)
}

/// A vector of numbers as a column of unbounded integers.
pub open spec fn ints(s: Seq<i32>) -> Seq<int> {
    Seq::new(s.len(), |i: int| s[i] as int)
}

/// The sum of a column.
pub open spec fn sum_ints(c: Seq<int>) -> int
    decreases c.len(),
{
    if c.len() == 0 {
        0
    } else {
        sum_ints(c.drop_last()) + c.last()
    }
}

/// The sum of the elementwise product of two columns of equal length.
pub open spec fn sum_prod(c: Seq<int>, d: Seq<int>) -> int
    decreases c.len(),
{
    if c.len() == 0 || d.len() == 0 {
        0
    } else {
        sum_prod(c.drop_last(), d.drop_last()) + c.last() * d.last()
    }
}

/// The sum of squares of a column.
pub open spec fn sum_sq(c: Seq<int>) -> int {
    sum_prod(c, c)
}

/// The column of deviations `n * c[i] - t`.  With `n` the length of `c` and
/// `t` its sum, `dev_col(c, n, t)[i]` is `n` times the deviation of `c[i]`
/// from the column's mean.
pub open spec fn dev_col(c: Seq<int>, n: int, t: int) -> Seq<int> {
    Seq::new(c.len(), |i: int| n * c[i] - t)
}

/// Numerator of the residual `y - (ic + sl * x)` at the point `p`, over the
/// common denominator `sl.den * ic.den`.
pub open spec fn res_num(p: DataPoint, sl: Rational, ic: Rational) -> int {
    p.y * (sl.den * ic.den) - ic.num * sl.den - sl.num * ic.den * p.x
}

/// The column of residual numerators of a dataset.
pub open spec fn res_col(s: Seq<DataPoint>, sl: Rational, ic: Rational) -> Seq<int> {
    Seq::new(s.len(), |i: int| res_num(s[i], sl, ic))
}

/// A sum is within `len * b` when every element is within `b`.
pub proof fn lemma_sum_ints_bound(c: Seq<int>, b: int)
    requires
        0 <= b,
        forall|i: int| 0 <= i < c.len() ==> -b <= #[trigger] c[i] <= b,
    ensures
        -(c.len() * b) <= sum_ints(c) <= c.len() * b,
    decreases c.len(),
{
    if c.len() > 0 {
        lemma_sum_ints_bound(c.drop_last(), b);
        assert(c.len() * b == (c.len() - 1) * b + b) by (nonlinear_arith);
    }
}

/// A sum of squares is nonnegative.
pub proof fn lemma_sum_sq_nonneg(c: Seq<int>)
    ensures
        0 <= sum_sq(c),
    decreases c.len(),
{
    if c.len() > 0 {
        lemma_sum_sq_nonneg(c.drop_last());
        assert(0 <= c.last() * c.last()) by (nonlinear_arith);
    }
}

/// A prefix of a sum of squares is no greater than the whole sum.
pub proof fn lemma_sum_sq_take_le(c: Seq<int>, i: int)
    requires
        0 <= i <= c.len(),
    ensures
        sum_sq(c.take(i)) <= sum_sq(c),
    decreases c.len(),
{
    if i == c.len() {
        assert(c.take(i) =~= c);
    } else {
        assert(c.drop_last().take(i) =~= c.take(i));
        lemma_sum_sq_take_le(c.drop_last(), i);
        assert(0 <= c.last() * c.last()) by (nonlinear_arith);
    }
}

/// A sum of squares is zero exactly when every element is zero.
pub proof fn lemma_sum_sq_zero_iff(c: Seq<int>)
    ensures
        sum_sq(c) == 0 <==> (forall|i: int| 0 <= i < c.len() ==> #[trigger] c[i] == 0),
    decreases c.len(),
{
    if c.len() > 0 {
        lemma_sum_sq_zero_iff(c.drop_last());
        lemma_sum_sq_nonneg(c.drop_last());
        assert(0 <= c.last() * c.last() && (c.last() * c.last() == 0 <==> c.last() == 0))
            by (nonlinear_arith);
        if sum_sq(c) == 0 {
            assert(forall|i: int| 0 <= i < c.len() - 1 ==> c[i] == c.drop_last()[i]);
        } else {
            if forall|i: int| 0 <= i < c.len() ==> #[trigger] c[i] == 0 {
                assert(forall|i: int|
                    0 <= i < c.len() - 1 ==> c.drop_last()[i] == c[i] && c[i] == 0);
                assert(c.last() == 0);
            }
        }
    }
}

/// The sum of a constant column is the length times the constant.
pub proof fn lemma_sum_ints_constant(c: Seq<int>, v: int)
    requires
        forall|i: int| 0 <= i < c.len() ==> #[trigger] c[i] == v,
    ensures
        sum_ints(c) == c.len() * v,
    decreases c.len(),
{
    if c.len() > 0 {
        assert(forall|i: int|
            0 <= i < c.len() - 1 ==> #[trigger] c.drop_last()[i] == c[i]);
        lemma_sum_ints_constant(c.drop_last(), v);
        assert(c.last() == c[c.len() - 1]);
        assert((c.len() - 1) * v + v == c.len() * v) by (nonlinear_arith);
    }
}

/// The sum of squared deviations expands to `n*n*sum_sq - 2*n*t*sum + len*t*t`.
pub proof fn lemma_dev_expand(c: Seq<int>, n: int, t: int)
    ensures
        sum_sq(dev_col(c, n, t))
            == n * n * sum_sq(c) - 2 * n * t * sum_ints(c) + c.len() * (t * t),
    decreases c.len(),
{
    if c.len() == 0 {
        assert(dev_col(c, n, t).len() == 0);
    } else {
        assert(dev_col(c, n, t).drop_last() =~= dev_col(c.drop_last(), n, t));
        lemma_dev_expand(c.drop_last(), n, t);
        let v = c.last();
        assert(dev_col(c, n, t).last() == n * v - t);
        assert((n * v - t) * (n * v - t)
            == n * n * (v * v) - 2 * n * t * v + t * t) by (nonlinear_arith);
        assert(n * n * sum_sq(c) == n * n * sum_sq(c.drop_last()) + n * n * (v * v))
            by (nonlinear_arith)
            requires
                sum_sq(c) == sum_sq(c.drop_last()) + v * v,
        ;
        assert(2 * n * t * sum_ints(c) == 2 * n * t * sum_ints(c.drop_last()) + 2 * n * t * v)
            by (nonlinear_arith)
            requires
                sum_ints(c) == sum_ints(c.drop_last()) + v,
        ;
        assert(c.len() * (t * t) == (c.len() - 1) * (t * t) + t * t) by (nonlinear_arith);
    }
}

/// How one product of deviations expands.
proof fn lemma_cross_term(n: int, v: int, w: int, t: int, u: int)
    ensures
        (n * v - t) * (n * w - u) == n * n * (v * w) - n * u * v - n * t * w + t * u,
{
    let a = n * v;
    let b = n * w;
    assert((a - t) * (b - u) == a * b - a * u - t * b + t * u) by (nonlinear_arith);
    assert(a * b == n * n * (v * w)) by (nonlinear_arith)
        requires
            a == n * v,
            b == n * w,
    ;
    assert(a * u == n * u * v) by (nonlinear_arith)
        requires
            a == n * v,
    ;
    assert(t * b == n * t * w) by (nonlinear_arith)
        requires
            b == n * w,
    ;
}

/// The cross version of [`lemma_dev_expand`]: the sum of products of two
/// deviation columns of equal length expands over the plain column sums.
#[verifier::rlimit(50)]
pub proof fn lemma_dev_cross_expand(c: Seq<int>, e: Seq<int>, n: int, t: int, u: int)
    requires
        c.len() == e.len(),
    ensures
        sum_prod(dev_col(c, n, t), dev_col(e, n, u))
            == n * n * sum_prod(c, e) - n * u * sum_ints(c) - n * t * sum_ints(e)
            + c.len() * (t * u),
    decreases c.len(),
{
    if c.len() == 0 {
        assert(dev_col(c, n, t).len() == 0);
    } else {
        assert(dev_col(c, n, t).drop_last() =~= dev_col(c.drop_last(), n, t));
        assert(dev_col(e, n, u).drop_last() =~= dev_col(e.drop_last(), n, u));
        lemma_dev_cross_expand(c.drop_last(), e.drop_last(), n, t, u);
        let v = c.last();
        let w = e.last();
        assert(dev_col(c, n, t).last() == n * v - t);
        assert(dev_col(e, n, u).last() == n * w - u);
        lemma_cross_term(n, v, w, t, u);
        assert(n * n * sum_prod(c, e) == n * n * sum_prod(c.drop_last(), e.drop_last())
            + n * n * (v * w)) by (nonlinear_arith)
            requires
                sum_prod(c, e) == sum_prod(c.drop_last(), e.drop_last()) + v * w,
        ;
        assert(n * u * sum_ints(c) == n * u * sum_ints(c.drop_last()) + n * u * v)
            by (nonlinear_arith)
            requires
                sum_ints(c) == sum_ints(c.drop_last()) + v,
        ;
        assert(n * t * sum_ints(e) == n * t * sum_ints(e.drop_last()) + n * t * w)
            by (nonlinear_arith)
            requires
                sum_ints(e) == sum_ints(e.drop_last()) + w,
        ;
        assert(c.len() * (t * u) == (c.len() - 1) * (t * u) + t * u) by (nonlinear_arith);
    }
}

/// The central fact about a column's variance: `len * sum_sq - sum * sum` is
/// nonnegative, and zero exactly when all elements of the column are equal.
pub proof fn lemma_variance(c: Seq<int>)
    ensures
        0 <= c.len() * sum_sq(c) - sum_ints(c) * sum_ints(c),
        c.len() * sum_sq(c) - sum_ints(c) * sum_ints(c) == 0
            <==> (forall|i: int, j: int|
                0 <= i < c.len() && 0 <= j < c.len() ==> c[i] == c[j]),
{
    let n = c.len() as int;
    let t = sum_ints(c);
    let q = n * sum_sq(c) - t * t;
    let d = dev_col(c, n, t);
    lemma_dev_expand(c, n, t);
    assert(sum_sq(d) == n * q) by (nonlinear_arith)
        requires
            sum_sq(d) == n * n * sum_sq(c) - 2 * n * t * sum_ints(c) + n * (t * t),
            t == sum_ints(c),
            q == n * sum_sq(c) - t * t,
    ;
    lemma_sum_sq_nonneg(d);
    lemma_sum_sq_zero_iff(d);
    if n == 0 {
    } else {
        assert(0 <= q) by (nonlinear_arith)
            requires
                0 <= n * q,
                n > 0,
        ;
        if q == 0 {
            assert(forall|i: int| 0 <= i < d.len() ==> d[i] == 0);
            assert forall|i: int, j: int|
                0 <= i < c.len() && 0 <= j < c.len() implies c[i] == c[j] by {
                assert(d[i] == 0 && d[j] == 0);
                assert(d[i] == n * c[i] - t && d[j] == n * c[j] - t);
                assert(c[i] == c[j]) by (nonlinear_arith)
                    requires
                        n * c[i] == n * c[j],
                        n > 0,
                ;
            }
        } else {
            if forall|i: int, j: int| 0 <= i < c.len() && 0 <= j < c.len() ==> #[trigger] c[i] == #[trigger] c[j] {
                assert(forall|i: int| 0 <= i < c.len() ==> #[trigger] c[i] == c[0]);
                lemma_sum_ints_constant(c, c[0]);
                assert forall|i: int| 0 <= i < d.len() implies d[i] == 0 by {
                    assert(c[i] == c[0]);
                    assert(d[i] == n * c[i] - t);
                    assert(t == n * c[0]);
                }
                assert(sum_sq(d) == 0);
                assert(q != 0 && n * q == 0);
                assert(false) by (nonlinear_arith)
                    requires
                        n * q == 0,
                        n > 0,
                        q != 0,
                ;
            }
        }
    }
}

} // verus!
