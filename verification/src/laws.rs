//! Laws that relate the engine's functions, proved once and for all.

use vstd::prelude::*;

use crate::engine::RegError;
use crate::engine::intercept_post;
use crate::engine::mean_post;
use crate::engine::mse_post;
use crate::engine::predict_post;
use crate::engine::r2_post;
use crate::engine::slope_den;
use crate::engine::slope_post;
use crate::engine::ss_tot_num;
use crate::rational::Rational;
use crate::engine::slope_num;
use crate::sums::DataPoint;
use crate::sums::dev_col;
use crate::sums::lemma_dev_cross_expand;
use crate::sums::lemma_sum_ints_constant;
use crate::sums::lemma_sum_sq_zero_iff;
use crate::sums::lemma_variance;
use crate::sums::sum_ints;
use crate::sums::sum_prod;
use crate::sums::sum_sq;
use crate::sums::xs;
use crate::sums::ys;

verus! {

/// The slope's cross-product form agrees with its deviation form: with
/// `dx[i] = n * (x[i] - mean(x))` and `dy[i] = n * (y[i] - mean(y))`,
/// the sums `sum(dx * dy)` and `sum(dx * dx)` are `slope_num` and
/// `slope_den` scaled by the same factor `n`, so their ratio is the
/// least-squares slope `sum((x - mean(x)) * (y - mean(y))) / sum((x - mean(x))^2)`.
pub proof fn lemma_slope_matches_deviation_form(s: Seq<DataPoint>)
    ensures
        sum_prod(
            dev_col(xs(s), s.len() as int, sum_ints(xs(s))),
            dev_col(ys(s), s.len() as int, sum_ints(ys(s))),
        ) == s.len() * slope_num(s),
        sum_sq(dev_col(xs(s), s.len() as int, sum_ints(xs(s)))) == s.len() * slope_den(s),
{
    let n = s.len() as int;
    let cx = xs(s);
    let cy = ys(s);
    let tx = sum_ints(cx);
    let ty = sum_ints(cy);
    lemma_dev_cross_expand(cx, cy, n, tx, ty);
    lemma_dev_cross_expand(cx, cx, n, tx, tx);
    assert(n * n * sum_prod(cx, cy) - n * ty * tx - n * tx * ty + n * (tx * ty)
        == n * (n * sum_prod(cx, cy) - tx * ty)) by (nonlinear_arith);
    assert(n * n * sum_prod(cx, cx) - n * tx * tx - n * tx * tx + n * (tx * tx)
        == n * (n * sum_prod(cx, cx) - tx * tx)) by (nonlinear_arith);
}

/// The slope's degenerate case is exactly the zero-variance predictor: the
/// slope's denominator is zero if and only if all `x` values of the dataset
/// are equal.  In particular a dataset of one point is degenerate.
pub proof fn lemma_slope_degenerate_iff_constant_x(s: Seq<DataPoint>)
    ensures
        slope_den(s) == 0 <==> (forall|i: int, j: int|
            0 <= i < s.len() && 0 <= j < s.len() ==> #[trigger] s[i].x == #[trigger] s[j].x),
{
    let c = xs(s);
    lemma_variance(c);
    if slope_den(s) == 0 {
        assert forall|i: int, j: int|
            0 <= i < s.len() && 0 <= j < s.len() implies #[trigger] s[i].x
            == #[trigger] s[j].x by {
            assert(c[i] == c[j]);
        }
    } else {
        if forall|i: int, j: int|
            0 <= i < s.len() && 0 <= j < s.len() ==> #[trigger] s[i].x == #[trigger] s[j].x {
            assert forall|i: int, j: int|
                0 <= i < c.len() && 0 <= j < c.len() implies #[trigger] c[i]
                == #[trigger] c[j] by {
                assert(s[i].x == s[j].x);
            }
            assert(false);
        }
    }
}

/// R squared's degenerate case is exactly the zero-variance response: the
/// scaled total sum of squares is zero if and only if all `y` values of the
/// dataset are equal.  In particular a dataset of one point is degenerate.
pub proof fn lemma_r2_degenerate_iff_constant_y(s: Seq<DataPoint>)
    ensures
        ss_tot_num(s) == 0 <==> (forall|i: int, j: int|
            0 <= i < s.len() && 0 <= j < s.len() ==> #[trigger] s[i].y == #[trigger] s[j].y),
{
    let c = ys(s);
    let n = s.len() as int;
    let t = sum_ints(c);
    let d = dev_col(c, n, t);
    lemma_sum_sq_zero_iff(d);
    if ss_tot_num(s) == 0 {
        assert forall|i: int, j: int|
            0 <= i < s.len() && 0 <= j < s.len() implies #[trigger] s[i].y
            == #[trigger] s[j].y by {
            assert(d[i] == 0 && d[j] == 0);
            assert(d[i] == n * c[i] - t && d[j] == n * c[j] - t);
            assert(c[i] == c[j]) by (nonlinear_arith)
                requires
                    n * c[i] == n * c[j],
                    n > 0,
            ;
        }
    } else {
        if forall|i: int, j: int|
            0 <= i < s.len() && 0 <= j < s.len() ==> #[trigger] s[i].y == #[trigger] s[j].y {
            assert(forall|i: int| 0 <= i < c.len() ==> #[trigger] c[i] == c[0]);
            lemma_sum_ints_constant(c, c[0]);
            assert forall|i: int| 0 <= i < d.len() implies #[trigger] d[i] == 0 by {
                assert(c[i] == c[0]);
                assert(d[i] == n * c[i] - t);
                assert(t == n * c[0]);
            }
            assert(false);
        }
    }
}

/// The mean is a pure function of its input: two results for the same
/// vector are bit-identical.
pub proof fn lemma_mean_deterministic(
    s: Seq<i32>,
    r1: Result<Rational, RegError>,
    r2: Result<Rational, RegError>,
)
    requires
        mean_post(s, r1),
        mean_post(s, r2),
    ensures
        r1 == r2,
{
}

/// The slope is a pure function of the dataset: two results for the same
/// dataset are bit-identical.
pub proof fn lemma_slope_deterministic(
    s: Seq<DataPoint>,
    r1: Result<Rational, RegError>,
    r2: Result<Rational, RegError>,
)
    requires
        slope_post(s, r1),
        slope_post(s, r2),
    ensures
        r1 == r2,
{
}

/// The intercept is a pure function of the dataset and the slope: two
/// results for the same inputs are bit-identical.
pub proof fn lemma_intercept_deterministic(
    s: Seq<DataPoint>,
    sl: Rational,
    r1: Result<Rational, RegError>,
    r2: Result<Rational, RegError>,
)
    requires
        intercept_post(s, sl, r1),
        intercept_post(s, sl, r2),
    ensures
        r1 == r2,
{
}

/// The prediction is a pure function of intercept, slope and query point:
/// two results for the same inputs are bit-identical.
pub proof fn lemma_predict_deterministic(
    ic: Rational,
    sl: Rational,
    x: Rational,
    r1: Result<Rational, RegError>,
    r2: Result<Rational, RegError>,
)
    requires
        predict_post(ic, sl, x, r1),
        predict_post(ic, sl, x, r2),
    ensures
        r1 == r2,
{
}

/// The mean squared error is a pure function of dataset, slope and
/// intercept: two results for the same inputs are bit-identical.
pub proof fn lemma_mse_deterministic(
    s: Seq<DataPoint>,
    sl: Rational,
    ic: Rational,
    r1: Result<Rational, RegError>,
    r2: Result<Rational, RegError>,
)
    requires
        mse_post(s, sl, ic, r1),
        mse_post(s, sl, ic, r2),
    ensures
        r1 == r2,
{
}

/// R squared is a pure function of dataset, slope and intercept: two
/// results for the same inputs are bit-identical.
pub proof fn lemma_r2_deterministic(
    s: Seq<DataPoint>,
    sl: Rational,
    ic: Rational,
    r1: Result<Rational, RegError>,
    r2: Result<Rational, RegError>,
)
    requires
        r2_post(s, sl, ic, r1),
        r2_post(s, sl, ic, r2),
    ensures
        r1 == r2,
{
}

} // verus!
