//! The regression engine: executable statistics with exact contracts.

use vstd::prelude::*;

use crate::rational::Rational;
use crate::rational::rat_eq;
use crate::rational::rat_le;
use crate::rational::rat_one;
use crate::sums::DataPoint;
use crate::sums::dev_col;
use crate::sums::ints;
use crate::sums::lemma_sum_ints_bound;
use crate::sums::lemma_sum_sq_nonneg;
use crate::sums::lemma_sum_sq_take_le;
use crate::sums::lemma_variance;
use crate::sums::res_col;
use crate::sums::res_num;
use crate::sums::sum_ints;
use crate::sums::sum_prod;
use crate::sums::sum_sq;
use crate::sums::xs;
use crate::sums::ys;

verus! {

/// The engine evaluates every statistic exactly in 128-bit integer
/// arithmetic.  With 32-bit coordinates, a dataset of at most `MAX_LEN`
/// points keeps all of the slope's and R squared's intermediate sums and
/// products inside that range.
pub const MAX_LEN: usize = 0x8000_0000;

/// How a computation can fail.
///
/// The engine reports the degenerate inputs of the underlying formulas as
/// explicit errors instead of propagating them silently.
#[derive(Clone, Copy, Debug, PartialEq, Eq, Structural)]
pub enum RegError {
    /// The dataset is empty, so no mean exists.
    InvalidInput,
    /// A zero-variance column makes the requested statistic's denominator
    /// zero: all `x` equal for the slope, all `y` equal for R squared.
    DegenerateInput,
    /// An exact intermediate value does not fit in 128-bit arithmetic.
    Overflow,
}

/// What [`mean`] returns: the exact arithmetic mean of a non-empty vector,
/// as the unreduced rational `sum / len`, and `InvalidInput` on an empty one.
pub open spec fn mean_post(s: Seq<i32>, r: Result<Rational, RegError>) -> bool {
    match r {
        Ok(v) => v.num == sum_ints(ints(s)) && v.den == s.len() && v.wf(),
        Err(RegError::InvalidInput) => s.len() == 0,
        Err(_) => false,
    }
}

/// The arithmetic mean of a vector of numbers: their sum divided by their
/// count, as an exact rational.
///
/// Fails with `InvalidInput` on an empty vector, and succeeds on every other
/// one: the sum of any in-memory vector of 32-bit values fits in 128 bits.
pub fn mean(values: &Vec<i32>) -> (r: Result<Rational, RegError>)
    ensures
        mean_post(values@, r),
{
    let n = values.len();
    if n == 0 {
        return Err(RegError::InvalidInput);
    }
    let mut acc: i128 = 0;
    let mut i: usize = 0;
    while i < n
        invariant
            0 <= i <= n,
            n == values@.len(),
            acc as int == sum_ints(ints(values@).take(i as int)),
            -(i as int) * 0x8000_0000 <= acc as int <= (i as int) * 0x8000_0000,
        decreases n - i,
    {
        let v = values[i] as i128;
        proof {
            assert(ints(values@).take(i as int + 1).drop_last() =~= ints(values@).take(i as int));
            assert(ints(values@).take(i as int + 1).last() == values@[i as int] as int);
        }
        acc = acc + v;
        i = i + 1;
    }
    proof {
        assert(ints(values@).take(n as int) =~= ints(values@));
    }
    Ok(Rational { num: acc, den: n as i128 })
}

/// The value fits in 128-bit signed arithmetic.
pub open spec fn in_i128(v: int) -> bool {
    i128::MIN <= v <= i128::MAX
}

/// The column sums of a dataset, exact for any in-memory dataset.
fn col_sums(data: &Vec<DataPoint>) -> (r: (i128, i128))
    ensures
        r.0 as int == sum_ints(xs(data@)),
        r.1 as int == sum_ints(ys(data@)),
{
    let n = data.len();
    let ghost cx = xs(data@);
    let ghost cy = ys(data@);
    let mut sx: i128 = 0;
    let mut sy: i128 = 0;
    let mut i: usize = 0;
    while i < n
        invariant
            0 <= i <= n,
            n == data@.len(),
            cx == xs(data@),
            cy == ys(data@),
            sx as int == sum_ints(cx.take(i as int)),
            sy as int == sum_ints(cy.take(i as int)),
            -(i as int) * 0x8000_0000 <= sx as int <= (i as int) * 0x8000_0000,
            -(i as int) * 0x8000_0000 <= sy as int <= (i as int) * 0x8000_0000,
        decreases n - i,
    {
        let x = data[i].x as i128;
        let y = data[i].y as i128;
        proof {
            assert(cx.take(i as int + 1).drop_last() =~= cx.take(i as int));
            assert(cy.take(i as int + 1).drop_last() =~= cy.take(i as int));
            assert(cx.take(i as int + 1).last() == data@[i as int].x as int);
            assert(cy.take(i as int + 1).last() == data@[i as int].y as int);
        }
        sx = sx + x;
        sy = sy + y;
        i = i + 1;
    }
    proof {
        assert(cx.take(n as int) =~= cx);
        assert(cy.take(n as int) =~= cy);
    }
    (sx, sy)
}

/// Numerator of the least-squares slope over denominator [`slope_den`]:
/// `n * sum(x*y) - sum(x) * sum(y)`, which is `n * n` times the covariance
/// of the two columns.
pub open spec fn slope_num(s: Seq<DataPoint>) -> int {
    s.len() * sum_prod(xs(s), ys(s)) - sum_ints(xs(s)) * sum_ints(ys(s))
}

/// Denominator of the least-squares slope: `n * sum(x*x) - sum(x) * sum(x)`,
/// which is `n * n` times the variance of the predictor column.  It is
/// nonnegative, and zero exactly when all `x` are equal
/// (see [`crate::laws::lemma_slope_degenerate_iff_constant_x`]).
pub open spec fn slope_den(s: Seq<DataPoint>) -> int {
    s.len() * sum_sq(xs(s)) - sum_ints(xs(s)) * sum_ints(xs(s))
}

/// What [`slope`] returns: on a dataset with at least two distinct `x`
/// values, the exact least-squares slope `slope_num / slope_den`;
/// `InvalidInput` on an empty dataset; `DegenerateInput` when the predictor
/// column has zero variance.
pub open spec fn slope_post(s: Seq<DataPoint>, r: Result<Rational, RegError>) -> bool {
    match r {
        Ok(v) => v.num == slope_num(s) && v.den == slope_den(s) && v.wf() && s.len() > 0,
        Err(RegError::InvalidInput) => s.len() == 0,
        Err(RegError::DegenerateInput) => s.len() > 0 && slope_den(s) == 0,
        Err(RegError::Overflow) => false,
    }
}

/// The least-squares slope of `y` on `x`:
/// `sum((x - mean(x)) * (y - mean(y))) / sum((x - mean(x))^2)`,
/// as the exact rational `slope_num / slope_den` (both scaled by `n * n`,
/// which cancels).
///
/// Fails with `InvalidInput` on an empty dataset and with `DegenerateInput`
/// exactly when all `x` values are equal (there the denominator, the
/// variance of the predictor, is zero); succeeds on every other dataset.
pub fn slope(data: &Vec<DataPoint>) -> (r: Result<Rational, RegError>)
    requires
        data@.len() <= MAX_LEN,
    ensures
        slope_post(data@, r),
{
    let n = data.len();
    if n == 0 {
        return Err(RegError::InvalidInput);
    }
    let ghost cx = xs(data@);
    let ghost cy = ys(data@);
    let mut sx: i128 = 0;
    let mut sy: i128 = 0;
    let mut sxy: i128 = 0;
    let mut sxx: i128 = 0;
    let mut i: usize = 0;
    while i < n
        invariant
            0 <= i <= n,
            n == data@.len(),
            cx == xs(data@),
            cy == ys(data@),
            sx as int == sum_ints(cx.take(i as int)),
            sy as int == sum_ints(cy.take(i as int)),
            sxy as int == sum_prod(cx.take(i as int), cy.take(i as int)),
            sxx as int == sum_prod(cx.take(i as int), cx.take(i as int)),
            -(i as int) * 0x8000_0000 <= sx as int <= (i as int) * 0x8000_0000,
            -(i as int) * 0x8000_0000 <= sy as int <= (i as int) * 0x8000_0000,
            -(i as int) * 0x4000_0000_0000_0000 <= sxy as int
                <= (i as int) * 0x4000_0000_0000_0000,
            -(i as int) * 0x4000_0000_0000_0000 <= sxx as int
                <= (i as int) * 0x4000_0000_0000_0000,
        decreases n - i,
    {
        let x = data[i].x as i128;
        let y = data[i].y as i128;
        proof {
            assert(cx.take(i as int + 1).drop_last() =~= cx.take(i as int));
            assert(cy.take(i as int + 1).drop_last() =~= cy.take(i as int));
            assert(cx.take(i as int + 1).last() == data@[i as int].x as int);
            assert(cy.take(i as int + 1).last() == data@[i as int].y as int);
            assert(-0x4000_0000_0000_0000 <= (x as int) * (y as int) <= 0x4000_0000_0000_0000)
                by (nonlinear_arith)
                requires
                    -0x8000_0000 <= x as int <= 0x8000_0000,
                    -0x8000_0000 <= y as int <= 0x8000_0000,
            ;
            assert(-0x4000_0000_0000_0000 <= (x as int) * (x as int) <= 0x4000_0000_0000_0000)
                by (nonlinear_arith)
                requires
                    -0x8000_0000 <= x as int <= 0x8000_0000,
            ;
        }
        sx = sx + x;
        sy = sy + y;
        sxy = sxy + x * y;
        sxx = sxx + x * x;
        i = i + 1;
    }
    proof {
        assert(cx.take(n as int) =~= cx);
        assert(cy.take(n as int) =~= cy);
        assert((sx as int) * (sy as int) <= 0x1000_0000_0000_0000_0000_0000_0000_0000
            && (sx as int) * (sy as int) >= -0x1000_0000_0000_0000_0000_0000_0000_0000
            && (sx as int) * (sx as int) <= 0x1000_0000_0000_0000_0000_0000_0000_0000
            && (sx as int) * (sx as int) >= -0x1000_0000_0000_0000_0000_0000_0000_0000)
            by (nonlinear_arith)
            requires
                -0x4000_0000_0000_0000 <= sx as int <= 0x4000_0000_0000_0000,
                -0x4000_0000_0000_0000 <= sy as int <= 0x4000_0000_0000_0000,
        ;
        assert((n as int) * (sxy as int) <= 0x1000_0000_0000_0000_0000_0000_0000_0000
            && (n as int) * (sxy as int) >= -0x1000_0000_0000_0000_0000_0000_0000_0000
            && (n as int) * (sxx as int) <= 0x1000_0000_0000_0000_0000_0000_0000_0000
            && (n as int) * (sxx as int) >= -0x1000_0000_0000_0000_0000_0000_0000_0000)
            by (nonlinear_arith)
            requires
                0 <= n as int <= 0x8000_0000,
                -0x2000_0000_0000_0000_0000_0000 <= sxy as int <= 0x2000_0000_0000_0000_0000_0000,
                -0x2000_0000_0000_0000_0000_0000 <= sxx as int <= 0x2000_0000_0000_0000_0000_0000,
        ;
    }
    let num = (n as i128) * sxy - sx * sy;
    let den = (n as i128) * sxx - sx * sx;
    if den == 0 {
        return Err(RegError::DegenerateInput);
    }
    proof {
        lemma_variance(cx);
    }
    Ok(Rational { num, den })
}

/// Every intermediate value of [`intercept`] fits in 128-bit arithmetic.
pub open spec fn intercept_fits(s: Seq<DataPoint>, sl: Rational) -> bool {
    &&& in_i128(sum_ints(ys(s)) * sl.den)
    &&& in_i128(sl.num * sum_ints(xs(s)))
    &&& in_i128(sum_ints(ys(s)) * sl.den - sl.num * sum_ints(xs(s)))
    &&& in_i128(s.len() * sl.den)
}

/// What [`intercept`] returns: the exact rational
/// `(sum(y) * sl.den - sl.num * sum(x)) / (n * sl.den)`, which is
/// `mean(y) - sl * mean(x)`; `InvalidInput` on an empty dataset; `Overflow`
/// exactly when an intermediate value leaves the 128-bit range.
pub open spec fn intercept_post(
    s: Seq<DataPoint>,
    sl: Rational,
    r: Result<Rational, RegError>,
) -> bool {
    match r {
        Ok(v) => {
            &&& v.num == sum_ints(ys(s)) * sl.den - sl.num * sum_ints(xs(s))
            &&& v.den == s.len() * sl.den
            &&& v.wf()
            &&& s.len() > 0
            &&& intercept_fits(s, sl)
        },
        Err(RegError::InvalidInput) => s.len() == 0,
        Err(RegError::Overflow) => s.len() > 0 && !intercept_fits(s, sl),
        Err(RegError::DegenerateInput) => false,
    }
}

/// The least-squares intercept for a precomputed slope:
/// `mean(y) - sl * mean(x)`, as an exact rational over the common
/// denominator `n * sl.den`.
///
/// Fails with `InvalidInput` on an empty dataset and with `Overflow` exactly
/// when an intermediate product leaves the 128-bit range; succeeds on every
/// other input.
pub fn intercept(data: &Vec<DataPoint>, sl: Rational) -> (r: Result<Rational, RegError>)
    requires
        sl.wf(),
    ensures
        intercept_post(data@, sl, r),
{
    let n = data.len();
    if n == 0 {
        return Err(RegError::InvalidInput);
    }
    let (sx, sy) = col_sums(data);
    let t1 = match sy.checked_mul(sl.den) {
        Some(v) => v,
        None => {
            return Err(RegError::Overflow);
        },
    };
    let t2 = match sl.num.checked_mul(sx) {
        Some(v) => v,
        None => {
            return Err(RegError::Overflow);
        },
    };
    let num = match t1.checked_sub(t2) {
        Some(v) => v,
        None => {
            return Err(RegError::Overflow);
        },
    };
    let den = match (n as i128).checked_mul(sl.den) {
        Some(v) => v,
        None => {
            return Err(RegError::Overflow);
        },
    };
    proof {
        assert(den > 0) by (nonlinear_arith)
            requires
                den == (n as int) * sl.den,
                n as int > 0,
                sl.den > 0,
        ;
    }
    Ok(Rational { num, den })
}

/// Every intermediate value of [`predict`] fits in 128-bit arithmetic.
pub open spec fn predict_fits(ic: Rational, sl: Rational, x: Rational) -> bool {
    &&& in_i128(ic.num * sl.den)
    &&& in_i128(ic.num * sl.den * x.den)
    &&& in_i128(sl.num * x.num)
    &&& in_i128(sl.num * x.num * ic.den)
    &&& in_i128(ic.num * sl.den * x.den + sl.num * x.num * ic.den)
    &&& in_i128(ic.den * sl.den)
    &&& in_i128(ic.den * sl.den * x.den)
}

/// What [`predict`] returns: the exact rational `ic + sl * x` over the
/// denominator `ic.den * sl.den * x.den`; `Overflow` exactly when an
/// intermediate value leaves the 128-bit range.
pub open spec fn predict_post(
    ic: Rational,
    sl: Rational,
    x: Rational,
    r: Result<Rational, RegError>,
) -> bool {
    match r {
        Ok(v) => {
            &&& v.num == ic.num * sl.den * x.den + sl.num * x.num * ic.den
            &&& v.den == ic.den * sl.den * x.den
            &&& v.wf()
            &&& predict_fits(ic, sl, x)
        },
        Err(RegError::Overflow) => !predict_fits(ic, sl, x),
        Err(_) => false,
    }
}

/// The fitted line evaluated at `x`: `ic + sl * x`, as an exact rational.
///
/// Fails with `Overflow` exactly when an intermediate product leaves the
/// 128-bit range, and succeeds on every other input.
pub fn predict(ic: Rational, sl: Rational, x: Rational) -> (r: Result<Rational, RegError>)
    requires
        ic.wf(),
        sl.wf(),
        x.wf(),
    ensures
        predict_post(ic, sl, x, r),
{
    let t1 = match ic.num.checked_mul(sl.den) {
        Some(v) => v,
        None => {
            return Err(RegError::Overflow);
        },
    };
    let t1 = match t1.checked_mul(x.den) {
        Some(v) => v,
        None => {
            return Err(RegError::Overflow);
        },
    };
    let t2 = match sl.num.checked_mul(x.num) {
        Some(v) => v,
        None => {
            return Err(RegError::Overflow);
        },
    };
    let t2 = match t2.checked_mul(ic.den) {
        Some(v) => v,
        None => {
            return Err(RegError::Overflow);
        },
    };
    let num = match t1.checked_add(t2) {
        Some(v) => v,
        None => {
            return Err(RegError::Overflow);
        },
    };
    let d1 = match ic.den.checked_mul(sl.den) {
        Some(v) => v,
        None => {
            return Err(RegError::Overflow);
        },
    };
    let den = match d1.checked_mul(x.den) {
        Some(v) => v,
        None => {
            return Err(RegError::Overflow);
        },
    };
    proof {
        assert(den > 0) by (nonlinear_arith)
            requires
                den == ic.den * sl.den * x.den,
                ic.den > 0,
                sl.den > 0,
                x.den > 0,
        ;
    }
    Ok(Rational { num, den })
}

/// Sum of squared residual numerators: `SS_res` scaled by the square of the
/// common residual denominator `sl.den * ic.den`.
pub open spec fn ss_res_num(s: Seq<DataPoint>, sl: Rational, ic: Rational) -> int {
    sum_sq(res_col(s, sl, ic))
}

/// Sum of squared deviations of `y` from its mean, scaled by `n * n`:
/// `SS_tot` times `n * n`.  It is nonnegative, and zero exactly when all `y`
/// are equal (see [`crate::laws::lemma_r2_degenerate_iff_constant_y`]).
pub open spec fn ss_tot_num(s: Seq<DataPoint>) -> int {
    sum_sq(dev_col(ys(s), s.len() as int, sum_ints(ys(s))))
}

/// The intermediate values of one residual fit in 128-bit arithmetic.
pub open spec fn res_point_fits(p: DataPoint, sl: Rational, ic: Rational) -> bool {
    &&& in_i128(p.y * (sl.den * ic.den))
    &&& in_i128(p.y * (sl.den * ic.den) - ic.num * sl.den)
    &&& in_i128(sl.num * ic.den * p.x)
    &&& in_i128(res_num(p, sl, ic))
    &&& in_i128(res_num(p, sl, ic) * res_num(p, sl, ic))
}

/// The values shared by both error metrics fit in 128-bit arithmetic: the
/// common residual denominator, its two constant terms, every per-point
/// residual value, and the sum of squared residual numerators.
pub open spec fn res_fits(s: Seq<DataPoint>, sl: Rational, ic: Rational) -> bool {
    &&& in_i128(sl.den * ic.den)
    &&& in_i128(ic.num * sl.den)
    &&& in_i128(sl.num * ic.den)
    &&& (forall|k: int| 0 <= k < s.len() ==> #[trigger] res_point_fits(s[k], sl, ic))
    &&& in_i128(ss_res_num(s, sl, ic))
}

/// Computes the common residual denominator `sl.den * ic.den` and the sum of
/// squared residual numerators, or reports that a value does not fit.
fn res_sq_sum(data: &Vec<DataPoint>, sl: Rational, ic: Rational) -> (r: Option<(i128, i128)>)
    requires
        sl.wf(),
        ic.wf(),
    ensures
        match r {
            Some(v) => {
                &&& v.0 == sl.den * ic.den
                &&& v.1 == ss_res_num(data@, sl, ic)
                &&& v.1 >= 0
                &&& res_fits(data@, sl, ic)
            },
            None => !res_fits(data@, sl, ic),
        },
{
    let d = match sl.den.checked_mul(ic.den) {
        Some(v) => v,
        None => {
            return None;
        },
    };
    let c1 = match ic.num.checked_mul(sl.den) {
        Some(v) => v,
        None => {
            return None;
        },
    };
    let c2 = match sl.num.checked_mul(ic.den) {
        Some(v) => v,
        None => {
            return None;
        },
    };
    let ghost rcol = res_col(data@, sl, ic);
    let n = data.len();
    let mut acc: i128 = 0;
    let mut i: usize = 0;
    while i < n
        invariant
            0 <= i <= n,
            n == data@.len(),
            sl.wf(),
            ic.wf(),
            rcol == res_col(data@, sl, ic),
            d as int == sl.den * ic.den,
            c1 as int == ic.num * sl.den,
            c2 as int == sl.num * ic.den,
            acc as int == sum_sq(rcol.take(i as int)),
            acc >= 0,
            forall|k: int| 0 <= k < i ==> #[trigger] res_point_fits(data@[k], sl, ic),
        decreases n - i,
    {
        let p = data[i];
        let y = p.y as i128;
        let x = p.x as i128;
        let a = match y.checked_mul(d) {
            Some(v) => v,
            None => {
                proof {
                    assert(!res_point_fits(data@[i as int], sl, ic));
                }
                return None;
            },
        };
        let b = match a.checked_sub(c1) {
            Some(v) => v,
            None => {
                proof {
                    assert(!res_point_fits(data@[i as int], sl, ic));
                }
                return None;
            },
        };
        let e = match c2.checked_mul(x) {
            Some(v) => v,
            None => {
                proof {
                    assert(!res_point_fits(data@[i as int], sl, ic));
                }
                return None;
            },
        };
        let rn = match b.checked_sub(e) {
            Some(v) => v,
            None => {
                proof {
                    assert(!res_point_fits(data@[i as int], sl, ic));
                }
                return None;
            },
        };
        proof {
            assert(rn as int == res_num(data@[i as int], sl, ic));
        }
        let sq = match rn.checked_mul(rn) {
            Some(v) => v,
            None => {
                proof {
                    assert(!res_point_fits(data@[i as int], sl, ic));
                }
                return None;
            },
        };
        proof {
            assert(rcol.take(i as int + 1).drop_last() =~= rcol.take(i as int));
            assert(rcol.take(i as int + 1).last() == res_num(data@[i as int], sl, ic));
            assert(sq >= 0) by (nonlinear_arith)
                requires
                    sq as int == (rn as int) * (rn as int),
            ;
        }
        let acc2 = match acc.checked_add(sq) {
            Some(v) => v,
            None => {
                proof {
                    lemma_sum_sq_take_le(rcol, i as int + 1);
                }
                return None;
            },
        };
        acc = acc2;
        i = i + 1;
    }
    proof {
        assert(rcol.take(n as int) =~= rcol);
    }
    Some((d, acc))
}

/// Every intermediate value of [`mse`] fits in 128-bit arithmetic.
pub open spec fn mse_fits(s: Seq<DataPoint>, sl: Rational, ic: Rational) -> bool {
    &&& res_fits(s, sl, ic)
    &&& in_i128((sl.den * ic.den) * (sl.den * ic.den))
    &&& in_i128(s.len() * ((sl.den * ic.den) * (sl.den * ic.den)))
}

/// What [`mse`] returns: the exact mean of the squared residuals, as the
/// rational `ss_res_num / (n * (sl.den * ic.den)^2)`; `InvalidInput` on an
/// empty dataset; `Overflow` exactly when an intermediate value leaves the
/// 128-bit range.
pub open spec fn mse_post(
    s: Seq<DataPoint>,
    sl: Rational,
    ic: Rational,
    r: Result<Rational, RegError>,
) -> bool {
    match r {
        Ok(v) => {
            &&& v.num == ss_res_num(s, sl, ic)
            &&& v.den == s.len() * ((sl.den * ic.den) * (sl.den * ic.den))
            &&& v.wf()
            &&& s.len() > 0
            &&& mse_fits(s, sl, ic)
        },
        Err(RegError::InvalidInput) => s.len() == 0,
        Err(RegError::Overflow) => s.len() > 0 && !mse_fits(s, sl, ic),
        Err(RegError::DegenerateInput) => false,
    }
}

/// The mean squared error of the line `y = ic + sl * x` over the dataset:
/// `(1/n) * sum((y - (ic + sl * x))^2)`, as an exact rational.
///
/// Fails with `InvalidInput` on an empty dataset and with `Overflow` exactly
/// when an intermediate value leaves the 128-bit range; succeeds on every
/// other input.
pub fn mse(data: &Vec<DataPoint>, sl: Rational, ic: Rational) -> (r: Result<Rational, RegError>)
    requires
        sl.wf(),
        ic.wf(),
    ensures
        mse_post(data@, sl, ic, r),
{
    let n = data.len();
    if n == 0 {
        return Err(RegError::InvalidInput);
    }
    let (d, acc) = match res_sq_sum(data, sl, ic) {
        Some(v) => v,
        None => {
            return Err(RegError::Overflow);
        },
    };
    let dd = match d.checked_mul(d) {
        Some(v) => v,
        None => {
            return Err(RegError::Overflow);
        },
    };
    let den = match (n as i128).checked_mul(dd) {
        Some(v) => v,
        None => {
            return Err(RegError::Overflow);
        },
    };
    proof {
        assert(den > 0) by (nonlinear_arith)
            requires
                den == (n as int) * ((sl.den * ic.den) * (sl.den * ic.den)),
                n as int > 0,
                sl.den > 0,
                ic.den > 0,
        ;
    }
    Ok(Rational { num: acc, den })
}

/// Every intermediate value of [`r_squared`] fits in 128-bit arithmetic.
pub open spec fn r2_fits(s: Seq<DataPoint>, sl: Rational, ic: Rational) -> bool {
    &&& in_i128(ss_tot_num(s))
    &&& res_fits(s, sl, ic)
    &&& in_i128((sl.den * ic.den) * (sl.den * ic.den))
    &&& in_i128(ss_tot_num(s) * ((sl.den * ic.den) * (sl.den * ic.den)))
    &&& in_i128(ss_res_num(s, sl, ic) * (s.len() * s.len()))
    &&& in_i128(
        ss_tot_num(s) * ((sl.den * ic.den) * (sl.den * ic.den)) - ss_res_num(s, sl, ic) * (
        s.len() * s.len()),
    )
}

/// What [`r_squared`] returns: the exact rational `1 - SS_res / SS_tot`,
/// over the common denominator `SS_tot`'s numerator times the square of the
/// residual denominator; `InvalidInput` on an empty dataset;
/// `DegenerateInput` when the response column has zero variance; `Overflow`
/// exactly when an intermediate value leaves the 128-bit range.  A returned
/// value is at most one, with equality exactly when all residuals are zero.
pub open spec fn r2_post(
    s: Seq<DataPoint>,
    sl: Rational,
    ic: Rational,
    r: Result<Rational, RegError>,
) -> bool {
    match r {
        Ok(v) => {
            &&& v.num == ss_tot_num(s) * ((sl.den * ic.den) * (sl.den * ic.den)) - ss_res_num(
                s,
                sl,
                ic,
            ) * (s.len() * s.len())
            &&& v.den == ss_tot_num(s) * ((sl.den * ic.den) * (sl.den * ic.den))
            &&& v.wf()
            &&& s.len() > 0
            &&& ss_tot_num(s) != 0
            &&& r2_fits(s, sl, ic)
            &&& rat_le(v, rat_one())
            &&& (rat_eq(v, rat_one()) <==> ss_res_num(s, sl, ic) == 0)
        },
        Err(RegError::InvalidInput) => s.len() == 0,
        Err(RegError::DegenerateInput) => s.len() > 0 && ss_tot_num(s) == 0,
        Err(RegError::Overflow) => s.len() > 0 && ss_tot_num(s) != 0 && !r2_fits(s, sl, ic),
    }
}

/// The coefficient of determination of the line `y = ic + sl * x` over the
/// dataset: `1 - SS_res / SS_tot`, as an exact rational.  The result never
/// exceeds one, and equals one exactly when every residual is zero.
///
/// Fails with `InvalidInput` on an empty dataset, with `DegenerateInput`
/// exactly when all `y` values are equal (there `SS_tot`, the denominator,
/// is zero), and with `Overflow` exactly when an intermediate value leaves
/// the 128-bit range.
pub fn r_squared(data: &Vec<DataPoint>, sl: Rational, ic: Rational) -> (r: Result<
    Rational,
    RegError,
>)
    requires
        data@.len() <= MAX_LEN,
        sl.wf(),
        ic.wf(),
    ensures
        r2_post(data@, sl, ic, r),
{
    let n = data.len();
    if n == 0 {
        return Err(RegError::InvalidInput);
    }
    let (_, sy) = col_sums(data);
    let ghost cy = ys(data@);
    let ghost tcol = dev_col(cy, n as int, sum_ints(cy));
    proof {
        lemma_sum_ints_bound(cy, 0x8000_0000);
    }
    let nn = n as i128;
    let mut acc_t: i128 = 0;
    let mut i: usize = 0;
    while i < n
        invariant
            0 <= i <= n,
            n == data@.len(),
            n <= MAX_LEN,
            cy == ys(data@),
            tcol == dev_col(cy, n as int, sum_ints(cy)),
            nn == n as i128,
            sy as int == sum_ints(cy),
            -0x4000_0000_0000_0000 <= sy as int <= 0x4000_0000_0000_0000,
            acc_t as int == sum_sq(tcol.take(i as int)),
            acc_t >= 0,
        decreases n - i,
    {
        let y = data[i].y as i128;
        proof {
            assert(-0x4000_0000_0000_0000 <= (nn as int) * (y as int) <= 0x4000_0000_0000_0000)
                by (nonlinear_arith)
                requires
                    0 <= nn as int <= 0x8000_0000,
                    -0x8000_0000 <= y as int <= 0x8000_0000,
            ;
        }
        let tn = nn * y - sy;
        proof {
            assert(tcol.take(i as int + 1).drop_last() =~= tcol.take(i as int));
            assert(tcol.take(i as int + 1).last() == (n as int) * (data@[i as int].y as int)
                - sum_ints(cy));
            assert(0 <= (tn as int) * (tn as int)
                <= 0x4000_0000_0000_0000_0000_0000_0000_0000) by (nonlinear_arith)
                requires
                    -0x8000_0000_0000_0000 <= tn as int <= 0x8000_0000_0000_0000,
            ;
            lemma_sum_sq_nonneg(tcol.take(i as int + 1));
        }
        let sq = tn * tn;
        let acc2 = match acc_t.checked_add(sq) {
            Some(v) => v,
            None => {
                proof {
                    lemma_sum_sq_take_le(tcol, i as int + 1);
                }
                return Err(RegError::Overflow);
            },
        };
        acc_t = acc2;
        i = i + 1;
    }
    proof {
        assert(tcol.take(n as int) =~= tcol);
    }
    if acc_t == 0 {
        return Err(RegError::DegenerateInput);
    }
    let (d, acc_r) = match res_sq_sum(data, sl, ic) {
        Some(v) => v,
        None => {
            return Err(RegError::Overflow);
        },
    };
    let dd = match d.checked_mul(d) {
        Some(v) => v,
        None => {
            return Err(RegError::Overflow);
        },
    };
    let den = match acc_t.checked_mul(dd) {
        Some(v) => v,
        None => {
            return Err(RegError::Overflow);
        },
    };
    proof {
        assert(0 <= (nn as int) * (nn as int) <= 0x4000_0000_0000_0000) by (nonlinear_arith)
            requires
                0 <= nn as int <= 0x8000_0000,
        ;
    }
    let n2 = nn * nn;
    let rs = match acc_r.checked_mul(n2) {
        Some(v) => v,
        None => {
            return Err(RegError::Overflow);
        },
    };
    let num = match den.checked_sub(rs) {
        Some(v) => v,
        None => {
            return Err(RegError::Overflow);
        },
    };
    proof {
        assert(den > 0 && dd > 0) by (nonlinear_arith)
            requires
                den == (acc_t as int) * (dd as int),
                dd as int == ((sl.den * ic.den) * (sl.den * ic.den)),
                acc_t > 0,
                sl.den > 0,
                ic.den > 0,
        ;
        assert(rs >= 0 && (rs == 0 <==> acc_r == 0)) by (nonlinear_arith)
            requires
                rs as int == (acc_r as int) * (n2 as int),
                acc_r >= 0,
                n2 as int == (nn as int) * (nn as int),
                nn >= 1,
        ;
    }
    Ok(Rational { num, den })
}

} // verus!
