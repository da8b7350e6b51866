use vstd::prelude::*;

use crate::ratio::Ratio;
use crate::sums::{
    lemma_spread_sign, lemma_sum_bounds, lemma_sums_of_constant, lemma_sums_of_shift, lemma_sums_on_line, sample_sums,
    spread_first, sum_first, sum_prod_first, sum_sq_first,
};

verus! {

/// Why a fit was refused; the estimator is then left as it was.
#[derive(Clone, Copy, Debug, PartialEq, Eq, Structural)]
pub enum FitError {
    /// The predictor and response sequences differ in length.
    LengthMismatch,
    /// An exact intermediate value of the closed form does not fit in an `i128`.
    Overflow,
}

/// A simple linear model `y = slope * x + intercept`, fitted by ordinary least
/// squares. Slope and intercept are kept as exact fractions.
#[derive(Clone, Copy, Debug, PartialEq, Eq, Structural)]
pub struct LinearRegression {
    pub slope: Ratio,
    pub intercept: Ratio,
}

/// `n * sum(x^2) - sum(x)^2`, the common denominator of the closed form.
pub open spec fn denominator(x: Seq<i32>) -> int {
    let n = x.len() as int;
    let s = sum_first(x, n);
    n * sum_sq_first(x, n) - s * s
}

/// `n * sum(x * y) - sum(x) * sum(y)`, the numerator of the slope.
pub open spec fn slope_numerator(x: Seq<i32>, y: Seq<i32>) -> int {
    let n = x.len() as int;
    n * sum_prod_first(x, y, n) - sum_first(x, n) * sum_first(y, n)
}

/// `sum(y) * sum(x^2) - sum(x) * sum(x * y)`, the numerator of the intercept.
pub open spec fn intercept_numerator(x: Seq<i32>, y: Seq<i32>) -> int {
    let n = x.len() as int;
    sum_first(y, n) * sum_sq_first(x, n) - sum_first(x, n) * sum_prod_first(x, y, n)
}

/// `v` is a value of type `i128`.
pub open spec fn in_i128(v: int) -> bool {
    i128::MIN <= v <= i128::MAX
}

/// Every product and difference that the closed form evaluates fits in an `i128`.
pub open spec fn representable(x: Seq<i32>, y: Seq<i32>) -> bool {
    let n = x.len() as int;
    let sx = sum_first(x, n);
    let sy = sum_first(y, n);
    let sxy = sum_prod_first(x, y, n);
    let sx2 = sum_sq_first(x, n);
    &&& in_i128(n * sx2)
    &&& in_i128(sx * sx)
    &&& in_i128(n * sx2 - sx * sx)
    &&& in_i128(n * sxy)
    &&& in_i128(sx * sy)
    &&& in_i128(n * sxy - sx * sy)
    &&& in_i128(sy * sx2)
    &&& in_i128(sx * sxy)
    &&& in_i128(sy * sx2 - sx * sxy)
}

/// What a fit on `x` and `y` reports.
pub open spec fn fit_outcome(x: Seq<i32>, y: Seq<i32>) -> Result<(), FitError> {
    if x.len() != y.len() {
        Err(FitError::LengthMismatch)
    } else if !representable(x, y) {
        Err(FitError::Overflow)
    } else {
        Ok(())
    }
}

/// The model that a successful fit on `x` and `y` holds.
pub open spec fn fitted(x: Seq<i32>, y: Seq<i32>) -> LinearRegression {
    LinearRegression {
        slope: Ratio { num: slope_numerator(x, y) as i128, den: denominator(x) as i128 },
        intercept: Ratio { num: intercept_numerator(x, y) as i128, den: denominator(x) as i128 },
    }
}

/// The estimator `m` after a fit on `x` and `y`: the fitted model on success,
/// `m` unchanged otherwise.
pub open spec fn after_fit(m: LinearRegression, x: Seq<i32>, y: Seq<i32>) -> LinearRegression {
    if fit_outcome(x, y) is Ok {
        fitted(x, y)
    } else {
        m
    }
}

/// Largest number of samples for which every fit is owed to succeed.
pub const MAX_EXACT_SAMPLES: usize = 65536;

/// Up to `MAX_EXACT_SAMPLES` paired samples, every intermediate value of the
/// closed form fits in an `i128`, so a fit on samples of equal length
/// succeeds whatever their values.
pub proof fn lemma_fit_succeeds(x: Seq<i32>, y: Seq<i32>)
    requires
        x.len() == y.len(),
        x.len() <= MAX_EXACT_SAMPLES,
    ensures
        representable(x, y),
        fit_outcome(x, y) == Ok::<(), FitError>(()),
{
    let n = x.len() as int;
    lemma_sum_bounds(x, y, n);
    let sx = sum_first(x, n);
    let sy = sum_first(y, n);
    let sxy = sum_prod_first(x, y, n);
    let sx2 = sum_sq_first(x, n);
    let a: int = 0x8000_0000_0000;
    let q: int = 0x4000_0000_0000_0000_0000;
    assert(-a <= sx <= a && -a <= sy <= a);
    assert(0 <= sx2 <= q && -q <= sxy <= q);
    assert(0 <= n * sx2 <= 0x1_0000 * q) by (nonlinear_arith)
        requires
            0 <= n <= 0x1_0000,
            0 <= sx2 <= q,
    ;
    assert(-(0x1_0000 * q) <= n * sxy <= 0x1_0000 * q) by (nonlinear_arith)
        requires
            0 <= n <= 0x1_0000,
            -q <= sxy <= q,
    ;
    assert(0 <= sx * sx <= a * a) by (nonlinear_arith)
        requires
            -a <= sx <= a,
    ;
    assert(-(a * a) <= sx * sy <= a * a) by (nonlinear_arith)
        requires
            -a <= sx <= a,
            -a <= sy <= a,
    ;
    assert(-(a * q) <= sy * sx2 <= a * q) by (nonlinear_arith)
        requires
            -a <= sy <= a,
            0 <= sx2 <= q,
    ;
    assert(-(a * q) <= sx * sxy <= a * q) by (nonlinear_arith)
        requires
            -a <= sx <= a,
            -q <= sxy <= q,
    ;
}

/// Samples that lie exactly on the line `y = b1 * x + b0`, with at least two
/// distinct predictor values, give back that line: the denominator is
/// positive, the slope equals `b1` and the intercept equals `b0`.
pub proof fn lemma_exact_recovery(x: Seq<i32>, y: Seq<i32>, b1: int, b0: int)
    requires
        x.len() == y.len(),
        forall|i: int| 0 <= i < x.len() ==> y[i] == b1 * x[i] + b0,
        exists|i: int, j: int| 0 <= i < x.len() && 0 <= j < x.len() && x[i] != x[j],
    ensures
        denominator(x) > 0,
        slope_numerator(x, y) == b1 * denominator(x),
        intercept_numerator(x, y) == b0 * denominator(x),
        fit_outcome(x, y) is Ok ==> fitted(x, y).slope.equals_int(b1),
        fit_outcome(x, y) is Ok ==> fitted(x, y).intercept.equals_int(b0),
{
    let n = x.len() as int;
    lemma_sums_on_line(x, y, b1, b0, n);
    lemma_spread_sign(x, n);
    assert(spread_first(x, n) == denominator(x));
    let s = sum_first(x, n);
    let q = sum_sq_first(x, n);
    let t = sum_first(y, n);
    let p = sum_prod_first(x, y, n);
    assert(n * p - s * t == b1 * (n * q - s * s)) by (nonlinear_arith)
        requires
            t == b1 * s + n * b0,
            p == b1 * q + b0 * s,
    ;
    assert(t * q - s * p == b0 * (n * q - s * s)) by (nonlinear_arith)
        requires
            t == b1 * s + n * b0,
            p == b1 * q + b0 * s,
    ;
}

/// Fitting is stateless: fitting again on the same samples changes nothing,
/// and a successful fit leaves the same model whatever the estimator held
/// before.
pub proof fn lemma_refit(m1: LinearRegression, m2: LinearRegression, x: Seq<i32>, y: Seq<i32>)
    ensures
        after_fit(after_fit(m1, x, y), x, y) == after_fit(m1, x, y),
        fit_outcome(x, y) is Ok ==> after_fit(m1, x, y) == after_fit(m2, x, y),
{
}

/// Adding a constant `c` to every response leaves the slope as it was and
/// raises the intercept by exactly `c`: the numerators change by `0` and by
/// `c` times the common denominator, which does not change.
pub proof fn lemma_shift_response(x: Seq<i32>, y: Seq<i32>, z: Seq<i32>, c: int)
    requires
        x.len() == y.len(),
        z.len() == y.len(),
        forall|i: int| 0 <= i < y.len() ==> z[i] == y[i] + c,
    ensures
        slope_numerator(x, z) == slope_numerator(x, y),
        intercept_numerator(x, z) == intercept_numerator(x, y) + c * denominator(x),
        fit_outcome(x, y) is Ok && fit_outcome(x, z) is Ok ==> {
            &&& fitted(x, z).slope == fitted(x, y).slope
            &&& fitted(x, z).intercept.den == fitted(x, y).intercept.den
            &&& fitted(x, z).intercept.num == fitted(x, y).intercept.num + c * fitted(
                x,
                y,
            ).intercept.den
        },
{
    let n = x.len() as int;
    lemma_sums_of_shift(x, y, z, c, n);
    let s = sum_first(x, n);
    let q = sum_sq_first(x, n);
    let t = sum_first(y, n);
    let p = sum_prod_first(x, y, n);
    let t2 = sum_first(z, n);
    let p2 = sum_prod_first(x, z, n);
    assert(n * p2 - s * t2 == n * p - s * t) by (nonlinear_arith)
        requires
            t2 == t + n * c,
            p2 == p + c * s,
    ;
    assert(t2 * q - s * p2 == t * q - s * p + c * (n * q - s * s)) by (nonlinear_arith)
        requires
            t2 == t + n * c,
            p2 == p + c * s,
    ;
}

/// With a single sample, or with all predictor values equal, the common
/// denominator is zero, so a successful fit leaves a slope and an intercept
/// that are not finite numbers.
pub proof fn lemma_degenerate_input(x: Seq<i32>, y: Seq<i32>)
    requires
        x.len() == y.len(),
        x.len() == 1 || forall|i: int, j: int|
            0 <= i < x.len() && 0 <= j < x.len() ==> x[i] == x[j],
    ensures
        denominator(x) == 0,
        fit_outcome(x, y) is Ok ==> !fitted(x, y).slope.finite(),
        fit_outcome(x, y) is Ok ==> !fitted(x, y).intercept.finite(),
{
    let n = x.len() as int;
    if n == 0 {
        assert(denominator(x) == 0);
    } else {
        let c = x[0] as int;
        assert forall|i: int| 0 <= i < n implies x[i] == c by {
            if n != 1 {
                assert(x[i] == x[0]);
            }
        }
        lemma_sums_of_constant(x, c, n);
        assert(n * (n * (c * c)) - (n * c) * (n * c) == 0) by (nonlinear_arith);
    }
}

fn checked_mul(a: i128, b: i128) -> (r: Result<i128, FitError>)
    ensures
        in_i128(a * b) ==> r == Ok::<i128, FitError>((a * b) as i128),
        !in_i128(a * b) ==> r == Err::<i128, FitError>(FitError::Overflow),
{
    match a.checked_mul(b) {
        Some(v) => Ok(v),
        None => Err(FitError::Overflow),
    }
}

fn checked_sub(a: i128, b: i128) -> (r: Result<i128, FitError>)
    ensures
        in_i128(a - b) ==> r == Ok::<i128, FitError>((a - b) as i128),
        !in_i128(a - b) ==> r == Err::<i128, FitError>(FitError::Overflow),
{
    match a.checked_sub(b) {
        Some(v) => Ok(v),
        None => Err(FitError::Overflow),
    }
}

impl LinearRegression {
    /// An unfitted estimator: slope and intercept are both zero.
    pub fn new() -> (r: LinearRegression)
        ensures
            r.slope.equals_int(0),
            r.intercept.equals_int(0),
            r.slope == (Ratio { num: 0, den: 1 }),
            r.intercept == (Ratio { num: 0, den: 1 }),
    {
        LinearRegression { slope: Ratio::from_int(0), intercept: Ratio::from_int(0) }
    }

    /// Fits the model to the paired samples `x[i]`, `y[i]` by the closed form
    /// of ordinary least squares:
    /// `slope = (n*Sxy - Sx*Sy) / (n*Sxx - Sx^2)` and
    /// `intercept = (Sy*Sxx - Sx*Sxy) / (n*Sxx - Sx^2)`,
    /// both kept exactly. Both fields are overwritten on success; on an error
    /// the estimator is left unchanged.
    pub fn fit(&mut self, x: Vec<i32>, y: Vec<i32>) -> (r: Result<(), FitError>)
        ensures
            r == fit_outcome(x@, y@),
            *final(self) == after_fit(*old(self), x@, y@),
            r is Err ==> *final(self) == *old(self),
            r is Ok ==> final(self).slope.num == slope_numerator(x@, y@),
            r is Ok ==> final(self).slope.den == denominator(x@),
            r is Ok ==> final(self).intercept.num == intercept_numerator(x@, y@),
            r is Ok ==> final(self).intercept.den == denominator(x@),
    {
        if x.len() != y.len() {
            return Err(FitError::LengthMismatch);
        }
        let s = sample_sums(&x, &y);
        let nq = match checked_mul(s.n, s.sum_x2) {
            Ok(v) => v,
            Err(e) => return Err(e),
        };
        let ss = match checked_mul(s.sum_x, s.sum_x) {
            Ok(v) => v,
            Err(e) => return Err(e),
        };
        let den = match checked_sub(nq, ss) {
            Ok(v) => v,
            Err(e) => return Err(e),
        };
        let np = match checked_mul(s.n, s.sum_xy) {
            Ok(v) => v,
            Err(e) => return Err(e),
        };
        let st = match checked_mul(s.sum_x, s.sum_y) {
            Ok(v) => v,
            Err(e) => return Err(e),
        };
        let slope_num = match checked_sub(np, st) {
            Ok(v) => v,
            Err(e) => return Err(e),
        };
        let tq = match checked_mul(s.sum_y, s.sum_x2) {
            Ok(v) => v,
            Err(e) => return Err(e),
        };
        let sp = match checked_mul(s.sum_x, s.sum_xy) {
            Ok(v) => v,
            Err(e) => return Err(e),
        };
        let intercept_num = match checked_sub(tq, sp) {
            Ok(v) => v,
            Err(e) => return Err(e),
        };
        self.slope = Ratio { num: slope_num, den };
        self.intercept = Ratio { num: intercept_num, den };
        Ok(())
    }
}

} // verus!
