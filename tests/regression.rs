use linear_regression::{FitError, LinearRegression, Ratio, MAX_EXACT_SAMPLES};

fn ratio_equals(r: Ratio, num: i128, den: i128) -> bool {
    r.den != 0 && r.num * den == num * r.den
}

#[test]
fn new_starts_at_zero() {
    let m = LinearRegression::new();
    assert_eq!(m.slope, Ratio { num: 0, den: 1 });
    assert_eq!(m.intercept, Ratio { num: 0, den: 1 });
    assert!(m.slope.is_finite());
}

#[test]
fn fit_recovers_line_in_tenths() {
    // x = [1.0, 2.0, 3.0, 4.0], y = [4.5, 7.0, 9.5, 12.0], written in tenths:
    // the slope is 2.5 and the intercept 2.0, that is 20 tenths.
    let mut m = LinearRegression::new();
    let r = m.fit(vec![10, 20, 30, 40], vec![45, 70, 95, 120]);
    assert_eq!(r, Ok(()));
    assert_eq!(m.slope, Ratio { num: 5000, den: 2000 });
    assert_eq!(m.intercept, Ratio { num: 40000, den: 2000 });
    assert!(ratio_equals(m.slope, 5, 2));
    assert!(ratio_equals(m.intercept, 20, 1));
}

#[test]
fn fit_recovers_integer_line() {
    // y = 3x - 7 on predictor values that are not evenly spaced.
    let x: Vec<i32> = vec![-5, 0, 2, 9, 11, 40];
    let y: Vec<i32> = x.iter().map(|v| 3 * v - 7).collect();
    let mut m = LinearRegression::new();
    assert_eq!(m.fit(x, y), Ok(()));
    assert!(ratio_equals(m.slope, 3, 1));
    assert!(ratio_equals(m.intercept, -7, 1));
}

#[test]
fn fit_exact_formula_values() {
    // n = 3, Sx = 6, Sy = 6, Sxy = 1 + 6 + 6 = 13, Sxx = 14:
    // denominator 3*14 - 36 = 6, slope 3*13 - 36 = 3, intercept 6*14 - 6*13 = 6.
    let mut m = LinearRegression::new();
    assert_eq!(m.fit(vec![1, 2, 3], vec![1, 3, 2]), Ok(()));
    assert_eq!(m.slope, Ratio { num: 3, den: 6 });
    assert_eq!(m.intercept, Ratio { num: 6, den: 6 });
}

#[test]
fn fit_noisy_samples() {
    // Least squares on points off any line: n = 4, Sx = 6, Sy = 11,
    // Sxy = 0 + 3 + 4 + 15 = 22, Sxx = 14; denominator 4*14 - 36 = 20,
    // slope 4*22 - 66 = 22, intercept 11*14 - 6*22 = 22.
    let mut m = LinearRegression::new();
    assert_eq!(m.fit(vec![0, 1, 2, 3], vec![1, 3, 2, 5]), Ok(()));
    assert_eq!(m.slope, Ratio { num: 22, den: 20 });
    assert_eq!(m.intercept, Ratio { num: 22, den: 20 });
}

#[test]
fn length_mismatch_is_refused_and_keeps_state() {
    let mut m = LinearRegression::new();
    assert_eq!(m.fit(vec![10, 20, 30, 40], vec![45, 70, 95, 120]), Ok(()));
    let before = m;
    assert_eq!(m.fit(vec![1, 2, 3], vec![1, 2]), Err(FitError::LengthMismatch));
    assert_eq!(m, before);
    assert_eq!(m.fit(vec![], vec![5]), Err(FitError::LengthMismatch));
    assert_eq!(m, before);
}

#[test]
fn refit_same_inputs_gives_same_result() {
    let mut m = LinearRegression::new();
    assert_eq!(m.fit(vec![0, 1, 2, 3], vec![1, 3, 2, 5]), Ok(()));
    let first = m;
    assert_eq!(m.fit(vec![0, 1, 2, 3], vec![1, 3, 2, 5]), Ok(()));
    assert_eq!(m, first);
}

#[test]
fn refit_overwrites_history() {
    let mut fresh = LinearRegression::new();
    assert_eq!(fresh.fit(vec![1, 2, 3], vec![1, 3, 2]), Ok(()));
    let mut used = LinearRegression::new();
    assert_eq!(used.fit(vec![10, 20, 30, 40], vec![45, 70, 95, 120]), Ok(()));
    assert_eq!(used.fit(vec![1, 2, 3], vec![1, 3, 2]), Ok(()));
    assert_eq!(used, fresh);
}

#[test]
fn shifting_responses_moves_only_intercept() {
    let x: Vec<i32> = vec![0, 1, 2, 3];
    let y: Vec<i32> = vec![1, 3, 2, 5];
    let c: i32 = 7;
    let z: Vec<i32> = y.iter().map(|v| v + c).collect();
    let mut a = LinearRegression::new();
    let mut b = LinearRegression::new();
    assert_eq!(a.fit(x.clone(), y), Ok(()));
    assert_eq!(b.fit(x, z), Ok(()));
    assert_eq!(b.slope, a.slope);
    assert_eq!(b.intercept.den, a.intercept.den);
    assert_eq!(b.intercept.num, a.intercept.num + (c as i128) * a.intercept.den);
}

#[test]
fn shifting_a_line_raises_intercept() {
    let x: Vec<i32> = vec![10, 20, 30, 40];
    let y: Vec<i32> = vec![45 - 15, 70 - 15, 95 - 15, 120 - 15];
    let mut m = LinearRegression::new();
    assert_eq!(m.fit(x, y), Ok(()));
    assert!(ratio_equals(m.slope, 5, 2));
    assert!(ratio_equals(m.intercept, 5, 1));
}

#[test]
fn single_sample_is_degenerate() {
    let mut m = LinearRegression::new();
    assert_eq!(m.fit(vec![3], vec![8]), Ok(()));
    assert_eq!(m.slope.den, 0);
    assert_eq!(m.intercept.den, 0);
    assert!(!m.slope.is_finite());
    assert!(!m.intercept.is_finite());
}

#[test]
fn identical_predictors_are_degenerate() {
    let mut m = LinearRegression::new();
    assert_eq!(m.fit(vec![4, 4, 4], vec![1, 2, 6]), Ok(()));
    assert!(!m.slope.is_finite());
    assert!(!m.intercept.is_finite());
    // With every value identical the numerators vanish too: 0 / 0.
    assert_eq!(m.slope, Ratio { num: 0, den: 0 });
    assert_eq!(m.intercept, Ratio { num: 0, den: 0 });
}

#[test]
fn empty_samples_are_degenerate() {
    let mut m = LinearRegression::new();
    assert_eq!(m.fit(vec![], vec![]), Ok(()));
    assert_eq!(m.slope, Ratio { num: 0, den: 0 });
    assert_eq!(m.intercept, Ratio { num: 0, den: 0 });
}

#[test]
fn extreme_values_without_overflow() {
    // Two samples at the ends of the i32 range still fit exactly.
    let mut m = LinearRegression::new();
    assert_eq!(m.fit(vec![i32::MIN, i32::MAX], vec![i32::MAX, i32::MIN]), Ok(()));
    assert!(ratio_equals(m.slope, -1, 1));
    assert!(ratio_equals(m.intercept, -1, 1));
}

#[test]
fn overflow_is_refused_and_keeps_state() {
    // With 2^20 samples at i32::MIN, Sy * Sxx is -2^51 * 2^82, beyond i128.
    let n: usize = 1 << 20;
    let x: Vec<i32> = vec![i32::MIN; n];
    let y: Vec<i32> = vec![i32::MIN; n];
    let mut m = LinearRegression::new();
    let before = m;
    assert_eq!(m.fit(x, y), Err(FitError::Overflow));
    assert_eq!(m, before);
}

#[test]
fn ratio_helpers() {
    let r = Ratio::from_int(-4);
    assert_eq!(r, Ratio { num: -4, den: 1 });
    assert!(r.is_finite());
    assert!(!Ratio { num: 1, den: 0 }.is_finite());
}

#[test]
fn largest_exact_sample_count_fits() {
    let x: Vec<i32> = (0..MAX_EXACT_SAMPLES)
        .map(|i| if i % 2 == 0 { i32::MIN } else { i32::MAX })
        .collect();
    let y: Vec<i32> = x.iter().map(|v| if *v == i32::MIN { i32::MAX } else { i32::MIN }).collect();
    let mut m = LinearRegression::new();
    assert_eq!(m.fit(x, y), Ok(()));
    // The points are the two corners of the earlier test, each repeated.
    assert!(ratio_equals(m.slope, -1, 1));
    assert!(ratio_equals(m.intercept, -1, 1));
}
