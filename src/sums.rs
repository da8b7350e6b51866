use vstd::prelude::*;

verus! {

/// Sum of the first `k` entries of `s`.
pub open spec fn sum_first(s: Seq<i32>, k: int) -> int
    decreases k,
{
    if k <= 0 {
        0
    } else {
        sum_first(s, k - 1) + s[k - 1]
    }
}

/// Sum of the squares of the first `k` entries of `s`.
pub open spec fn sum_sq_first(s: Seq<i32>, k: int) -> int
    decreases k,
{
    if k <= 0 {
        0
    } else {
        sum_sq_first(s, k - 1) + s[k - 1] * s[k - 1]
    }
}

/// Sum of the products `x[i] * y[i]` over the first `k` positions.
pub open spec fn sum_prod_first(x: Seq<i32>, y: Seq<i32>, k: int) -> int
    decreases k,
{
    if k <= 0 {
        0
    } else {
        sum_prod_first(x, y, k - 1) + x[k - 1] * y[k - 1]
    }
}

/// Sum of the squared deviations `(x[i] - a)^2` over the first `k` entries.
pub open spec fn sum_sq_dev_first(x: Seq<i32>, a: int, k: int) -> int
    decreases k,
{
    if k <= 0 {
        0
    } else {
        sum_sq_dev_first(x, a, k - 1) + (x[k - 1] - a) * (x[k - 1] - a)
    }
}

/// On samples that lie on the line `y = b1 * x + b0`, the sums of `y` and of
/// `x * y` are fixed by those of `x`.
pub proof fn lemma_sums_on_line(x: Seq<i32>, y: Seq<i32>, b1: int, b0: int, k: int)
    requires
        0 <= k <= x.len(),
        k <= y.len(),
        forall|i: int| 0 <= i < k ==> y[i] == b1 * x[i] + b0,
    ensures
        sum_first(y, k) == b1 * sum_first(x, k) + k * b0,
        sum_prod_first(x, y, k) == b1 * sum_sq_first(x, k) + b0 * sum_first(x, k),
    decreases k,
{
    if k > 0 {
        lemma_sums_on_line(x, y, b1, b0, k - 1);
        let a = x[k - 1] as int;
        let b = y[k - 1] as int;
        let s = sum_first(x, k - 1);
        assert(b1 * (s + a) + k * b0 == b1 * s + (k - 1) * b0 + (b1 * a + b0))
            by (nonlinear_arith);
        assert(a * b == b1 * (a * a) + b0 * a) by (nonlinear_arith)
            requires
                b == b1 * a + b0,
        ;
        assert(b1 * (sum_sq_first(x, k - 1) + a * a) + b0 * (s + a) == b1 * sum_sq_first(x, k - 1)
            + b0 * s + (b1 * (a * a) + b0 * a)) by (nonlinear_arith);
    } else {
        assert(k * b0 == 0 && b1 * 0 == 0 && b0 * 0 == 0) by (nonlinear_arith)
            requires
                k == 0,
        ;
    }
}

/// Adding `c` to every response adds `k * c` to their sum and `c * sum(x)`
/// to the sum of products.
pub proof fn lemma_sums_of_shift(x: Seq<i32>, y: Seq<i32>, z: Seq<i32>, c: int, k: int)
    requires
        0 <= k <= x.len(),
        k <= y.len(),
        k <= z.len(),
        forall|i: int| 0 <= i < k ==> z[i] == y[i] + c,
    ensures
        sum_first(z, k) == sum_first(y, k) + k * c,
        sum_prod_first(x, z, k) == sum_prod_first(x, y, k) + c * sum_first(x, k),
    decreases k,
{
    if k > 0 {
        lemma_sums_of_shift(x, y, z, c, k - 1);
        let a = x[k - 1] as int;
        let b = y[k - 1] as int;
        assert((k - 1) * c + c == k * c) by (nonlinear_arith);
        assert(a * (b + c) == a * b + c * a) by (nonlinear_arith);
        assert(c * (sum_first(x, k - 1) + a) == c * sum_first(x, k - 1) + c * a)
            by (nonlinear_arith);
    } else {
        assert(k * c == 0 && c * 0 == 0) by (nonlinear_arith)
            requires
                k == 0,
        ;
    }
}

/// On a constant sequence the sums are multiples of that constant.
pub proof fn lemma_sums_of_constant(x: Seq<i32>, c: int, k: int)
    requires
        0 <= k <= x.len(),
        forall|i: int| 0 <= i < k ==> x[i] == c,
    ensures
        sum_first(x, k) == k * c,
        sum_sq_first(x, k) == k * (c * c),
    decreases k,
{
    if k > 0 {
        lemma_sums_of_constant(x, c, k - 1);
        assert((k - 1) * c + c == k * c) by (nonlinear_arith);
        assert((k - 1) * (c * c) + c * c == k * (c * c)) by (nonlinear_arith);
    } else {
        assert(k * c == 0 && k * (c * c) == 0) by (nonlinear_arith)
            requires
                k == 0,
        ;
    }
}

/// `sum((x[i] - a)^2) == sum(x^2) - 2 * a * sum(x) + k * a^2`.
pub proof fn lemma_sq_dev_expand(x: Seq<i32>, a: int, k: int)
    requires
        0 <= k <= x.len(),
    ensures
        sum_sq_dev_first(x, a, k) == sum_sq_first(x, k) - 2 * a * sum_first(x, k) + k * (a * a),
    decreases k,
{
    if k > 0 {
        lemma_sq_dev_expand(x, a, k - 1);
        let v = x[k - 1] as int;
        let q = sum_sq_first(x, k - 1);
        let s = sum_first(x, k - 1);
        assert(q - 2 * a * s + (k - 1) * (a * a) + (v - a) * (v - a) == (q + v * v) - 2 * a * (s
            + v) + k * (a * a)) by (nonlinear_arith);
    } else {
        assert(2 * a * 0 == 0 && k * (a * a) == 0) by (nonlinear_arith)
            requires
                k == 0,
        ;
    }
}

/// A sum of squared deviations is never negative, and it is positive as soon
/// as one entry differs from `a`.
pub proof fn lemma_sq_dev_sign(x: Seq<i32>, a: int, k: int)
    requires
        0 <= k <= x.len(),
    ensures
        sum_sq_dev_first(x, a, k) >= 0,
        (exists|i: int| 0 <= i < k && x[i] != a) ==> sum_sq_dev_first(x, a, k) > 0,
    decreases k,
{
    if k > 0 {
        lemma_sq_dev_sign(x, a, k - 1);
        let d = x[k - 1] - a;
        assert(d * d >= 0) by (nonlinear_arith);
        if d != 0 {
            assert(d * d > 0) by (nonlinear_arith)
                requires
                    d != 0,
            ;
        }
        if exists|i: int| 0 <= i < k && x[i] != a {
            let i = choose|i: int| 0 <= i < k && x[i] != a;
            if i < k - 1 {
                assert(exists|j: int| 0 <= j < k - 1 && x[j] != a);
            }
        }
    }
}

/// `k * sum(x^2) - sum(x)^2`, the spread of the first `k` entries.
pub open spec fn spread_first(x: Seq<i32>, k: int) -> int {
    k * sum_sq_first(x, k) - sum_first(x, k) * sum_first(x, k)
}

/// The spread grows, from one prefix to the next, by the squared deviations
/// of the earlier entries from the new one.
proof fn lemma_spread_step(x: Seq<i32>, k: int)
    requires
        0 < k <= x.len(),
    ensures
        spread_first(x, k) == spread_first(x, k - 1) + sum_sq_dev_first(x, x[k - 1] as int, k
            - 1),
{
    let a = x[k - 1] as int;
    lemma_sq_dev_expand(x, a, k - 1);
    let q = sum_sq_first(x, k - 1);
    let s = sum_first(x, k - 1);
    assert(k * (q + a * a) - (s + a) * (s + a) == (k - 1) * q - s * s + (q - 2 * a * s + (k - 1)
        * (a * a))) by (nonlinear_arith);
}

/// The spread is never negative, and it is positive when two of the entries
/// differ.
pub proof fn lemma_spread_sign(x: Seq<i32>, k: int)
    requires
        0 <= k <= x.len(),
    ensures
        spread_first(x, k) >= 0,
        (exists|i: int, j: int| 0 <= i < k && 0 <= j < k && x[i] != x[j]) ==> spread_first(x, k)
            > 0,
    decreases k,
{
    if k > 0 {
        lemma_spread_sign(x, k - 1);
        lemma_spread_step(x, k);
        let a = x[k - 1] as int;
        lemma_sq_dev_sign(x, a, k - 1);
        if exists|i: int, j: int| 0 <= i < k && 0 <= j < k && x[i] != x[j] {
            let (i, j) = choose|i: int, j: int| 0 <= i < k && 0 <= j < k && x[i] != x[j];
            if i < k - 1 && j < k - 1 {
                assert(exists|i2: int, j2: int|
                    0 <= i2 < k - 1 && 0 <= j2 < k - 1 && x[i2] != x[j2]);
            } else if i < k - 1 {
                assert(x[i] != a);
            } else {
                assert(x[j] != a);
            }
        }
    } else {
        assert(spread_first(x, 0) == 0);
    }
}

/// The four sums that the closed-form fit is built from, with the sample count.
pub struct SampleSums {
    pub n: i128,
    pub sum_x: i128,
    pub sum_y: i128,
    pub sum_xy: i128,
    pub sum_x2: i128,
}

const I32_SPAN: i128 = 0x8000_0000;

const I32_SPAN_SQ: i128 = 0x4000_0000_0000_0000;

proof fn lemma_product_bound(a: i32, b: i32)
    ensures
        -0x4000_0000_0000_0000 <= a * b <= 0x4000_0000_0000_0000,
        0 <= a * a <= 0x4000_0000_0000_0000,
{
    assert(-0x4000_0000_0000_0000 <= a * b <= 0x4000_0000_0000_0000) by (nonlinear_arith)
        requires
            -0x8000_0000 <= a <= 0x7fff_ffff,
            -0x8000_0000 <= b <= 0x7fff_ffff,
    ;
    assert(0 <= a * a <= 0x4000_0000_0000_0000) by (nonlinear_arith)
        requires
            -0x8000_0000 <= a <= 0x7fff_ffff,
    ;
}

/// Each sum over the first `k` entries is at most `k` times the largest size
/// of one of its terms.
pub proof fn lemma_sum_bounds(x: Seq<i32>, y: Seq<i32>, k: int)
    requires
        0 <= k <= x.len(),
        k <= y.len(),
    ensures
        -(k * 0x8000_0000) <= sum_first(x, k) <= k * 0x8000_0000,
        -(k * 0x8000_0000) <= sum_first(y, k) <= k * 0x8000_0000,
        0 <= sum_sq_first(x, k) <= k * 0x4000_0000_0000_0000,
        -(k * 0x4000_0000_0000_0000) <= sum_prod_first(x, y, k) <= k * 0x4000_0000_0000_0000,
    decreases k,
{
    if k > 0 {
        lemma_sum_bounds(x, y, k - 1);
        lemma_product_bound(x[k - 1], y[k - 1]);
    }
}

/// Computes the sample count and the sums of `x`, `y`, `x * y` and `x * x`
/// over paired samples. Every sum fits: its size is at most the count times
/// 2^62, and the count is below 2^64.
pub fn sample_sums(x: &Vec<i32>, y: &Vec<i32>) -> (r: SampleSums)
    requires
        x.len() == y.len(),
    ensures
        r.n == x.len(),
        r.sum_x == sum_first(x@, x.len() as int),
        r.sum_y == sum_first(y@, y.len() as int),
        r.sum_xy == sum_prod_first(x@, y@, x.len() as int),
        r.sum_x2 == sum_sq_first(x@, x.len() as int),
{
    let len = x.len();
    let mut sum_x: i128 = 0;
    let mut sum_y: i128 = 0;
    let mut sum_xy: i128 = 0;
    let mut sum_x2: i128 = 0;
    let mut i: usize = 0;
    while i < len
        invariant
            len == x.len(),
            len == y.len(),
            i <= len,
            sum_x == sum_first(x@, i as int),
            sum_y == sum_first(y@, i as int),
            sum_xy == sum_prod_first(x@, y@, i as int),
            sum_x2 == sum_sq_first(x@, i as int),
            -(i * I32_SPAN) <= sum_x <= i * I32_SPAN,
            -(i * I32_SPAN) <= sum_y <= i * I32_SPAN,
            -(i * I32_SPAN_SQ) <= sum_xy <= i * I32_SPAN_SQ,
            0 <= sum_x2 <= i * I32_SPAN_SQ,
        decreases len - i,
    {
        let a = x[i];
        let b = y[i];
        proof {
            lemma_product_bound(a, b);
        }
        sum_x = sum_x + a as i128;
        sum_y = sum_y + b as i128;
        sum_xy = sum_xy + (a as i128) * (b as i128);
        sum_x2 = sum_x2 + (a as i128) * (a as i128);
        i = i + 1;
    }
    SampleSums { n: len as i128, sum_x, sum_y, sum_xy, sum_x2 }
}

} // verus!
