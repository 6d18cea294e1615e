use vstd::prelude::*;

verus! {

/// Integer division rounded toward zero, for a positive divisor.
pub open spec fn trunc_div(a: int, b: int) -> int {
    if a >= 0 {
        a / b
    } else {
        -((-a) / b)
    }
}

/// The largest integer whose square is at most `n`, for `n >= 0`.
pub open spec fn is_floor_sqrt(n: int, r: int) -> bool {
    0 <= r && r * r <= n && n < (r + 1) * (r + 1)
}

/// `lo` and `hi` bound `v`: the value kept when `v` is clamped into `[lo, hi]`.
pub open spec fn clamp(v: int, lo: int, hi: int) -> int {
    if v < lo {
        lo
    } else if v > hi {
        hi
    } else {
        v
    }
}

pub open spec fn abs(v: int) -> int {
    if v < 0 {
        -v
    } else {
        v
    }
}

/// Integer division rounded away from zero, for a positive divisor.
pub open spec fn away_div(a: int, b: int) -> int {
    if a >= 0 {
        (a + b - 1) / b
    } else {
        -((-a + b - 1) / b)
    }
}

/// The floor of the square root of `n >= 0`.
pub open spec fn floor_sqrt(n: int) -> int {
    choose|r: int| is_floor_sqrt(n, r)
}

/// The value of `v` kept within `[-m, m]`.
pub open spec fn saturate(v: int, m: int) -> int {
    clamp(v, -m, m)
}

/// Every natural number has a floor square root.
pub proof fn lemma_floor_sqrt(n: int)
    requires
        n >= 0,
    ensures
        is_floor_sqrt(n, floor_sqrt(n)),
    decreases n,
{
    if n == 0 {
        assert(is_floor_sqrt(0, 0));
    } else {
        lemma_floor_sqrt(n - 1);
        let r = floor_sqrt(n - 1);
        if (r + 1) * (r + 1) <= n {
            assert(n < (r + 2) * (r + 2)) by (nonlinear_arith)
                requires
                    n - 1 < (r + 1) * (r + 1),
                    r >= 0,
            ;
            assert(is_floor_sqrt(n, r + 1));
        } else {
            assert(is_floor_sqrt(n, r));
        }
    }
}

/// There is one floor square root.
pub proof fn lemma_floor_sqrt_unique(n: int, r: int)
    requires
        is_floor_sqrt(n, r),
    ensures
        floor_sqrt(n) == r,
{
    let s = floor_sqrt(n);
    assert(is_floor_sqrt(n, s));
    if s < r {
        assert((s + 1) * (s + 1) <= r * r) by (nonlinear_arith)
            requires
                0 <= s < r,
        ;
    } else if r < s {
        assert((r + 1) * (r + 1) <= s * s) by (nonlinear_arith)
            requires
                0 <= r < s,
        ;
    }
}

/// A quotient rounded toward zero is no larger in magnitude than the dividend.
pub proof fn lemma_trunc_div_bound(a: int, b: int)
    requires
        b >= 1,
    ensures
        abs(trunc_div(a, b)) <= abs(a),
        trunc_div(a, b) >= 0 <==> a >= 0 || -a < b,
{
    if a >= 0 {
        assert(0 <= a / b <= a) by (nonlinear_arith)
            requires
                a >= 0,
                b >= 1,
        ;
    } else {
        let m = -a;
        assert(0 <= m / b <= m) by (nonlinear_arith)
            requires
                m >= 0,
                b >= 1,
        ;
        assert(m < b ==> m / b == 0) by (nonlinear_arith)
            requires
                m >= 0,
                b >= 1,
        ;
        assert(m >= b ==> m / b >= 1) by (nonlinear_arith)
            requires
                m >= 0,
                b >= 1,
        ;
    }
}

/// Scaling `-v` by `num / den`, at most one, rounded toward zero, does not
/// grow its magnitude.
pub proof fn lemma_scaled_div_bound(v: int, num: int, den: int)
    requires
        0 <= num <= den,
        den >= 1,
    ensures
        abs(trunc_div(-v * num, den)) <= abs(v),
{
    let n = -v * num;
    if n >= 0 {
        assert(n / den <= abs(v)) by (nonlinear_arith)
            requires
                n == -v * num,
                n >= 0,
                0 <= num <= den,
                den >= 1,
        ;
    } else {
        assert((-n) / den <= abs(v)) by (nonlinear_arith)
            requires
                n == -v * num,
                n < 0,
                0 <= num <= den,
                den >= 1,
        ;
    }
}

/// A quotient of a dividend at most `m` times the divisor, rounded either
/// way, is at most `m` in magnitude.
pub proof fn lemma_div_bounded_by(a: int, b: int, m: int)
    requires
        b >= 1,
        abs(a) <= m * b,
    ensures
        abs(trunc_div(a, b)) <= m,
        abs(away_div(a, b)) <= m,
        trunc_div(a, b) == -trunc_div(-a, b),
        away_div(a, b) == -away_div(-a, b),
{
    let n = abs(a);
    assert(n / b <= m) by (nonlinear_arith)
        requires
            0 <= n <= m * b,
            b >= 1,
    ;
    assert((n + b - 1) / b <= m) by (nonlinear_arith)
        requires
            0 <= n <= m * b,
            b >= 1,
    ;
    assert((b - 1) / b == 0) by (nonlinear_arith)
        requires
            b >= 1,
    ;
}

/// Rounded away from zero, a quotient times the divisor covers the dividend.
pub proof fn lemma_away_div_covers(a: int, b: int)
    requires
        b >= 1,
    ensures
        a >= 0 ==> away_div(a, b) >= 0 && away_div(a, b) * b >= a,
        a <= 0 ==> away_div(a, b) <= 0 && away_div(a, b) * b <= a,
        a >= 0 ==> away_div(a, b) * b < a + b,
        a <= 0 ==> away_div(a, b) * b > a - b,
{
    assert((b - 1) / b == 0) by (nonlinear_arith)
        requires
            b >= 1,
    ;
    let n = abs(a);
    let q = (n + b - 1) / b;
    assert(q >= 0 && q * b >= n && q * b < n + b) by (nonlinear_arith)
        requires
            n >= 0,
            b >= 1,
            q == (n + b - 1) / b,
    ;
    assert((-q) * b == -(q * b)) by (nonlinear_arith);
    assert(0 * b == 0);
}

/// Rounded away from zero, the quotient's magnitude times the divisor covers
/// the dividend's magnitude by less than one divisor.
pub proof fn lemma_away_div_abs(a: int, b: int)
    requires
        b >= 1,
    ensures
        abs(away_div(a, b)) * b >= abs(a),
        abs(away_div(a, b)) * b < abs(a) + b,
{
    let n = abs(a);
    let q = (n + b - 1) / b;
    assert(q >= 0 && q * b >= n && q * b < n + b) by (nonlinear_arith)
        requires
            n >= 0,
            b >= 1,
            q == (n + b - 1) / b,
    ;
    assert(abs(away_div(a, b)) == q);
}

/// Rounded away from zero, a larger dividend of one sign gives a quotient at
/// least as large in magnitude.
pub proof fn lemma_away_div_monotone(a1: int, a2: int, b: int)
    requires
        b >= 1,
        0 <= a1 <= a2 || a2 <= a1 <= 0,
    ensures
        abs(away_div(a1, b)) <= abs(away_div(a2, b)),
{
    let n1 = abs(a1);
    let n2 = abs(a2);
    assert(0 <= (n1 + b - 1) / b <= (n2 + b - 1) / b) by (nonlinear_arith)
        requires
            0 <= n1 <= n2,
            b >= 1,
    ;
}

/// Division rounded toward zero on `i128`.
pub fn div_trunc(a: i128, b: i128) -> (q: i128)
    requires
        b > 0,
        a > i128::MIN,
    ensures
        q == trunc_div(a as int, b as int),
{
    if a >= 0 {
        a / b
    } else {
        let m: i128 = -a;
        -(m / b)
    }
}

/// Division rounded away from zero on `i128`.
pub fn div_away(a: i128, b: i128) -> (q: i128)
    requires
        b > 0,
        -0x4000_0000_0000_0000_0000_0000_0000_0000 < a < 0x4000_0000_0000_0000_0000_0000_0000_0000,
        b < 0x4000_0000_0000_0000_0000_0000_0000_0000,
    ensures
        q == away_div(a as int, b as int),
{
    if a >= 0 {
        (a + b - 1) / b
    } else {
        let m: i128 = -a;
        -((m + b - 1) / b)
    }
}

/// `v` kept within `[-m, m]`, as an `i64`.
pub fn saturate_i64(v: i128, m: i64) -> (r: i64)
    requires
        m >= 0,
    ensures
        r == saturate(v as int, m as int),
{
    if v < -(m as i128) {
        -m
    } else if v > m as i128 {
        m
    } else {
        v as i64
    }
}

} // verus!
