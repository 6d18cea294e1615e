use vstd::prelude::*;
use crate::arith::{abs, away_div, floor_sqrt, is_floor_sqrt, lemma_floor_sqrt_unique};

verus! {

/// A point or a displacement in the plane.
#[derive(Debug, Clone, Copy, PartialEq, Eq, Structural)]
pub struct Vec2 {
    pub x: i64,
    pub y: i64,
}

impl Vec2 {
    pub fn new(x: i64, y: i64) -> (v: Self)
        ensures
            v.x == x,
            v.y == y,
    {
        Vec2 { x, y }
    }
}

/// Squared length of the displacement `(dx, dy)`.
pub open spec fn norm_sq(dx: int, dy: int) -> int {
    dx * dx + dy * dy
}

/// The floor of the square root of `n`, for `0 <= n < 2^120`.
pub fn isqrt(n: i128) -> (r: i128)
    requires
        0 <= n < 0x1_0000_0000_0000_0000_0000_0000_0000_00,
    ensures
        is_floor_sqrt(n as int, r as int),
{
    let mut lo: i128 = 0;
    let mut hi: i128 = 0x1000_0000_0000_0000;
    assert(hi * hi == 0x1_0000_0000_0000_0000_0000_0000_0000_00);
    while hi - lo > 1
        invariant
            0 <= lo < hi <= 0x1000_0000_0000_0000,
            lo * lo <= n,
            n < hi * hi,
        decreases hi - lo,
    {
        let mid: i128 = lo + (hi - lo) / 2;
        assert(0 <= mid * mid <= 0x1000_0000_0000_0000 * 0x1000_0000_0000_0000) by (nonlinear_arith)
            requires
                0 <= mid <= 0x1000_0000_0000_0000,
        ;
        if mid * mid <= n {
            lo = mid;
        } else {
            hi = mid;
        }
    }
    assert(hi == lo + 1);
    lo
}

/// The fixed-point one of a distance computed by `fine_dist`.
pub const DIST_SCALE: i128 = 0x1_0000_0000;

/// The distance of a displacement with squared length `d2`, in units of
/// `1 / DIST_SCALE`, rounded down.
pub open spec fn fine_dist(d2: int) -> int {
    floor_sqrt(d2 * DIST_SCALE * DIST_SCALE)
}

/// The distance of a displacement with squared length `d2 < 2^56`, in units
/// of `1 / DIST_SCALE`, rounded down.
pub fn fine_dist_of(d2: i128) -> (q: i128)
    requires
        0 <= d2 < 0x100_0000_0000_0000,
    ensures
        q == fine_dist(d2 as int),
        is_floor_sqrt(d2 * DIST_SCALE * DIST_SCALE, q as int),
        d2 >= 1 ==> q >= DIST_SCALE,
{
    assert(0 <= d2 * DIST_SCALE * DIST_SCALE < 0x100_0000_0000_0000 * DIST_SCALE * DIST_SCALE) by (nonlinear_arith)
        requires
            0 <= d2 < 0x100_0000_0000_0000,
    ;
    let n = d2 * DIST_SCALE * DIST_SCALE;
    let q = isqrt(n);
    proof {
        lemma_floor_sqrt_unique(n as int, q as int);
        lemma_fine_dist_facts(0, 0, d2 as int, q as int);
    }
    q
}

/// Facts on a fixed-point distance `q` of a displacement `(dx, dy)` with
/// squared length `d2`: it is at least one unit, and each component, scaled,
/// is at most `q`.
pub proof fn lemma_fine_dist_facts(dx: int, dy: int, d2: int, q: int)
    requires
        d2 >= 0,
        is_floor_sqrt(d2 * DIST_SCALE * DIST_SCALE, q),
        dx * dx + dy * dy <= d2,
    ensures
        d2 >= 1 ==> q >= DIST_SCALE,
        abs(dx) * DIST_SCALE <= q,
        abs(dy) * DIST_SCALE <= q,
{
    let s = DIST_SCALE as int;
    assert(d2 >= 1 ==> q >= s) by (nonlinear_arith)
        requires
            q >= 0,
            d2 * s * s < (q + 1) * (q + 1),
            s > 0,
    ;
    assert(abs(dx) * s <= q && abs(dy) * s <= q) by (nonlinear_arith)
        requires
            q >= 0,
            d2 * s * s < (q + 1) * (q + 1),
            dx * dx + dy * dy <= d2,
            s > 0,
    ;
}

/// `(a t s + 2 q)^2 + (b t s + 2 q)^2`, expanded.
pub proof fn lemma_push_expand_by(a: int, b: int, t: int, s: int, q: int, n: int)
    requires
        a * a + b * b == n,
    ensures
        (a * t * s + 2 * q) * (a * t * s + 2 * q) + (b * t * s + 2 * q) * (b * t * s + 2 * q) == n * s * s
            * (t * t) + 4 * t * q * (a * s + b * s) + 8 * (q * q),
{
    lemma_term_expand(a, t, s, 2 * q);
    lemma_term_expand(b, t, s, 2 * q);
    assert((a * a) * (t * t) * (s * s) + (b * b) * (t * t) * (s * s) == n * s * s * (t * t)) by (nonlinear_arith)
        requires
            a * a + b * b == n,
    ;
    assert(2 * t * (2 * q) * (a * s) + 2 * t * (2 * q) * (b * s) == 4 * t * q * (a * s + b * s)) by (nonlinear_arith);
    assert((2 * q) * (2 * q) == 4 * (q * q)) by (nonlinear_arith);
}

proof fn lemma_push_expand(a: int, b: int, r: int, s: int, q: int, d2: int)
    requires
        a * a + b * b == d2,
    ensures
        (a * r * s + q) * (a * r * s + q) + (b * r * s + q) * (b * r * s + q) == d2 * s * s * (r * r) + 2
            * r * q * (a * s + b * s) + 2 * (q * q),
{
    lemma_term_expand(a, r, s, q);
    lemma_term_expand(b, r, s, q);
    assert((a * a) * (r * r) * (s * s) + (b * b) * (r * r) * (s * s) == d2 * s * s * (r * r)) by (nonlinear_arith)
        requires
            a * a + b * b == d2,
    ;
    assert(2 * r * q * (a * s) + 2 * r * q * (b * s) == 2 * r * q * (a * s + b * s)) by (nonlinear_arith);
}

pub proof fn lemma_term_expand(a: int, r: int, s: int, q: int)
    ensures
        (a * r * s + q) * (a * r * s + q) == (a * a) * (r * r) * (s * s) + 2 * r * q * (a * s) + q * q,
{
    let x = a * r * s;
    assert((x + q) * (x + q) == x * x + 2 * x * q + q * q) by (nonlinear_arith);
    assert(x * x == (a * a) * (r * r) * (s * s)) by (nonlinear_arith)
        requires
            x == a * r * s,
    ;
    assert(2 * x * q == 2 * r * q * (a * s)) by (nonlinear_arith)
        requires
            x == a * r * s,
    ;
}

/// Pushing from a point along `(dx, dy)` to `r` by the fixed-point distance
/// `q` of `(dx, dy)`, each component rounded away from zero, lands at least
/// `r` and less than `r + 3` from the point.
pub proof fn lemma_push_length(dx: int, dy: int, r: int, q: int)
    requires
        norm_sq(dx, dy) >= 1,
        1 <= r <= DIST_SCALE,
        is_floor_sqrt(norm_sq(dx, dy) * DIST_SCALE * DIST_SCALE, q),
    ensures
        ({
            let ox = away_div(dx * r * DIST_SCALE, q);
            let oy = away_div(dy * r * DIST_SCALE, q);
            r * r <= norm_sq(ox, oy) < (r + 3) * (r + 3)
        }),
{
    let s = DIST_SCALE as int;
    let d2 = norm_sq(dx, dy);
    lemma_fine_dist_facts(dx, dy, d2, q);
    let ox = away_div(dx * r * s, q);
    let oy = away_div(dy * r * s, q);
    crate::arith::lemma_away_div_abs(dx * r * s, q);
    crate::arith::lemma_away_div_abs(dy * r * s, q);
    let (a, b) = (abs(dx), abs(dy));
    let (ax, ay) = (abs(ox), abs(oy));
    assert(abs(dx * r * s) == a * r * s && abs(dy * r * s) == b * r * s) by (nonlinear_arith)
        requires
            a == abs(dx),
            b == abs(dy),
            r >= 1,
            s >= 1,
    ;
    assert(a * a + b * b == d2) by (nonlinear_arith)
        requires
            a == abs(dx),
            b == abs(dy),
            d2 == dx * dx + dy * dy,
    ;
    assert(ax * q >= a * r * s && ax * q < a * r * s + q);
    assert(ay * q >= b * r * s && ay * q < b * r * s + q);
    assert((ax * ax + ay * ay) * (q * q) >= (a * a + b * b) * (r * r) * (s * s)) by (nonlinear_arith)
        requires
            ax * q >= a * r * s >= 0,
            ay * q >= b * r * s >= 0,
            q >= 0,
    ;
    assert(r * r <= ax * ax + ay * ay) by (nonlinear_arith)
        requires
            (ax * ax + ay * ay) * (q * q) >= d2 * (r * r) * (s * s),
            q * q <= d2 * s * s,
            q >= 1,
            r >= 1,
    ;
    let (u, v) = (a * r * s + q, b * r * s + q);
    assert(ax * ax * (q * q) <= u * u && ay * ay * (q * q) <= v * v) by (nonlinear_arith)
        requires
            0 <= ax * q < u,
            0 <= ay * q < v,
    ;
    lemma_push_expand(a, b, r, s, q, d2);
    assert(d2 * s * s * (r * r) <= (q + 1) * (q + 1) * (r * r)) by (nonlinear_arith)
        requires
            d2 * s * s < (q + 1) * (q + 1),
    ;
    assert(2 * r * q * (a * s + b * s) <= 4 * r * (q * q)) by (nonlinear_arith)
        requires
            0 <= a * s <= q,
            0 <= b * s <= q,
            r >= 1,
            q >= 0,
    ;
    assert((q + 1) * (q + 1) * (r * r) + 4 * r * (q * q) + 2 * (q * q) < (r + 3) * (r + 3) * (q * q)) by (nonlinear_arith)
        requires
            1 <= r <= q,
    ;
    assert((ax * ax + ay * ay) * (q * q) == ax * ax * (q * q) + ay * ay * (q * q)) by (nonlinear_arith);
    assert((ax * ax + ay * ay) * (q * q) < (r + 3) * (r + 3) * (q * q));
    assert(ax * ax + ay * ay < (r + 3) * (r + 3)) by (nonlinear_arith)
        requires
            (ax * ax + ay * ay) * (q * q) < (r + 3) * (r + 3) * (q * q),
            q >= 1,
    ;
    assert(norm_sq(ox, oy) == ax * ax + ay * ay) by (nonlinear_arith)
        requires
            ax == abs(ox),
            ay == abs(oy),
    ;
}

} // verus!
