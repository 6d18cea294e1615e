use vstd::prelude::*;
use crate::arith::{abs, away_div, floor_sqrt, saturate, trunc_div};
use crate::arith::{div_away, div_trunc, saturate_i64};
use crate::arith::lemma_div_bounded_by;
use crate::body::BallObject;
use crate::config::{PhysicsConfig, Ratio, RADIUS_MAX, SPEED_MAX};
use crate::vector::{fine_dist, fine_dist_of, lemma_fine_dist_facts, norm_sq, DIST_SCALE};

verus! {

/// The displacement from `a`'s centre to `b`'s, along x and along y.
pub open spec fn gap_x(a: BallObject, b: BallObject) -> int {
    b.position.x - a.position.x
}

pub open spec fn gap_y(a: BallObject, b: BallObject) -> int {
    b.position.y - a.position.y
}

/// The sum of the radii: the distance at which two bodies touch.
pub open spec fn touch_dist(a: BallObject, b: BallObject) -> int {
    a.radius + b.radius
}

/// Two bodies overlap and their centres differ.
pub open spec fn overlapping(a: BallObject, b: BallObject) -> bool {
    let d2 = norm_sq(gap_x(a, b), gap_y(a, b));
    0 < d2 < touch_dist(a, b) * touch_dist(a, b)
}

/// The distance between the centres in units of `1 / DIST_SCALE`, rounded
/// down.
pub open spec fn center_dist(a: BallObject, b: BallObject) -> int {
    fine_dist(norm_sq(gap_x(a, b), gap_y(a, b)))
}

/// How far one of `a` and `b` is pushed along the displacement component
/// `d`: the displacement is to grow by the factor `touch / dist - 1`, with
/// `dist` the fixed-point distance, and this body's share of the growth is
/// `other_mass`, the other body's mass, over the total mass. The share is
/// rounded away from zero so that the bodies end up touching or apart.
pub open spec fn push(d: int, a: BallObject, b: BallObject, other_mass: int) -> int {
    let dist = center_dist(a, b);
    away_div(d * (touch_dist(a, b) * DIST_SCALE - dist) * other_mass, (a.mass + b.mass) * dist)
}

/// The relative velocity of `b` with respect to `a`, projected on the
/// displacement between them and scaled by its length.
pub open spec fn approach(a: BallObject, b: BallObject) -> int {
    (b.velocity.x - a.velocity.x) * gap_x(a, b) + (b.velocity.y - a.velocity.y) * gap_y(a, b)
}

/// One component of the impulse per unit of mass: `-(1 + e) * v_n / M`
/// along the unit normal, damped, where `v_n` is the closing speed along the
/// normal and `M` the total mass.
pub open spec fn impulse(d: int, a: BallObject, b: BallObject, e: Ratio, damping: Ratio) -> int {
    if overlapping(a, b) && approach(a, b) <= 0 {
        trunc_div(
            -(e.den + e.num) * damping.num * approach(a, b) * d,
            e.den * damping.den * norm_sq(gap_x(a, b), gap_y(a, b)) * (a.mass + b.mass),
        )
    } else {
        0
    }
}

/// The two bodies after their collision is resolved: when they overlap they
/// are pushed apart along the line between their centres and, unless they
/// already separate, exchange an impulse along it.
pub open spec fn resolved_pair(a: BallObject, b: BallObject, config: PhysicsConfig) -> (BallObject, BallObject) {
    let e = config.restitution;
    let damping = config.damping;
    if overlapping(a, b) {
        let ix = impulse(gap_x(a, b), a, b, e, damping);
        let iy = impulse(gap_y(a, b), a, b, e, damping);
        (
            a.with_position(
                a.position.x - push(gap_x(a, b), a, b, b.mass as int),
                a.position.y - push(gap_y(a, b), a, b, b.mass as int),
            ).with_velocity(
                saturate(a.velocity.x - ix * b.mass, SPEED_MAX as int),
                saturate(a.velocity.y - iy * b.mass, SPEED_MAX as int),
            ),
            b.with_position(
                b.position.x + push(gap_x(a, b), a, b, a.mass as int),
                b.position.y + push(gap_y(a, b), a, b, a.mass as int),
            ).with_velocity(
                saturate(b.velocity.x + ix * a.mass, SPEED_MAX as int),
                saturate(b.velocity.y + iy * a.mass, SPEED_MAX as int),
            ),
        )
    } else {
        (a, b)
    }
}

/// A displacement component is no longer than the rounded-down distance.
proof fn lemma_component_le_dist(dx: int, dy: int, d: int)
    requires
        d >= 0,
        norm_sq(dx, dy) < (d + 1) * (d + 1),
    ensures
        abs(dx) <= d,
        abs(dy) <= d,
{
    assert(abs(dx) <= d) by (nonlinear_arith)
        requires
            d >= 0,
            dx * dx + dy * dy < (d + 1) * (d + 1),
    ;
    assert(abs(dy) <= d) by (nonlinear_arith)
        requires
            d >= 0,
            dx * dx + dy * dy < (d + 1) * (d + 1),
    ;
}

/// Resolves a collision between two bodies: see `resolved_pair`.
pub fn resolve_ball_ball(a: &mut BallObject, b: &mut BallObject, config: &PhysicsConfig)
    requires
        old(a).wf(),
        old(b).wf(),
        old(a).in_range(),
        old(b).in_range(),
        old(a).mass + old(b).mass > 0,
        config.wf(),
    ensures
        (*final(a), *final(b)) == resolved_pair(*old(a), *old(b), *config),
        final(a).wf(),
        final(b).wf(),
        abs(final(a).position.x - old(a).position.x) <= 2 * RADIUS_MAX,
        abs(final(a).position.y - old(a).position.y) <= 2 * RADIUS_MAX,
        abs(final(b).position.x - old(b).position.x) <= 2 * RADIUS_MAX,
        abs(final(b).position.y - old(b).position.y) <= 2 * RADIUS_MAX,
{
    let dx = b.position.x as i128 - a.position.x as i128;
    let dy = b.position.y as i128 - a.position.y as i128;
    assert(0 <= dx * dx <= 0x4_0000_0000_0000 * 0x4_0000_0000_0000) by (nonlinear_arith)
        requires
            abs(dx as int) <= 0x4_0000_0000_0000,
    ;
    assert(0 <= dy * dy <= 0x4_0000_0000_0000 * 0x4_0000_0000_0000) by (nonlinear_arith)
        requires
            abs(dy as int) <= 0x4_0000_0000_0000,
    ;
    let dist_sq = dx * dx + dy * dy;
    let min_dist = a.radius as i128 + b.radius as i128;
    assert(0 < min_dist * min_dist <= 0x200_0000 * 0x200_0000) by (nonlinear_arith)
        requires
            0 < min_dist <= 0x200_0000,
    ;
    if dist_sq == 0 || dist_sq >= min_dist * min_dist {
        return;
    }
    let ghost dist = floor_sqrt(dist_sq as int);
    proof {
        crate::arith::lemma_floor_sqrt(dist_sq as int);
        lemma_component_le_dist(dx as int, dy as int, dist);
        assert(1 <= dist < min_dist) by (nonlinear_arith)
            requires
                dist >= 0,
                dist * dist <= dist_sq,
                dist_sq < (dist + 1) * (dist + 1),
                0 < dist_sq < min_dist * min_dist,
                min_dist > 0,
        ;
    }
    let fq = fine_dist_of(dist_sq);
    let ts = min_dist * DIST_SCALE;
    proof {
        lemma_fine_dist_facts(dx as int, dy as int, dist_sq as int, fq as int);
        assert(fq < ts) by (nonlinear_arith)
            requires
                fq >= 0,
                fq * fq <= dist_sq * DIST_SCALE * DIST_SCALE,
                dist_sq < min_dist * min_dist,
                min_dist > 0,
                ts == min_dist * DIST_SCALE,
        ;
    }
    let overlap = ts - fq;
    let ma = a.mass as i128;
    let mb = b.mass as i128;
    let total = ma + mb;
    assert(1 <= total * fq <= 0x20_0000 * (0x200_0000 * DIST_SCALE)) by (nonlinear_arith)
        requires
            1 <= total <= 0x20_0000,
            1 <= fq <= 0x200_0000 * DIST_SCALE,
    ;
    let q = total * fq;
    // Each push is at most the distance at which the bodies touch.
    proof {
        assert(abs(dx * overlap * mb) <= min_dist * q && abs(dx * overlap * ma) <= min_dist * q
            && abs(dy * overlap * mb) <= min_dist * q && abs(dy * overlap * ma) <= min_dist * q)
            by (nonlinear_arith)
            requires
                abs(dx as int) * DIST_SCALE <= fq,
                abs(dy as int) * DIST_SCALE <= fq,
                0 <= ma,
                0 <= mb,
                q == (ma + mb) * fq,
                0 <= overlap <= ts,
                ts == min_dist * DIST_SCALE,
        ;
        lemma_div_bounded_by(dx * overlap * mb, q as int, min_dist as int);
        lemma_div_bounded_by(dy * overlap * mb, q as int, min_dist as int);
        lemma_div_bounded_by(dx * overlap * ma, q as int, min_dist as int);
        lemma_div_bounded_by(dy * overlap * ma, q as int, min_dist as int);
    }
    assert(abs(dx * overlap) <= 0x200_0000 * (0x200_0000 * DIST_SCALE) && abs(dy * overlap) <= 0x200_0000 * (
    0x200_0000 * DIST_SCALE)) by (nonlinear_arith)
        requires
            abs(dx as int) <= 0x200_0000,
            abs(dy as int) <= 0x200_0000,
            0 <= overlap <= 0x200_0000 * DIST_SCALE,
    ;
    assert(abs(dx * overlap * mb) <= 0x4_0000_0000_0000 * DIST_SCALE * 0x10_0000 && abs(dy * overlap * mb)
        <= 0x4_0000_0000_0000 * DIST_SCALE * 0x10_0000 && abs(dx * overlap * ma) <= 0x4_0000_0000_0000
        * DIST_SCALE * 0x10_0000 && abs(dy * overlap * ma) <= 0x4_0000_0000_0000 * DIST_SCALE * 0x10_0000)
        by (nonlinear_arith)
        requires
            abs(dx * overlap) <= 0x4_0000_0000_0000 * DIST_SCALE,
            abs(dy * overlap) <= 0x4_0000_0000_0000 * DIST_SCALE,
            0 <= ma <= 0x10_0000,
            0 <= mb <= 0x10_0000,
    ;
    let push_ax = div_away(dx * overlap * mb, q);
    let push_ay = div_away(dy * overlap * mb, q);
    let push_bx = div_away(dx * overlap * ma, q);
    let push_by = div_away(dy * overlap * ma, q);

    let rvx = b.velocity.x as i128 - a.velocity.x as i128;
    let rvy = b.velocity.y as i128 - a.velocity.y as i128;
    assert(abs(rvx * dx) <= 0x200_0000_0000 * dist && abs(rvy * dy) <= 0x200_0000_0000 * dist) by (nonlinear_arith)
        requires
            abs(rvx as int) <= 0x200_0000_0000,
            abs(rvy as int) <= 0x200_0000_0000,
            abs(dx as int) <= dist,
            abs(dy as int) <= dist,
    ;
    assert(0x200_0000_0000 * dist <= 0x200_0000_0000 * 0x200_0000) by (nonlinear_arith)
        requires
            dist <= 0x200_0000,
    ;
    assert(abs(rvx * dx + rvy * dy) <= 0x200_0000_0000 * 2 * dist) by (nonlinear_arith)
        requires
            abs(rvx as int) <= 0x200_0000_0000,
            abs(rvy as int) <= 0x200_0000_0000,
            abs(dx as int) <= dist,
            abs(dy as int) <= dist,
    ;
    let dot = rvx * dx + rvy * dy;
    assert(abs(dot as int) <= 0x400_0000_0000 * dist) by (nonlinear_arith)
        requires
            abs(dot as int) <= 0x200_0000_0000 * 2 * dist,
    ;
    assert(0x400_0000_0000 * dist <= 0x400_0000_0000 * 0x200_0000) by (nonlinear_arith)
        requires
            dist <= 0x200_0000,
    ;
    let mut ix: i128 = 0;
    let mut iy: i128 = 0;
    if dot <= 0 {
        let e = config.restitution;
        let dmp = config.damping;
        assert(-0x2_0000 * 0x1_0000 <= -(e.den + e.num) * dmp.num <= 0) by (nonlinear_arith)
            requires
                0 <= e.den + e.num <= 0x2_0000,
                0 <= dmp.num <= 0x1_0000,
        ;
        let c = -(e.den as i128 + e.num as i128) * dmp.num as i128;
        assert(1 <= e.den * dmp.den <= 0x1_0000 * 0x1_0000) by (nonlinear_arith)
            requires
                1 <= e.den <= 0x1_0000,
                1 <= dmp.den <= 0x1_0000,
        ;
        let ed = e.den as i128 * dmp.den as i128;
        assert(dist_sq <= ed * dist_sq <= 0x1_0000 * 0x1_0000 * 0x200_0000 * 0x200_0000) by (nonlinear_arith)
            requires
                1 <= ed <= 0x1_0000 * 0x1_0000,
                0 < dist_sq <= 0x200_0000 * 0x200_0000,
        ;
        assert(ed * dist_sq <= ed * dist_sq * total <= 0x1_0000 * 0x1_0000 * 0x200_0000 * 0x200_0000 * 0x20_0000) by (nonlinear_arith)
            requires
                0 < ed * dist_sq <= 0x1_0000 * 0x1_0000 * 0x200_0000 * 0x200_0000,
                1 <= total <= 0x20_0000,
        ;
        let den = ed * dist_sq * total;
        let lim: i128 = 0x2_0000 * 0x1_0000 * 0x400_0000_0000;
        assert(abs(c * dot) <= 0x2_0000 * 0x1_0000 * 0x400_0000_0000 * 0x200_0000) by (nonlinear_arith)
            requires
                -0x2_0000 * 0x1_0000 <= c <= 0,
                abs(dot as int) <= 0x400_0000_0000 * 0x200_0000,
        ;
        assert(abs(c * dot * dx) <= lim * dist_sq && abs(c * dot * dy) <= lim * dist_sq) by (nonlinear_arith)
            requires
                -0x2_0000 * 0x1_0000 <= c <= 0,
                abs(dot as int) <= 0x400_0000_0000 * dist,
                abs(dx as int) <= dist,
                abs(dy as int) <= dist,
                dist * dist <= dist_sq,
                lim == 0x2_0000 * 0x1_0000 * 0x400_0000_0000,
        ;
        assert(lim * dist_sq <= lim * 0x200_0000 * 0x200_0000) by (nonlinear_arith)
            requires
                dist_sq <= 0x200_0000 * 0x200_0000,
                lim >= 0,
        ;
        assert(lim * dist_sq <= lim * den) by (nonlinear_arith)
            requires
                dist_sq <= den,
                lim >= 0,
        ;
        proof {
            lemma_div_bounded_by(c * dot * dx, den as int, lim as int);
            lemma_div_bounded_by(c * dot * dy, den as int, lim as int);
        }
        ix = div_trunc(c * dot * dx, den);
        iy = div_trunc(c * dot * dy, den);
        assert(abs(ix * mb) <= lim * 0x10_0000 && abs(ix * ma) <= lim * 0x10_0000
            && abs(iy * mb) <= lim * 0x10_0000 && abs(iy * ma) <= lim * 0x10_0000) by (nonlinear_arith)
            requires
                abs(ix as int) <= lim,
                abs(iy as int) <= lim,
                0 <= ma <= 0x10_0000,
                0 <= mb <= 0x10_0000,
        ;
    }
    a.position.x = (a.position.x as i128 - push_ax) as i64;
    a.position.y = (a.position.y as i128 - push_ay) as i64;
    b.position.x = (b.position.x as i128 + push_bx) as i64;
    b.position.y = (b.position.y as i128 + push_by) as i64;
    a.velocity.x = saturate_i64(a.velocity.x as i128 - ix * mb, SPEED_MAX);
    a.velocity.y = saturate_i64(a.velocity.y as i128 - iy * mb, SPEED_MAX);
    b.velocity.x = saturate_i64(b.velocity.x as i128 + ix * ma, SPEED_MAX);
    b.velocity.y = saturate_i64(b.velocity.y as i128 + iy * ma, SPEED_MAX);
}

/// No velocity saturates in the collision of `a` and `b`.
pub open spec fn unsaturated(a: BallObject, b: BallObject, config: PhysicsConfig) -> bool {
    let ix = impulse(gap_x(a, b), a, b, config.restitution, config.damping);
    let iy = impulse(gap_y(a, b), a, b, config.restitution, config.damping);
    &&& abs(a.velocity.x - ix * b.mass) <= SPEED_MAX
    &&& abs(a.velocity.y - iy * b.mass) <= SPEED_MAX
    &&& abs(b.velocity.x + ix * a.mass) <= SPEED_MAX
    &&& abs(b.velocity.y + iy * a.mass) <= SPEED_MAX
}

/// A collision keeps the total momentum `m_a * v_a + m_b * v_b`, whatever
/// the restitution and damping, as long as no velocity saturates: each body
/// receives the same impulse, in opposite directions.
pub proof fn lemma_collision_conserves_momentum(a: BallObject, b: BallObject, config: PhysicsConfig)
    requires
        a.wf(),
        b.wf(),
        config.wf(),
        unsaturated(a, b, config),
    ensures
        ({
            let (a2, b2) = resolved_pair(a, b, config);
            &&& a.mass * a2.velocity.x + b.mass * b2.velocity.x == a.mass * a.velocity.x + b.mass
                * b.velocity.x
            &&& a.mass * a2.velocity.y + b.mass * b2.velocity.y == a.mass * a.velocity.y + b.mass
                * b.velocity.y
        }),
{
    if overlapping(a, b) {
        let ix = impulse(gap_x(a, b), a, b, config.restitution, config.damping);
        let iy = impulse(gap_y(a, b), a, b, config.restitution, config.damping);
        let (ma, mb) = (a.mass as int, b.mass as int);
        assert(ma * (a.velocity.x - ix * mb) + mb * (b.velocity.x + ix * ma) == ma * a.velocity.x
            + mb * b.velocity.x) by (nonlinear_arith);
        assert(ma * (a.velocity.y - iy * mb) + mb * (b.velocity.y + iy * ma) == ma * a.velocity.y
            + mb * b.velocity.y) by (nonlinear_arith);
    }
}

/// Along one axis, pushing both bodies by their rounded-away shares of the
/// overlap stretches the gap component at least by the factor `(d + ov) / d`.
proof fn lemma_axis_stretch(x: int, ma: int, mb: int, d: int, ov: int)
    requires
        ma >= 0,
        mb >= 0,
        ma + mb >= 1,
        d >= 1,
        ov >= 0,
    ensures
        ({
            let x2 = x + away_div(x * ov * mb, (ma + mb) * d) + away_div(x * ov * ma, (ma + mb) * d);
            x2 * x2 * (d * d) >= x * x * ((d + ov) * (d + ov))
        }),
{
    let q = (ma + mb) * d;
    assert(q >= 1) by (nonlinear_arith)
        requires
            ma + mb >= 1,
            d >= 1,
            q == (ma + mb) * d,
    ;
    let sa = away_div(x * ov * mb, q);
    let sb = away_div(x * ov * ma, q);
    crate::arith::lemma_away_div_covers(x * ov * mb, q);
    crate::arith::lemma_away_div_covers(x * ov * ma, q);
    let x2 = x + sa + sb;
    if x >= 0 {
        assert(x * ov * mb >= 0 && x * ov * ma >= 0) by (nonlinear_arith)
            requires
                x >= 0,
                ov >= 0,
                ma >= 0,
                mb >= 0,
        ;
        assert(x2 * d >= x * (d + ov) && x * (d + ov) >= 0) by (nonlinear_arith)
            requires
                sa * q >= x * ov * mb,
                sb * q >= x * ov * ma,
                q == (ma + mb) * d,
                ma + mb >= 1,
                x2 == x + sa + sb,
                x >= 0,
                d >= 1,
                ov >= 0,
        ;
    } else {
        assert(x * ov * mb <= 0 && x * ov * ma <= 0) by (nonlinear_arith)
            requires
                x < 0,
                ov >= 0,
                ma >= 0,
                mb >= 0,
        ;
        assert(x2 * d <= x * (d + ov) && x * (d + ov) <= 0) by (nonlinear_arith)
            requires
                sa * q <= x * ov * mb,
                sb * q <= x * ov * ma,
                q == (ma + mb) * d,
                ma + mb >= 1,
                x2 == x + sa + sb,
                x < 0,
                d >= 1,
                ov >= 0,
        ;
    }
    assert(x2 * x2 * (d * d) >= x * x * ((d + ov) * (d + ov))) by (nonlinear_arith)
        requires
            x2 * d >= x * (d + ov) >= 0 || x2 * d <= x * (d + ov) <= 0,
    ;
}

/// Along one axis, the gap component grows by less than two units beyond
/// the factor `(d + ov) / d`.
proof fn lemma_axis_upper(x: int, ma: int, mb: int, d: int, ov: int)
    requires
        ma >= 0,
        mb >= 0,
        ma + mb >= 1,
        d >= 1,
        ov >= 0,
    ensures
        ({
            let x2 = x + away_div(x * ov * mb, (ma + mb) * d) + away_div(x * ov * ma, (ma + mb) * d);
            abs(x2) * d < abs(x) * (d + ov) + 2 * d
        }),
{
    let m = ma + mb;
    let q = m * d;
    assert(q >= 1) by (nonlinear_arith)
        requires
            m >= 1,
            d >= 1,
            q == m * d,
    ;
    let sa = away_div(x * ov * mb, q);
    let sb = away_div(x * ov * ma, q);
    crate::arith::lemma_away_div_abs(x * ov * mb, q);
    crate::arith::lemma_away_div_abs(x * ov * ma, q);
    crate::arith::lemma_away_div_covers(x * ov * mb, q);
    crate::arith::lemma_away_div_covers(x * ov * ma, q);
    let ax = abs(x);
    assert(abs(x * ov * mb) == ax * ov * mb && abs(x * ov * ma) == ax * ov * ma) by (nonlinear_arith)
        requires
            ax == abs(x),
            ov >= 0,
            ma >= 0,
            mb >= 0,
    ;
    assert(x >= 0 ==> x * ov * mb >= 0 && x * ov * ma >= 0) by (nonlinear_arith)
        requires
            ov >= 0,
            ma >= 0,
            mb >= 0,
    ;
    assert(x <= 0 ==> x * ov * mb <= 0 && x * ov * ma <= 0) by (nonlinear_arith)
        requires
            ov >= 0,
            ma >= 0,
            mb >= 0,
    ;
    let x2 = x + sa + sb;
    assert(abs(x2) == ax + abs(sa) + abs(sb));
    let ss = abs(sa) + abs(sb);
    assert(ax * ov * mb + ax * ov * ma == ax * ov * m) by (nonlinear_arith)
        requires
            m == ma + mb,
    ;
    assert(ss * q == abs(sa) * q + abs(sb) * q) by (nonlinear_arith)
        requires
            ss == abs(sa) + abs(sb),
    ;
    assert(ss * q < ax * ov * m + 2 * q);
    assert(ss * q == (ss * d) * m && (ax * ov + 2 * d) * m == ax * ov * m + 2 * q) by (nonlinear_arith)
        requires
            q == m * d,
    ;
    assert(ss * d < ax * ov + 2 * d) by (nonlinear_arith)
        requires
            (ss * d) * m < (ax * ov + 2 * d) * m,
            m >= 1,
    ;
    assert(ax * (d + ov) == ax * d + ax * ov) by (nonlinear_arith);
    assert(abs(x2) * d == ax * d + ss * d) by (nonlinear_arith)
        requires
            abs(x2) == ax + ss,
    ;
}

/// Summed over both axes, the gap stays less than five units beyond `t`.
proof fn lemma_gap_upper(a: int, b: int, a2: int, b2: int, t: int, s: int, d: int, n: int)
    requires
        a >= 0,
        b >= 0,
        a2 >= 0,
        b2 >= 0,
        1 <= t,
        s >= 1,
        a * s <= d,
        b * s <= d,
        t <= d,
        n == a * a + b * b,
        n * s * s < (d + 1) * (d + 1),
        a2 * d < a * (t * s) + 2 * d,
        b2 * d < b * (t * s) + 2 * d,
    ensures
        a2 * a2 + b2 * b2 < (t + 5) * (t + 5),
{
    crate::vector::lemma_push_expand_by(a, b, t, s, d, n);
    assert(a2 * a2 * (d * d) <= (a * t * s + 2 * d) * (a * t * s + 2 * d)) by (nonlinear_arith)
        requires
            0 <= a2 * d < a * (t * s) + 2 * d,
    ;
    assert(b2 * b2 * (d * d) <= (b * t * s + 2 * d) * (b * t * s + 2 * d)) by (nonlinear_arith)
        requires
            0 <= b2 * d < b * (t * s) + 2 * d,
    ;
    assert(n * s * s * (t * t) <= (d + 1) * (d + 1) * (t * t)) by (nonlinear_arith)
        requires
            n * s * s < (d + 1) * (d + 1),
    ;
    assert(4 * t * d * (a * s + b * s) <= 8 * t * (d * d)) by (nonlinear_arith)
        requires
            a >= 0,
            b >= 0,
            s >= 1,
            a * s <= d,
            b * s <= d,
            t >= 1,
            d >= 0,
    ;
    assert((d + 1) * (d + 1) * (t * t) + 8 * t * (d * d) + 8 * (d * d) < (t + 5) * (t + 5) * (d * d)) by (nonlinear_arith)
        requires
            1 <= t <= d,
    ;
    assert((a2 * a2 + b2 * b2) * (d * d) == a2 * a2 * (d * d) + b2 * b2 * (d * d)) by (nonlinear_arith);
    assert(a2 * a2 + b2 * b2 < (t + 5) * (t + 5)) by (nonlinear_arith)
        requires
            (a2 * a2 + b2 * b2) * (d * d) < (t + 5) * (t + 5) * (d * d),
            d >= 1,
    ;
}

/// The two rounded-away shares of `n` weighted by the other mass, each
/// times its own mass, differ by less than the total mass.
proof fn lemma_shares_balance(n: int, ma: int, mb: int, q: int, d: int)
    requires
        ma >= 0,
        mb >= 0,
        ma + mb >= 1,
        d >= 1,
        q == (ma + mb) * d,
    ensures
        abs(ma * away_div(n * mb, q) - mb * away_div(n * ma, q)) < ma + mb,
{
    assert(q >= 1) by (nonlinear_arith)
        requires
            ma + mb >= 1,
            d >= 1,
            q == (ma + mb) * d,
    ;
    let sa = away_div(n * mb, q);
    let sb = away_div(n * ma, q);
    crate::arith::lemma_away_div_covers(n * mb, q);
    crate::arith::lemma_away_div_covers(n * ma, q);
    if n >= 0 {
        assert(n * mb >= 0 && n * ma >= 0) by (nonlinear_arith)
            requires
                n >= 0,
                ma >= 0,
                mb >= 0,
        ;
        assert(abs(ma * sa - mb * sb) < ma + mb) by (nonlinear_arith)
            requires
                n * mb <= sa * q < n * mb + q,
                n * ma <= sb * q < n * ma + q,
                q == (ma + mb) * d,
                ma >= 0,
                mb >= 0,
                ma + mb >= 1,
                d >= 1,
        ;
    } else {
        assert(n * mb <= 0 && n * ma <= 0) by (nonlinear_arith)
            requires
                n < 0,
                ma >= 0,
                mb >= 0,
        ;
        assert(abs(ma * sa - mb * sb) < ma + mb) by (nonlinear_arith)
            requires
                n * mb - q < sa * q <= n * mb,
                n * ma - q < sb * q <= n * ma,
                q == (ma + mb) * d,
                ma >= 0,
                mb >= 0,
                ma + mb >= 1,
                d >= 1,
        ;
    }
}

/// After a collision of overlapping bodies they touch or are apart, less
/// than five units beyond touching; the
/// heavier body has moved no more than the lighter one along each axis; and
/// the shifts are inversely proportional to the masses up to rounding: mass
/// times shift differs between the two bodies by less than the total mass.
pub proof fn lemma_collision_separates(a: BallObject, b: BallObject, config: PhysicsConfig)
    requires
        a.wf(),
        b.wf(),
        a.in_range(),
        b.in_range(),
        a.mass + b.mass > 0,
        overlapping(a, b),
    ensures
        ({
            let (a2, b2) = resolved_pair(a, b, config);
            &&& norm_sq(gap_x(a2, b2), gap_y(a2, b2)) >= touch_dist(a, b) * touch_dist(a, b)
            &&& norm_sq(gap_x(a2, b2), gap_y(a2, b2)) < (touch_dist(a, b) + 5) * (touch_dist(a, b) + 5)
            &&& b.mass <= a.mass ==> abs(a2.position.x - a.position.x) <= abs(b2.position.x
                - b.position.x) && abs(a2.position.y - a.position.y) <= abs(b2.position.y
                - b.position.y)
            &&& a.mass <= b.mass ==> abs(b2.position.x - b.position.x) <= abs(a2.position.x
                - a.position.x) && abs(b2.position.y - b.position.y) <= abs(a2.position.y
                - a.position.y)
            &&& abs(a.mass * (a.position.x - a2.position.x) - b.mass * (b2.position.x
                - b.position.x)) < a.mass + b.mass
            &&& abs(a.mass * (a.position.y - a2.position.y) - b.mass * (b2.position.y
                - b.position.y)) < a.mass + b.mass
        }),
{
    let x = gap_x(a, b);
    let y = gap_y(a, b);
    let n = norm_sq(x, y);
    let t = touch_dist(a, b);
    let sc = DIST_SCALE as int;
    assert(n * sc * sc >= 0) by (nonlinear_arith)
        requires
            n > 0,
            sc > 0,
    ;
    crate::arith::lemma_floor_sqrt(n * sc * sc);
    let d = center_dist(a, b);
    let (ma, mb) = (a.mass as int, b.mass as int);
    assert(n >= 1);
    lemma_fine_dist_facts(x, y, n, d);
    assert(d < t * sc) by (nonlinear_arith)
        requires
            d >= 0,
            d * d <= n * sc * sc,
            n < t * t,
            t > 0,
            sc > 0,
    ;
    let ov = t * sc - d;
    let q = (ma + mb) * d;
    assert(q >= 1) by (nonlinear_arith)
        requires
            ma + mb >= 1,
            d >= 1,
            q == (ma + mb) * d,
    ;
    assert(abs(x) * ov <= t * d && abs(y) * ov <= t * d) by (nonlinear_arith)
        requires
            abs(x) * sc <= d,
            abs(y) * sc <= d,
            0 <= ov <= t * sc,
            t >= 1,
    ;
    assert(abs(x * ov * mb) <= t * q && abs(x * ov * ma) <= t * q
        && abs(y * ov * mb) <= t * q && abs(y * ov * ma) <= t * q) by (nonlinear_arith)
        requires
            abs(x) * ov <= t * d,
            abs(y) * ov <= t * d,
            0 <= ma,
            0 <= mb,
            ov >= 0,
            q == (ma + mb) * d,
    ;
    lemma_div_bounded_by(x * ov * mb, q, t);
    lemma_div_bounded_by(y * ov * mb, q, t);
    lemma_div_bounded_by(x * ov * ma, q, t);
    lemma_div_bounded_by(y * ov * ma, q, t);
    let (a2, b2) = resolved_pair(a, b, config);
    let x2 = x + away_div(x * ov * mb, q) + away_div(x * ov * ma, q);
    let y2 = y + away_div(y * ov * mb, q) + away_div(y * ov * ma, q);
    assert(gap_x(a2, b2) == x2);
    assert(gap_y(a2, b2) == y2);
    lemma_axis_stretch(x, ma, mb, d, ov);
    lemma_axis_stretch(y, ma, mb, d, ov);
    assert((x2 * x2 + y2 * y2) * (d * d) >= n * (t * t) * (sc * sc)) by (nonlinear_arith)
        requires
            x2 * x2 * (d * d) >= x * x * ((d + ov) * (d + ov)),
            y2 * y2 * (d * d) >= y * y * ((d + ov) * (d + ov)),
            d + ov == t * sc,
            n == x * x + y * y,
    ;
    assert(x2 * x2 + y2 * y2 >= t * t) by (nonlinear_arith)
        requires
            (x2 * x2 + y2 * y2) * (d * d) >= n * (t * t) * (sc * sc),
            d * d <= n * sc * sc,
            d >= 1,
    ;
    lemma_axis_upper(x, ma, mb, d, ov);
    lemma_axis_upper(y, ma, mb, d, ov);
    assert(n == abs(x) * abs(x) + abs(y) * abs(y)) by (nonlinear_arith)
        requires
            n == x * x + y * y,
    ;
    assert(t <= d) by (nonlinear_arith)
        requires
            t <= 0x200_0000,
            d >= sc,
            sc == DIST_SCALE,
    ;
    lemma_gap_upper(abs(x), abs(y), abs(x2), abs(y2), t, sc, d, n);
    assert(norm_sq(x2, y2) == abs(x2) * abs(x2) + abs(y2) * abs(y2)) by (nonlinear_arith);
    lemma_shares_balance(x * ov, ma, mb, q, d);
    lemma_shares_balance(y * ov, ma, mb, q, d);
    if b.mass <= a.mass {
        assert(abs(x * ov * mb) <= abs(x * ov * ma) && abs(y * ov * mb) <= abs(y * ov * ma)) by (nonlinear_arith)
            requires
                0 <= mb <= ma,
        ;
        assert(0 <= x * ov * mb <= x * ov * ma || x * ov * ma <= x * ov * mb <= 0) by (nonlinear_arith)
            requires
                0 <= mb <= ma,
                ov >= 0,
        ;
        assert(0 <= y * ov * mb <= y * ov * ma || y * ov * ma <= y * ov * mb <= 0) by (nonlinear_arith)
            requires
                0 <= mb <= ma,
                ov >= 0,
        ;
        crate::arith::lemma_away_div_monotone(x * ov * mb, x * ov * ma, q);
        crate::arith::lemma_away_div_monotone(y * ov * mb, y * ov * ma, q);
    }
    if a.mass <= b.mass {
        assert(0 <= x * ov * ma <= x * ov * mb || x * ov * mb <= x * ov * ma <= 0) by (nonlinear_arith)
            requires
                0 <= ma <= mb,
                ov >= 0,
        ;
        assert(0 <= y * ov * ma <= y * ov * mb || y * ov * mb <= y * ov * ma <= 0) by (nonlinear_arith)
            requires
                0 <= ma <= mb,
                ov >= 0,
        ;
        crate::arith::lemma_away_div_monotone(x * ov * ma, x * ov * mb, q);
        crate::arith::lemma_away_div_monotone(y * ov * ma, y * ov * mb, q);
    }
}

} // verus!
