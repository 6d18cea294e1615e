use vstd::prelude::*;
use crate::arith::{abs, floor_sqrt, lemma_div_bounded_by, lemma_floor_sqrt_unique, lemma_scaled_div_bound, lemma_trunc_div_bound};
use crate::arith::{div_trunc, saturate, saturate_i64, trunc_div};
use crate::color::Color;
use crate::config::{PhysicsConfig, Ratio, DT_MAX, GRAVITY_MAX, MASS_MAX, POS_MAX, RATIO_DEN_MAX, RADIUS_MAX, SPEED_MAX, VIEW_MAX};
use crate::vector::{isqrt, norm_sq, Vec2};
use crate::wall::{check_wall_collision, wall_flags};

verus! {

/// A circular body: a point mass with a radius, moving without spin.
///
/// `has_collision` and `has_gravity` say whether it takes part in ball-ball
/// collisions and whether gravity acts on it.
#[derive(Debug, Clone, Copy, PartialEq, Eq, Structural)]
pub struct BallObject {
    pub position: Vec2,
    pub velocity: Vec2,
    pub radius: i64,
    pub mass: i64,
    pub color: Color,
    pub has_collision: bool,
    pub has_gravity: bool,
}

/// The velocity component `v` reversed and damped by `d`.
pub open spec fn bounce(v: int, d: Ratio) -> int {
    trunc_div(-v * d.num, d.den as int)
}

/// The squared length `n` times four to the power that brings it to at
/// least 2^116, with that power's square root: `(n * s * s, s)`.
pub open spec fn gravity_scaled(n: int) -> (int, int)
    decreases 0x40_0000_0000_0000_0000_0000_0000_0000 - n,
{
    if n <= 0 || n >= 0x10_0000_0000_0000_0000_0000_0000_0000 {
        (n, 1)
    } else {
        let (m, s) = gravity_scaled(4 * n);
        (m, 2 * s)
    }
}

/// The change of one velocity component that a source of mass `mass_other`
/// at displacement `(dx, dy)` causes over `dt`: `g * mass_other * dt * d / r^3`
/// with `r` the distance, which `g * mass_other / r^2` along the unit vector
/// toward the source comes to. The distance is taken in fixed point, scaled
/// by `s` so that it has about 59 bits; the result is within one unit of the
/// exact value (see `lemma_pull_accuracy`).
pub open spec fn pull(d: int, dx: int, dy: int, g: int, mass_other: int, dt: int) -> int {
    let d2 = norm_sq(dx, dy);
    let (m, s) = gravity_scaled(d2);
    trunc_div(trunc_div(g * mass_other * dt * (d * s), floor_sqrt(m)), d2)
}

/// `v` is within one unit of `a / (d2 * sqrt(d2))`, rounded toward zero.
pub open spec fn near_exact_pull(v: int, a: int, d2: int) -> bool {
    let w = if a >= 0 { v } else { -v };
    let b = abs(a);
    let c = d2 * d2 * d2;
    &&& w >= 0
    &&& b * b < (w + 1) * (w + 1) * c
    &&& w == 0 || (w - 1) * (w - 1) * c <= b * b
}

/// The nested floor quotient `w = (k e s / r) / d2` of non-negative values is
/// within one unit of `k e / (d2 sqrt(d2))`, where `r` is the floor square
/// root of `d2 s^2` and `w <= r`.
proof fn lemma_pull_core(k: int, e: int, s: int, r: int, d2: int)
    requires
        k >= 0,
        e >= 0,
        s >= 1,
        d2 >= 1,
        r >= 1,
        r * r <= d2 * s * s < (r + 1) * (r + 1),
        e * s <= r,
        k <= r,
    ensures
        ({
            let w = (k * (e * s) / r) / d2;
            let c = d2 * d2 * d2;
            &&& w >= 0
            &&& (k * e) * (k * e) < (w + 1) * (w + 1) * c
            &&& w == 0 || (w - 1) * (w - 1) * c <= (k * e) * (k * e)
        }),
{
    let x = k * (e * s);
    let q1 = x / r;
    let w = q1 / d2;
    assert(x >= 0) by (nonlinear_arith)
        requires
            k >= 0,
            e >= 0,
            s >= 1,
            x == k * (e * s),
    ;
    assert(q1 * r <= x < (q1 + 1) * r && q1 >= 0) by (nonlinear_arith)
        requires
            x >= 0,
            r >= 1,
            q1 == x / r,
    ;
    assert(w * d2 <= q1 < (w + 1) * d2 && w >= 0) by (nonlinear_arith)
        requires
            q1 >= 0,
            d2 >= 1,
            w == q1 / d2,
    ;
    let u = w * d2 * r;
    let v = (w + 1) * d2 * r;
    assert(u <= x && x < v) by (nonlinear_arith)
        requires
            q1 * r <= x < (q1 + 1) * r,
            w * d2 <= q1 < (w + 1) * d2,
            r >= 1,
            u == w * d2 * r,
            v == (w + 1) * d2 * r,
    ;
    let ke = k * e;
    assert(x == ke * s) by (nonlinear_arith)
        requires
            x == k * (e * s),
            ke == k * e,
    ;
    // Upper bound.
    assert(x * x < v * v) by (nonlinear_arith)
        requires
            0 <= x < v,
    ;
    assert(v * v <= (w + 1) * (w + 1) * (d2 * d2 * d2) * (s * s)) by (nonlinear_arith)
        requires
            v == (w + 1) * d2 * r,
            r * r <= d2 * s * s,
            w >= 0,
            d2 >= 1,
    ;
    assert(ke * ke < (w + 1) * (w + 1) * (d2 * d2 * d2)) by (nonlinear_arith)
        requires
            x == ke * s,
            x * x < (w + 1) * (w + 1) * (d2 * d2 * d2) * (s * s),
            s >= 1,
    ;
    // Lower bound.
    assert(w <= r) by (nonlinear_arith)
        requires
            w * d2 * r <= k * (e * s),
            e * s <= r,
            k <= r,
            k >= 0,
            d2 >= 1,
            r >= 1,
            w >= 0,
    ;
    if w >= 1 {
        assert((w - 1) * (r + 1) <= w * r) by (nonlinear_arith)
            requires
                1 <= w <= r + 1,
        ;
        let a1 = (w - 1) * (w - 1);
        let bb = d2 * s * s;
        assert(a1 * ((r + 1) * (r + 1)) <= (w * r) * (w * r)) by (nonlinear_arith)
            requires
                0 <= (w - 1) * (r + 1) <= w * r,
                a1 == (w - 1) * (w - 1),
        ;
        assert(a1 * bb <= a1 * ((r + 1) * (r + 1))) by (nonlinear_arith)
            requires
                a1 >= 0,
                bb < (r + 1) * (r + 1),
        ;
        assert(a1 * bb * (d2 * d2) <= (w * r) * (w * r) * (d2 * d2)) by (nonlinear_arith)
            requires
                a1 * bb <= (w * r) * (w * r),
        ;
        assert((w - 1) * (w - 1) * (d2 * d2 * d2) * (s * s) == a1 * bb * (d2 * d2)) by (nonlinear_arith)
            requires
                a1 == (w - 1) * (w - 1),
                bb == d2 * s * s,
        ;
        assert(u * u == (w * r) * (w * r) * (d2 * d2)) by (nonlinear_arith)
            requires
                u == w * d2 * r,
        ;
        assert(0 <= (w - 1) * (r + 1)) by (nonlinear_arith)
            requires
                w >= 1,
                r >= 1,
        ;
        assert(u * u <= x * x) by (nonlinear_arith)
            requires
                0 <= u <= x,
        ;
        assert((w - 1) * (w - 1) * (d2 * d2 * d2) <= ke * ke) by (nonlinear_arith)
            requires
                x == ke * s,
                (w - 1) * (w - 1) * (d2 * d2 * d2) * (s * s) <= x * x,
                s >= 1,
        ;
    }
}

/// The pull is within one unit of the exact value `k * d / r^3`, with
/// `k = g * mass_other * dt` and `r` the distance, rounded toward zero.
pub proof fn lemma_pull_accuracy(d: int, dx: int, dy: int, g: int, mass_other: int, dt: int)
    requires
        d == dx || d == dy,
        1 <= norm_sq(dx, dy) < 0x40_0000_0000_0000_0000_0000_0000_0000,
        0 <= g * mass_other * dt <= 0x400_0000_0000_0000,
    ensures
        near_exact_pull(pull(d, dx, dy, g, mass_other, dt), g * mass_other * dt * d, norm_sq(dx, dy)),
{
    let d2 = norm_sq(dx, dy);
    lemma_gravity_scaled(d2);
    let (m, s) = gravity_scaled(d2);
    crate::arith::lemma_floor_sqrt(m);
    let r = floor_sqrt(m);
    let k = g * mass_other * dt;
    let e = abs(d);
    assert(r >= 0x400_0000_0000_0000) by (nonlinear_arith)
        requires
            r >= 0,
            m < (r + 1) * (r + 1),
            m >= 0x10_0000_0000_0000_0000_0000_0000_0000,
    ;
    assert(e * s <= r) by (nonlinear_arith)
        requires
            r >= 0,
            m < (r + 1) * (r + 1),
            m == (dx * dx + dy * dy) * s * s,
            d == dx || d == dy,
            e == abs(d),
            s >= 1,
    ;
    lemma_pull_core(k, e, s, r, d2);
    let w = (k * (e * s) / r) / d2;
    assert(k * (d * s) == g * mass_other * dt * (d * s));
    if d >= 0 {
        assert(k * (d * s) >= 0) by (nonlinear_arith)
            requires
                k >= 0,
                d >= 0,
                s >= 1,
        ;
        assert(trunc_div(k * (d * s), r) == k * (e * s) / r);
        let q1 = k * (e * s) / r;
        assert(q1 >= 0) by (nonlinear_arith)
            requires
                k * (e * s) >= 0,
                r >= 1,
                q1 == k * (e * s) / r,
        ;
        assert(trunc_div(q1, d2) == w);
        assert(pull(d, dx, dy, g, mass_other, dt) == w);
        assert(k * d == k * e);
        assert(k * d >= 0);
        assert(abs(k * d) == k * e);
        assert(near_exact_pull(w, k * d, d2));
    } else {
        assert(k * (d * s) == -(k * (e * s)) && k * (e * s) >= 0) by (nonlinear_arith)
            requires
                e == -d,
                k >= 0,
                e > 0,
                s >= 1,
        ;
        assert(k * d == -(k * e)) by (nonlinear_arith)
            requires
                e == -d,
        ;
        let q1 = k * (e * s) / r;
        assert(q1 >= 0) by (nonlinear_arith)
            requires
                k * (e * s) >= 0,
                r >= 1,
                q1 == k * (e * s) / r,
        ;
        assert(trunc_div(k * (d * s), r) == -q1);
        assert(trunc_div(-q1, d2) == -w || q1 == 0);
        assert(pull(d, dx, dy, g, mass_other, dt) == -w);
        assert(k * e >= 0) by (nonlinear_arith)
            requires
                k >= 0,
                e >= 0,
        ;
        assert(abs(k * d) == k * e);
        if k == 0 {
            assert(k * (e * s) == 0) by (nonlinear_arith)
                requires
                    k == 0,
            ;
            assert(q1 == 0);
            assert(w == 0);
        } else {
            assert(k * d < 0) by (nonlinear_arith)
                requires
                    k > 0,
                    d < 0,
            ;
        }
        assert(near_exact_pull(-w, k * d, d2));
    }
}

/// Facts on `gravity_scaled` for `1 <= n < 2^118`.
pub proof fn lemma_gravity_scaled(n: int)
    requires
        1 <= n < 0x40_0000_0000_0000_0000_0000_0000_0000,
    ensures
        ({
            let (m, s) = gravity_scaled(n);
            &&& m == n * s * s
            &&& s >= 1
            &&& 0x10_0000_0000_0000_0000_0000_0000_0000 <= m < 0x40_0000_0000_0000_0000_0000_0000_0000
        }),
    decreases 0x40_0000_0000_0000_0000_0000_0000_0000 - n,
{
    if n < 0x10_0000_0000_0000_0000_0000_0000_0000 {
        lemma_gravity_scaled(4 * n);
        let (m, s) = gravity_scaled(4 * n);
        assert(m == n * (2 * s) * (2 * s)) by (nonlinear_arith)
            requires
                m == 4 * n * s * s,
        ;
    }
}

impl BallObject {
    /// Radius positive, mass not negative, speed within bounds, and a body
    /// that collides has a positive mass.
    pub open spec fn wf(&self) -> bool {
        &&& 0 < self.radius <= RADIUS_MAX
        &&& 0 <= self.mass <= MASS_MAX
        &&& abs(self.velocity.x as int) <= SPEED_MAX
        &&& abs(self.velocity.y as int) <= SPEED_MAX
        &&& self.has_collision ==> self.mass > 0
    }

    /// The position lies within the range the engine computes with.
    pub open spec fn in_range(&self) -> bool {
        abs(self.position.x as int) <= POS_MAX && abs(self.position.y as int) <= POS_MAX
    }

    pub open spec fn with_position(self, x: int, y: int) -> BallObject {
        BallObject { position: Vec2 { x: x as i64, y: y as i64 }, ..self }
    }

    pub open spec fn with_velocity(self, x: int, y: int) -> BallObject {
        BallObject { velocity: Vec2 { x: x as i64, y: y as i64 }, ..self }
    }

    /// The body after moving for `dt` at its velocity.
    pub open spec fn integrated(self, dt: int) -> BallObject {
        self.with_position(
            self.position.x + self.velocity.x * dt,
            self.position.y + self.velocity.y * dt,
        )
    }

    /// The body after bouncing off the walls of a `width` by `height`
    /// viewport: each crossed axis has its velocity reversed and damped, and
    /// its position put back inside, left before right and bottom before top.
    pub open spec fn walls_resolved(self, width: int, height: int, damping: Ratio) -> BallObject {
        let c = wall_flags(self.position, self.radius as int, width, height);
        let vx = if c.left || c.right {
            bounce(self.velocity.x as int, damping)
        } else {
            self.velocity.x as int
        };
        let vy = if c.top || c.bottom {
            bounce(self.velocity.y as int, damping)
        } else {
            self.velocity.y as int
        };
        let x = if c.left {
            self.radius as int
        } else if c.right {
            width - self.radius
        } else {
            self.position.x as int
        };
        let y = if c.bottom {
            self.radius as int
        } else if c.top {
            height - self.radius
        } else {
            self.position.y as int
        };
        self.with_position(x, y).with_velocity(vx, vy)
    }

    /// The body after the gravity of `other` acted on it for `dt`. Nothing
    /// changes when the centres are closer than `cutoff`.
    pub open spec fn pulled_by(self, other: BallObject, g: int, cutoff: int, dt: int) -> BallObject {
        let dx = other.position.x - self.position.x;
        let dy = other.position.y - self.position.y;
        if norm_sq(dx, dy) < cutoff * cutoff {
            self
        } else {
            self.with_velocity(
                saturate(self.velocity.x + pull(dx, dx, dy, g, other.mass as int, dt), SPEED_MAX as int),
                saturate(self.velocity.y + pull(dy, dx, dy, g, other.mass as int, dt), SPEED_MAX as int),
            )
        }
    }

    /// A body that collides and feels gravity.
    pub fn new(position: Vec2, velocity: Vec2, radius: i64, color: Color, mass: i64) -> (b: Self)
        ensures
            b.position == position,
            b.velocity == velocity,
            b.radius == radius,
            b.color == color,
            b.mass == mass,
            b.has_collision,
            b.has_gravity,
    {
        BallObject {
            position,
            velocity,
            radius,
            mass,
            color,
            has_collision: true,
            has_gravity: true,
        }
    }

    /// Moves the body for `delta_time` at its velocity.
    pub fn update(&mut self, delta_time: i64)
        requires
            0 <= delta_time <= DT_MAX,
            abs(old(self).velocity.x as int) <= SPEED_MAX,
            abs(old(self).velocity.y as int) <= SPEED_MAX,
            abs(old(self).position.x + old(self).velocity.x * delta_time) <= POS_MAX,
            abs(old(self).position.y + old(self).velocity.y * delta_time) <= POS_MAX,
        ensures
            *final(self) == old(self).integrated(delta_time as int),
            final(self).position.x == old(self).position.x + old(self).velocity.x * delta_time,
            final(self).position.y == old(self).position.y + old(self).velocity.y * delta_time,
    {
        assert(abs(self.velocity.x * delta_time) <= SPEED_MAX * DT_MAX) by (nonlinear_arith)
            requires
                abs(self.velocity.x as int) <= SPEED_MAX,
                0 <= delta_time <= DT_MAX,
        ;
        assert(abs(self.velocity.y * delta_time) <= SPEED_MAX * DT_MAX) by (nonlinear_arith)
            requires
                abs(self.velocity.y as int) <= SPEED_MAX,
                0 <= delta_time <= DT_MAX,
        ;
        self.position.x = self.position.x + self.velocity.x * delta_time;
        self.position.y = self.position.y + self.velocity.y * delta_time;
    }

    /// Bounces the body off the viewport walls that it crosses.
    pub fn resolve_walls(&mut self, config: &PhysicsConfig)
        requires
            old(self).wf(),
            config.wf(),
        ensures
            *final(self) == old(self).walls_resolved(
                config.width as int,
                config.height as int,
                config.damping,
            ),
            final(self).wf(),
            abs(final(self).position.x as int) <= VIEW_MAX,
            abs(final(self).position.y as int) <= VIEW_MAX,
            2 * old(self).radius <= config.width ==> old(self).radius <= final(self).position.x
                <= config.width - old(self).radius,
            2 * old(self).radius <= config.height ==> old(self).radius <= final(self).position.y
                <= config.height - old(self).radius,
    {
        let wall = check_wall_collision(self.position, self.radius, config.width, config.height);
        let d = config.damping;
        if wall.left || wall.right {
            self.velocity.x = bounce_i64(self.velocity.x, d);
            if wall.left {
                self.position.x = self.radius;
            } else {
                self.position.x = config.width - self.radius;
            }
        }
        if wall.top || wall.bottom {
            self.velocity.y = bounce_i64(self.velocity.y, d);
            if wall.bottom {
                self.position.y = self.radius;
            } else {
                self.position.y = config.height - self.radius;
            }
        }
    }

    /// Adds to the velocity the pull of `another_ball` over `delta_time`.
    pub fn gravity_update(&mut self, another_ball: &BallObject, delta_time: i64, config: &PhysicsConfig)
        requires
            old(self).wf(),
            old(self).in_range(),
            another_ball.wf(),
            another_ball.in_range(),
            config.wf(),
            0 <= delta_time <= DT_MAX,
        ensures
            *final(self) == old(self).pulled_by(
                *another_ball,
                config.gravity as int,
                config.gravity_cutoff as int,
                delta_time as int,
            ),
            final(self).wf(),
            norm_sq(
                another_ball.position.x - old(self).position.x,
                another_ball.position.y - old(self).position.y,
            ) < config.gravity_cutoff * config.gravity_cutoff ==> *final(self) == *old(self),
    {
        let dx = another_ball.position.x as i128 - self.position.x as i128;
        let dy = another_ball.position.y as i128 - self.position.y as i128;
        assert(0 <= dx * dx <= 0x4_0000_0000_0000 * 0x4_0000_0000_0000) by (nonlinear_arith)
            requires
                abs(dx as int) <= 0x4_0000_0000_0000,
        ;
        assert(0 <= dy * dy <= 0x4_0000_0000_0000 * 0x4_0000_0000_0000) by (nonlinear_arith)
            requires
                abs(dy as int) <= 0x4_0000_0000_0000,
        ;
        let dist_sq = dx * dx + dy * dy;
        let cutoff = config.gravity_cutoff as i128;
        assert(1 <= cutoff * cutoff <= RADIUS_MAX * RADIUS_MAX) by (nonlinear_arith)
            requires
                1 <= cutoff <= RADIUS_MAX,
        ;
        if dist_sq < cutoff * cutoff {
            return;
        }
        let mut m = dist_sq;
        let mut s: i128 = 1;
        proof {
            assert(dist_sq >= 1);
            lemma_gravity_scaled(dist_sq as int);
        }
        while m < 0x10_0000_0000_0000_0000_0000_0000_0000
            invariant
                1 <= dist_sq <= 0x20_0000_0000_0000_0000_0000_0000,
                1 <= m < 0x40_0000_0000_0000_0000_0000_0000_0000,
                s >= 1,
                m == dist_sq * s * s,
                gravity_scaled(dist_sq as int) == (gravity_scaled(m as int).0, gravity_scaled(m as int).1 * s),
            decreases 0x40_0000_0000_0000_0000_0000_0000_0000 - m,
        {
            assert(s * s <= m && s <= 0x20_0000_0000_0000_0000) by (nonlinear_arith)
                requires
                    m == dist_sq * s * s,
                    dist_sq >= 1,
                    s >= 1,
                    m < 0x40_0000_0000_0000_0000_0000_0000_0000,
            ;
            assert(4 * m == dist_sq * (2 * s) * (2 * s)) by (nonlinear_arith)
                requires
                    m == dist_sq * s * s,
            ;
            let ghost g4 = gravity_scaled(4 * m);
            assert(gravity_scaled(m as int) == (g4.0, 2 * g4.1));
            assert(gravity_scaled(m as int).1 * s == g4.1 * (2 * s)) by (nonlinear_arith)
                requires
                    gravity_scaled(m as int).1 == 2 * g4.1,
            ;
            m = 4 * m;
            s = 2 * s;
        }
        let r = isqrt(m);
        proof {
            lemma_gravity_scaled(dist_sq as int);
            lemma_floor_sqrt_unique(m as int, r as int);
            assert(gravity_scaled(m as int) == (m as int, 1int));
            assert(r >= 0x400_0000_0000_0000 && r < 0x800_0000_0000_0000) by (nonlinear_arith)
                requires
                    r >= 0,
                    r * r <= m,
                    m < (r + 1) * (r + 1),
                    0x10_0000_0000_0000_0000_0000_0000_0000 <= m < 0x40_0000_0000_0000_0000_0000_0000_0000,
            ;
            assert(abs(dx * s) <= r && abs(dy * s) <= r) by (nonlinear_arith)
                requires
                    r >= 0,
                    m < (r + 1) * (r + 1),
                    m == (dx * dx + dy * dy) * s * s,
                    s >= 1,
            ;
        }
        assert(0 <= config.gravity * another_ball.mass <= GRAVITY_MAX * MASS_MAX) by (nonlinear_arith)
            requires
                0 <= config.gravity <= GRAVITY_MAX,
                0 <= another_ball.mass <= MASS_MAX,
        ;
        let gm = config.gravity as i128 * another_ball.mass as i128;
        assert(0 <= gm * delta_time <= 0x400_0000_0000_0000) by (nonlinear_arith)
            requires
                0 <= gm <= GRAVITY_MAX * MASS_MAX,
                0 <= delta_time <= DT_MAX,
        ;
        let k = gm * delta_time as i128;
        assert(abs(k * (dx * s)) <= k * r && abs(k * (dy * s)) <= k * r) by (nonlinear_arith)
            requires
                0 <= k,
                abs(dx * s) <= r,
                abs(dy * s) <= r,
        ;
        assert(k * r <= 0x400_0000_0000_0000 * 0x800_0000_0000_0000) by (nonlinear_arith)
            requires
                0 <= k <= 0x400_0000_0000_0000,
                0 <= r < 0x800_0000_0000_0000,
        ;
        proof {
            lemma_div_bounded_by(k * (dx * s), r as int, k as int);
            lemma_div_bounded_by(k * (dy * s), r as int, k as int);
        }
        let qx = div_trunc(k * (dx * s), r);
        let qy = div_trunc(k * (dy * s), r);
        proof {
            lemma_trunc_div_bound(qx as int, dist_sq as int);
            lemma_trunc_div_bound(qy as int, dist_sq as int);
        }
        let ax = div_trunc(qx, dist_sq);
        let ay = div_trunc(qy, dist_sq);
        self.velocity.x = saturate_i64(self.velocity.x as i128 + ax, SPEED_MAX);
        self.velocity.y = saturate_i64(self.velocity.y as i128 + ay, SPEED_MAX);
    }
}

/// `v` reversed and damped by `d`.
fn bounce_i64(v: i64, d: Ratio) -> (r: i64)
    requires
        d.wf(),
        abs(v as int) <= SPEED_MAX,
    ensures
        r == bounce(v as int, d),
        abs(r as int) <= abs(v as int),
{
    assert(abs(-(v as int) * d.num) <= SPEED_MAX * RATIO_DEN_MAX) by (nonlinear_arith)
        requires
            abs(v as int) <= SPEED_MAX,
            0 <= d.num <= RATIO_DEN_MAX,
    ;
    let n = -(v as i128) * d.num as i128;
    proof {
        lemma_scaled_div_bound(v as int, d.num as int, d.den as int);
    }
    div_trunc(n, d.den as i128) as i64
}

} // verus!
