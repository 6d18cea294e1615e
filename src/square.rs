use vstd::prelude::*;
use crate::arith::{abs, away_div, clamp, saturate, trunc_div};
use crate::arith::{div_away, div_trunc, saturate_i64};
use crate::arith::{lemma_div_bounded_by, lemma_floor_sqrt_unique, is_floor_sqrt};
use crate::color::Color;
use crate::config::{POS_MAX, RADIUS_MAX, SPEED_MAX};
use crate::vector::{fine_dist, fine_dist_of, lemma_fine_dist_facts, lemma_push_length, norm_sq, Vec2, DIST_SCALE};

verus! {

/// The fixed-point one of a rotation's cosine and sine.
pub const ROTATION_ONE: i64 = 0x1_0000;

/// A rotation counter-clockwise by some angle, held as the angle's cosine
/// and sine in units of `1 / ROTATION_ONE`.
#[derive(Debug, Clone, Copy, PartialEq, Eq, Structural)]
pub struct Rotation {
    pub cos: i64,
    pub sin: i64,
}

impl Rotation {
    /// Cosine and sine within one, and the pair of unit length up to the
    /// rounding of each to a whole unit of `1 / ROTATION_ONE`.
    pub open spec fn wf(&self) -> bool {
        &&& abs(self.cos as int) <= ROTATION_ONE
        &&& abs(self.sin as int) <= ROTATION_ONE
        &&& abs(self.cos * self.cos + self.sin * self.sin - ROTATION_ONE * ROTATION_ONE) <= 2 * ROTATION_ONE
    }

    /// Whether the rotation is well formed.
    pub fn is_wf(&self) -> (ok: bool)
        ensures
            ok == self.wf(),
    {
        if self.cos < -ROTATION_ONE || self.cos > ROTATION_ONE || self.sin < -ROTATION_ONE || self.sin > ROTATION_ONE {
            return false;
        }
        assert(0 <= self.cos * self.cos <= ROTATION_ONE * ROTATION_ONE && 0 <= self.sin * self.sin
            <= ROTATION_ONE * ROTATION_ONE) by (nonlinear_arith)
            requires
                abs(self.cos as int) <= ROTATION_ONE,
                abs(self.sin as int) <= ROTATION_ONE,
        ;
        let n = self.cos as i128 * self.cos as i128 + self.sin as i128 * self.sin as i128;
        let one = ROTATION_ONE as i128;
        -2 * one <= n - one * one && n - one * one <= 2 * one
    }

    /// No rotation.
    pub fn identity() -> (r: Self)
        ensures
            r.cos == ROTATION_ONE,
            r.sin == 0,
            r.wf(),
    {
        assert(ROTATION_ONE * ROTATION_ONE + 0 * 0 - ROTATION_ONE * ROTATION_ONE == 0) by (nonlinear_arith);
        Rotation { cos: ROTATION_ONE, sin: 0 }
    }
}

/// A square obstacle: its centre, its side, its rotation about the centre
/// and a display colour.
#[derive(Debug, Clone, Copy, PartialEq, Eq, Structural)]
pub struct SquareObject {
    pub position: Vec2,
    pub size: i64,
    pub rotation: Rotation,
    pub color: Color,
}

/// A point whose coordinates lie within the range the engine computes with.
pub open spec fn point_in_range(p: Vec2) -> bool {
    abs(p.x as int) <= POS_MAX && abs(p.y as int) <= POS_MAX
}

/// Whether a circle of `radius` centred at `(px, py)`, relative to the centre
/// of an axis-aligned square of side `size`, reaches into the square; the
/// face it is nearest (0 right, 1 top, 2 left, 3 bottom); and the centre
/// pushed out of the square along the line from the closest point of the
/// square. Lengths are doubled so that the faces of a square of odd side lie
/// on whole units. The push goes from the closest point along the
/// displacement scaled by the diameter over its fixed-point length, rounded
/// away from zero, and the pushed centre is halved, rounded away from the
/// square's centre. It lands at least `radius` and less than `radius + 3`
/// from the closest point (see `lemma_contact_push_bounds`). A centre on or
/// inside the square is pushed along +x by `radius`.
#[verifier::opaque]
pub open spec fn local_contact(px: int, py: int, radius: int, size: int) -> (bool, usize, int, int) {
    let cx = clamp(2 * px, -size, size);
    let cy = clamp(2 * py, -size, size);
    let dx = 2 * px - cx;
    let dy = 2 * py - cy;
    let d2 = norm_sq(dx, dy);
    if d2 < (2 * radius) * (2 * radius) {
        let q = fine_dist(d2);
        let side: usize = if abs(dx) > abs(dy) {
            if dx > 0 { 0 } else { 2 }
        } else {
            if dy > 0 { 1 } else { 3 }
        };
        if d2 == 0 {
            (true, side, px + radius, py)
        } else {
            (
                true,
                side,
                away_div(cx + away_div(dx * (2 * radius) * DIST_SCALE, q), 2),
                away_div(cy + away_div(dy * (2 * radius) * DIST_SCALE, q), 2),
            )
        }
    } else {
        (false, 0, px, py)
    }
}

/// `(a * b + c * d) / ROTATION_ONE`, rounded toward zero: one coordinate of
/// a turned point.
#[verifier::opaque]
pub open spec fn turn_of(a: int, b: int, c: int, d: int) -> int {
    trunc_div(a * b + c * d, ROTATION_ONE as int)
}

/// `(x, y)` turned by the inverse of `r`, first coordinate.
pub open spec fn unrotate_x(r: Rotation, x: int, y: int) -> int {
    turn_of(r.cos as int, x, r.sin as int, y)
}

pub open spec fn unrotate_y(r: Rotation, x: int, y: int) -> int {
    turn_of(r.cos as int, y, -r.sin, x)
}

/// `(x, y)` turned by `r`, first coordinate.
pub open spec fn rotate_x(r: Rotation, x: int, y: int) -> int {
    turn_of(r.cos as int, x, -r.sin, y)
}

pub open spec fn rotate_y(r: Rotation, x: int, y: int) -> int {
    turn_of(r.sin as int, x, r.cos as int, y)
}

/// The contact of a circle with a square turned by `rot`: the circle's
/// centre is taken into the square's frame, met with the square there, and
/// the pushed-out centre is taken back to the world.
pub open spec fn oriented_contact(ball: Vec2, radius: int, center: Vec2, size: int, rot: Rotation) -> (bool, usize, int, int) {
    let lx = unrotate_x(rot, ball.x - center.x, ball.y - center.y);
    let ly = unrotate_y(rot, ball.x - center.x, ball.y - center.y);
    let c = local_contact(lx, ly, radius, size);
    if c.0 {
        (true, c.1, center.x + rotate_x(rot, c.2, c.3), center.y + rotate_y(rot, c.2, c.3))
    } else {
        (false, c.1, ball.x as int, ball.y as int)
    }
}

/// The outward normal of face `side` of a square turned by `rot`, in units
/// of `1 / ROTATION_ONE`.
pub open spec fn face_normal(rot: Rotation, side: usize) -> (int, int) {
    if side == 0 {
        (rot.cos as int, rot.sin as int)
    } else if side == 1 {
        (-rot.sin, rot.cos as int)
    } else if side == 2 {
        (-rot.cos, -rot.sin)
    } else {
        (rot.sin as int, -rot.cos)
    }
}

/// The dot product of `(ax, ay)` and `(bx, by)`.
pub open spec fn dot(ax: int, ay: int, bx: int, by: int) -> int {
    ax * bx + ay * by
}

/// A velocity component `v` after a mirror reflection `v - 2 (v.n) n` off a
/// face, where `vn` is the dot product of the velocity and the normal and
/// `n` is the normal's component along `v`'s axis.
pub open spec fn reflect(v: int, vn: int, n: int) -> int {
    let one = ROTATION_ONE as int;
    saturate(v - trunc_div(2 * vn * n, one * one), SPEED_MAX as int)
}

/// Meets a circle centred at `p`, relative to the centre of an
/// axis-aligned square of side `size`, with that square.
fn contact_local(p: Vec2, radius: i64, size: i64) -> (c: (bool, usize, Vec2))
    requires
        abs(p.x as int) <= 0x10_0000_0000_0000,
        abs(p.y as int) <= 0x10_0000_0000_0000,
        0 < radius <= RADIUS_MAX,
        0 <= size <= RADIUS_MAX,
    ensures
        ({
            let s = local_contact(p.x as int, p.y as int, radius as int, size as int);
            c.0 == s.0 && c.1 == s.1 && c.2.x == s.2 && c.2.y == s.3
        }),
        abs(c.2.x - p.x) <= 2 * RADIUS_MAX,
        abs(c.2.y - p.y) <= 2 * RADIUS_MAX,
{
    reveal(local_contact);
    let h = size as i128;
    let px = 2 * p.x as i128;
    let py = 2 * p.y as i128;
    let cx: i128 = if px < -h {
        -h
    } else if px > h {
        h
    } else {
        px
    };
    let cy: i128 = if py < -h {
        -h
    } else if py > h {
        h
    } else {
        py
    };
    let dx = px - cx;
    let dy = py - cy;
    assert(0 <= dx * dx <= 0x40_0000_0000_0000 * 0x40_0000_0000_0000) by (nonlinear_arith)
        requires
            abs(dx as int) <= 0x40_0000_0000_0000,
    ;
    assert(0 <= dy * dy <= 0x40_0000_0000_0000 * 0x40_0000_0000_0000) by (nonlinear_arith)
        requires
            abs(dy as int) <= 0x40_0000_0000_0000,
    ;
    let d2 = dx * dx + dy * dy;
    let r: i128 = radius as i128 + radius as i128;
    assert(0 < r <= 0x200_0000);
    assert(0 < r * r <= 0x200_0000 * 0x200_0000) by (nonlinear_arith)
        requires
            0 < r <= 0x200_0000,
    ;
    if d2 >= r * r {
        return (false, 0, p);
    }
    let adx: i128 = if dx < 0 { -dx } else { dx };
    let ady: i128 = if dy < 0 { -dy } else { dy };
    let side: usize = if adx > ady {
        if dx > 0 { 0 } else { 2 }
    } else {
        if dy > 0 { 1 } else { 3 }
    };
    if d2 == 0 {
        return (true, side, Vec2 { x: p.x + radius, y: p.y });
    }
    let q = fine_dist_of(d2);
    proof {
        lemma_fine_dist_facts(dx as int, dy as int, d2 as int, q as int);
        assert(q < 0x400_0000_0000_0000) by (nonlinear_arith)
            requires
                q >= 0,
                q * q <= d2 * DIST_SCALE * DIST_SCALE,
                d2 < (2 * RADIUS_MAX) * (2 * RADIUS_MAX),
        ;
        assert(abs(dx as int) <= r && abs(dy as int) <= r) by (nonlinear_arith)
            requires
                d2 == dx * dx + dy * dy,
                d2 < r * r,
                r > 0,
        ;
        assert(abs(dx * r * DIST_SCALE) <= r * q && abs(dy * r * DIST_SCALE) <= r * q) by (nonlinear_arith)
            requires
                abs(dx as int) * DIST_SCALE <= q,
                abs(dy as int) * DIST_SCALE <= q,
                r > 0,
        ;
        assert(abs(dx * r) <= (2 * RADIUS_MAX) * (2 * RADIUS_MAX) && abs(dy * r) <= (2 * RADIUS_MAX) * (2
            * RADIUS_MAX)) by (nonlinear_arith)
            requires
                abs(dx as int) <= r,
                abs(dy as int) <= r,
                0 < r <= 2 * RADIUS_MAX,
        ;
        lemma_div_bounded_by(dx * r * DIST_SCALE, q as int, r as int);
        lemma_div_bounded_by(dy * r * DIST_SCALE, q as int, r as int);
    }
    let ox = div_away(dx * r * DIST_SCALE, q);
    let oy = div_away(dy * r * DIST_SCALE, q);
    proof {
        lemma_div_bounded_by(cx + ox, 2, 0x20_0000_0000_0000);
        lemma_div_bounded_by(cy + oy, 2, 0x20_0000_0000_0000);
        crate::arith::lemma_away_div_abs(cx + ox, 2);
        crate::arith::lemma_away_div_abs(cy + oy, 2);
        crate::arith::lemma_away_div_covers(cx + ox, 2);
        crate::arith::lemma_away_div_covers(cy + oy, 2);
    }
    let x = div_away(cx + ox, 2);
    let y = div_away(cy + oy, 2);
    (true, side, Vec2 { x: x as i64, y: y as i64 })
}

/// Meets a circle with an axis-aligned square: whether the circle reaches
/// into the square, the face it is nearest, and its centre pushed out of the
/// square (unchanged when it does not reach in).
pub fn check_ball_square_collision(
    ball_pos: Vec2,
    ball_radius: i64,
    square_pos: Vec2,
    square_size: i64,
) -> (c: (bool, usize, Vec2))
    requires
        point_in_range(ball_pos),
        point_in_range(square_pos),
        0 < ball_radius <= RADIUS_MAX,
        0 <= square_size <= RADIUS_MAX,
    ensures
        ({
            let s = local_contact(
                ball_pos.x - square_pos.x,
                ball_pos.y - square_pos.y,
                ball_radius as int,
                square_size as int,
            );
            c.0 == s.0 && c.1 == s.1 && c.2.x == square_pos.x + s.2 && c.2.y == square_pos.y + s.3
        }),
{
    let rel = Vec2 { x: ball_pos.x - square_pos.x, y: ball_pos.y - square_pos.y };
    let (hit, side, q) = contact_local(rel, ball_radius, square_size);
    (hit, side, Vec2 { x: q.x + square_pos.x, y: q.y + square_pos.y })
}

/// Whether a circle reaches into an axis-aligned square, for any positions.
pub fn check_ball_square_touching(
    ball_pos: Vec2,
    ball_radius: i64,
    square_pos: Vec2,
    square_size: i64,
) -> (hit: bool)
    requires
        0 < ball_radius <= RADIUS_MAX,
        0 <= square_size <= RADIUS_MAX,
    ensures
        hit == local_contact(
            ball_pos.x - square_pos.x,
            ball_pos.y - square_pos.y,
            ball_radius as int,
            square_size as int,
        ).0,
{
    proof {
        reveal(local_contact);
    }
    let half = square_size as i128;
    let px = 2 * (ball_pos.x as i128 - square_pos.x as i128);
    let py = 2 * (ball_pos.y as i128 - square_pos.y as i128);
    let cx: i128 = if px < -half {
        -half
    } else if px > half {
        half
    } else {
        px
    };
    let cy: i128 = if py < -half {
        -half
    } else if py > half {
        half
    } else {
        py
    };
    let dx = px - cx;
    let dy = py - cy;
    let r = 2 * ball_radius as i128;
    if dx > r || dx < -r || dy > r || dy < -r {
        assert(dx * dx + dy * dy >= r * r) by (nonlinear_arith)
            requires
                dx > r || dx < -r || dy > r || dy < -r,
                r > 0,
        ;
        return false;
    }
    assert(0 <= dx * dx <= r * r && 0 <= dy * dy <= r * r && r * r <= (2 * RADIUS_MAX) * (2 * RADIUS_MAX))
        by (nonlinear_arith)
        requires
            -r <= dx <= r,
            -r <= dy <= r,
            0 < r <= 2 * RADIUS_MAX,
    ;
    dx * dx + dy * dy < r * r
}

/// `a * b / ROTATION_ONE + c * d / ROTATION_ONE` for one rotated coordinate,
/// rounded toward zero.
fn turn(a: i64, b: i64, c: i64, d: i64) -> (r: i64)
    requires
        abs(a as int) <= ROTATION_ONE,
        abs(c as int) <= ROTATION_ONE,
        abs(b as int) <= 0x40_0000_0000_0000,
        abs(d as int) <= 0x40_0000_0000_0000,
    ensures
        r == turn_of(a as int, b as int, c as int, d as int),
        abs(r as int) <= abs(b as int) + abs(d as int),
{
    assert(abs(a * b) <= ROTATION_ONE * 0x40_0000_0000_0000 && abs(c * d) <= ROTATION_ONE
        * 0x40_0000_0000_0000) by (nonlinear_arith)
        requires
            abs(a as int) <= ROTATION_ONE,
            abs(c as int) <= ROTATION_ONE,
            abs(b as int) <= 0x40_0000_0000_0000,
            abs(d as int) <= 0x40_0000_0000_0000,
    ;
    let n = a as i128 * b as i128 + c as i128 * d as i128;
    proof {
        reveal(turn_of);
    }
    assert(abs(n as int) <= (abs(b as int) + abs(d as int)) * ROTATION_ONE) by (nonlinear_arith)
        requires
            abs(a as int) <= ROTATION_ONE,
            abs(c as int) <= ROTATION_ONE,
            n == a * b + c * d,
    ;
    proof {
        lemma_div_bounded_by(n as int, ROTATION_ONE as int, abs(b as int) + abs(d as int));
    }
    div_trunc(n, ROTATION_ONE as i128) as i64
}

/// Meets a circle with a square of side `square_size` centred at
/// `square_pos` and turned by `rotation`: whether the circle reaches into
/// the square, the face it is nearest, and its centre pushed out of the
/// square (unchanged when it does not reach in).
pub fn check_ball_rect_oriented(
    ball_pos: Vec2,
    ball_radius: i64,
    square_pos: Vec2,
    square_size: i64,
    rotation: Rotation,
) -> (c: (bool, usize, Vec2))
    requires
        point_in_range(ball_pos),
        point_in_range(square_pos),
        0 < ball_radius <= RADIUS_MAX,
        0 <= square_size <= RADIUS_MAX,
        rotation.wf(),
    ensures
        ({
            let s = oriented_contact(ball_pos, ball_radius as int, square_pos, square_size as int, rotation);
            c.0 == s.0 && c.1 == s.1 && c.2.x == s.2 && c.2.y == s.3
        }),
        abs(c.2.x - ball_pos.x) <= 0x40_0000_0000_0000,
        abs(c.2.y - ball_pos.y) <= 0x40_0000_0000_0000,
{
    let dx = ball_pos.x - square_pos.x;
    let dy = ball_pos.y - square_pos.y;
    assert(abs(dx as int) <= 0x2_0000_0000_0000 && abs(dy as int) <= 0x2_0000_0000_0000);
    let lx = turn(rotation.cos, dx, rotation.sin, dy);
    let ns = -rotation.sin;
    let ly = turn(rotation.cos, dy, ns, dx);
    assert(abs(lx as int) <= 0x4_0000_0000_0000 && abs(ly as int) <= 0x4_0000_0000_0000);
    let (hit, side, q) = contact_local(Vec2 { x: lx, y: ly }, ball_radius, square_size);
    if !hit {
        return (false, side, ball_pos);
    }
    assert(abs(q.x as int) <= 0x8_0000_0000_0000 && abs(q.y as int) <= 0x8_0000_0000_0000);
    let wx = turn(rotation.cos, q.x, ns, q.y);
    let wy = turn(rotation.sin, q.x, rotation.cos, q.y);
    (true, side, Vec2 { x: square_pos.x + wx, y: square_pos.y + wy })
}

impl SquareObject {
    /// Side not negative and within bounds, rotation well formed, centre in
    /// range.
    pub open spec fn wf(&self) -> bool {
        &&& 0 <= self.size <= RADIUS_MAX
        &&& self.rotation.wf()
        &&& point_in_range(self.position)
    }

    /// An axis-aligned square.
    pub fn new(position: Vec2, size: i64, color: Color) -> (s: Self)
        ensures
            s.position == position,
            s.size == size,
            s.color == color,
            s.rotation.cos == ROTATION_ONE,
            s.rotation.sin == 0,
    {
        SquareObject { position, size, rotation: Rotation::identity(), color }
    }

    /// The outward normal of face `side` (0 right, 1 top, 2 left, 3 bottom,
    /// before rotation), in units of `1 / ROTATION_ONE`.
    pub fn get_normal_relative_to(&self, side: usize) -> (n: Vec2)
        requires
            self.rotation.wf(),
        ensures
            n.x == face_normal(self.rotation, side).0,
            n.y == face_normal(self.rotation, side).1,
    {
        let r = self.rotation;
        if side == 0 {
            Vec2 { x: r.cos, y: r.sin }
        } else if side == 1 {
            Vec2 { x: -r.sin, y: r.cos }
        } else if side == 2 {
            Vec2 { x: -r.cos, y: -r.sin }
        } else {
            Vec2 { x: r.sin, y: -r.cos }
        }
    }
}

/// The velocity `v` mirrored off a face with outward normal `n`, given in
/// units of `1 / ROTATION_ONE`.
pub fn reflect_velocity(v: Vec2, n: Vec2) -> (r: Vec2)
    requires
        abs(v.x as int) <= SPEED_MAX,
        abs(v.y as int) <= SPEED_MAX,
        abs(n.x as int) <= ROTATION_ONE,
        abs(n.y as int) <= ROTATION_ONE,
    ensures
        r.x == reflect(v.x as int, dot(v.x as int, v.y as int, n.x as int, n.y as int), n.x as int),
        r.y == reflect(v.y as int, dot(v.x as int, v.y as int, n.x as int, n.y as int), n.y as int),
        abs(r.x as int) <= SPEED_MAX,
        abs(r.y as int) <= SPEED_MAX,
{
    assert(abs(v.x * n.x) <= SPEED_MAX * ROTATION_ONE && abs(v.y * n.y) <= SPEED_MAX * ROTATION_ONE)
        by (nonlinear_arith)
        requires
            abs(v.x as int) <= SPEED_MAX,
            abs(v.y as int) <= SPEED_MAX,
            abs(n.x as int) <= ROTATION_ONE,
            abs(n.y as int) <= ROTATION_ONE,
    ;
    let vn = v.x as i128 * n.x as i128 + v.y as i128 * n.y as i128;
    assert(abs(2 * vn * n.x) <= 4 * SPEED_MAX * ROTATION_ONE * ROTATION_ONE && abs(2 * vn * n.y)
        <= 4 * SPEED_MAX * ROTATION_ONE * ROTATION_ONE) by (nonlinear_arith)
        requires
            abs(vn as int) <= 2 * SPEED_MAX * ROTATION_ONE,
            abs(n.x as int) <= ROTATION_ONE,
            abs(n.y as int) <= ROTATION_ONE,
    ;
    let one: i128 = 0x1_0000_0000;
    assert(one == ROTATION_ONE * ROTATION_ONE);
    proof {
        lemma_div_bounded_by(2 * vn * n.x, one as int, 4 * SPEED_MAX as int);
        lemma_div_bounded_by(2 * vn * n.y, one as int, 4 * SPEED_MAX as int);
    }
    let x = saturate_i64(v.x as i128 - div_trunc(2 * vn * n.x as i128, one), SPEED_MAX);
    let y = saturate_i64(v.y as i128 - div_trunc(2 * vn * n.y as i128, one), SPEED_MAX);
    Vec2 { x, y }
}

/// Along one axis, a contact at doubled distance `f` from a face, with
/// `0 < f < r2`, is pushed by exactly `r2` doubled units.
proof fn lemma_axis_push_exact(f: int, r2: int)
    requires
        0 < f < r2,
    ensures
        fine_dist(f * f) == f * DIST_SCALE,
        norm_sq(f, 0) == f * f && norm_sq(0, f) == f * f && norm_sq(-f, 0) == f * f && norm_sq(0, -f) == f * f,
        f * f < r2 * r2,
        f * f != 0,
        away_div(f * r2 * DIST_SCALE, f * DIST_SCALE) == r2,
        away_div((-f) * r2 * DIST_SCALE, f * DIST_SCALE) == -r2,
        away_div(0 * r2 * DIST_SCALE, f * DIST_SCALE) == 0,
{
    let sc = DIST_SCALE as int;
    let q = f * sc;
    assert(is_floor_sqrt(f * f * sc * sc, q)) by (nonlinear_arith)
        requires
            f > 0,
            sc > 0,
            q == f * sc,
    ;
    lemma_floor_sqrt_unique(f * f * sc * sc, q);
    assert(q >= 1) by (nonlinear_arith)
        requires
            f > 0,
            sc > 0,
            q == f * sc,
    ;
    assert(f * r2 * sc == r2 * q && (-f) * r2 * sc == -(r2 * q) && r2 * q > 0) by (nonlinear_arith)
        requires
            q == f * sc,
            q >= 1,
            r2 > 0,
    ;
    assert((r2 * q + q - 1) / q == r2) by (nonlinear_arith)
        requires
            q >= 1,
    ;
    assert(0 * r2 * sc == 0) by (nonlinear_arith);
    crate::arith::lemma_away_div_covers(0, q);
    assert(norm_sq(f, 0) == f * f && norm_sq(0, f) == f * f && norm_sq(-f, 0) == f * f && norm_sq(0, -f)
        == f * f) by (nonlinear_arith);
    assert(0 < f * f < r2 * r2) by (nonlinear_arith)
        requires
            0 < f < r2,
    ;
}

/// A circle whose centre lies beyond one face of a square, within the
/// face's extent, and which reaches into the square, is pushed out straight
/// along that face's normal, and that face is reported. In doubled units the
/// pushed centre lies `size + 2 * radius`, rounded up to even, from the
/// square's centre: exactly its radius from the face, or half a unit more
/// when the side is odd so that the centre stays on whole units.
pub proof fn lemma_face_contact_touches(size: int, radius: int, x: int, t: int)
    requires
        0 <= size,
        0 < radius,
        0 < 2 * x - size < 2 * radius,
        -size <= 2 * t <= size,
    ensures
        ({
            let w = (size + 2 * radius + 1) / 2;
            &&& local_contact(x, t, radius, size) == (true, 0usize, w, t)
            &&& local_contact(t, x, radius, size) == (true, 1usize, t, w)
            &&& local_contact(-x, t, radius, size) == (true, 2usize, -w, t)
            &&& local_contact(t, -x, radius, size) == (true, 3usize, t, -w)
        }),
{
    reveal(local_contact);
    let f = 2 * x - size;
    lemma_axis_push_exact(f, 2 * radius);
    assert(f * (2 * radius) * DIST_SCALE == f * (2 * radius) * DIST_SCALE);
    assert(away_div(2 * t + 0, 2) == t);
    assert(away_div(size + 2 * radius, 2) == (size + 2 * radius + 1) / 2);
    assert(away_div(-size + -2 * radius, 2) == -((size + 2 * radius + 1) / 2));
    assert(2 * (-x) - (-size) == -f);
}

/// A circle centred exactly on the right face of a square of even side is
/// pushed out to its radius beyond that face.
pub proof fn lemma_on_face_contact_touches(size: int, radius: int, t: int)
    requires
        0 <= size,
        size % 2 == 0,
        0 < radius,
        -size <= 2 * t <= size,
    ensures
        local_contact(size / 2, t, radius, size).0,
        local_contact(size / 2, t, radius, size).2 == size / 2 + radius,
        local_contact(size / 2, t, radius, size).3 == t,
{
    reveal(local_contact);
    assert(norm_sq(0, 0) == 0);
    assert(0 < (2 * radius) * (2 * radius)) by (nonlinear_arith)
        requires
            0 < radius,
    ;
}

/// With doubled values: halving `c + o` rounded away from zero, when `o`
/// points away from zero as `c` does, moves at least `|o|` and at most
/// `|o| + 1` from `c`.
proof fn lemma_halve_outward(c: int, o: int)
    requires
        o > 0 ==> c >= 0,
        o < 0 ==> c <= 0,
        o == 0 ==> c % 2 == 0,
    ensures
        abs(o) <= abs(2 * away_div(c + o, 2) - c) <= abs(o) + 1,
{
}

/// A circle that reaches into a square ends up at least its radius, and
/// less than three units more, from the point of the square that was closest
/// to its centre: no penetration remains. In doubled units.
pub proof fn lemma_contact_push_bounds(px: int, py: int, radius: int, size: int)
    requires
        1 <= radius <= RADIUS_MAX,
        0 <= size,
        local_contact(px, py, radius, size).0,
    ensures
        ({
            let c = local_contact(px, py, radius, size);
            let cx = clamp(2 * px, -size, size);
            let cy = clamp(2 * py, -size, size);
            4 * (radius * radius) <= norm_sq(2 * c.2 - cx, 2 * c.3 - cy) < 4 * ((radius + 3) * (radius + 3))
        }),
{
    reveal(local_contact);
    let cx = clamp(2 * px, -size, size);
    let cy = clamp(2 * py, -size, size);
    let dx = 2 * px - cx;
    let dy = 2 * py - cy;
    let d2 = norm_sq(dx, dy);
    let r2 = 2 * radius;
    if d2 == 0 {
        assert(dx * dx >= 0 && dy * dy >= 0) by (nonlinear_arith);
        assert(dx == 0 && dy == 0) by (nonlinear_arith)
            requires
                dx * dx + dy * dy == 0,
        ;
        assert(norm_sq(r2, 0) == 4 * (radius * radius)) by (nonlinear_arith)
            requires
                r2 == 2 * radius,
        ;
        assert(radius * radius < (radius + 3) * (radius + 3)) by (nonlinear_arith)
            requires
                radius >= 1,
        ;
    } else {
        assert(d2 >= 1) by (nonlinear_arith)
            requires
                d2 == dx * dx + dy * dy,
                d2 != 0,
        ;
        crate::arith::lemma_floor_sqrt(d2 * DIST_SCALE * DIST_SCALE);
        let q = fine_dist(d2);
        lemma_fine_dist_facts(dx, dy, d2, q);
        lemma_push_length(dx, dy, r2, q);
        let ox = away_div(dx * r2 * DIST_SCALE, q);
        let oy = away_div(dy * r2 * DIST_SCALE, q);
        crate::arith::lemma_away_div_covers(dx * r2 * DIST_SCALE, q);
        crate::arith::lemma_away_div_covers(dy * r2 * DIST_SCALE, q);
        crate::arith::lemma_away_div_abs(dx * r2 * DIST_SCALE, q);
        crate::arith::lemma_away_div_abs(dy * r2 * DIST_SCALE, q);
        assert(dx > 0 ==> dx * r2 * DIST_SCALE > 0) by (nonlinear_arith)
            requires
                r2 > 0,
        ;
        assert(dx < 0 ==> dx * r2 * DIST_SCALE < 0) by (nonlinear_arith)
            requires
                r2 > 0,
        ;
        assert(dy > 0 ==> dy * r2 * DIST_SCALE > 0) by (nonlinear_arith)
            requires
                r2 > 0,
        ;
        assert(dy < 0 ==> dy * r2 * DIST_SCALE < 0) by (nonlinear_arith)
            requires
                r2 > 0,
        ;
        assert(dx == 0 ==> dx * r2 * DIST_SCALE == 0) by (nonlinear_arith);
        assert(dy == 0 ==> dy * r2 * DIST_SCALE == 0) by (nonlinear_arith);
        assert(abs(ox) * q >= abs(dx * r2 * DIST_SCALE));
        assert(ox == 0 ==> abs(ox) * q == 0) by (nonlinear_arith);
        assert(oy == 0 ==> abs(oy) * q == 0) by (nonlinear_arith);
        assert(ox == 0 ==> dx == 0);
        assert(oy == 0 ==> dy == 0);
        lemma_halve_outward(cx, ox);
        lemma_halve_outward(cy, oy);
        let wx = 2 * away_div(cx + ox, 2) - cx;
        let wy = 2 * away_div(cy + oy, 2) - cy;
        let (a, b) = (abs(ox), abs(oy));
        let (aa, bb) = (abs(wx), abs(wy));
        assert(a * a + b * b == norm_sq(ox, oy) && aa * aa + bb * bb == norm_sq(wx, wy)) by (nonlinear_arith)
            requires
                a == abs(ox),
                b == abs(oy),
                aa == abs(wx),
                bb == abs(wy),
        ;
        assert(a * a + b * b <= aa * aa + bb * bb <= (a + 1) * (a + 1) + (b + 1) * (b + 1)) by (nonlinear_arith)
            requires
                0 <= a <= aa <= a + 1,
                0 <= b <= bb <= b + 1,
        ;
        assert((a + 1) * (a + 1) + (b + 1) * (b + 1) < 4 * ((radius + 3) * (radius + 3))) by (nonlinear_arith)
            requires
                a >= 0,
                b >= 0,
                a * a + b * b < (r2 + 3) * (r2 + 3),
                r2 == 2 * radius,
                radius >= 1,
        ;
        assert(r2 * r2 == 4 * (radius * radius)) by (nonlinear_arith)
            requires
                r2 == 2 * radius,
        ;
    }
}

/// For a square turned by any rotation: a circle whose centre, taken into
/// the square's frame at `(x, t)`, lies beyond the square's first face within
/// the face's extent, and which reaches into the square, is pushed out
/// straight along that face's normal (see `lemma_face_contact_touches`),
/// taken back to the world, and that face is reported.
pub proof fn lemma_oriented_face_contact_touches(
    center: Vec2,
    size: int,
    rot: Rotation,
    radius: int,
    x: int,
    t: int,
    ball: Vec2,
)
    requires
        0 <= size,
        0 < radius,
        0 < 2 * x - size < 2 * radius,
        -size <= 2 * t <= size,
        unrotate_x(rot, ball.x - center.x, ball.y - center.y) == x,
        unrotate_y(rot, ball.x - center.x, ball.y - center.y) == t,
    ensures
        ({
            let w = (size + 2 * radius + 1) / 2;
            oriented_contact(ball, radius, center, size, rot) == (
                true,
                0usize,
                center.x + rotate_x(rot, w, t),
                center.y + rotate_y(rot, w, t),
            )
        }),
{
    lemma_face_contact_touches(size, radius, x, t);
}

/// `r` turns by a multiple of a quarter turn, which the fixed-point
/// cosine and sine hold exactly.
pub open spec fn quarter_turn(r: Rotation) -> bool {
    ||| r.cos == ROTATION_ONE && r.sin == 0
    ||| r.cos == 0 && r.sin == ROTATION_ONE
    ||| r.cos == -ROTATION_ONE && r.sin == 0
    ||| r.cos == 0 && r.sin == -ROTATION_ONE
}

/// For a square turned by a quarter turn: a circle whose centre lies beyond
/// the square's first face, within the face's extent, and which reaches into
/// the square, is pushed out straight along that face's normal, as in
/// `lemma_face_contact_touches`, exactly in world coordinates.
pub proof fn lemma_turned_face_contact_touches(
    center: Vec2,
    size: int,
    rot: Rotation,
    radius: int,
    x: int,
    t: int,
    ball: Vec2,
)
    requires
        0 <= size,
        quarter_turn(rot),
        0 < radius,
        0 < 2 * x - size < 2 * radius,
        -size <= 2 * t <= size,
        ball.x == center.x + rotate_x(rot, x, t),
        ball.y == center.y + rotate_y(rot, x, t),
    ensures
        ({
            let w = (size + 2 * radius + 1) / 2;
            oriented_contact(ball, radius, center, size, rot) == (
                true,
                0usize,
                center.x + rotate_x(rot, w, t),
                center.y + rotate_y(rot, w, t),
            )
        }),
{
    reveal(turn_of);
    let dx = ball.x - center.x;
    let dy = ball.y - center.y;
    let one = ROTATION_ONE as int;
    let (c, sn) = (rot.cos as int, rot.sin as int);
    assert(c * x + (-sn) * t == one * (c / one) * x - one * (sn / one) * t
        && sn * x + c * t == one * (sn / one) * x + one * (c / one) * t
        && (c / one) * (c / one) + (sn / one) * (sn / one) == 1
        && c == one * (c / one) && sn == one * (sn / one)) by (nonlinear_arith)
        requires
            c == one && sn == 0 || c == 0 && sn == one || c == -one && sn == 0 || c == 0 && sn == -one,
            one == 0x1_0000,
    ;
    let (ci, si) = (c / one, sn / one);
    assert(trunc_div(one * (ci * x - si * t), one) == ci * x - si * t);
    assert(trunc_div(one * (si * x + ci * t), one) == si * x + ci * t);
    assert(one * ci * x - one * si * t == one * (ci * x - si * t)) by (nonlinear_arith);
    assert(one * si * x + one * ci * t == one * (si * x + ci * t)) by (nonlinear_arith);
    assert(dx == ci * x - si * t);
    assert(dy == si * x + ci * t);
    assert(c * dx + sn * dy == one * x && c * dy + (-sn) * dx == one * t) by (nonlinear_arith)
        requires
            c == one * ci,
            sn == one * si,
            ci * ci + si * si == 1,
            dx == ci * x - si * t,
            dy == si * x + ci * t,
    ;
    assert(trunc_div(one * x, one) == x);
    assert(trunc_div(one * t, one) == t);
    lemma_oriented_face_contact_touches(center, size, rot, radius, x, t, ball);
}

} // verus!
