use vstd::prelude::*;
use crate::arith::abs;
use crate::body::BallObject;
use crate::config::{PhysicsConfig, Ratio, BODIES_MAX, DT_MAX, GRAVITY_MAX, MASS_MAX, POS_MAX};
use crate::config::{RADIUS_MAX, RATIO_DEN_MAX, SPEED_MAX, VIEW_MAX};
use crate::contact::{resolve_ball_ball, resolved_pair};
use crate::square::{check_ball_rect_oriented, dot, face_normal, oriented_contact, reflect, reflect_velocity};
use crate::square::SquareObject;

verus! {

/// The body can move for `dt` without leaving the range of positions.
pub open spec fn can_integrate(b: BallObject, dt: int) -> bool {
    &&& abs(b.position.x + b.velocity.x * dt) <= POS_MAX
    &&& abs(b.position.y + b.velocity.y * dt) <= POS_MAX
}

/// Every body moved for `dt`.
pub open spec fn integrate_all(s: Seq<BallObject>, dt: int) -> Seq<BallObject> {
    Seq::new(s.len(), |i: int| s[i].integrated(dt))
}

/// Every body bounced off the viewport walls.
pub open spec fn walls_all(s: Seq<BallObject>, config: PhysicsConfig) -> Seq<BallObject> {
    Seq::new(
        s.len(),
        |i: int| s[i].walls_resolved(config.width as int, config.height as int, config.damping),
    )
}

/// Body `i` after the gravity of bodies `0..j`, other than itself, acted on
/// it in turn.
pub open spec fn gravity_from(s: Seq<BallObject>, i: int, j: nat, config: PhysicsConfig, dt: int) -> BallObject
    decreases j,
{
    if j == 0 {
        s[i]
    } else {
        let b = gravity_from(s, i, (j - 1) as nat, config, dt);
        if j - 1 != i {
            b.pulled_by(s[j - 1], config.gravity as int, config.gravity_cutoff as int, dt)
        } else {
            b
        }
    }
}

/// Every body that feels gravity pulled by every other body.
pub open spec fn gravity_all(s: Seq<BallObject>, config: PhysicsConfig, dt: int) -> Seq<BallObject> {
    Seq::new(
        s.len(),
        |i: int|
            if s[i].has_gravity {
                gravity_from(s, i, s.len(), config, dt)
            } else {
                s[i]
            },
    )
}

/// The bodies after the pair `(i, j)` is resolved, when both collide.
pub open spec fn pair_step(s: Seq<BallObject>, i: int, j: int, config: PhysicsConfig) -> Seq<BallObject> {
    if s[i].has_collision && s[j].has_collision {
        let (a, b) = resolved_pair(s[i], s[j], config);
        s.update(i, a).update(j, b)
    } else {
        s
    }
}

/// The bodies after the pairs `(i, i + 1), ..., (i, j - 1)` are resolved in
/// turn.
pub open spec fn collide_row(s: Seq<BallObject>, i: nat, j: nat, config: PhysicsConfig) -> Seq<BallObject>
    decreases j,
{
    if j <= i + 1 {
        s
    } else {
        pair_step(collide_row(s, i, (j - 1) as nat, config), i as int, j - 1, config)
    }
}

/// The bodies after the pairs of rows `0..i` are resolved in turn.
pub open spec fn collide_rows(s: Seq<BallObject>, i: nat, config: PhysicsConfig) -> Seq<BallObject>
    decreases i,
{
    if i == 0 {
        s
    } else {
        let p = collide_rows(s, (i - 1) as nat, config);
        collide_row(p, (i - 1) as nat, p.len(), config)
    }
}

/// Every pair `i < j` of bodies resolved once, in index order.
pub open spec fn collide_all(s: Seq<BallObject>, config: PhysicsConfig) -> Seq<BallObject> {
    collide_rows(s, s.len(), config)
}

/// The body after bouncing off the first of the obstacles `k..` that it
/// reaches into: it is pushed out and its velocity mirrored off the face.
pub open spec fn bounce_first(b: BallObject, obs: Seq<SquareObject>, k: nat) -> BallObject
    decreases obs.len() - k,
{
    if k >= obs.len() {
        b
    } else {
        let o = obs[k as int];
        let c = oriented_contact(b.position, b.radius as int, o.position, o.size as int, o.rotation);
        if c.0 {
            let n = face_normal(o.rotation, c.1);
            let vn = dot(b.velocity.x as int, b.velocity.y as int, n.0, n.1);
            b.with_position(c.2, c.3).with_velocity(
                reflect(b.velocity.x as int, vn, n.0),
                reflect(b.velocity.y as int, vn, n.1),
            )
        } else {
            bounce_first(b, obs, k + 1)
        }
    }
}

/// Every body bounced off the first obstacle it reaches into.
pub open spec fn obstacles_all(s: Seq<BallObject>, obs: Seq<SquareObject>) -> Seq<BallObject> {
    Seq::new(s.len(), |i: int| bounce_first(s[i], obs, 0))
}

/// The bodies after one frame: moved, bounced off the walls, pulled by
/// gravity, resolved pairwise and bounced off the obstacles, in that order.
pub open spec fn frame(s: Seq<BallObject>, obs: Seq<SquareObject>, config: PhysicsConfig, dt: int) -> Seq<BallObject> {
    obstacles_all(
        collide_all(gravity_all(walls_all(integrate_all(s, dt), config), config, dt), config),
        obs,
    )
}

pub open spec fn all_wf(s: Seq<BallObject>) -> bool {
    forall|k: int| 0 <= k < s.len() ==> #[trigger] s[k].wf()
}

pub open spec fn all_in_range(s: Seq<BallObject>) -> bool {
    forall|k: int| 0 <= k < s.len() ==> #[trigger] s[k].in_range()
}

/// Moves every body for `delta_time`.
pub fn integrate_bodies(bodies: &mut Vec<BallObject>, delta_time: i64)
    requires
        0 <= delta_time <= DT_MAX,
        all_wf(old(bodies)@),
        forall|k: int| 0 <= k < old(bodies)@.len() ==> can_integrate(#[trigger] old(bodies)@[k], delta_time as int),
    ensures
        final(bodies)@ == integrate_all(old(bodies)@, delta_time as int),
        all_wf(final(bodies)@),
{
    let n = bodies.len();
    let ghost s = bodies@;
    let mut i: usize = 0;
    while i < n
        invariant
            0 <= i <= n,
            n == bodies.len(),
            s.len() == n,
            0 <= delta_time <= DT_MAX,
            all_wf(s),
            forall|k: int| 0 <= k < n ==> can_integrate(#[trigger] s[k], delta_time as int),
            forall|k: int| 0 <= k < i ==> bodies@[k] == #[trigger] s[k].integrated(delta_time as int),
            forall|k: int| i <= k < n ==> bodies@[k] == #[trigger] s[k],
        decreases n - i,
    {
        let mut b = bodies[i];
        assert(s[i as int].wf() && can_integrate(s[i as int], delta_time as int));
        b.update(delta_time);
        bodies.set(i, b);
        i += 1;
    }
    assert(bodies@ =~= integrate_all(s, delta_time as int));
    assert forall|k: int| 0 <= k < n implies #[trigger] bodies@[k].wf() by {
        assert(bodies@[k] == s[k].integrated(delta_time as int));
        assert(s[k].wf());
    }
}



/// Bounces every body off the viewport walls.
pub fn resolve_wall_collisions(bodies: &mut Vec<BallObject>, config: &PhysicsConfig)
    requires
        config.wf(),
        all_wf(old(bodies)@),
    ensures
        final(bodies)@ == walls_all(old(bodies)@, *config),
        all_wf(final(bodies)@),
        forall|k: int| 0 <= k < final(bodies)@.len() ==> abs(#[trigger] final(bodies)@[k].position.x as int) <= VIEW_MAX
            && abs(final(bodies)@[k].position.y as int) <= VIEW_MAX,
{
    let n = bodies.len();
    let ghost s = bodies@;
    let mut i: usize = 0;
    while i < n
        invariant
            0 <= i <= n,
            n == bodies.len(),
            s.len() == n,
            config.wf(),
            all_wf(s),
            forall|k: int| 0 <= k < i ==> bodies@[k] == #[trigger] s[k].walls_resolved(
                config.width as int,
                config.height as int,
                config.damping,
            ),
            forall|k: int| 0 <= k < i ==> (#[trigger] bodies@[k]).wf() && abs(bodies@[k].position.x as int) <= VIEW_MAX
                && abs(bodies@[k].position.y as int) <= VIEW_MAX,
            forall|k: int| i <= k < n ==> bodies@[k] == #[trigger] s[k],
        decreases n - i,
    {
        let mut b = bodies[i];
        assert(s[i as int].wf());
        b.resolve_walls(config);
        bodies.set(i, b);
        i += 1;
    }
    assert(bodies@ =~= walls_all(s, *config));
}

/// Applies to every body that feels gravity the pull of every other body.
pub fn apply_gravity(bodies: &mut Vec<BallObject>, config: &PhysicsConfig, delta_time: i64)
    requires
        config.wf(),
        0 <= delta_time <= DT_MAX,
        all_wf(old(bodies)@),
        all_in_range(old(bodies)@),
    ensures
        final(bodies)@ == gravity_all(old(bodies)@, *config, delta_time as int),
        all_wf(final(bodies)@),
        forall|k: int| 0 <= k < final(bodies)@.len() ==> (#[trigger] final(bodies)@[k]).position
            == old(bodies)@[k].position,
{
    let n = bodies.len();
    let ghost s = bodies@;
    let mut i: usize = 0;
    while i < n
        invariant
            0 <= i <= n,
            n == bodies.len(),
            s.len() == n,
            config.wf(),
            0 <= delta_time <= DT_MAX,
            all_wf(s),
            all_in_range(s),
            all_wf(bodies@),
            forall|k: int| 0 <= k < n ==> (#[trigger] bodies@[k]).position == s[k].position
                && bodies@[k].mass == s[k].mass,
            forall|k: int| 0 <= k < i ==> bodies@[k] == #[trigger] gravity_all(s, *config, delta_time as int)[k],
            forall|k: int| i <= k < n ==> bodies@[k] == #[trigger] s[k],
        decreases n - i,
    {
        let mut b = bodies[i];
        if b.has_gravity {
            let mut j: usize = 0;
            while j < n
                invariant
                    0 <= i < n,
                    0 <= j <= n,
                    n == bodies.len(),
                    s.len() == n,
                    config.wf(),
                    0 <= delta_time <= DT_MAX,
                    all_wf(s),
                    all_in_range(s),
                    all_wf(bodies@),
                    forall|k: int| 0 <= k < n ==> (#[trigger] bodies@[k]).position == s[k].position
                        && bodies@[k].mass == s[k].mass,
                    b == gravity_from(s, i as int, j as nat, *config, delta_time as int),
                    b.wf(),
                    b.position == s[i as int].position,
                    b.mass == s[i as int].mass,
                    b.has_gravity == s[i as int].has_gravity,
                decreases n - j,
            {
                if j != i {
                    let other = bodies[j];
                    assert(s[j as int].in_range() && s[i as int].in_range());
                    b.gravity_update(&other, delta_time, config);
                }
                j += 1;
            }
        }
        bodies.set(i, b);
        i += 1;
    }
    assert(bodies@ =~= gravity_all(s, *config, delta_time as int));
}

/// Every position lies within `VIEW_MAX` plus `2 * RADIUS_MAX` times `done`.
pub open spec fn drift_bounded(s: Seq<BallObject>, done: int) -> bool {
    forall|k: int| 0 <= k < s.len() ==> abs((#[trigger] s[k]).position.x as int) <= VIEW_MAX + 2
        * RADIUS_MAX * done && abs(s[k].position.y as int) <= VIEW_MAX + 2 * RADIUS_MAX * done
}

/// Resolves every pair `i < j` of bodies that both collide, once, in index
/// order.
pub fn resolve_ball_collisions(bodies: &mut Vec<BallObject>, config: &PhysicsConfig)
    requires
        config.wf(),
        old(bodies)@.len() <= BODIES_MAX,
        all_wf(old(bodies)@),
        drift_bounded(old(bodies)@, 0),
    ensures
        final(bodies)@ == collide_all(old(bodies)@, *config),
        all_wf(final(bodies)@),
        all_in_range(final(bodies)@),
{
    let n = bodies.len();
    let ghost s = bodies@;
    // How many collisions each body has taken part in so far: each moves it
    // by at most `2 * RADIUS_MAX`.
    let ghost mut cnt: Seq<int> = Seq::new(n as nat, |k: int| 0int);
    let mut i: usize = 0;
    while i < n
        invariant
            0 <= i <= n,
            n == bodies.len(),
            n <= BODIES_MAX,
            s.len() == n,
            cnt.len() == n,
            config.wf(),
            all_wf(bodies@),
            forall|k: int| 0 <= k < n ==> 0 <= #[trigger] cnt[k] <= if k < i { n - 1 } else { i as int },
            forall|k: int| 0 <= k < n ==> abs((#[trigger] bodies@[k]).position.x as int) <= VIEW_MAX + 2
                * RADIUS_MAX * cnt[k] && abs(bodies@[k].position.y as int) <= VIEW_MAX + 2 * RADIUS_MAX * cnt[k],
            bodies@ == collide_rows(s, i as nat, *config),
        decreases n - i,
    {
        let ghost p = bodies@;
        let mut j: usize = i + 1;
        while j < n
            invariant
                0 <= i < n,
                i + 1 <= j <= n,
                n == bodies.len(),
                n <= BODIES_MAX,
                p.len() == n,
                cnt.len() == n,
                config.wf(),
                all_wf(bodies@),
                forall|k: int| 0 <= k < n ==> 0 <= #[trigger] cnt[k] <= if k < i {
                    n - 1
                } else if k == i {
                    j - 1
                } else if k < j {
                    i + 1
                } else {
                    i as int
                },
                forall|k: int| 0 <= k < n ==> abs((#[trigger] bodies@[k]).position.x as int) <= VIEW_MAX + 2
                    * RADIUS_MAX * cnt[k] && abs(bodies@[k].position.y as int) <= VIEW_MAX + 2 * RADIUS_MAX
                    * cnt[k],
                bodies@ == collide_row(p, i as nat, j as nat, *config),
            decreases n - j,
        {
            let ghost q = bodies@;
            let ghost c0 = cnt;
            let mut a = bodies[i];
            let mut b = bodies[j];
            if a.has_collision && b.has_collision {
                assert(a.wf() && b.wf());
                assert(c0[i as int] <= n && c0[j as int] <= n);
                assert(a.in_range() && b.in_range());
                resolve_ball_ball(&mut a, &mut b, config);
                bodies.set(i, a);
                bodies.set(j, b);
                proof {
                    cnt = c0.update(i as int, c0[i as int] + 1).update(j as int, c0[j as int] + 1);
                    assert forall|k: int| 0 <= k < n implies (#[trigger] bodies@[k]).wf() by {
                        if k != i && k != j {
                            assert(bodies@[k] == q[k]);
                        }
                    }
                    assert forall|k: int| 0 <= k < n implies abs((#[trigger] bodies@[k]).position.x as int)
                        <= VIEW_MAX + 2 * RADIUS_MAX * cnt[k] && abs(bodies@[k].position.y as int) <= VIEW_MAX
                        + 2 * RADIUS_MAX * cnt[k] by {
                        assert(abs(q[k].position.x as int) <= VIEW_MAX + 2 * RADIUS_MAX * c0[k]);
                        if k != i && k != j {
                            assert(bodies@[k] == q[k]);
                        }
                    }
                }
            }
            assert(bodies@ == pair_step(q, i as int, j as int, *config));
            j += 1;
        }
        i += 1;
    }
    assert forall|k: int| 0 <= k < n implies (#[trigger] bodies@[k]).in_range() by {
        assert(cnt[k] <= n);
        assert(abs(bodies@[k].position.x as int) <= VIEW_MAX + 2 * RADIUS_MAX * cnt[k]);
    }
}

pub open spec fn all_obstacles_wf(obs: Seq<SquareObject>) -> bool {
    forall|k: int| 0 <= k < obs.len() ==> #[trigger] obs[k].wf()
}

/// Bounces one body off the first obstacle that it reaches into.
pub fn bounce_off_obstacles(ball: &mut BallObject, obstacles: &Vec<SquareObject>)
    requires
        old(ball).wf(),
        old(ball).in_range(),
        all_obstacles_wf(obstacles@),
    ensures
        *final(ball) == bounce_first(*old(ball), obstacles@, 0),
        final(ball).wf(),
{
    let ghost b0 = *ball;
    let m = obstacles.len();
    let mut k: usize = 0;
    let mut hit = false;
    while k < m && !hit
        invariant
            0 <= k <= m,
            m == obstacles@.len(),
            all_obstacles_wf(obstacles@),
            b0.wf(),
            b0.in_range(),
            !hit ==> *ball == b0 && bounce_first(b0, obstacles@, 0) == bounce_first(b0, obstacles@, k as nat),
            hit ==> *ball == bounce_first(b0, obstacles@, 0) && ball.wf(),
        decreases m - k + if hit { 0int } else { 1int },
    {
        let o = obstacles[k];
        assert(obstacles@[k as int].wf());
        let (h, side, pos) = check_ball_rect_oriented(ball.position, ball.radius, o.position, o.size, o.rotation);
        if h {
            let normal = o.get_normal_relative_to(side);
            ball.position = pos;
            ball.velocity = reflect_velocity(ball.velocity, normal);
            hit = true;
        } else {
            k += 1;
        }
    }
}

/// Bounces every body off the first obstacle that it reaches into.
pub fn resolve_obstacle_collisions(bodies: &mut Vec<BallObject>, obstacles: &Vec<SquareObject>)
    requires
        all_wf(old(bodies)@),
        all_in_range(old(bodies)@),
        all_obstacles_wf(obstacles@),
    ensures
        final(bodies)@ == obstacles_all(old(bodies)@, obstacles@),
        all_wf(final(bodies)@),
{
    let n = bodies.len();
    let ghost s = bodies@;
    let mut i: usize = 0;
    while i < n
        invariant
            0 <= i <= n,
            n == bodies.len(),
            s.len() == n,
            all_wf(s),
            all_in_range(s),
            all_obstacles_wf(obstacles@),
            forall|k: int| 0 <= k < i ==> bodies@[k] == #[trigger] bounce_first(s[k], obstacles@, 0),
            all_wf(bodies@),
            forall|k: int| i <= k < n ==> bodies@[k] == #[trigger] s[k],
        decreases n - i,
    {
        let mut b = bodies[i];
        assert(s[i as int].wf() && s[i as int].in_range());
        bounce_off_obstacles(&mut b, obstacles);
        bodies.set(i, b);
        i += 1;
    }
    assert(bodies@ =~= obstacles_all(s, obstacles@));
}

/// The bodies, obstacles and time step meet what `simulation_step` needs.
pub open spec fn step_ready(s: Seq<BallObject>, obs: Seq<SquareObject>, config: PhysicsConfig, dt: int) -> bool {
    &&& config.wf()
    &&& 0 <= dt <= DT_MAX
    &&& s.len() <= BODIES_MAX
    &&& all_wf(s)
    &&& forall|k: int| 0 <= k < s.len() ==> can_integrate(#[trigger] s[k], dt)
    &&& all_obstacles_wf(obs)
}

/// Advances the simulation by one frame of `delta_time`: every body moves,
/// bounces off the walls, is pulled by the others, collides with the others
/// and bounces off the obstacles.
pub fn simulation_step(
    bodies: &mut Vec<BallObject>,
    obstacles: &Vec<SquareObject>,
    config: &PhysicsConfig,
    delta_time: i64,
)
    requires
        step_ready(old(bodies)@, obstacles@, *config, delta_time as int),
    ensures
        final(bodies)@ == frame(old(bodies)@, obstacles@, *config, delta_time as int),
        all_wf(final(bodies)@),
{
    integrate_bodies(bodies, delta_time);
    resolve_wall_collisions(bodies, config);
    assert forall|k: int| 0 <= k < bodies@.len() implies (#[trigger] bodies@[k]).in_range() by {}
    let ghost walled = bodies@;
    apply_gravity(bodies, config, delta_time);
    assert forall|k: int| 0 <= k < bodies@.len() implies abs((#[trigger] bodies@[k]).position.x as int)
        <= VIEW_MAX + 2 * RADIUS_MAX * 0 && abs(bodies@[k].position.y as int) <= VIEW_MAX + 2 * RADIUS_MAX
        * 0 by {
        assert(bodies@[k].position == walled[k].position);
    }
    resolve_ball_collisions(bodies, config);
    resolve_obstacle_collisions(bodies, obstacles);
}

/// Whether `simulation_step` may be called on these values.
pub fn step_is_ready(
    bodies: &Vec<BallObject>,
    obstacles: &Vec<SquareObject>,
    config: &PhysicsConfig,
    delta_time: i64,
) -> (r: bool)
    ensures
        r == step_ready(bodies@, obstacles@, *config, delta_time as int),
{
    let c = config;
    let config_ok = 0 < c.width && c.width <= VIEW_MAX && 0 < c.height && c.height <= VIEW_MAX
        && 0 <= c.gravity && c.gravity <= GRAVITY_MAX && 1 <= c.gravity_cutoff
        && c.gravity_cutoff <= RADIUS_MAX && ratio_ok(c.damping) && ratio_ok(c.restitution);
    if !config_ok || delta_time < 0 || delta_time > DT_MAX || bodies.len() > BODIES_MAX {
        return false;
    }
    let n = bodies.len();
    let mut i: usize = 0;
    while i < n
        invariant
            0 <= i <= n,
            n == bodies@.len(),
            0 <= delta_time <= DT_MAX,
            forall|k: int| 0 <= k < i ==> (#[trigger] bodies@[k]).wf() && can_integrate(bodies@[k], delta_time as int),
        decreases n - i,
    {
        let b = bodies[i];
        if !(0 < b.radius && b.radius <= RADIUS_MAX && 0 <= b.mass && b.mass <= MASS_MAX
            && -SPEED_MAX <= b.velocity.x && b.velocity.x <= SPEED_MAX && -SPEED_MAX <= b.velocity.y
            && b.velocity.y <= SPEED_MAX && (!b.has_collision || b.mass > 0)) {
            assert(!bodies@[i as int].wf());
            return false;
        }
        assert(abs(b.velocity.x * delta_time) <= SPEED_MAX * DT_MAX && abs(b.velocity.y * delta_time)
            <= SPEED_MAX * DT_MAX) by (nonlinear_arith)
            requires
                abs(b.velocity.x as int) <= SPEED_MAX,
                abs(b.velocity.y as int) <= SPEED_MAX,
                0 <= delta_time <= DT_MAX,
        ;
        let x = b.position.x as i128 + b.velocity.x as i128 * delta_time as i128;
        let y = b.position.y as i128 + b.velocity.y as i128 * delta_time as i128;
        if x < -(POS_MAX as i128) || x > POS_MAX as i128 || y < -(POS_MAX as i128) || y > POS_MAX as i128 {
            return false;
        }
        i += 1;
    }
    let m = obstacles.len();
    let mut k: usize = 0;
    while k < m
        invariant
            0 <= k <= m,
            m == obstacles@.len(),
            forall|j: int| 0 <= j < k ==> (#[trigger] obstacles@[j]).wf(),
        decreases m - k,
    {
        let o = obstacles[k];
        if !(0 <= o.size && o.size <= RADIUS_MAX && o.rotation.is_wf() && -POS_MAX <= o.position.x && o.position.x <= POS_MAX
            && -POS_MAX <= o.position.y && o.position.y <= POS_MAX) {
            assert(!obstacles@[k as int].wf());
            return false;
        }
        k += 1;
    }
    true
}

fn ratio_ok(r: Ratio) -> (ok: bool)
    ensures
        ok == r.wf(),
{
    0 <= r.num && r.num <= r.den && 1 <= r.den && r.den <= RATIO_DEN_MAX
}

} // verus!
