use ball_physics::{check_ball_rect_oriented, check_ball_square_collision, check_ball_square_touching};
use ball_physics::{check_wall_collision, random_balls, reflect_velocity, resolve_ball_ball};
use ball_physics::{simulation_step, step_is_ready};
use ball_physics::{BallObject, Color, PhysicsConfig, Ratio, Rotation, SquareObject, Vec2, ROTATION_ONE};

fn ball(x: i64, y: i64, vx: i64, vy: i64, radius: i64, mass: i64) -> BallObject {
    BallObject::new(Vec2::new(x, y), Vec2::new(vx, vy), radius, Color::new(255, 255, 255, 255), mass)
}

fn config(width: i64, height: i64) -> PhysicsConfig {
    PhysicsConfig { width, height, ..PhysicsConfig::default() }
}

fn dist_sq(a: &BallObject, b: &BallObject) -> i64 {
    let dx = b.position.x - a.position.x;
    let dy = b.position.y - a.position.y;
    dx * dx + dy * dy
}

#[test]
fn color_new_keeps_channels() {
    let c = Color::new(1, 2, 3, 4);
    assert_eq!((c.r, c.g, c.b, c.a), (1, 2, 3, 4));
}

#[test]
fn default_config_values() {
    let c = PhysicsConfig::default();
    assert_eq!((c.width, c.height, c.gravity, c.gravity_cutoff), (800, 600, 100, 1));
    assert_eq!(c.damping, Ratio::new(85, 100));
    assert_eq!(c.restitution, Ratio::new(1, 1));
}

#[test]
fn update_moves_by_velocity_times_dt() {
    let mut b = ball(3, -4, 7, -2, 1, 1);
    b.update(5);
    assert_eq!(b.position, Vec2::new(38, -14));
    assert_eq!(b.velocity, Vec2::new(7, -2));
}

#[test]
fn wall_flags_each_edge() {
    let w = check_wall_collision(Vec2::new(5, 300), 10, 800, 600);
    assert!(w.left && !w.right && !w.top && !w.bottom);
    let w = check_wall_collision(Vec2::new(795, 300), 10, 800, 600);
    assert!(!w.left && w.right && !w.top && !w.bottom);
    let w = check_wall_collision(Vec2::new(400, 595), 10, 800, 600);
    assert!(!w.left && !w.right && w.top && !w.bottom);
    let w = check_wall_collision(Vec2::new(400, 5), 10, 800, 600);
    assert!(!w.left && !w.right && !w.top && w.bottom);
}

#[test]
fn wall_flags_corner_and_tangent() {
    let w = check_wall_collision(Vec2::new(5, 5), 10, 800, 600);
    assert!(w.left && w.bottom && !w.right && !w.top);
    let w = check_wall_collision(Vec2::new(10, 590), 10, 800, 600);
    assert!(!w.left && !w.right && !w.top && !w.bottom);
}

#[test]
fn falling_ball_bounces_off_floor() {
    // A ball at (0, 10) with radius 10 falling at 50 per unit of time, in
    // tenths of a unit.
    let cfg = config(8000, 6000);
    let mut b = ball(0, 100, 0, -500, 100, 1);
    b.update(1);
    assert_eq!(b.position, Vec2::new(0, -400));
    let w = check_wall_collision(b.position, b.radius, cfg.width, cfg.height);
    assert!(w.bottom && !w.top);
    assert!(w.left);
    b.resolve_walls(&cfg);
    assert_eq!(b.position.y, 100);
    assert_eq!(b.velocity.y, 425);
    assert_eq!(b.position.x, 100);
    assert_eq!(b.velocity.x, 0);
}

#[test]
fn walls_keep_ball_inside() {
    let cfg = config(800, 600);
    let mut b = ball(900, -50, 30, -40, 20, 1);
    b.resolve_walls(&cfg);
    assert_eq!(b.position, Vec2::new(780, 20));
    assert_eq!(b.velocity, Vec2::new(-25, 34));
}

#[test]
fn gravity_pulls_toward_other() {
    let cfg = PhysicsConfig::default();
    let mut a = ball(0, 0, 0, 0, 1, 1);
    let b = ball(10, 0, 0, 0, 1, 10);
    a.gravity_update(&b, 1, &cfg);
    // 100 * 10 / 10^2 = 10 along +x.
    assert_eq!(a.velocity, Vec2::new(10, 0));
}

#[test]
fn gravity_skipped_when_too_close() {
    let cfg = PhysicsConfig { gravity_cutoff: 10, ..PhysicsConfig::default() };
    let mut a = ball(0, 0, 3, 4, 1, 1);
    let b = ball(5, 5, 0, 0, 1, 10);
    let before = a;
    a.gravity_update(&b, 1, &cfg);
    assert_eq!(a, before);
    let mut c = ball(0, 0, 3, 4, 1, 1);
    let d = ball(0, 0, 0, 0, 1, 10);
    c.gravity_update(&d, 1, &PhysicsConfig::default());
    assert_eq!(c, before);
}

#[test]
fn equal_masses_collide_head_on() {
    // Masses 1 and 1 at (0, 0) and (5, 0), radii 3, velocities (1, 0) and
    // (-1, 0), in tenths of a unit.
    let cfg = PhysicsConfig::default();
    let mut a = ball(0, 0, 10, 0, 30, 1);
    let mut b = ball(50, 0, -10, 0, 30, 1);
    resolve_ball_ball(&mut a, &mut b, &cfg);
    assert_eq!(a.position, Vec2::new(-5, 0));
    assert_eq!(b.position, Vec2::new(55, 0));
    assert_eq!(a.velocity, Vec2::new(-7, 0));
    assert_eq!(b.velocity, Vec2::new(7, 0));
}

#[test]
fn undamped_equal_masses_swap_velocities() {
    let cfg = PhysicsConfig { damping: Ratio::new(1, 1), ..PhysicsConfig::default() };
    let mut a = ball(0, 0, 10, 0, 30, 1);
    let mut b = ball(50, 0, -10, 0, 30, 1);
    resolve_ball_ball(&mut a, &mut b, &cfg);
    assert_eq!(a.velocity, Vec2::new(-10, 0));
    assert_eq!(b.velocity, Vec2::new(10, 0));
}

#[test]
fn collision_keeps_momentum() {
    let cfg = PhysicsConfig { damping: Ratio::new(1, 1), ..PhysicsConfig::default() };
    let mut a = ball(0, 0, 40, 13, 30, 3);
    let mut b = ball(40, 20, -25, 7, 20, 5);
    let before = (3 * a.velocity.x + 5 * b.velocity.x, 3 * a.velocity.y + 5 * b.velocity.y);
    resolve_ball_ball(&mut a, &mut b, &cfg);
    let after = (3 * a.velocity.x + 5 * b.velocity.x, 3 * a.velocity.y + 5 * b.velocity.y);
    assert_eq!(before, after);
    assert_ne!(a.velocity, Vec2::new(40, 13));
}

#[test]
fn collision_separates_and_heavier_moves_less() {
    let cfg = PhysicsConfig::default();
    let mut a = ball(0, 0, 0, 0, 30, 1);
    let mut b = ball(21, 17, 0, 0, 25, 4);
    resolve_ball_ball(&mut a, &mut b, &cfg);
    assert!(dist_sq(&a, &b) >= 55 * 55);
    let moved_a = (a.position.x.abs(), a.position.y.abs());
    let moved_b = ((b.position.x - 21).abs(), (b.position.y - 17).abs());
    assert!(moved_b.0 <= moved_a.0 && moved_b.1 <= moved_a.1);
    assert!((moved_a.0 - 4 * moved_b.0).abs() < 5 && (moved_a.1 - 4 * moved_b.1).abs() < 5);
    assert!(moved_a.0 > 0);
}

#[test]
fn separating_bodies_are_pushed_but_keep_velocity() {
    let cfg = PhysicsConfig::default();
    let mut a = ball(0, 0, -5, 0, 30, 1);
    let mut b = ball(50, 0, 5, 0, 30, 1);
    resolve_ball_ball(&mut a, &mut b, &cfg);
    assert_eq!(a.position, Vec2::new(-5, 0));
    assert_eq!(b.position, Vec2::new(55, 0));
    assert_eq!(a.velocity, Vec2::new(-5, 0));
    assert_eq!(b.velocity, Vec2::new(5, 0));
}

#[test]
fn coincident_or_apart_bodies_are_left_alone() {
    let cfg = PhysicsConfig::default();
    let mut a = ball(10, 10, 1, 0, 30, 1);
    let mut b = ball(10, 10, -1, 0, 30, 1);
    resolve_ball_ball(&mut a, &mut b, &cfg);
    assert_eq!((a.position, b.position), (Vec2::new(10, 10), Vec2::new(10, 10)));
    let mut c = ball(0, 0, 1, 0, 30, 1);
    let mut d = ball(60, 0, -1, 0, 30, 1);
    resolve_ball_ball(&mut c, &mut d, &cfg);
    assert_eq!((c.position, d.position), (Vec2::new(0, 0), Vec2::new(60, 0)));
    assert_eq!((c.velocity, d.velocity), (Vec2::new(1, 0), Vec2::new(-1, 0)));
}

#[test]
fn square_contact_on_right_face() {
    let (hit, side, pos) = check_ball_square_collision(Vec2::new(260, 300), 20, Vec2::new(200, 300), 100);
    assert!(hit);
    assert_eq!(side, 0);
    assert_eq!(pos, Vec2::new(270, 300));
    assert!(check_ball_square_touching(Vec2::new(260, 300), 20, Vec2::new(200, 300), 100));
}

#[test]
fn square_contact_on_each_face() {
    let c = Vec2::new(0, 0);
    assert_eq!(check_ball_square_collision(Vec2::new(5, 55), 10, c, 100), (true, 1, Vec2::new(5, 60)));
    assert_eq!(check_ball_square_collision(Vec2::new(-52, -7), 10, c, 100), (true, 2, Vec2::new(-60, -7)));
    assert_eq!(check_ball_square_collision(Vec2::new(0, -51), 10, c, 100), (true, 3, Vec2::new(0, -60)));
}

#[test]
fn square_corner_contact() {
    let (hit, side, pos) = check_ball_square_collision(Vec2::new(53, 54), 10, Vec2::new(0, 0), 100);
    assert!(hit);
    assert_eq!(side, 1);
    // Distance 5 from the corner (50, 50), pushed out to 10 along (3, 4).
    assert_eq!(pos, Vec2::new(56, 58));
}

#[test]
fn square_miss_and_inside() {
    let (hit, _, pos) = check_ball_square_collision(Vec2::new(80, 0), 20, Vec2::new(0, 0), 100);
    assert!(!hit);
    assert_eq!(pos, Vec2::new(80, 0));
    assert!(!check_ball_square_touching(Vec2::new(80, 0), 20, Vec2::new(0, 0), 100));
    let (hit, side, pos) = check_ball_square_collision(Vec2::new(10, 10), 20, Vec2::new(0, 0), 100);
    assert!(hit);
    assert_eq!(side, 3);
    assert_eq!(pos, Vec2::new(30, 10));
}

#[test]
fn rotated_square_contact() {
    let quarter = Rotation { cos: 0, sin: ROTATION_ONE };
    let (hit, side, pos) = check_ball_rect_oriented(Vec2::new(0, 60), 20, Vec2::new(0, 0), 100, quarter);
    assert!(hit);
    assert_eq!(side, 0);
    assert_eq!(pos, Vec2::new(0, 70));
    let square = SquareObject { rotation: quarter, ..SquareObject::new(Vec2::new(0, 0), 100, Color::new(0, 0, 0, 255)) };
    assert_eq!(square.get_normal_relative_to(0), Vec2::new(0, ROTATION_ONE));
    let (hit, _, pos) = check_ball_rect_oriented(Vec2::new(0, 90), 20, Vec2::new(0, 0), 100, quarter);
    assert!(!hit);
    assert_eq!(pos, Vec2::new(0, 90));
}

#[test]
fn identity_rotation_matches_axis_aligned() {
    let id = Rotation::identity();
    let a = check_ball_rect_oriented(Vec2::new(53, 54), 10, Vec2::new(0, 0), 100, id);
    let b = check_ball_square_collision(Vec2::new(53, 54), 10, Vec2::new(0, 0), 100);
    assert_eq!(a, b);
}

#[test]
fn reflect_off_face() {
    let v = reflect_velocity(Vec2::new(30, -100), Vec2::new(0, ROTATION_ONE));
    assert_eq!(v, Vec2::new(30, 100));
    let v = reflect_velocity(Vec2::new(30, -100), Vec2::new(-ROTATION_ONE, 0));
    assert_eq!(v, Vec2::new(-30, -100));
}

#[test]
fn step_runs_phases_in_order() {
    let cfg = PhysicsConfig { gravity: 0, ..PhysicsConfig::default() };
    let mut bodies = vec![ball(400, 15, 0, -10, 10, 1), ball(100, 300, 0, 0, 10, 1), ball(115, 300, 0, 0, 10, 1)];
    let obstacles: Vec<SquareObject> = Vec::new();
    assert!(step_is_ready(&bodies, &obstacles, &cfg, 1));
    simulation_step(&mut bodies, &obstacles, &cfg, 1);
    // The first ball hit the floor: put back at its radius, velocity bounced.
    assert_eq!(bodies[0].position, Vec2::new(400, 10));
    assert_eq!(bodies[0].velocity, Vec2::new(0, 8));
    // The other two overlapped by 5 and were pushed apart.
    assert_eq!(bodies[1].position, Vec2::new(97, 300));
    assert_eq!(bodies[2].position, Vec2::new(118, 300));
}

#[test]
fn step_bounces_off_obstacle() {
    let cfg = PhysicsConfig { gravity: 0, ..PhysicsConfig::default() };
    let mut bodies = vec![ball(255, 300, -10, 0, 10, 1)];
    let obstacles = vec![SquareObject::new(Vec2::new(200, 300), 80, Color::new(0, 0, 0, 255))];
    simulation_step(&mut bodies, &obstacles, &cfg, 1);
    assert_eq!(bodies[0].position, Vec2::new(250, 300));
    assert_eq!(bodies[0].velocity, Vec2::new(10, 0));
}

#[test]
fn step_applies_gravity_only_to_gravitating_bodies() {
    let cfg = PhysicsConfig { width: 1000, height: 1000, ..PhysicsConfig::default() };
    let mut a = ball(500, 500, 0, 0, 1, 1);
    a.has_collision = false;
    let mut b = ball(510, 500, 0, 0, 1, 10);
    b.has_gravity = false;
    b.has_collision = false;
    let mut bodies = vec![a, b];
    simulation_step(&mut bodies, &Vec::new(), &cfg, 1);
    assert_eq!(bodies[0].velocity, Vec2::new(10, 0));
    assert_eq!(bodies[1].velocity, Vec2::new(0, 0));
}

#[test]
fn step_readiness_is_checked() {
    let bad = PhysicsConfig { width: 0, ..PhysicsConfig::default() };
    assert!(!step_is_ready(&Vec::new(), &Vec::new(), &bad, 1));
    let cfg = PhysicsConfig::default();
    assert!(!step_is_ready(&Vec::new(), &Vec::new(), &cfg, -1));
    assert!(!step_is_ready(&vec![ball(0, 0, 0, 0, 0, 1)], &Vec::new(), &cfg, 1));
    assert!(step_is_ready(&vec![ball(0, 0, 0, 0, 5, 1)], &Vec::new(), &cfg, 1));
}

#[test]
fn random_balls_are_in_ranges() {
    let mut v = vec![ball(1, 2, 3, 4, 5, 6)];
    random_balls(&mut v, 20, 2, 3);
    assert_eq!(v.len(), 21);
    assert_eq!(v[0], ball(1, 2, 3, 4, 5, 6));
    for b in &v[1..] {
        assert!(0 <= b.position.x && b.position.x <= 800);
        assert!(0 <= b.position.y && b.position.y <= 600);
        assert!(450 <= b.velocity.x && b.velocity.x <= 2250);
        assert!(600 <= b.velocity.y && b.velocity.y <= 3000);
        assert!(b.has_collision && b.has_gravity && b.mass == 1);
        assert!(2 <= b.radius && b.radius <= 20);
    }
    // Twenty draws that all land on the lower end of their range would mean
    // the draws are not random.
    assert!(v[1..].iter().any(|b| b.radius != 2 || b.position.x != 0 || b.velocity.x != 450));
    random_balls(&mut v, -3, 2, 3);
    assert_eq!(v.len(), 21);
}

#[test]
fn ball_on_right_face_is_pushed_to_touch() {
    let (hit, side, pos) = check_ball_square_collision(Vec2::new(250, 300), 20, Vec2::new(200, 300), 100);
    assert!(hit);
    assert_eq!(side, 3);
    assert_eq!(pos, Vec2::new(270, 300));
}

#[test]
fn step_readiness_limits() {
    let cfg = PhysicsConfig::default();
    let many = vec![ball(0, 0, 0, 0, 5, 1); 5000];
    assert!(step_is_ready(&many, &Vec::new(), &cfg, 1));
    assert!(!step_is_ready(&many, &Vec::new(), &cfg, 257));
    let zero_turn = SquareObject { rotation: Rotation { cos: 0, sin: 0 }, ..SquareObject::new(Vec2::new(0, 0), 10, Color::new(0, 0, 0, 255)) };
    assert!(!step_is_ready(&many, &vec![zero_turn], &cfg, 1));
    assert!(Rotation::identity().is_wf() && !zero_turn.rotation.is_wf());
    let fast = vec![ball(0, 0, 1 << 40, 0, 5, 1)];
    assert!(step_is_ready(&fast, &Vec::new(), &cfg, 1));
    assert!(step_is_ready(&vec![ball(0, 0, 1 << 40, 0, 5, 1)], &Vec::new(), &cfg, 256));
    assert!(!step_is_ready(&vec![ball(1, 0, 1 << 40, 0, 5, 1)], &Vec::new(), &cfg, 256));
    let too_fast = vec![ball(0, 0, (1 << 40) + 1, 0, 5, 1)];
    assert!(!step_is_ready(&too_fast, &Vec::new(), &cfg, 1));
}

#[test]
fn gravity_at_short_range_follows_inverse_square() {
    let cfg = PhysicsConfig::default();
    let mut a = ball(0, 0, 0, 0, 1, 1);
    let b = ball(1, 1, 0, 0, 1, 1);
    a.gravity_update(&b, 1, &cfg);
    // 100 / 2 along the diagonal: 35.36 on each axis.
    assert_eq!(a.velocity, Vec2::new(35, 35));
}

#[test]
fn square_corner_push_at_short_range() {
    let (hit, side, pos) = check_ball_square_collision(Vec2::new(51, 51), 10, Vec2::new(0, 0), 100);
    assert!(hit);
    assert_eq!(side, 1);
    let (dx, dy) = (pos.x - 50, pos.y - 50);
    assert!(dx == dy);
    assert!(100 <= dx * dx + dy * dy && dx * dx + dy * dy < 13 * 13);
    assert_eq!(pos, Vec2::new(58, 58));
}

#[test]
fn collision_at_short_range_ends_near_touching() {
    let cfg = PhysicsConfig::default();
    let mut a = ball(0, 0, 0, 0, 5, 1);
    let mut b = ball(1, 1, 0, 0, 5, 1);
    resolve_ball_ball(&mut a, &mut b, &cfg);
    let d2 = dist_sq(&a, &b);
    assert!(100 <= d2 && d2 < 15 * 15);
    assert_eq!((a.position, b.position), (Vec2::new(-4, -4), Vec2::new(5, 5)));
}

#[test]
fn odd_square_side_keeps_its_half_unit() {
    // The right face of a side-101 square lies at 50.5.
    assert!(check_ball_square_touching(Vec2::new(60, 0), 10, Vec2::new(0, 0), 101));
    assert!(!check_ball_square_touching(Vec2::new(61, 0), 10, Vec2::new(0, 0), 101));
    assert!(check_ball_square_touching(Vec2::new(60, 0), 10, Vec2::new(0, 0), 100) == false);
    let (hit, side, pos) = check_ball_square_collision(Vec2::new(55, 0), 10, Vec2::new(0, 0), 101);
    assert!(hit);
    assert_eq!(side, 0);
    assert_eq!(pos, Vec2::new(61, 0));
}
