use vstd::prelude::*;

verus! {

/// Largest magnitude of a position coordinate that the engine computes with.
pub const POS_MAX: i64 = 0x1_0000_0000_0000;

/// Largest magnitude of a velocity component. Velocity updates from gravity,
/// collisions and obstacle bounces saturate at this speed.
pub const SPEED_MAX: i64 = 0x100_0000_0000;

/// Largest radius of a body, and largest side of an obstacle.
pub const RADIUS_MAX: i64 = 0x100_0000;

/// Largest viewport width or height.
pub const VIEW_MAX: i64 = 0x100_0000_0000;

/// Largest mass of a body.
pub const MASS_MAX: i64 = 0x400;

/// Largest time step.
pub const DT_MAX: i64 = 0x100;

/// Largest gravitational constant.
pub const GRAVITY_MAX: i64 = 0x100_0000_0000;

/// Largest denominator of a ratio.
pub const RATIO_DEN_MAX: i64 = 0x1_0000;

/// Largest number of bodies that one simulation step handles.
pub const BODIES_MAX: usize = 0x40_0000;

/// A ratio `num / den` between 0 and 1, such as a damping factor.
#[derive(Debug, Clone, Copy, PartialEq, Eq, Structural)]
pub struct Ratio {
    pub num: i64,
    pub den: i64,
}

impl Ratio {
    pub open spec fn wf(&self) -> bool {
        0 <= self.num <= self.den && 1 <= self.den <= RATIO_DEN_MAX
    }

    pub fn new(num: i64, den: i64) -> (r: Self)
        ensures
            r.num == num,
            r.den == den,
    {
        Ratio { num, den }
    }
}

/// The constants of the simulation: viewport size, gravitational constant,
/// the distance below which gravity is not applied, the damping of bounces
/// and the restitution of ball-ball collisions.
#[derive(Debug, Clone, Copy, PartialEq, Eq, Structural)]
pub struct PhysicsConfig {
    pub width: i64,
    pub height: i64,
    pub gravity: i64,
    pub gravity_cutoff: i64,
    pub damping: Ratio,
    pub restitution: Ratio,
}

impl PhysicsConfig {
    pub open spec fn wf(&self) -> bool {
        &&& 0 < self.width <= VIEW_MAX
        &&& 0 < self.height <= VIEW_MAX
        &&& 0 <= self.gravity <= GRAVITY_MAX
        &&& 1 <= self.gravity_cutoff <= RADIUS_MAX
        &&& self.damping.wf()
        &&& self.restitution.wf()
    }
}

impl Default for PhysicsConfig {
    /// An 800 by 600 viewport, a gravitational constant of 100, a cutoff of
    /// one unit, damping 0.85 and perfectly elastic collisions.
    fn default() -> (c: Self)
        ensures
            c.width == 800,
            c.height == 600,
            c.gravity == 100,
            c.gravity_cutoff == 1,
            c.damping == (Ratio { num: 85, den: 100 }),
            c.restitution == (Ratio { num: 1, den: 1 }),
            c.wf(),
    {
        PhysicsConfig {
            width: 800,
            height: 600,
            gravity: 100,
            gravity_cutoff: 1,
            damping: Ratio { num: 85, den: 100 },
            restitution: Ratio { num: 1, den: 1 },
        }
    }
}

} // verus!
