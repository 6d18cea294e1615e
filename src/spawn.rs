use vstd::prelude::*;
use crate::body::BallObject;
use crate::color::Color;
use crate::vector::Vec2;

verus! {

/// Relies on `rand::random_range` over an inclusive range of `i64`: it
/// returns a value of the range. It panics when the range is empty, and also,
/// whatever the range, when the thread's generator cannot get its seed from
/// the operating system's random source.
#[verifier::external_body]
fn random_between(lo: i64, hi: i64) -> (r: i64)
    requires
        lo <= hi,
    ensures
        lo <= r <= hi,
{
    rand::random_range(lo..=hi)
}

/// A body that `random_balls` may spawn with `length` and `speed` as the
/// units of length and of speed: inside the 400 by 300 lower left corner,
/// moving up and right, with a radius of one to ten units, unit mass,
/// colliding and feeling gravity.
pub open spec fn spawned(b: BallObject, length: int, speed: int) -> bool {
    &&& 0 <= b.position.x <= 400 * length
    &&& 0 <= b.position.y <= 300 * length
    &&& 150 * speed <= b.velocity.x <= 750 * speed
    &&& 200 * speed <= b.velocity.y <= 1000 * speed
    &&& length <= b.radius <= 10 * length
    &&& b.mass == 1
    &&& b.has_collision
    &&& b.has_gravity
}

/// Appends `count` bodies with random position, velocity, radius and colour
/// (none when `count` is not positive).
pub fn random_balls(array: &mut Vec<BallObject>, count: i32, length: i64, speed: i64)
    requires
        1 <= length <= 0x10_0000,
        1 <= speed <= 0x1_0000,
    ensures
        final(array)@.len() == old(array)@.len() + if count > 0 { count as int } else { 0 },
        forall|k: int| 0 <= k < old(array)@.len() ==> final(array)@[k] == old(array)@[k],
        forall|k: int| old(array)@.len() <= k < final(array)@.len() ==> spawned(#[trigger] final(array)@[k], length as int, speed as int)
            && final(array)@[k].wf(),
{
    let ghost start = array@;
    let mut i: i32 = 0;
    while i < count
        invariant
            0 <= i,
            count > 0 ==> i <= count,
            count <= 0 ==> i == 0,
            1 <= length <= 0x10_0000,
            1 <= speed <= 0x1_0000,
            array@.len() == start.len() + i,
            forall|k: int| 0 <= k < start.len() ==> array@[k] == start[k],
            forall|k: int| start.len() <= k < array@.len() ==> spawned(#[trigger] array@[k], length as int, speed as int)
                && array@[k].wf(),
        decreases count - i,
    {
        let size = random_between(length, 10 * length);
        let velox = random_between(150 * speed, 750 * speed);
        let veloy = random_between(200 * speed, 1000 * speed);
        let posx = random_between(0, 400 * length);
        let posy = random_between(0, 300 * length);
        let r = random_between(0, 255) as u8;
        let g = random_between(0, 255) as u8;
        let b = random_between(0, 255) as u8;
        let ball = BallObject::new(
            Vec2::new(posx, posy),
            Vec2::new(velox, veloy),
            size,
            Color::new(r, g, b, 255),
            1,
        );
        array.push(ball);
        i += 1;
    }
}

} // verus!
