use vstd::prelude::*;
use crate::vector::Vec2;

verus! {

/// Which viewport edges a circle crosses. A circle may cross two edges at
/// once, near a corner.
#[derive(Debug, Clone, Copy, PartialEq, Eq, Structural)]
pub struct WallCollision {
    pub left: bool,
    pub right: bool,
    pub top: bool,
    pub bottom: bool,
}

/// The edges of a `width` by `height` viewport, with its origin at the
/// bottom left, that a circle at `pos` with radius `radius` crosses. A circle
/// that only touches an edge does not cross it.
pub open spec fn wall_flags(pos: Vec2, radius: int, width: int, height: int) -> WallCollision {
    WallCollision {
        left: pos.x - radius < 0,
        right: pos.x + radius > width,
        top: pos.y + radius > height,
        bottom: pos.y - radius < 0,
    }
}

pub fn check_wall_collision(
    ball_pos: Vec2,
    ball_radius: i64,
    screen_width: i64,
    screen_height: i64,
) -> (c: WallCollision)
    ensures
        c == wall_flags(ball_pos, ball_radius as int, screen_width as int, screen_height as int),
{
    let x = ball_pos.x as i128;
    let y = ball_pos.y as i128;
    let r = ball_radius as i128;
    let mut collision = WallCollision { left: false, right: false, top: false, bottom: false };
    if x - r < 0 {
        collision.left = true;
    }
    if x + r > screen_width as i128 {
        collision.right = true;
    }
    if y - r < 0 {
        collision.bottom = true;
    }
    if y + r > screen_height as i128 {
        collision.top = true;
    }
    collision
}

} // verus!
