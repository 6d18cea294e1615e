//! A 2D physics sandbox core: circular bodies that move, attract each other,
//! bounce off the viewport walls, collide with each other and with square
//! obstacles.
//!
//! All quantities are integers in units that the caller picks (a length unit
//! and a time step). Ratios such as restitution and damping are given as a
//! numerator over a denominator.

pub mod arith;
pub mod body;
pub mod color;
pub mod config;
pub mod contact;
pub mod mesh;
pub mod spawn;
pub mod square;
pub mod vector;
pub mod wall;
pub mod world;

pub use body::BallObject;
pub use color::Color;
pub use config::{PhysicsConfig, Ratio};
pub use contact::resolve_ball_ball;
pub use mesh::circle_fan_indices;
pub use spawn::random_balls;
pub use square::{check_ball_rect_oriented, check_ball_square_collision, check_ball_square_touching};
pub use square::{reflect_velocity, Rotation, SquareObject, ROTATION_ONE};
pub use vector::Vec2;
pub use wall::{check_wall_collision, WallCollision};
pub use world::{simulation_step, step_is_ready};
