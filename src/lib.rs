//! Gameplay rules of an Asteroids-style arcade game: asteroid population,
//! projectiles with a fire cooldown, collision outcomes, toroidal screen
//! wrapping and the two-state game controller. Rendering, input polling and
//! rigid-body physics are left to the host, which feeds positions and
//! collision events in and carries spawn/despawn results out.
pub mod asteroid;
pub mod components;
pub mod geometry;
pub mod random;
pub mod resources;
pub mod world;

pub use asteroid::{asteroid_body, draw_asteroid, AsteroidDraw, ASTEROID_SPEED, ASTEROID_SPIN, FRAGMENTS};
pub use components::{
    Asteroid, AsteroidSize, Body, Dimensions, GameState, Instructions, Laser, Point, Role, Ship,
    Wrapper,
};
pub use geometry::{laser_out_of_bounds, sat_add, wrap_axis, wrap_position};
pub use resources::{FireTimer, Level, Stopwatch, FIRE_COOLDOWN_MICROS};
pub use world::{
    contains_handle, Cull, World, LASER_HEIGHT, LASER_WIDTH, SHIP_HEIGHT, SHIP_WIDTH,
};
