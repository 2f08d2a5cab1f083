use vstd::prelude::*;

verus! {

/// The two modes of the game.
#[derive(Debug, Clone, Copy, PartialEq, Eq, Hash, Structural)]
pub enum GameState {
    Playing,
    GameOver,
}

/// Size classes of an asteroid: `Large -> Medium -> Small -> Dead`.
/// `Dead` marks a fully destroyed asteroid and is never a live body.
#[derive(Debug, Clone, Copy, PartialEq, Eq, Hash, Structural)]
pub enum AsteroidSize {
    Large,
    Medium,
    Small,
    Dead,
}

/// Marker of the "press start" prompt shown while the game is over.
#[derive(Debug, Clone, Copy, PartialEq, Eq, Structural)]
pub struct Instructions;

/// Marker of the player's ship.
#[derive(Debug, Clone, Copy, PartialEq, Eq, Structural)]
pub struct Ship;

/// Marker of a projectile.
#[derive(Debug, Clone, Copy, PartialEq, Eq, Structural)]
pub struct Laser;

/// An asteroid body, tagged with its size.
#[derive(Debug, Clone, Copy, PartialEq, Eq, Structural)]
pub struct Asteroid(pub AsteroidSize);

/// Marker of any body that wraps around the edges of the screen.
#[derive(Debug, Clone, Copy, PartialEq, Eq, Structural)]
pub struct Wrapper;

/// Width and height of a body, in world units.
#[derive(Debug, Clone, Copy, PartialEq, Eq, Structural)]
pub struct Dimensions {
    pub width: u32,
    pub height: u32,
}

/// A position or a velocity in the plane, in whole world units
/// (velocities in world units per second).
#[derive(Debug, Clone, Copy, PartialEq, Eq, Structural)]
pub struct Point {
    pub x: i64,
    pub y: i64,
}

} // verus!

verus! {

/// What a body is, by the tag it carries.
#[derive(Debug, Clone, Copy, PartialEq, Eq, Structural)]
pub enum Role {
    Ship(Ship),
    Laser(Laser),
    Asteroid(Asteroid),
    Instructions(Instructions),
}

/// One entity of the game world: a handle, a role and the shared fields.
/// Spin is in milliradians per second.
#[derive(Debug, Clone, Copy, PartialEq, Eq, Structural)]
pub struct Body {
    pub entity: u64,
    pub role: Role,
    pub position: Point,
    pub velocity: Point,
    pub spin: i64,
    pub dimensions: Dimensions,
    pub wrapper: Option<Wrapper>,
}

} // verus!
