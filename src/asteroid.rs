use vstd::prelude::*;
use crate::components::{Asteroid, AsteroidSize, Body, Dimensions, Point, Role, Wrapper};
use crate::random::{draw_coin, draw_range};

verus! {

/// Each velocity component of a new asteroid lies in `[-ASTEROID_SPEED, ASTEROID_SPEED)`.
pub const ASTEROID_SPEED: i64 = 100;
/// Spin of every asteroid, in milliradians per second.
pub const ASTEROID_SPIN: i64 = 400;
/// Number of fragments that a destroyed asteroid bursts into, unless it was Small.
pub const FRAGMENTS: u64 = 4;

pub open spec fn next_size_spec(s: AsteroidSize) -> AsteroidSize {
    match s {
        AsteroidSize::Large => AsteroidSize::Medium,
        AsteroidSize::Medium => AsteroidSize::Small,
        AsteroidSize::Small => AsteroidSize::Dead,
        AsteroidSize::Dead => AsteroidSize::Dead,
    }
}

pub open spec fn size_dimension(s: AsteroidSize) -> u32 {
    match s {
        AsteroidSize::Large => 80,
        AsteroidSize::Medium => 60,
        AsteroidSize::Small => 20,
        AsteroidSize::Dead => 0,
    }
}

pub open spec fn fragment_count_spec(s: AsteroidSize) -> nat {
    if next_size_spec(s) == AsteroidSize::Dead { 0 } else { FRAGMENTS as nat }
}

impl AsteroidSize {
    /// The size one step down the chain `Large -> Medium -> Small -> Dead`.
    pub fn next(self) -> (r: AsteroidSize)
        ensures
            r == next_size_spec(self),
    {
        match self {
            AsteroidSize::Large => AsteroidSize::Medium,
            AsteroidSize::Medium => AsteroidSize::Small,
            AsteroidSize::Small => AsteroidSize::Dead,
            AsteroidSize::Dead => AsteroidSize::Dead,
        }
    }

    /// Bounding size of an asteroid: 80, 60 and 20 for Large, Medium and Small.
    pub fn dimension(self) -> (r: u32)
        ensures
            r == size_dimension(self),
    {
        match self {
            AsteroidSize::Large => 80,
            AsteroidSize::Medium => 60,
            AsteroidSize::Small => 20,
            AsteroidSize::Dead => 0,
        }
    }

    /// How many asteroids replace one of this size when it is shot:
    /// four of the next size, or none when the next size is `Dead`.
    pub fn fragment_count(self) -> (r: u64)
        ensures
            r == fragment_count_spec(self),
    {
        if self.next() == AsteroidSize::Dead {
            0
        } else {
            FRAGMENTS
        }
    }
}

/// A coordinate in the off-screen ring where waves appear.
pub open spec fn in_spawn_band(c: i64) -> bool {
    (-1000 <= c < -100) || (100 <= c < 1000)
}

pub open spec fn speed_in_range(v: Point) -> bool {
    -ASTEROID_SPEED <= v.x < ASTEROID_SPEED && -ASTEROID_SPEED <= v.y < ASTEROID_SPEED
}

/// The random part of a new asteroid: its velocity, and the off-screen
/// position it takes when no position is given.
#[derive(Debug, Clone, Copy, PartialEq, Eq, Structural)]
pub struct AsteroidDraw {
    pub velocity: Point,
    pub position: Point,
}

impl AsteroidDraw {
    pub open spec fn valid(self) -> bool {
        speed_in_range(self.velocity) && in_spawn_band(self.position.x) && in_spawn_band(self.position.y)
    }
}

/// What a newly spawned asteroid of `size` looks like: placed at `at`, or in
/// the off-screen ring when `at` is `None`, with a velocity in range.
pub open spec fn spawned_asteroid(b: Body, size: AsteroidSize, at: Option<Point>) -> bool {
    &&& b.role == Role::Asteroid(Asteroid(size))
    &&& speed_in_range(b.velocity)
    &&& b.spin == ASTEROID_SPIN
    &&& b.dimensions == (Dimensions { width: size_dimension(size), height: size_dimension(size) })
    &&& b.wrapper == Some(Wrapper)
    &&& match at {
        Some(p) => b.position == p,
        None => in_spawn_band(b.position.x) && in_spawn_band(b.position.y),
    }
}

fn draw_band(rng: &mut rand::rngs::ThreadRng) -> (r: i64)
    ensures
        in_spawn_band(r),
{
    if draw_coin(rng) {
        draw_range(rng, -1000, -100)
    } else {
        draw_range(rng, 100, 1000)
    }
}

/// Draws a velocity with both components in range and a position with each
/// axis in one of the two off-screen bands, each band with even odds.
pub fn draw_asteroid(rng: &mut rand::rngs::ThreadRng) -> (r: AsteroidDraw)
    ensures
        r.valid(),
{
    let vx = draw_range(rng, -ASTEROID_SPEED, ASTEROID_SPEED);
    let vy = draw_range(rng, -ASTEROID_SPEED, ASTEROID_SPEED);
    let x = draw_band(rng);
    let y = draw_band(rng);
    AsteroidDraw { velocity: Point { x: vx, y: vy }, position: Point { x, y } }
}

/// Builds an asteroid body from a draw: at `position` when given, else at
/// the drawn off-screen position.
pub fn asteroid_body(entity: u64, size: AsteroidSize, position: Option<Point>, draw: AsteroidDraw) -> (r: Body)
    ensures
        r.entity == entity,
        r.role == Role::Asteroid(Asteroid(size)),
        r.velocity == draw.velocity,
        r.position == (match position {
            Some(p) => p,
            None => draw.position,
        }),
        r.spin == ASTEROID_SPIN,
        r.dimensions == (Dimensions { width: size_dimension(size), height: size_dimension(size) }),
        r.wrapper == Some(Wrapper),
        draw.valid() ==> spawned_asteroid(r, size, position),
{
    let dimension = size.dimension();
    let pos = match position {
        Some(p) => p,
        None => draw.position,
    };
    Body {
        entity,
        role: Role::Asteroid(Asteroid(size)),
        position: pos,
        velocity: draw.velocity,
        spin: ASTEROID_SPIN,
        dimensions: Dimensions { width: dimension, height: dimension },
        wrapper: Some(Wrapper),
    }
}

/// Fragmenting: an asteroid of a live size is replaced by four of the next
/// size when that size is not `Dead`, and by none otherwise.
pub proof fn lemma_fragment_count(s: AsteroidSize)
    requires
        s != AsteroidSize::Dead,
    ensures
        next_size_spec(s) != AsteroidSize::Dead ==> fragment_count_spec(s) == 4,
        next_size_spec(s) == AsteroidSize::Dead ==> fragment_count_spec(s) == 0,
        s == AsteroidSize::Small <==> fragment_count_spec(s) == 0,
{
}

} // verus!
