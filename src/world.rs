use vstd::prelude::*;
use crate::asteroid::{
    asteroid_body, draw_asteroid, fragment_count_spec, next_size_spec, spawned_asteroid, FRAGMENTS,
};
use crate::components::{
    Asteroid, AsteroidSize, Body, Dimensions, GameState, Instructions, Laser, Point, Role, Ship,
    Wrapper,
};
use crate::geometry::{clamp_i64, laser_out_of_bounds, laser_out_of_bounds_spec, sat_add, wrap_position, wrap_position_spec};
use crate::resources::{FireTimer, Level};

verus! {

/// Which bodies a removal takes away.
#[derive(Debug, Clone, Copy, PartialEq, Eq, Structural)]
pub enum Cull {
    /// The bodies with this handle.
    Entity(u64),
    /// The bodies with either handle.
    Pair(u64, u64),
    Asteroids,
    Ships,
    Instructions,
    /// Asteroids and projectiles.
    Field,
}

pub open spec fn is_asteroid(b: Body) -> bool {
    b.role is Asteroid
}

pub open spec fn is_laser(b: Body) -> bool {
    b.role is Laser
}

pub open spec fn is_ship(b: Body) -> bool {
    b.role is Ship
}

pub open spec fn culls(c: Cull, b: Body) -> bool {
    match c {
        Cull::Entity(e) => b.entity == e,
        Cull::Pair(e1, e2) => b.entity == e1 || b.entity == e2,
        Cull::Asteroids => is_asteroid(b),
        Cull::Ships => is_ship(b),
        Cull::Instructions => b.role is Instructions,
        Cull::Field => is_asteroid(b) || is_laser(b),
    }
}

pub open spec fn kept(s: Seq<Body>, c: Cull) -> Seq<Body> {
    s.filter(|b: Body| !culls(c, b))
}

pub open spec fn ship_count(s: Seq<Body>) -> nat {
    s.filter(|b: Body| is_ship(b)).len()
}

pub open spec fn asteroid_count(s: Seq<Body>) -> nat {
    s.filter(|b: Body| is_asteroid(b)).len()
}

/// A live body is never a `Dead` asteroid.
pub open spec fn not_dead(b: Body) -> bool {
    b.role != Role::Asteroid(Asteroid(AsteroidSize::Dead))
}

pub open spec fn all_live(s: Seq<Body>) -> bool {
    forall|i: int| 0 <= i < s.len() ==> not_dead(#[trigger] s[i])
}

/// Removing bodies keeps every remaining one live.
pub proof fn lemma_filter_live(s: Seq<Body>, p: spec_fn(Body) -> bool)
    requires
        all_live(s),
    ensures
        all_live(s.filter(p)),
{
    assert forall|i: int| 0 <= i < s.filter(p).len() implies not_dead(#[trigger] s.filter(p)[i]) by {
        let x = s.filter(p)[i];
        assert(s.filter(p).contains(x));
        s.lemma_filter_contains_rev(p, x);
        let j = choose|j: int| 0 <= j < s.len() && s[j] == x;
        assert(not_dead(s[j]));
    }
}

/// Each body has its own handle, and every handle is below `next`, the
/// next one to be handed out.
pub open spec fn handles_ok(s: Seq<Body>, next: u64) -> bool {
    &&& forall|i: int| 0 <= i < s.len() ==> (#[trigger] s[i]).entity < next
    &&& forall|i: int, j: int| 0 <= i < j < s.len() ==> (#[trigger] s[i]).entity != (#[trigger] s[j]).entity
}

/// Some body of `s` has handle `e`.
pub open spec fn handle_in(s: Seq<Body>, e: u64) -> bool {
    exists|j: int| 0 <= j < s.len() && (#[trigger] s[j]).entity == e
}

/// Every body of `after` either was in `before`'s handles or has a handle
/// at or above `next`: no handle below `next` comes back.
pub open spec fn no_reused_handles(before: Seq<Body>, after: Seq<Body>, next: u64) -> bool {
    forall|i: int| 0 <= i < after.len() && (#[trigger] after[i]).entity < next ==> handle_in(before, after[i].entity)
}

/// Removing bodies keeps the handles distinct and below the counter.
pub proof fn lemma_filter_handles(s: Seq<Body>, p: spec_fn(Body) -> bool, next: u64)
    requires
        handles_ok(s, next),
    ensures
        handles_ok(s.filter(p), next),
    decreases s.len(),
{
    reveal(Seq::filter);
    if s.len() > 0 {
        let r = s.drop_last();
        assert(handles_ok(r, next));
        lemma_filter_handles(r, p, next);
        let f = r.filter(p);
        assert forall|i: int| 0 <= i < f.len() implies (#[trigger] f[i]).entity != s.last().entity by {
            assert(f.contains(f[i]));
            r.lemma_filter_contains_rev(p, f[i]);
            let j = choose|j: int| 0 <= j < r.len() && r[j] == f[i];
            assert(s[j] == r[j]);
        }
        if p(s.last()) {
            let g = f.push(s.last());
            assert forall|i: int, j: int| 0 <= i < j < g.len() implies (#[trigger] g[i]).entity != (#[trigger] g[j]).entity by {
                if j == f.len() {
                    assert(g[i] == f[i]);
                } else {
                    assert(g[i] == f[i] && g[j] == f[j]);
                }
            }
            assert(s.filter(p) == g);
        }
    }
}

/// Adding a body with the counter's handle, then moving the counter on,
/// keeps the handles distinct and below the counter.
pub proof fn lemma_push_fresh(s: Seq<Body>, next: u64, b: Body)
    requires
        handles_ok(s, next),
        b.entity == next,
        next < u64::MAX,
    ensures
        handles_ok(s.push(b), (next + 1) as u64),
{
    let g = s.push(b);
    assert forall|i: int, j: int| 0 <= i < j < g.len() implies (#[trigger] g[i]).entity != (#[trigger] g[j]).entity by {
        assert(g[i] == s[i]);
    }
    assert forall|i: int| 0 <= i < g.len() implies (#[trigger] g[i]).entity < next + 1 by {
        if i < s.len() {
            assert(g[i] == s[i]);
        }
    }
}

fn culls_exec(c: Cull, b: &Body) -> (r: bool)
    ensures
        r == culls(c, *b),
{
    match c {
        Cull::Entity(e) => b.entity == e,
        Cull::Pair(e1, e2) => b.entity == e1 || b.entity == e2,
        Cull::Asteroids => matches!(b.role, Role::Asteroid(_)),
        Cull::Ships => matches!(b.role, Role::Ship(_)),
        Cull::Instructions => matches!(b.role, Role::Instructions(_)),
        Cull::Field => matches!(b.role, Role::Asteroid(_)) || matches!(b.role, Role::Laser(_)),
    }
}

/// The game world: every live body, the handle counter, and the shared
/// level, game state and fire timer.
pub struct World {
    pub bodies: Vec<Body>,
    pub next_entity: u64,
    pub level: Level,
    pub state: GameState,
    pub fire_timer: FireTimer,
}

impl World {
    /// No live asteroid has the `Dead` size, every body has its own handle,
    /// and every handle is below `next_entity`.
    pub open spec fn wf(self) -> bool {
        all_live(self.bodies@) && handles_ok(self.bodies@, self.next_entity)
    }

    /// The handle counter can hand out `k` more handles without wrapping.
    pub open spec fn has_room(self, k: int) -> bool {
        self.next_entity + k <= u64::MAX
    }

    /// Everything but the bodies and the handle counter is unchanged.
    pub open spec fn same_resources(self, other: World) -> bool {
        self.level == other.level && self.state == other.state && self.fire_timer == other.fire_timer
    }

    /// An empty world at level 1, in the game-over state, with a fresh fire timer.
    pub fn new() -> (r: World)
        ensures
            r.bodies@.len() == 0,
            r.next_entity == 0,
            r.level.0 == 1,
            r.state == GameState::GameOver,
            r.fire_timer == FireTimer::default_spec(),
            r.wf(),
    {
        World {
            bodies: Vec::new(),
            next_entity: 0,
            level: Level::default(),
            state: GameState::GameOver,
            fire_timer: FireTimer::default(),
        }
    }

    /// Removes every body that `c` names; the others keep their order.
    pub fn cull(&mut self, c: Cull)
        ensures
            final(self).bodies@ == kept(old(self).bodies@, c),
            final(self).next_entity == old(self).next_entity,
            final(self).same_resources(*old(self)),
            old(self).wf() ==> final(self).wf(),
    {
        let ghost s = self.bodies@;
        let ghost pred = |b: Body| !culls(c, b);
        let mut out: Vec<Body> = Vec::new();
        let mut i: usize = 0;
        while i < self.bodies.len()
            invariant
                s == self.bodies@,
                0 <= i <= s.len(),
                pred == (|b: Body| !culls(c, b)),
                out@ == s.take(i as int).filter(pred),
            decreases s.len() - i,
        {
            let b = self.bodies[i];
            proof {
                assert(s.take(i + 1) == s.take(i as int).push(s[i as int]));
                s.take(i as int).lemma_filter_push(s[i as int], pred);
            }
            if !culls_exec(c, &b) {
                out.push(b);
            }
            i += 1;
        }
        proof {
            assert(s.take(s.len() as int) == s);
            if all_live(s) {
                lemma_filter_live(s, pred);
            }
            if handles_ok(s, self.next_entity) {
                lemma_filter_handles(s, pred, self.next_entity);
            }
        }
        self.bodies = out;
    }

    /// Takes a fresh handle: the counter's value, which then moves on by one
    /// (wrapping after `u64::MAX`).
    fn fresh_entity(&mut self) -> (r: u64)
        ensures
            r == old(self).next_entity,
            final(self).next_entity == old(self).next_entity.wrapping_add(1),
            final(self).bodies@ == old(self).bodies@,
            final(self).same_resources(*old(self)),
    {
        let e = self.next_entity;
        self.next_entity = self.next_entity.wrapping_add(1);
        e
    }

    /// Number of live asteroids.
    pub fn count_asteroids(&self) -> (r: usize)
        ensures
            r == asteroid_count(self.bodies@),
    {
        let ghost s = self.bodies@;
        let ghost pred = |b: Body| is_asteroid(b);
        let mut n: usize = 0;
        let mut i: usize = 0;
        while i < self.bodies.len()
            invariant
                s == self.bodies@,
                0 <= i <= s.len(),
                pred == (|b: Body| is_asteroid(b)),
                n == s.take(i as int).filter(pred).len(),
                n <= i,
            decreases s.len() - i,
        {
            proof {
                assert(s.take(i + 1) == s.take(i as int).push(s[i as int]));
                s.take(i as int).lemma_filter_push(s[i as int], pred);
            }
            if matches!(self.bodies[i].role, Role::Asteroid(_)) {
                n += 1;
            }
            i += 1;
        }
        proof {
            assert(s.take(s.len() as int) == s);
        }
        n
    }

    /// Spawns one asteroid of `size` at `position`, or in the off-screen
    /// ring when no position is given, with a random velocity.
    pub fn create_asteroid(&mut self, rng: &mut rand::rngs::ThreadRng, size: AsteroidSize, position: Option<Point>)
        requires
            size != AsteroidSize::Dead,
        ensures
            final(self).bodies@.len() == old(self).bodies@.len() + 1,
            final(self).bodies@.drop_last() == old(self).bodies@,
            final(self).bodies@.last().entity == old(self).next_entity,
            spawned_asteroid(final(self).bodies@.last(), size, position),
            final(self).next_entity == old(self).next_entity.wrapping_add(1),
            final(self).same_resources(*old(self)),
            old(self).wf() && old(self).has_room(1) ==> final(self).wf(),
    {
        let draw = draw_asteroid(rng);
        let e = self.fresh_entity();
        let b = asteroid_body(e, size, position, draw);
        self.bodies.push(b);
        proof {
            assert(self.bodies@.drop_last() == old(self).bodies@);
            if old(self).wf() && old(self).has_room(1) {
                lemma_push_fresh(old(self).bodies@, old(self).next_entity, b);
            }
        }
    }

    /// Spawns `count` asteroids of `size`, all at `at` when given, else each
    /// in the off-screen ring; the bodies present before stay first.
    pub fn spawn_burst(&mut self, rng: &mut rand::rngs::ThreadRng, size: AsteroidSize, at: Option<Point>, count: u64)
        requires
            size != AsteroidSize::Dead,
        ensures
            final(self).bodies@.len() == old(self).bodies@.len() + count,
            final(self).bodies@.take(old(self).bodies@.len() as int) == old(self).bodies@,
            forall|k: int|
                old(self).bodies@.len() <= k < final(self).bodies@.len()
                    ==> spawned_asteroid(#[trigger] final(self).bodies@[k], size, at),
            final(self).same_resources(*old(self)),
            old(self).wf() && old(self).has_room(count as int) ==> final(self).wf() && final(self).next_entity == old(self).next_entity + count,
            old(self).has_room(count as int) ==> forall|k: int|
                old(self).bodies@.len() <= k < final(self).bodies@.len()
                    ==> (#[trigger] final(self).bodies@[k]).entity >= old(self).next_entity,
    {
        let ghost s0 = self.bodies@;
        let mut i: u64 = 0;
        while i < count
            invariant
                self.bodies@.len() == s0.len() + i,
                self.bodies@.take(s0.len() as int) == s0,
                forall|k: int| s0.len() <= k < self.bodies@.len() ==> spawned_asteroid(#[trigger] self.bodies@[k], size, at),
                self.same_resources(*old(self)),
                old(self).wf() && old(self).has_room(count as int) ==> self.wf() && self.next_entity == old(self).next_entity + i,
                old(self).has_room(count as int) ==> self.next_entity == old(self).next_entity + i && forall|k: int|
                    s0.len() <= k < self.bodies@.len() ==> (#[trigger] self.bodies@[k]).entity >= old(self).next_entity,
                size != AsteroidSize::Dead,
                i <= count,
            decreases count - i,
        {
            let ghost before = self.bodies@;
            self.create_asteroid(rng, size, at);
            proof {
                assert(self.bodies@ == before.push(self.bodies@.last()));
                assert(self.bodies@.take(s0.len() as int) == before.take(s0.len() as int));
            }
            i += 1;
        }
    }

    /// Spawns the wave of the current level: `level + 1` Large asteroids in
    /// the off-screen ring.
    pub fn spawn_asteroids(&mut self, rng: &mut rand::rngs::ThreadRng)
        ensures
            final(self).bodies@.len() == old(self).bodies@.len() + old(self).level.wave_size(),
            final(self).bodies@.take(old(self).bodies@.len() as int) == old(self).bodies@,
            forall|k: int|
                old(self).bodies@.len() <= k < final(self).bodies@.len()
                    ==> spawned_asteroid(#[trigger] final(self).bodies@[k], AsteroidSize::Large, None),
            final(self).same_resources(*old(self)),
            old(self).wf() && old(self).has_room(old(self).level.wave_size() as int) ==> final(self).wf() && final(self).next_entity == old(self).next_entity + old(self).level.wave_size(),
            old(self).has_room(old(self).level.wave_size() as int) ==> forall|k: int|
                old(self).bodies@.len() <= k < final(self).bodies@.len()
                    ==> (#[trigger] final(self).bodies@[k]).entity >= old(self).next_entity,
    {
        let count = self.level.wave_count();
        self.spawn_burst(rng, AsteroidSize::Large, None, count);
    }

    /// Shoots the asteroid at index `ai` with projectile `laser`: both are
    /// removed; four fragments of the next size appear at the asteroid's
    /// position, or, when it was Small and no asteroid is left, the level
    /// goes up and the next wave is spawned.
    pub fn destroy_asteroid(&mut self, rng: &mut rand::rngs::ThreadRng, laser: u64, ai: usize)
        requires
            ai < old(self).bodies@.len(),
            is_asteroid(old(self).bodies@[ai as int]),
        ensures
            shot_outcome(*old(self), laser, old(self).bodies@[ai as int], *final(self)),
            old(self).wf() && old(self).has_room(WAVE_ROOM as int) ==> final(self).wf() && old(self).next_entity <= final(self).next_entity <= old(self).next_entity + WAVE_ROOM,
            old(self).wf() && old(self).has_room(WAVE_ROOM as int) ==> forall|i: int|
                0 <= i < final(self).bodies@.len() ==> (#[trigger] final(self).bodies@[i]).entity != old(self).bodies@[ai as int].entity
                    && (laser < old(self).next_entity ==> final(self).bodies@[i].entity != laser),
            old(self).has_room(WAVE_ROOM as int) ==> no_reused_handles(old(self).bodies@, final(self).bodies@, old(self).next_entity),
            final(self).level.0 >= old(self).level.0,
    {
        let a = self.bodies[ai];
        let size = match a.role {
            Role::Asteroid(Asteroid(s)) => s,
            _ => AsteroidSize::Dead,
        };
        self.cull(Cull::Pair(laser, a.entity));
        let ghost rest = self.bodies@;
        let next = size.next();
        if next != AsteroidSize::Dead {
            self.spawn_burst(rng, next, Some(a.position), size.fragment_count());
        } else if self.count_asteroids() == 0 {
            self.level.0 = self.level.0.saturating_add(1);
            self.spawn_asteroids(rng);
        }
        proof {
            assert(self.bodies@.take(rest.len() as int) == rest);
            let added = self.bodies@.skip(rest.len() as int);
            assert forall|k: int| 0 <= k < added.len() implies added[k] == self.bodies@[rest.len() + k] by {}
            if old(self).has_room(WAVE_ROOM as int) {
                assert forall|i: int| 0 <= i < self.bodies@.len() && (#[trigger] self.bodies@[i]).entity < old(self).next_entity
                    implies handle_in(old(self).bodies@, self.bodies@[i].entity) by {
                    if i < rest.len() {
                        let x = rest[i];
                        assert(self.bodies@[i] == x);
                        assert(rest.contains(x));
                        old(self).bodies@.lemma_filter_contains_rev(|b: Body| !culls(Cull::Pair(laser, a.entity), b), x);
                        let j = choose|j: int| 0 <= j < old(self).bodies@.len() && old(self).bodies@[j] == x;
                        assert(old(self).bodies@[j].entity == x.entity);
                    }
                }
            }
            if old(self).wf() && old(self).has_room(WAVE_ROOM as int) {
                assert(a.entity < old(self).next_entity);
                assert forall|i: int| 0 <= i < self.bodies@.len() implies (#[trigger] self.bodies@[i]).entity != a.entity
                    && (laser < old(self).next_entity ==> self.bodies@[i].entity != laser) by {
                    if i < rest.len() {
                        assert(self.bodies@[i] == rest[i]);
                        old(self).bodies@.lemma_filter_pred(|b: Body| !culls(Cull::Pair(laser, a.entity), b), i);
                    }
                }
            }
        }
    }
}

/// Level after the field is cleared: one more, saturating at `u32::MAX`.
pub open spec fn next_level(l: u32) -> u32 {
    if l < u32::MAX { (l + 1) as u32 } else { l }
}

pub open spec fn asteroid_size_of(b: Body) -> AsteroidSize {
    match b.role {
        Role::Asteroid(Asteroid(s)) => s,
        _ => AsteroidSize::Dead,
    }
}

/// What shooting asteroid body `a` with projectile `laser` does to the world.
pub open spec fn shot_outcome(before: World, laser: u64, a: Body, after: World) -> bool {
    let rest = kept(before.bodies@, Cull::Pair(laser, a.entity));
    let next = next_size_spec(asteroid_size_of(a));
    let added = after.bodies@.skip(rest.len() as int);
    &&& rest.len() <= after.bodies@.len()
    &&& after.bodies@.take(rest.len() as int) == rest
    &&& after.state == before.state
    &&& after.fire_timer == before.fire_timer
    &&& if next != AsteroidSize::Dead {
        &&& after.level == before.level
        &&& added.len() == FRAGMENTS
        &&& forall|k: int| 0 <= k < added.len() ==> spawned_asteroid(#[trigger] added[k], next, Some(a.position))
    } else if asteroid_count(rest) == 0 {
        &&& after.level.0 == next_level(before.level.0)
        &&& added.len() == after.level.wave_size()
        &&& forall|k: int| 0 <= k < added.len() ==> spawned_asteroid(#[trigger] added[k], AsteroidSize::Large, None)
    } else {
        &&& after.level == before.level
        &&& added.len() == 0
    }
}

/// Body `b` has handle `e` and is an asteroid (`asteroid`) or a projectile.
pub open spec fn tagged(b: Body, e: u64, asteroid: bool) -> bool {
    b.entity == e && if asteroid { is_asteroid(b) } else { is_laser(b) }
}

pub open spec fn has_tagged(s: Seq<Body>, e: u64, asteroid: bool) -> bool {
    exists|i: int| 0 <= i < s.len() && #[trigger] tagged(s[i], e, asteroid)
}

/// `i` is the first index of a body tagged as `tagged(_, e, asteroid)`.
pub open spec fn first_tagged(s: Seq<Body>, e: u64, asteroid: bool, i: int) -> bool {
    &&& 0 <= i < s.len()
    &&& tagged(s[i], e, asteroid)
    &&& forall|j: int| 0 <= j < i ==> !#[trigger] tagged(s[j], e, asteroid)
}

/// One collision event `(h1, h2)` against the projectile-asteroid rule.
/// The event hits when one handle is a live asteroid and the other a live
/// projectile that has not yet hit anything this frame (pairing `h1` with
/// the asteroid is tried first); the projectile then joins `processed`.
pub open spec fn laser_event_outcome(
    before: World,
    processed: Seq<u64>,
    h1: u64,
    h2: u64,
    after: World,
    processed_after: Seq<u64>,
    hit: Option<(u64, u64)>,
) -> bool {
    let s = before.bodies@;
    if has_tagged(s, h1, true) && has_tagged(s, h2, false) && !processed.contains(h2) {
        &&& hit == Some((h2, h1))
        &&& processed_after == processed.push(h2)
        &&& exists|i: int| #[trigger] first_tagged(s, h1, true, i) && shot_outcome(before, h2, s[i], after)
    } else if has_tagged(s, h2, true) && has_tagged(s, h1, false) && !processed.contains(h1) {
        &&& hit == Some((h1, h2))
        &&& processed_after == processed.push(h1)
        &&& exists|i: int| #[trigger] first_tagged(s, h2, true, i) && shot_outcome(before, h1, s[i], after)
    } else {
        &&& hit is None
        &&& processed_after == processed
        &&& after.bodies@ == s
        &&& after.next_entity == before.next_entity
        &&& after.same_resources(before)
    }
}

/// The `(projectile, asteroid)` pairs of the events that hit, in order.
pub open spec fn hit_list(outs: Seq<Option<(u64, u64)>>) -> Seq<(u64, u64)>
    decreases outs.len(),
{
    if outs.len() == 0 {
        Seq::empty()
    } else {
        let r = hit_list(outs.drop_last());
        match outs.last() {
            Some(h) => r.push(h),
            None => r,
        }
    }
}

/// `trace` runs the frame's events one after the other from `before` to
/// `after`, with `processed[j]` the projectiles spent before event `j` and
/// `outs[j]` what event `j` destroyed.
pub open spec fn laser_trace(
    before: World,
    events: Seq<(u64, u64)>,
    after: World,
    trace: Seq<World>,
    processed: Seq<Seq<u64>>,
    outs: Seq<Option<(u64, u64)>>,
) -> bool {
    &&& trace.len() == events.len() + 1
    &&& processed.len() == events.len() + 1
    &&& outs.len() == events.len()
    &&& trace[0] == before
    &&& processed[0] == Seq::<u64>::empty()
    &&& trace[events.len() as int] == after
    &&& forall|j: int|
        0 <= j < events.len() ==> #[trigger] laser_event_outcome(
            trace[j],
            processed[j],
            events[j].0,
            events[j].1,
            trace[j + 1],
            processed[j + 1],
            outs[j],
        )
}

/// Whether handle `e` is in `v`.
pub fn contains_handle(v: &Vec<u64>, e: u64) -> (r: bool)
    ensures
        r == v@.contains(e),
{
    let mut i: usize = 0;
    while i < v.len()
        invariant
            0 <= i <= v@.len(),
            forall|j: int| 0 <= j < i ==> v@[j] != e,
        decreases v@.len() - i,
    {
        if v[i] == e {
            return true;
        }
        i += 1;
    }
    false
}

impl World {
    /// Index of the first body with handle `e` that is an asteroid
    /// (`asteroid`) or a projectile.
    pub fn find_tagged(&self, e: u64, asteroid: bool) -> (r: Option<usize>)
        ensures
            match r {
                Some(i) => first_tagged(self.bodies@, e, asteroid, i as int),
                None => !has_tagged(self.bodies@, e, asteroid),
            },
    {
        let mut i: usize = 0;
        while i < self.bodies.len()
            invariant
                0 <= i <= self.bodies@.len(),
                forall|j: int| 0 <= j < i ==> !#[trigger] tagged(self.bodies@[j], e, asteroid),
            decreases self.bodies@.len() - i,
        {
            let b = self.bodies[i];
            let kind_ok = if asteroid {
                matches!(b.role, Role::Asteroid(_))
            } else {
                matches!(b.role, Role::Laser(_))
            };
            if b.entity == e && kind_ok {
                return Some(i);
            }
            i += 1;
        }
        None
    }

    /// Applies one collision event to the projectile-asteroid rule and
    /// returns the `(projectile, asteroid)` handles it destroyed, if any.
    pub fn resolve_laser_event(
        &mut self,
        rng: &mut rand::rngs::ThreadRng,
        processed: &mut Vec<u64>,
        h1: u64,
        h2: u64,
    ) -> (hit: Option<(u64, u64)>)
        ensures
            laser_event_outcome(*old(self), old(processed)@, h1, h2, *final(self), final(processed)@, hit),
            match hit {
                Some(h) => (h == (h2, h1) || h == (h1, h2)) && !old(processed)@.contains(h.0)
                    && final(processed)@ == old(processed)@.push(h.0),
                None => final(processed)@ == old(processed)@,
            },
            old(self).wf() && old(self).has_room(WAVE_ROOM as int) ==> final(self).wf() && old(self).next_entity <= final(self).next_entity <= old(self).next_entity + WAVE_ROOM,
            final(self).level.0 >= old(self).level.0,
            old(self).wf() && old(self).has_room(WAVE_ROOM as int) ==> match hit {
                Some(h) => forall|i: int|
                    0 <= i < final(self).bodies@.len() ==> (#[trigger] final(self).bodies@[i]).entity != h.0
                        && final(self).bodies@[i].entity != h.1,
                None => true,
            },
            final(self).state == old(self).state,
            final(self).fire_timer == old(self).fire_timer,
            old(self).has_room(WAVE_ROOM as int) ==> no_reused_handles(old(self).bodies@, final(self).bodies@, old(self).next_entity),
            match hit {
                Some(h) => handle_in(old(self).bodies@, h.1) && h.1 < old(self).next_entity || !old(self).wf(),
                None => true,
            },
    {
        let ghost s = self.bodies@;
        let ghost w0 = *self;
        let a1 = self.find_tagged(h1, true);
        let l2 = self.find_tagged(h2, false);
        if let (Some(ai), Some(_)) = (a1, l2) {
            if !contains_handle(processed, h2) {
                processed.push(h2);
                self.destroy_asteroid(rng, h2, ai);
                proof {
                    assert(tagged(s[ai as int], h1, true));
                    assert(first_tagged(s, h1, true, ai as int));
                    if w0.wf() {
                        let li = choose|li: int| 0 <= li < s.len() && #[trigger] tagged(s[li], h2, false);
                        assert(s[li].entity < w0.next_entity);
                    }
                }
                return Some((h2, h1));
            }
        }
        let a2 = self.find_tagged(h2, true);
        let l1 = self.find_tagged(h1, false);
        if let (Some(ai), Some(_)) = (a2, l1) {
            if !contains_handle(processed, h1) {
                processed.push(h1);
                self.destroy_asteroid(rng, h1, ai);
                proof {
                    assert(tagged(s[ai as int], h2, true));
                    assert(first_tagged(s, h2, true, ai as int));
                    if w0.wf() {
                        let li = choose|li: int| 0 <= li < s.len() && #[trigger] tagged(s[li], h1, false);
                        assert(s[li].entity < w0.next_entity);
                    }
                }
                return Some((h1, h2));
            }
        }
        None
    }

    /// Runs the frame's collision events through the projectile-asteroid
    /// rule, in order, and returns the `(projectile, asteroid)` pairs
    /// destroyed. Each projectile destroys at most one asteroid per frame.
    pub fn check_for_laser_collision(
        &mut self,
        rng: &mut rand::rngs::ThreadRng,
        events: &Vec<(u64, u64)>,
    ) -> (hits: Vec<(u64, u64)>)
        ensures
            exists|trace: Seq<World>, processed: Seq<Seq<u64>>, outs: Seq<Option<(u64, u64)>>|
                #[trigger] laser_trace(*old(self), events@, *final(self), trace, processed, outs)
                && hits@ == hit_list(outs)
                && processed.last().len() == hits@.len()
                && forall|k: int| 0 <= k < hits@.len() ==> #[trigger] hits@[k].0 == processed.last()[k],
            forall|j: int, k: int| 0 <= j < k < hits@.len() ==> hits@[j].0 != hits@[k].0,
            old(self).wf() && old(self).has_room(events@.len() * WAVE_ROOM) ==> final(self).wf(),
            final(self).level.0 >= old(self).level.0,
            final(self).state == old(self).state,
            final(self).fire_timer == old(self).fire_timer,
            old(self).wf() && old(self).has_room(events@.len() * WAVE_ROOM)
                ==> forall|j: int, k: int| 0 <= j < k < hits@.len() ==> hits@[j].1 != hits@[k].1,
            old(self).wf() && old(self).has_room(events@.len() * WAVE_ROOM) ==> {
                &&& old(self).next_entity <= final(self).next_entity <= old(self).next_entity + events@.len() * WAVE_ROOM
                &&& no_reused_handles(old(self).bodies@, final(self).bodies@, old(self).next_entity)
            },
    {
        let mut processed: Vec<u64> = Vec::new();
        let mut hits: Vec<(u64, u64)> = Vec::new();
        let ghost mut trace: Seq<World> = seq![*self];
        let ghost mut procs: Seq<Seq<u64>> = seq![processed@];
        let ghost mut outs: Seq<Option<(u64, u64)>> = Seq::empty();
        let mut i: usize = 0;
        while i < events.len()
            invariant
                0 <= i <= events@.len(),
                trace.len() == i + 1,
                procs.len() == i + 1,
                trace[0] == *old(self),
                procs[0] == Seq::<u64>::empty(),
                trace[i as int] == *self,
                procs[i as int] == processed@,
                forall|j: int|
                    0 <= j < i ==> #[trigger] laser_event_outcome(
                        trace[j],
                        procs[j],
                        events@[j].0,
                        events@[j].1,
                        trace[j + 1],
                        procs[j + 1],
                        outs[j],
                    ),
                outs.len() == i,
                hits@ == hit_list(outs),
                old(self).wf() && old(self).has_room(events@.len() * WAVE_ROOM) ==> self.wf()
                    && old(self).next_entity <= self.next_entity <= old(self).next_entity + i * WAVE_ROOM
                    && no_reused_handles(old(self).bodies@, self.bodies@, old(self).next_entity),
                old(self).wf() && old(self).has_room(events@.len() * WAVE_ROOM) ==> {
                    &&& forall|j: int| 0 <= j < hits@.len() ==> hits@[j].1 < self.next_entity
                        && !handle_in(self.bodies@, #[trigger] hits@[j].1)
                    &&& forall|j: int, k: int| 0 <= j < k < hits@.len() ==> hits@[j].1 != hits@[k].1
                },
                self.level.0 >= old(self).level.0,
                self.state == old(self).state,
                self.fire_timer == old(self).fire_timer,
                processed@.len() == hits@.len(),
                forall|k: int| 0 <= k < hits@.len() ==> #[trigger] hits@[k].0 == processed@[k],
                forall|j: int, k: int| 0 <= j < k < hits@.len() ==> hits@[j].0 != hits@[k].0,
            decreases events@.len() - i,
        {
            let (h1, h2) = events[i];
            let ghost p0 = processed@;
            proof {
                assert((i + 1) * WAVE_ROOM <= events@.len() * WAVE_ROOM) by (nonlinear_arith)
                    requires i + 1 <= events@.len();
                assert((i + 1) * WAVE_ROOM == i * WAVE_ROOM + WAVE_ROOM) by (nonlinear_arith);
            }
            let ghost pre = *self;
            let hit = self.resolve_laser_event(rng, &mut processed, h1, h2);
            proof {
                if old(self).wf() && old(self).has_room(events@.len() * WAVE_ROOM) {
                    assert forall|k: int| 0 <= k < self.bodies@.len() && (#[trigger] self.bodies@[k]).entity < old(self).next_entity
                        implies handle_in(old(self).bodies@, self.bodies@[k].entity) by {
                        assert(handle_in(pre.bodies@, self.bodies@[k].entity));
                        let m = choose|m: int| 0 <= m < pre.bodies@.len() && (#[trigger] pre.bodies@[m]).entity == self.bodies@[k].entity;
                        assert(pre.bodies@[m].entity < old(self).next_entity);
                    }
                }
            }
            if let Some(h) = hit {
                proof {
                    if old(self).wf() && old(self).has_room(events@.len() * WAVE_ROOM) {
                        assert forall|j: int| 0 <= j < hits@.len() implies !handle_in(self.bodies@, #[trigger] hits@[j].1)
                            && hits@[j].1 != h.1 by {
                            if handle_in(self.bodies@, hits@[j].1) {
                                let b = choose|b: int| 0 <= b < self.bodies@.len() && (#[trigger] self.bodies@[b]).entity == hits@[j].1;
                                assert(handle_in(pre.bodies@, self.bodies@[b].entity));
                            }
                        }
                        if handle_in(self.bodies@, h.1) {
                            let b = choose|b: int| 0 <= b < self.bodies@.len() && (#[trigger] self.bodies@[b]).entity == h.1;
                            assert(self.bodies@[b].entity != h.1);
                        }
                    }
                    assert forall|j: int| 0 <= j < hits@.len() implies hits@[j].0 != h.0 by {
                        assert(p0[j] == hits@[j].0);
                    }
                }
                hits.push(h);
            }
            proof {
                trace = trace.push(*self);
                procs = procs.push(processed@);
                assert(outs.push(hit).drop_last() == outs);
                outs = outs.push(hit);
            }
            i += 1;
        }
        proof {
            assert(laser_trace(*old(self), events@, *self, trace, procs, outs));
        }
        hits
    }
}

/// Handles that one shot may take: four fragments, or a wave of at most
/// `u32::MAX + 1` asteroids.
pub const WAVE_ROOM: u64 = 0x1_0000_0000;

/// Size of the ship.
pub const SHIP_WIDTH: u32 = 30;
pub const SHIP_HEIGHT: u32 = 45;
/// Size of a projectile.
pub const LASER_WIDTH: u32 = 2;
pub const LASER_HEIGHT: u32 = 10;

/// The ship as it is spawned: at the origin, at rest, wrapping.
pub open spec fn ship_body(e: u64) -> Body {
    Body {
        entity: e,
        role: Role::Ship(Ship),
        position: Point { x: 0, y: 0 },
        velocity: Point { x: 0, y: 0 },
        spin: 0,
        dimensions: Dimensions { width: SHIP_WIDTH, height: SHIP_HEIGHT },
        wrapper: Some(Wrapper),
    }
}

/// The "press start" prompt.
pub open spec fn instructions_body(e: u64) -> Body {
    Body {
        entity: e,
        role: Role::Instructions(Instructions),
        position: Point { x: 0, y: 0 },
        velocity: Point { x: 0, y: 0 },
        spin: 0,
        dimensions: Dimensions { width: 0, height: 0 },
        wrapper: None,
    }
}

/// `n / 1000` rounded toward zero, as integer division does.
pub open spec fn per_mille(n: int) -> int {
    if n >= 0 { n / 1000 } else { -((-n) / 1000) }
}

/// A unit vector given in thousandths.
pub open spec fn is_facing(f: Point) -> bool {
    -1000 <= f.x <= 1000 && -1000 <= f.y <= 1000
}

/// A projectile fired by `ship` facing `facing` (a unit vector in
/// thousandths): one ship height ahead of it, along the facing, with
/// velocity `facing` (1000 world units per second along the facing).
pub open spec fn laser_body(e: u64, ship: Body, facing: Point) -> Body {
    Body {
        entity: e,
        role: Role::Laser(Laser),
        position: Point {
            x: clamp_i64(ship.position.x + per_mille(facing.x * ship.dimensions.height)),
            y: clamp_i64(ship.position.y + per_mille(facing.y * ship.dimensions.height)),
        },
        velocity: facing,
        spin: 0,
        dimensions: Dimensions { width: LASER_WIDTH, height: LASER_HEIGHT },
        wrapper: None,
    }
}

pub open spec fn has_ship(s: Seq<Body>, e: u64) -> bool {
    exists|i: int| 0 <= i < s.len() && #[trigger] s[i].entity == e && is_ship(s[i])
}

/// Event `(h1, h2)` pairs a live ship with a live asteroid, in either order.
pub open spec fn ship_strike(s: Seq<Body>, h1: u64, h2: u64) -> bool {
    (has_ship(s, h1) && has_tagged(s, h2, true)) || (has_ship(s, h2) && has_tagged(s, h1, true))
}

pub open spec fn any_ship_strike(s: Seq<Body>, events: Seq<(u64, u64)>) -> bool {
    exists|j: int| 0 <= j < events.len() && #[trigger] ship_strike(s, events[j].0, events[j].1)
}

/// Entering the game-over state: asteroids and projectiles are gone, a new
/// ship replaces the old one, and the prompt is shown.
pub open spec fn game_over_outcome(before: World, after: World) -> bool {
    let n = before.next_entity;
    let n1 = n.wrapping_add(1);
    &&& after.state == GameState::GameOver
    &&& after.level == before.level
    &&& after.fire_timer == before.fire_timer
    &&& after.bodies@ == kept(kept(before.bodies@, Cull::Field), Cull::Ships).push(ship_body(n)).push(instructions_body(n1))
    &&& after.next_entity == n1.wrapping_add(1)
}

/// Which bodies leave the world when projectiles are culled at the bounds.
pub open spec fn culls_out_of_bounds(b: Body, viewport: Dimensions) -> bool {
    is_laser(b) && laser_out_of_bounds_spec(b.position, b.dimensions, viewport)
}

impl World {
    /// Replaces any ship by a new one at the origin and returns its handle.
    pub fn spawn_ship(&mut self) -> (r: u64)
        ensures
            ship_count(final(self).bodies@) == 1,
            r == old(self).next_entity,
            final(self).bodies@ == kept(old(self).bodies@, Cull::Ships).push(ship_body(r)),
            final(self).next_entity == old(self).next_entity.wrapping_add(1),
            final(self).same_resources(*old(self)),
            old(self).wf() && old(self).has_room(1) ==> final(self).wf(),
    {
        self.cull(Cull::Ships);
        let e = self.fresh_entity();
        self.bodies.push(Body {
            entity: e,
            role: Role::Ship(Ship),
            position: Point { x: 0, y: 0 },
            velocity: Point { x: 0, y: 0 },
            spin: 0,
            dimensions: Dimensions { width: SHIP_WIDTH, height: SHIP_HEIGHT },
            wrapper: Some(Wrapper),
        });
        proof {
            if old(self).wf() && old(self).has_room(1) {
                lemma_push_fresh(self.bodies@.drop_last(), e, self.bodies@.last());
                assert(self.bodies@ == self.bodies@.drop_last().push(self.bodies@.last()));
            }
        }
        proof {
            lemma_one_ship(old(self).bodies@, e);
        }
        e
    }

    /// Shows the "press start" prompt and returns its handle.
    pub fn spawn_instructions(&mut self) -> (r: u64)
        ensures
            r == old(self).next_entity,
            final(self).bodies@ == old(self).bodies@.push(instructions_body(r)),
            final(self).next_entity == old(self).next_entity.wrapping_add(1),
            final(self).same_resources(*old(self)),
            old(self).wf() && old(self).has_room(1) ==> final(self).wf(),
    {
        let e = self.fresh_entity();
        self.bodies.push(Body {
            entity: e,
            role: Role::Instructions(Instructions),
            position: Point { x: 0, y: 0 },
            velocity: Point { x: 0, y: 0 },
            spin: 0,
            dimensions: Dimensions { width: 0, height: 0 },
            wrapper: None,
        });
        proof {
            if old(self).wf() && old(self).has_room(1) {
                lemma_push_fresh(self.bodies@.drop_last(), e, self.bodies@.last());
                assert(self.bodies@ == self.bodies@.drop_last().push(self.bodies@.last()));
            }
        }
        e
    }

    /// Removes every asteroid.
    pub fn remove_asteroids(&mut self)
        ensures
            final(self).bodies@ == kept(old(self).bodies@, Cull::Asteroids),
            final(self).next_entity == old(self).next_entity,
            final(self).same_resources(*old(self)),
    {
        self.cull(Cull::Asteroids);
    }

    /// Switches to the game-over state: asteroids and projectiles are
    /// removed, the ship is replaced by a new one at rest, and the prompt shows.
    pub fn enter_game_over(&mut self)
        ensures
            game_over_outcome(*old(self), *final(self)),
            old(self).wf() && old(self).has_room(2) ==> final(self).wf(),
    {
        self.state = GameState::GameOver;
        self.cull(Cull::Field);
        self.spawn_ship();
        self.spawn_instructions();
    }

    /// Switches to the playing state: the level goes back to 1, the prompt
    /// goes, a new ship replaces the old one, and the first wave (two Large
    /// asteroids) is spawned in the off-screen ring.
    pub fn enter_playing(&mut self, rng: &mut rand::rngs::ThreadRng)
        ensures
            final(self).state == GameState::Playing,
            final(self).level.0 == 1,
            final(self).fire_timer == old(self).fire_timer,
            ({
                let base = kept(kept(old(self).bodies@, Cull::Instructions), Cull::Ships).push(ship_body(old(self).next_entity));
                &&& final(self).bodies@.len() == base.len() + 2
                &&& final(self).bodies@.take(base.len() as int) == base
                &&& forall|k: int|
                    base.len() <= k < final(self).bodies@.len()
                        ==> spawned_asteroid(#[trigger] final(self).bodies@[k], AsteroidSize::Large, None)
            }),
            old(self).wf() && old(self).has_room(3) ==> final(self).wf(),
    {
        self.state = GameState::Playing;
        self.level = Level::default();
        self.cull(Cull::Instructions);
        self.spawn_ship();
        self.spawn_asteroids(rng);
    }

    /// While the game is over, the start input begins a game. Returns
    /// whether the state changed.
    pub fn instructions_input(&mut self, rng: &mut rand::rngs::ThreadRng, start: bool) -> (r: bool)
        ensures
            r == (old(self).state == GameState::GameOver && start),
            !r ==> *final(self) == *old(self),
            r ==> final(self).state == GameState::Playing && final(self).level.0 == 1,
            old(self).wf() && old(self).has_room(3) ==> final(self).wf(),
    {
        if self.state == GameState::GameOver && start {
            self.enter_playing(rng);
            true
        } else {
            false
        }
    }

    /// While playing, the reset input ends the game. Returns whether the
    /// state changed.
    pub fn playing_input(&mut self, reset: bool) -> (r: bool)
        ensures
            r == (old(self).state == GameState::Playing && reset),
            !r ==> *final(self) == *old(self),
            r ==> game_over_outcome(*old(self), *final(self)),
            old(self).wf() && old(self).has_room(2) ==> final(self).wf(),
    {
        if self.state == GameState::Playing && reset {
            self.enter_game_over();
            true
        } else {
            false
        }
    }

    /// Whether some body with handle `e` is the ship.
    pub fn is_ship_entity(&self, e: u64) -> (r: bool)
        ensures
            r == has_ship(self.bodies@, e),
    {
        let mut i: usize = 0;
        while i < self.bodies.len()
            invariant
                0 <= i <= self.bodies@.len(),
                forall|j: int| 0 <= j < i ==> !(#[trigger] self.bodies@[j].entity == e && is_ship(self.bodies@[j])),
            decreases self.bodies@.len() - i,
        {
            if self.bodies[i].entity == e && matches!(self.bodies[i].role, Role::Ship(_)) {
                return true;
            }
            i += 1;
        }
        false
    }

    /// While playing, a collision event between the ship and any asteroid
    /// ends the game, whatever the asteroid's size. Returns whether it did.
    pub fn check_for_collision(&mut self, events: &Vec<(u64, u64)>) -> (r: bool)
        ensures
            r == (old(self).state == GameState::Playing && any_ship_strike(old(self).bodies@, events@)),
            !r ==> *final(self) == *old(self),
            r ==> game_over_outcome(*old(self), *final(self)),
            old(self).wf() && old(self).has_room(2) ==> final(self).wf(),
    {
        if self.state != GameState::Playing {
            return false;
        }
        let mut i: usize = 0;
        while i < events.len()
            invariant
                0 <= i <= events@.len(),
                *self == *old(self),
                self.state == GameState::Playing,
                forall|j: int| 0 <= j < i ==> !#[trigger] ship_strike(self.bodies@, events@[j].0, events@[j].1),
            decreases events@.len() - i,
        {
            let (h1, h2) = events[i];
            let strike = (self.is_ship_entity(h1) && self.find_tagged(h2, true).is_some())
                || (self.is_ship_entity(h2) && self.find_tagged(h1, true).is_some());
            if strike {
                proof {
                    assert(ship_strike(self.bodies@, events@[i as int].0, events@[i as int].1));
                }
                self.enter_game_over();
                return true;
            }
            i += 1;
        }
        false
    }

    /// Moves every wrapping body that has fully left a viewport of size
    /// `viewport` (centred coordinates) to the opposite border.
    pub fn wrap_mover(&mut self, viewport: Dimensions)
        ensures
            final(self).bodies@.len() == old(self).bodies@.len(),
            forall|i: int| 0 <= i < old(self).bodies@.len() ==> #[trigger] final(self).bodies@[i] == (
                if old(self).bodies@[i].wrapper is Some {
                    Body {
                        position: wrap_position_spec(old(self).bodies@[i].position, viewport, old(self).bodies@[i].dimensions),
                        ..old(self).bodies@[i]
                    }
                } else {
                    old(self).bodies@[i]
                }
            ),
            final(self).next_entity == old(self).next_entity,
            final(self).same_resources(*old(self)),
            old(self).wf() ==> final(self).wf(),
    {
        let mut i: usize = 0;
        while i < self.bodies.len()
            invariant
                0 <= i <= self.bodies@.len(),
                self.bodies@.len() == old(self).bodies@.len(),
                forall|j: int| i <= j < self.bodies@.len() ==> #[trigger] self.bodies@[j] == old(self).bodies@[j],
                forall|j: int| 0 <= j < i ==> #[trigger] self.bodies@[j] == (
                    if old(self).bodies@[j].wrapper is Some {
                        Body {
                            position: wrap_position_spec(old(self).bodies@[j].position, viewport, old(self).bodies@[j].dimensions),
                            ..old(self).bodies@[j]
                        }
                    } else {
                        old(self).bodies@[j]
                    }
                ),
                self.next_entity == old(self).next_entity,
                self.same_resources(*old(self)),
            decreases self.bodies@.len() - i,
        {
            let mut b = self.bodies[i];
            if b.wrapper.is_some() {
                b.position = wrap_position(b.position, viewport, b.dimensions);
            }
            self.bodies.set(i, b);
            i += 1;
        }
    }

    /// Removes every projectile that has left a viewport of size `viewport`
    /// (corner at the origin, its own size as margin) and returns their handles.
    pub fn destroy_laser(&mut self, viewport: Dimensions) -> (removed: Vec<u64>)
        ensures
            final(self).bodies@ == old(self).bodies@.filter(|b: Body| !culls_out_of_bounds(b, viewport)),
            removed@ == old(self).bodies@.filter(|b: Body| culls_out_of_bounds(b, viewport)).map_values(|b: Body| b.entity),
            final(self).next_entity == old(self).next_entity,
            final(self).same_resources(*old(self)),
            old(self).wf() ==> final(self).wf(),
    {
        let ghost s = self.bodies@;
        let ghost keep = |b: Body| !culls_out_of_bounds(b, viewport);
        let ghost drop = |b: Body| culls_out_of_bounds(b, viewport);
        let ghost handle = |b: Body| b.entity;
        let mut out: Vec<Body> = Vec::new();
        let mut removed: Vec<u64> = Vec::new();
        let mut i: usize = 0;
        while i < self.bodies.len()
            invariant
                s == self.bodies@,
                0 <= i <= s.len(),
                keep == (|b: Body| !culls_out_of_bounds(b, viewport)),
                drop == (|b: Body| culls_out_of_bounds(b, viewport)),
                handle == (|b: Body| b.entity),
                out@ == s.take(i as int).filter(keep),
                removed@ == s.take(i as int).filter(drop).map_values(handle),
            decreases s.len() - i,
        {
            let b = self.bodies[i];
            proof {
                assert(s.take(i + 1) == s.take(i as int).push(s[i as int]));
                s.take(i as int).lemma_filter_push(s[i as int], keep);
                s.take(i as int).lemma_filter_push(s[i as int], drop);
                assert(s.take(i as int).filter(drop).push(b).map_values(handle)
                    == s.take(i as int).filter(drop).map_values(handle).push(b.entity));
            }
            if matches!(b.role, Role::Laser(_)) && laser_out_of_bounds(b.position, b.dimensions, viewport) {
                removed.push(b.entity);
            } else {
                out.push(b);
            }
            i += 1;
        }
        proof {
            assert(s.take(s.len() as int) == s);
            if all_live(s) {
                lemma_filter_live(s, keep);
            }
            if handles_ok(s, self.next_entity) {
                lemma_filter_handles(s, keep, self.next_entity);
            }
        }
        self.bodies = out;
        removed
    }

    /// Index of the first ship, if any.
    pub fn find_ship(&self) -> (r: Option<usize>)
        ensures
            match r {
                Some(i) => i < self.bodies@.len() && is_ship(self.bodies@[i as int])
                    && forall|j: int| 0 <= j < i ==> !is_ship(#[trigger] self.bodies@[j]),
                None => forall|j: int| 0 <= j < self.bodies@.len() ==> !is_ship(#[trigger] self.bodies@[j]),
            },
    {
        let mut i: usize = 0;
        while i < self.bodies.len()
            invariant
                0 <= i <= self.bodies@.len(),
                forall|j: int| 0 <= j < i ==> !is_ship(#[trigger] self.bodies@[j]),
            decreases self.bodies@.len() - i,
        {
            if matches!(self.bodies[i].role, Role::Ship(_)) {
                return Some(i);
            }
            i += 1;
        }
        None
    }

    /// One frame of firing: the fire timer advances by `delta` microseconds;
    /// when `pressed` and the cooldown allow a shot, the first ship fires a
    /// projectile along `facing` (a unit vector in thousandths) and the timer
    /// restarts. Returns the new projectile's handle.
    pub fn spawn_laser(&mut self, pressed: bool, delta: u64, facing: Point) -> (r: Option<u64>)
        requires
            is_facing(facing),
        ensures
            ({
                let (timer, fired) = old(self).fire_timer.fire_step(pressed, delta);
                &&& final(self).fire_timer == timer
                &&& final(self).level == old(self).level
                &&& final(self).state == old(self).state
                &&& (fired && has_ship_body(old(self).bodies@)) == (r is Some)
                &&& match r {
                    Some(e) => e == old(self).next_entity
                        && final(self).next_entity == old(self).next_entity.wrapping_add(1)
                        && final(self).bodies@ == old(self).bodies@.push(
                            laser_body(e, first_ship(old(self).bodies@), facing)),
                    None => final(self).bodies@ == old(self).bodies@
                        && final(self).next_entity == old(self).next_entity,
                }
            }),
            old(self).wf() && old(self).has_room(1) ==> final(self).wf(),
            fire_outcome(*old(self), pressed, delta, facing, *final(self)),
    {
        let fired = self.fire_timer.try_fire(pressed, delta);
        if !fired {
            return None;
        }
        match self.find_ship() {
            None => {
                assert(self.bodies@ == old(self).bodies@);
                None
            },
            Some(si) => {
                let ship = self.bodies[si];
                proof {
                    assert(has_ship_body(self.bodies@));
                    lemma_first_ship(self.bodies@, si as int);
                }
                let h = ship.dimensions.height as i64;
                proof {
                    assert(-1000 * 0x1_0000_0000 <= facing.x * h <= 1000 * 0x1_0000_0000) by (nonlinear_arith)
                        requires -1000 <= facing.x <= 1000, 0 <= h < 0x1_0000_0000;
                    assert(-1000 * 0x1_0000_0000 <= facing.y * h <= 1000 * 0x1_0000_0000) by (nonlinear_arith)
                        requires -1000 <= facing.y <= 1000, 0 <= h < 0x1_0000_0000;
                }
                let nx: i64 = facing.x * h;
                let ny: i64 = facing.y * h;
                let dx: i64 = if nx >= 0 { nx / 1000 } else { -((-nx) / 1000) };
                let dy: i64 = if ny >= 0 { ny / 1000 } else { -((-ny) / 1000) };
                let e = self.fresh_entity();
                self.bodies.push(Body {
                    entity: e,
                    role: Role::Laser(Laser),
                    position: Point { x: sat_add(ship.position.x, dx), y: sat_add(ship.position.y, dy) },
                    velocity: facing,
                    spin: 0,
                    dimensions: Dimensions { width: LASER_WIDTH, height: LASER_HEIGHT },
                    wrapper: None,
                });
                proof {
                    if old(self).wf() && old(self).has_room(1) {
                        lemma_push_fresh(self.bodies@.drop_last(), e, self.bodies@.last());
                        assert(self.bodies@ == self.bodies@.drop_last().push(self.bodies@.last()));
                    }
                }
                Some(e)
            },
        }
    }
}

/// What one frame of the fire control does to the world: the timer follows
/// `fire_step`, and when it fires and there is a ship, a projectile from the
/// first ship is added with the counter's handle.
pub open spec fn fire_outcome(before: World, pressed: bool, delta: u64, facing: Point, after: World) -> bool {
    let (timer, fired) = before.fire_timer.fire_step(pressed, delta);
    &&& after.fire_timer == timer
    &&& after.level == before.level
    &&& after.state == before.state
    &&& if fired && has_ship_body(before.bodies@) {
        &&& after.next_entity == before.next_entity.wrapping_add(1)
        &&& after.bodies@ == before.bodies@.push(laser_body(before.next_entity, first_ship(before.bodies@), facing))
    } else {
        &&& after.bodies@ == before.bodies@
        &&& after.next_entity == before.next_entity
    }
}

/// What a playing frame without a ship strike does: the projectile hits of
/// `events` are resolved (reaching `w1`, with `hits` destroyed), then the fire
/// control runs (reaching `w2`), then projectiles past the bounds of
/// `viewport` are removed.
pub open spec fn play_outcome(
    before: World,
    events: Seq<(u64, u64)>,
    fire: bool,
    delta: u64,
    facing: Point,
    viewport: Dimensions,
    hits: Seq<(u64, u64)>,
    after: World,
) -> bool {
    exists|w1: World, w2: World, trace: Seq<World>, processed: Seq<Seq<u64>>, outs: Seq<Option<(u64, u64)>>|
        #![trigger laser_trace(before, events, w1, trace, processed, outs), fire_outcome(w1, fire, delta, facing, w2)]
        laser_trace(before, events, w1, trace, processed, outs)
        && hits == hit_list(outs)
        && fire_outcome(w1, fire, delta, facing, w2)
        && after.bodies@ == w2.bodies@.filter(|b: Body| !culls_out_of_bounds(b, viewport))
        && after.next_entity == w2.next_entity
        && after.same_resources(w2)
}

pub open spec fn has_ship_body(s: Seq<Body>) -> bool {
    exists|i: int| 0 <= i < s.len() && is_ship(#[trigger] s[i])
}

/// The first ship of `s` (meaningful when there is one).
pub open spec fn first_ship(s: Seq<Body>) -> Body {
    let i = choose|i: int| 0 <= i < s.len() && is_ship(#[trigger] s[i])
        && forall|j: int| 0 <= j < i ==> !is_ship(#[trigger] s[j]);
    s[i]
}

proof fn lemma_first_ship(s: Seq<Body>, i: int)
    requires
        0 <= i < s.len(),
        is_ship(s[i]),
        forall|j: int| 0 <= j < i ==> !is_ship(#[trigger] s[j]),
    ensures
        first_ship(s) == s[i],
{
    let k = choose|k: int| 0 <= k < s.len() && is_ship(#[trigger] s[k])
        && forall|j: int| 0 <= j < k ==> !is_ship(#[trigger] s[j]);
    if k < i {
        assert(!is_ship(s[k]));
    } else if i < k {
        assert(!is_ship(s[i]));
    }
}

} // verus!

verus! {

/// Level rule of a shot: the level never goes down, and it goes up (by one,
/// below the cap) exactly when the shot asteroid leaves no fragments and no
/// asteroid is left after it is removed; before the shot the field held at
/// least that asteroid.
pub proof fn lemma_level_rule(before: World, laser: u64, ai: int, after: World)
    requires
        0 <= ai < before.bodies@.len(),
        is_asteroid(before.bodies@[ai]),
        shot_outcome(before, laser, before.bodies@[ai], after),
        before.level.0 < u32::MAX,
    ensures
        after.level.0 >= before.level.0,
        asteroid_count(before.bodies@) > 0,
        (after.level.0 != before.level.0) == (fragment_count_spec(asteroid_size_of(before.bodies@[ai])) == 0
            && asteroid_count(kept(before.bodies@, Cull::Pair(laser, before.bodies@[ai].entity))) == 0),
        after.level.0 != before.level.0 ==> after.level.0 == before.level.0 + 1,
{
    let s = before.bodies@;
    s.lemma_filter_contains(|b: Body| is_asteroid(b), ai);
}

/// Once the ships are removed, none is left.
proof fn lemma_no_ship_left(s: Seq<Body>)
    ensures
        ship_count(kept(s, Cull::Ships)) == 0,
{
    let k = kept(s, Cull::Ships);
    let keep = |b: Body| !culls(Cull::Ships, b);
    let ship = |b: Body| is_ship(b);
    if k.filter(ship).len() > 0 {
        let x = k.filter(ship)[0];
        k.lemma_filter_pred(ship, 0);
        assert(k.filter(ship).contains(x));
        k.lemma_filter_contains_rev(ship, x);
        let j = choose|j: int| 0 <= j < k.len() && k[j] == x;
        s.lemma_filter_pred(keep, j);
    }
}

/// Spawning the ship leaves exactly one.
pub proof fn lemma_one_ship(s: Seq<Body>, e: u64)
    ensures
        ship_count(kept(s, Cull::Ships).push(ship_body(e))) == 1,
{
    lemma_no_ship_left(s);
    kept(s, Cull::Ships).lemma_filter_push(ship_body(e), |b: Body| is_ship(b));
}

impl World {
    /// One frame of the systems that run only while playing: a ship strike
    /// ends the game; otherwise the projectile hits are resolved, the fire
    /// control runs, and projectiles past the bounds of `viewport` are
    /// removed. Returns the `(projectile, asteroid)` pairs destroyed, or
    /// `None` when the game was not (or is no longer) being played.
    pub fn play_frame(
        &mut self,
        rng: &mut rand::rngs::ThreadRng,
        events: &Vec<(u64, u64)>,
        fire: bool,
        delta: u64,
        facing: Point,
        viewport: Dimensions,
    ) -> (r: Option<Vec<(u64, u64)>>)
        requires
            is_facing(facing),
        ensures
            old(self).state != GameState::Playing ==> r is None && *final(self) == *old(self),
            old(self).state == GameState::Playing && any_ship_strike(old(self).bodies@, events@)
                ==> r is None && game_over_outcome(*old(self), *final(self)),
            old(self).state == GameState::Playing && !any_ship_strike(old(self).bodies@, events@) ==> {
                &&& r is Some
                &&& final(self).state == GameState::Playing
                &&& final(self).level.0 >= old(self).level.0
                &&& final(self).fire_timer == old(self).fire_timer.fire_step(fire, delta).0
                &&& forall|j: int, k: int| 0 <= j < k < r->0@.len() ==> r->0@[j].0 != r->0@[k].0
                &&& play_outcome(*old(self), events@, fire, delta, facing, viewport, r->0@, *final(self))
            },
            old(self).wf() && old(self).has_room(events@.len() * WAVE_ROOM + 1) ==> final(self).wf(),
    {
        if self.state != GameState::Playing {
            return None;
        }
        if self.check_for_collision(events) {
            return None;
        }
        let ghost w0 = *self;
        let hits = self.check_for_laser_collision(rng, events);
        let ghost w1 = *self;
        let ghost wit = choose|trace: Seq<World>, processed: Seq<Seq<u64>>, outs: Seq<Option<(u64, u64)>>|
            #[trigger] laser_trace(w0, events@, w1, trace, processed, outs)
            && hits@ == hit_list(outs)
            && processed.last().len() == hits@.len()
            && forall|k: int| 0 <= k < hits@.len() ==> #[trigger] hits@[k].0 == processed.last()[k];
        self.spawn_laser(fire, delta, facing);
        let ghost w2 = *self;
        self.destroy_laser(viewport);
        proof {
            assert(laser_trace(w0, events@, w1, wit.0, wit.1, wit.2));
            assert(fire_outcome(w1, fire, delta, facing, w2));
        }
        Some(hits)
    }
}

/// The removal of a hit's projectile and asteroid.
pub open spec fn hit_cull(hit: Option<(u64, u64)>) -> Cull {
    match hit {
        Some((l, a)) => Cull::Pair(l, a),
        None => Cull::Asteroids,
    }
}

/// One step of a frame's trace: the level never goes down, and it changes
/// only on an event that destroyed an asteroid while the field held one,
/// leaving no asteroid once the pair was removed.
proof fn lemma_step_level(
    before: World,
    processed: Seq<u64>,
    h1: u64,
    h2: u64,
    after: World,
    processed_after: Seq<u64>,
    hit: Option<(u64, u64)>,
)
    requires
        laser_event_outcome(before, processed, h1, h2, after, processed_after, hit),
    ensures
        after.level.0 >= before.level.0,
        after.level.0 != before.level.0 ==> hit is Some && asteroid_count(before.bodies@) > 0
            && asteroid_count(kept(before.bodies@, hit_cull(hit))) == 0,
{
    let s = before.bodies@;
    if has_tagged(s, h1, true) && has_tagged(s, h2, false) && !processed.contains(h2) {
        let i = choose|i: int| #[trigger] first_tagged(s, h1, true, i) && shot_outcome(before, h2, s[i], after);
        s.lemma_filter_contains(|b: Body| is_asteroid(b), i);
    } else if has_tagged(s, h2, true) && has_tagged(s, h1, false) && !processed.contains(h1) {
        let i = choose|i: int| #[trigger] first_tagged(s, h2, true, i) && shot_outcome(before, h1, s[i], after);
        s.lemma_filter_contains(|b: Body| is_asteroid(b), i);
    }
}

/// Level rule over a frame of collision events: the level never goes
/// down from one event to the next, and it changes only on an event that
/// destroyed an asteroid of a non-empty field and left no asteroid once that
/// asteroid and its projectile were removed.
pub proof fn lemma_frame_level_rule(
    before: World,
    events: Seq<(u64, u64)>,
    after: World,
    trace: Seq<World>,
    processed: Seq<Seq<u64>>,
    outs: Seq<Option<(u64, u64)>>,
)
    requires
        laser_trace(before, events, after, trace, processed, outs),
    ensures
        forall|j: int| 0 <= j < events.len() ==> {
            &&& (#[trigger] trace[j + 1]).level.0 >= trace[j].level.0
            &&& trace[j + 1].level.0 != trace[j].level.0 ==> outs[j] is Some
                && asteroid_count(trace[j].bodies@) > 0
                && asteroid_count(kept(trace[j].bodies@, hit_cull(outs[j]))) == 0
        },
        after.level.0 >= before.level.0,
{
    assert forall|j: int| 0 <= j < events.len() implies {
        &&& (#[trigger] trace[j + 1]).level.0 >= trace[j].level.0
        &&& trace[j + 1].level.0 != trace[j].level.0 ==> outs[j] is Some
            && asteroid_count(trace[j].bodies@) > 0
            && asteroid_count(kept(trace[j].bodies@, hit_cull(outs[j]))) == 0
    } by {
        assert(laser_event_outcome(trace[j], processed[j], events[j].0, events[j].1, trace[j + 1], processed[j + 1], outs[j]));
        lemma_step_level(trace[j], processed[j], events[j].0, events[j].1, trace[j + 1], processed[j + 1], outs[j]);
    }
    lemma_trace_level_rises(trace, events.len() as int);
}

proof fn lemma_trace_level_rises(trace: Seq<World>, n: int)
    requires
        0 <= n < trace.len(),
        forall|j: int| 0 <= j < n ==> (#[trigger] trace[j + 1]).level.0 >= trace[j].level.0,
    ensures
        trace[n].level.0 >= trace[0].level.0,
    decreases n,
{
    if n > 0 {
        lemma_trace_level_rises(trace, n - 1);
        assert(trace[(n - 1) + 1].level.0 >= trace[n - 1].level.0);
    }
}

} // verus!
