use vstd::prelude::*;

verus! {

/// Minimum time between two shots, in microseconds (0.2 s).
pub const FIRE_COOLDOWN_MICROS: u64 = 200_000;

/// Accumulates elapsed time while it is not paused.
#[derive(Debug, Clone, Copy, PartialEq, Eq, Structural)]
pub struct Stopwatch {
    /// Elapsed time, in microseconds.
    pub elapsed: u64,
    pub paused: bool,
}

impl Stopwatch {
    /// A running stopwatch at zero.
    pub fn new() -> (r: Stopwatch)
        ensures
            r.elapsed == 0,
            !r.paused,
    {
        Stopwatch { elapsed: 0, paused: false }
    }

    pub open spec fn ticked(self, delta: u64) -> Stopwatch {
        if self.paused {
            self
        } else {
            Stopwatch {
                elapsed: if self.elapsed + delta > u64::MAX { u64::MAX } else { (self.elapsed + delta) as u64 },
                paused: false,
            }
        }
    }

    /// Advances the elapsed time by `delta` microseconds unless paused;
    /// the count saturates at `u64::MAX`.
    pub fn tick(&mut self, delta: u64)
        ensures
            *final(self) == old(self).ticked(delta),
    {
        if !self.paused {
            self.elapsed = self.elapsed.saturating_add(delta);
        }
    }

    /// Sets the elapsed time back to zero; the paused flag is kept.
    pub fn reset(&mut self)
        ensures
            final(self).elapsed == 0,
            final(self).paused == old(self).paused,
    {
        self.elapsed = 0;
    }

    pub fn pause(&mut self)
        ensures
            final(self).paused,
            final(self).elapsed == old(self).elapsed,
    {
        self.paused = true;
    }

    pub fn unpause(&mut self)
        ensures
            !final(self).paused,
            final(self).elapsed == old(self).elapsed,
    {
        self.paused = false;
    }
}

/// Time since the last shot; a new shot needs the stopwatch paused or at
/// least [`FIRE_COOLDOWN_MICROS`] elapsed.
#[derive(Debug, Clone, Copy, PartialEq, Eq, Structural)]
pub struct FireTimer(pub Stopwatch);

impl FireTimer {
    pub open spec fn ready_spec(self) -> bool {
        self.0.paused || self.0.elapsed >= FIRE_COOLDOWN_MICROS
    }

    pub open spec fn fire_step(self, pressed: bool, delta: u64) -> (FireTimer, bool) {
        let t = FireTimer(self.0.ticked(delta));
        if pressed && t.ready_spec() {
            (FireTimer(Stopwatch { elapsed: 0, paused: false }), true)
        } else {
            (t, false)
        }
    }

    /// Whether the cooldown allows a shot now.
    pub fn ready(&self) -> (r: bool)
        ensures
            r == self.ready_spec(),
    {
        self.0.paused || self.0.elapsed >= FIRE_COOLDOWN_MICROS
    }

    /// One frame of the fire control: the timer advances by `delta`
    /// microseconds; a shot is fired when the button is held and the
    /// cooldown allows it, and then the timer restarts, running, from zero.
    pub fn try_fire(&mut self, pressed: bool, delta: u64) -> (fired: bool)
        ensures
            (*final(self), fired) == old(self).fire_step(pressed, delta),
    {
        self.0.tick(delta);
        if pressed && self.ready() {
            self.0 = Stopwatch::new();
            true
        } else {
            false
        }
    }
}

/// Two fire attempts after a shot: the second one, `gap` microseconds after
/// the first with the button held both times, fires again exactly when `gap`
/// reaches the cooldown. So two attempts closer than 0.2 s give one shot and
/// two attempts at least 0.2 s apart give two.
pub proof fn lemma_fire_throttle(t: FireTimer, d1: u64, gap: u64)
    requires
        t.fire_step(true, d1).1,
    ensures
        t.fire_step(true, d1).0 == FireTimer::default_spec(),
        t.fire_step(true, d1).0.fire_step(true, gap).1 == (gap >= FIRE_COOLDOWN_MICROS),
{
}

/// The current level; it decides how many asteroids a wave holds.
#[derive(Debug, Clone, Copy, PartialEq, Eq, Structural)]
pub struct Level(pub u32);

impl Default for Level {
    /// The first level.
    fn default() -> (r: Level)
        ensures
            r.0 == 1,
    {
        Level(1)
    }
}

impl Level {
    /// Number of asteroids in the wave of this level.
    pub open spec fn wave_size(self) -> nat {
        self.0 as nat + 1
    }

    /// Number of Large asteroids in the wave of this level: one more than the level.
    pub fn wave_count(&self) -> (r: u64)
        ensures
            r == self.wave_size(),
    {
        self.0 as u64 + 1
    }
}

} // verus!

verus! {

impl FireTimer {
    pub open spec fn default_spec() -> FireTimer {
        FireTimer(Stopwatch { elapsed: 0, paused: false })
    }
}

impl Default for FireTimer {
    /// A running timer at zero: the first shot waits a full cooldown.
    fn default() -> (r: FireTimer)
        ensures
            r == FireTimer::default_spec(),
    {
        FireTimer(Stopwatch::new())
    }
}

} // verus!
