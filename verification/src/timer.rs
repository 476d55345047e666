//! The frame timer: how long the last frame took, and how many frames the
//! last second had.

use time::Instant;
use vstd::prelude::*;

verus! {

/// A point in time, as the clock gives it.
#[verifier::external_type_specification]
#[verifier::external_body]
pub struct ExInstant(Instant);

/// The microseconds in a second.
pub const SECOND: u64 = 1_000_000;

/// Reads the clock: `time::Instant::now`. Nothing is claimed of the instant
/// that comes back.
#[verifier::external_body]
fn clock_now() -> Instant {
    Instant::now()
}

/// The whole microseconds from `last` to `now`: the difference of two
/// `time::Instant` values and `time::Duration::whole_microseconds`. Both
/// instants were read from the clock by this module. Nothing is claimed of
/// the number that comes back.
#[verifier::external_body]
fn micros_between(last: Instant, now: Instant) -> i128 {
    (now - last).whole_microseconds()
}

/// A frame rate: `frames` frames in `micros` microseconds.
#[derive(Clone, Copy, Debug, PartialEq, Eq, Structural)]
pub struct Rate {
    pub frames: u32,
    pub micros: u64,
}

/// What the timer counts, apart from the two instants it holds.
#[derive(Clone, Copy, Debug, PartialEq, Eq, Structural)]
pub struct Counts {
    pub delta: u64,
    pub fps: Rate,
    pub sec_passed: bool,
    pub tick_count: u32,
    pub sec: u64,
}

impl Counts {
    /// The counts after a frame that took `micros` microseconds: the frame
    /// is counted and its time added to the time since the last full
    /// second. Once that exceeds a second, a second has passed: the frame
    /// rate is the number of frames counted over that time, the count
    /// starts over, and a second is taken off the time. A count or a time
    /// that would not fit stays at the largest value that does.
    pub open spec fn after(self, micros: u64) -> Counts {
        let ticks: u32 = if self.tick_count < u32::MAX {
            (self.tick_count + 1) as u32
        } else {
            self.tick_count
        };
        let sec: u64 = if self.sec + micros <= u64::MAX {
            (self.sec + micros) as u64
        } else {
            u64::MAX
        };
        if sec > SECOND {
            Counts {
                delta: micros,
                fps: Rate { frames: ticks, micros: sec },
                sec_passed: true,
                tick_count: 0,
                sec: (sec - SECOND) as u64,
            }
        } else {
            Counts { delta: micros, tick_count: ticks, sec, ..self }
        }
    }
}

/// The frame timer. `delta` is the time of the last frame in microseconds,
/// `fps` the frame rate of the last full second.
pub struct Timer {
    pub delta: u64,
    pub fps: Rate,
    last: Instant,
    now: Instant,
    sec_passed: bool,
    tick_count: u32,
    sec: u64,
}

impl Timer {
    /// What the timer counts.
    pub closed spec fn counts(&self) -> Counts {
        Counts {
            delta: self.delta,
            fps: self.fps,
            sec_passed: self.sec_passed,
            tick_count: self.tick_count,
            sec: self.sec,
        }
    }

    /// A timer that starts now, with a frame time of a fifteenth of a
    /// second and a frame rate of sixty frames a second.
    pub fn new() -> (t: Self)
        ensures
            t.counts() == (Counts {
                delta: 66_700,
                fps: Rate { frames: 60, micros: SECOND },
                sec_passed: false,
                tick_count: 0,
                sec: 0,
            }),
    {
        let now = clock_now();
        Self {
            delta: 66_700,
            fps: Rate { frames: 60, micros: SECOND },
            last: now,
            now,
            sec_passed: false,
            tick_count: 0,
            sec: 0,
        }
    }

    /// Ends a frame: reads the clock and counts the frame with the time
    /// since the clock was last read.
    pub fn tick(&mut self)
        ensures
            exists|micros: u64| final(self).counts() == old(self).counts().after(micros),
    {
        self.last = self.now;
        self.now = clock_now();
        let dur = micros_between(self.last, self.now);
        let micros: u64 = if dur < 0 {
            0
        } else if dur > u64::MAX as i128 {
            u64::MAX
        } else {
            dur as u64
        };
        self.advance(micros);
        assert(self.counts() == old(self).counts().after(micros));
    }

    /// Counts a frame that took `micros` microseconds.
    pub fn advance(&mut self, micros: u64)
        ensures
            final(self).counts() == old(self).counts().after(micros),
    {
        if self.tick_count < u32::MAX {
            self.tick_count += 1;
        }
        self.sec = if self.sec <= u64::MAX - micros {
            self.sec + micros
        } else {
            u64::MAX
        };
        self.delta = micros;
        if self.sec > SECOND {
            self.sec_passed = true;
            self.fps = Rate { frames: self.tick_count, micros: self.sec };
            self.sec -= SECOND;
            self.tick_count = 0;
        }
    }

    /// Whether a second has passed since this was last asked.
    pub fn once_per_sec(&mut self) -> (passed: bool)
        ensures
            passed == old(self).counts().sec_passed,
            final(self).counts() == (Counts { sec_passed: false, ..old(self).counts() }),
    {
        if self.sec_passed {
            self.sec_passed = false;
            return true;
        }
        false
    }
}

} // verus!
