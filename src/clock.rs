//! The producer-side clock that decides, once per frame, whether a shift
//! (a chunk boundary) has happened, carrying the fractional progress over.
//!
//! Time is counted in nanoseconds. The speed is `speed_num / speed_den`
//! shifts per second, so progress is counted in units of
//! `1 / (speed_den * NANOS_PER_SEC)` of a shift and stays exact.
use vstd::prelude::*;
use vstd::arithmetic::div_mod::{lemma_fundamental_div_mod, lemma_fundamental_div_mod_converse};

verus! {

/// Nanoseconds in a second.
pub const NANOS_PER_SEC: u64 = 1_000_000_000;

/// What one tick of the clock found.
#[derive(Debug, Clone, Copy, PartialEq, Eq, Structural)]
pub struct Tick {
    /// A shift happened: a chunk is due now.
    pub shifted: bool,
    /// Progress into the current shift, in units of the clock's scale; the
    /// fraction `offset / scale` drives the scroll position.
    pub offset: u128,
}

/// Decides when shifts happen.
pub struct PatternClock {
    speed_num: u32,
    speed_den: u32,
    last_reset: u64,
    overflow: u64,
    /// Progress accumulated from the start up to `last_reset`.
    passed: Ghost<int>,
}

impl PatternClock {
    /// Progress units in one shift.
    pub closed spec fn scale(&self) -> int {
        self.speed_den as int * NANOS_PER_SEC as int
    }

    /// Progress per nanosecond.
    pub closed spec fn rate(&self) -> int {
        self.speed_num as int
    }

    /// When the last shift happened.
    pub closed spec fn last_reset(&self) -> int {
        self.last_reset as int
    }

    /// Progress carried into the current shift at the last shift.
    pub closed spec fn overflow(&self) -> int {
        self.overflow as int
    }

    /// Progress accumulated from the start up to the last shift.
    pub closed spec fn passed(&self) -> int {
        self.passed@
    }

    /// Nanoseconds from the last shift to `now`; none if `now` is earlier.
    pub open spec fn elapsed(&self, now: u64) -> int {
        if now >= self.last_reset() {
            now - self.last_reset()
        } else {
            0
        }
    }

    /// Progress into the current shift at `now`.
    pub open spec fn offset_at(&self, now: u64) -> int {
        self.elapsed(now) * self.rate() + self.overflow()
    }

    /// Progress accumulated from the start up to `now`.
    pub open spec fn progress_at(&self, now: u64) -> int {
        self.passed() + self.elapsed(now) * self.rate()
    }

    /// The last whole number of shifts' worth of progress accounted for.
    pub open spec fn boundary(&self) -> int {
        self.passed() - self.overflow()
    }

    pub closed spec fn wf(&self) -> bool {
        &&& self.speed_den > 0
        &&& self.passed@ >= 0
        &&& (self.overflow as int) == self.passed@ % self.scale()
    }

    /// What a well-formed clock's accounting says.
    pub proof fn lemma_wf(&self)
        requires
            self.wf(),
        ensures
            self.scale() > 0,
            0 <= self.overflow() < self.scale(),
            self.boundary() == self.scale() * (self.passed() / self.scale()),
    {
        lemma_fundamental_div_mod(self.passed(), self.scale());
    }

    /// A clock started at `start` running at `speed_num / speed_den` shifts
    /// per second.
    pub fn new(speed_num: u32, speed_den: u32, start: u64) -> (r: Self)
        requires
            speed_den > 0,
        ensures
            r.wf(),
            r.rate() == speed_num,
            r.scale() == speed_den as int * NANOS_PER_SEC as int,
            r.last_reset() == start,
            r.overflow() == 0,
            r.passed() == 0,
    {
        let r = PatternClock {
            speed_num,
            speed_den,
            last_reset: start,
            overflow: 0,
            passed: Ghost(0),
        };
        proof {
            lemma_fundamental_div_mod_converse(0, r.scale(), 0, 0);
        }
        r
    }

    /// Progress units in one shift.
    pub fn scale_units(&self) -> (r: u64)
        requires
            self.wf(),
        ensures
            r == self.scale(),
    {
        self.speed_den as u64 * NANOS_PER_SEC
    }

    /// Looks at the time `now`. A shift happens when the progress into the
    /// current shift has gone past one whole shift; then the clock restarts
    /// at `now` and keeps what went past as its overflow. At most one shift
    /// is signalled per tick.
    pub fn tick(&mut self, now: u64) -> (r: Tick)
        requires
            old(self).wf(),
        ensures
            final(self).wf(),
            final(self).rate() == old(self).rate(),
            final(self).scale() == old(self).scale(),
            r.shifted == (old(self).offset_at(now) > old(self).scale()),
            r.shifted == (old(self).progress_at(now) > old(self).boundary() + old(self).scale()),
            r.shifted ==> {
                &&& final(self).last_reset() == now
                &&& final(self).passed() == old(self).progress_at(now)
                &&& final(self).overflow() == old(self).offset_at(now) % old(self).scale()
                &&& final(self).overflow() == old(self).progress_at(now) % old(self).scale()
                &&& r.offset == final(self).overflow()
            },
            !r.shifted ==> {
                &&& final(self).last_reset() == old(self).last_reset()
                &&& final(self).passed() == old(self).passed()
                &&& final(self).overflow() == old(self).overflow()
                &&& r.offset == old(self).offset_at(now)
            },
    {
        proof {
            self.lemma_wf();
        }
        let elapsed: u64 = if now >= self.last_reset {
            now - self.last_reset
        } else {
            0
        };
        proof {
            assert(elapsed as int * self.speed_num as int <= 0xffff_ffff_ffff_ffff * 0xffff_ffff)
                by (nonlinear_arith)
                requires
                    elapsed <= 0xffff_ffff_ffff_ffffu64,
                    self.speed_num <= 0xffff_ffffu32,
            ;
            assert(self.speed_den as int * 1_000_000_000 <= 0xffff_ffff * 1_000_000_000)
                by (nonlinear_arith)
                requires
                    self.speed_den <= 0xffff_ffffu32,
            ;
        }
        let scale: u128 = self.speed_den as u128 * NANOS_PER_SEC as u128;
        let offset: u128 = elapsed as u128 * self.speed_num as u128 + self.overflow as u128;
        if offset > scale {
            let ghost progress = self.progress_at(now);
            let rest: u128 = offset % scale;
            proof {
                let s = self.scale();
                let q = self.passed() / s;
                let b = s * q;
                lemma_fundamental_div_mod(offset as int, s);
                let k = (offset as int) / s;
                assert(progress == (q + k) * s + rest as int) by (nonlinear_arith)
                    requires
                        progress == b + offset,
                        b == s * q,
                        offset == s * k + rest,
                ;
                lemma_fundamental_div_mod_converse(progress, s, q + k, rest as int);
            }
            self.overflow = rest as u64;
            self.last_reset = now;
            self.passed = Ghost(progress);
            Tick { shifted: true, offset: rest }
        } else {
            Tick { shifted: false, offset }
        }
    }
}

} // verus!
