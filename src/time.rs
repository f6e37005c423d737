//! Moments in two frames: the wall clock (comparable with HTTP dates) and a
//! monotonic clock (for deadlines). Both count whole seconds.
use vstd::prelude::*;

verus! {

/// Relies on `std::time::SystemTime::now`: the wall-clock time in seconds
/// since the Unix epoch (0 for a clock set before it). Nothing is promised of
/// the value.
#[verifier::external_body]
fn wall_clock_secs() -> (r: u64) {
    match std::time::SystemTime::now().duration_since(std::time::UNIX_EPOCH) {
        Ok(d) => d.as_secs(),
        Err(_) => 0,
    }
}

/// Relies on `nix::time::clock_gettime(CLOCK_MONOTONIC)`: the seconds of the
/// monotonic clock (0 where the clock cannot be read). Nothing is promised
/// of the value.
#[verifier::external_body]
fn monotonic_secs() -> (r: u64) {
    match nix::time::clock_gettime(nix::time::ClockId::CLOCK_MONOTONIC) {
        Ok(ts) => ts.tv_sec() as u64,
        Err(_) => 0,
    }
}

/// A moment: `local` on the wall clock, `mono` on the monotonic clock.
#[derive(Clone, Copy, Debug, PartialEq, Eq, Structural)]
pub struct Time {
    pub local: u64,
    pub mono: u64,
}

impl Time {
    /// The current moment.
    pub fn now() -> (r: Time) {
        Time { local: wall_clock_secs(), mono: monotonic_secs() }
    }

    /// The seconds from `tm` to `self`, when `tm` is not later.
    pub fn checked_duration_since(&self, tm: Time) -> (r: Option<u64>)
        ensures
            r == if self.mono >= tm.mono {
                Some((self.mono - tm.mono) as u64)
            } else {
                None
            },
    {
        if self.mono >= tm.mono {
            Some(self.mono - tm.mono)
        } else {
            None
        }
    }

    /// The moment `duration` seconds later, in both frames.
    pub fn checked_add(&self, duration: u64) -> (r: Option<Time>)
        ensures
            r == if self.local + duration <= u64::MAX && self.mono + duration <= u64::MAX {
                Some(Time { local: (self.local + duration) as u64, mono: (self.mono + duration) as u64 })
            } else {
                None
            },
    {
        match (self.local.checked_add(duration), self.mono.checked_add(duration)) {
            (Some(l), Some(m)) => Some(Time { local: l, mono: m }),
            _ => None,
        }
    }

    /// The moment at wall-clock time `systm`, placed on the monotonic clock
    /// through `self`.
    pub fn relative(&self, systm: u64) -> (r: Option<Time>)
        ensures
            r == if 0 <= self.mono + systm - self.local <= u64::MAX {
                Some(Time { local: systm, mono: (self.mono + systm - self.local) as u64 })
            } else {
                None
            },
    {
        if self.local < systm {
            match self.mono.checked_add(systm - self.local) {
                Some(m) => Some(Time { local: systm, mono: m }),
                None => None,
            }
        } else {
            match self.mono.checked_sub(self.local - systm) {
                Some(m) => Some(Time { local: systm, mono: m }),
                None => None,
            }
        }
    }
}

/// A signed span of seconds.
#[derive(Clone, Copy, Debug, PartialEq, Eq, Structural)]
pub struct TimeDelta(pub i64);

impl TimeDelta {
    /// `b - a`, where it fits.
    pub fn from_systemtime(a: u64, b: u64) -> (r: Option<TimeDelta>)
        ensures
            r == if i64::MIN <= b - a <= i64::MAX {
                Some(TimeDelta((b - a) as i64))
            } else {
                None
            },
    {
        if a < b {
            let d = b - a;
            if d <= i64::MAX as u64 {
                Some(TimeDelta(d as i64))
            } else {
                None
            }
        } else {
            let d = a - b;
            if d <= i64::MAX as u64 {
                Some(TimeDelta(-(d as i64)))
            } else if d == i64::MAX as u64 + 1 {
                Some(TimeDelta(i64::MIN))
            } else {
                None
            }
        }
    }
}

} // verus!
