//! Points in time.

use std::time::Instant as SystemInstant;
use std::time::{SystemTime, UNIX_EPOCH};

use vstd::prelude::*;

verus! {

/// A reading of a clock that only goes forward, in nanoseconds since the clock was started.
#[derive(Debug, Clone, Copy, PartialEq, Eq, Structural)]
pub struct Instant {
    pub nanos: u128,
}

impl Instant {
    /// The nanoseconds since an earlier reading; none have passed since a later one.
    pub open spec fn since(self, earlier: Instant) -> int {
        if self.nanos >= earlier.nanos {
            self.nanos - earlier.nanos
        } else {
            0
        }
    }

    /// The nanoseconds since an earlier reading; none have passed since a later one.
    pub fn duration_since(self, earlier: Instant) -> (nanos: u128)
        ensures
            nanos == self.since(earlier),
    {
        if self.nanos >= earlier.nanos {
            self.nanos - earlier.nanos
        } else {
            0
        }
    }
}

/// A reading of the system's clock, which only the system can compare with others.
#[verifier::external_type_specification]
#[verifier::external_body]
pub struct ExSystemInstant(SystemInstant);

/// Reads the system's clock with `std::time::Instant::now`. Nothing is claimed of the reading.
#[verifier::external_body]
fn system_instant_now() -> SystemInstant {
    SystemInstant::now()
}

/// The nanoseconds that `std::time::Instant::elapsed` reports since an earlier reading. Nothing is
/// claimed of their number.
#[verifier::external_body]
fn nanos_since(start: &SystemInstant) -> u128 {
    start.elapsed().as_nanos()
}

/// A clock that only goes forward.
#[derive(Debug)]
pub struct Clock {
    start: SystemInstant,
}

impl Clock {
    /// Starts a clock.
    pub fn start() -> Clock {
        Clock { start: system_instant_now() }
    }

    /// Reads the clock.
    pub fn now(&self) -> Instant {
        Instant { nanos: nanos_since(&self.start) }
    }
}

/// The nanoseconds in a second.
pub const NANOS_PER_SECOND: u128 = 1_000_000_000;

/// The seconds from the start of 1970 to the end of the last year that has dates.
pub const LAST_SECOND: i64 = 8_210_266_876_799;

/// A date and a time of day in coordinated universal time, in seconds and nanoseconds since the
/// start of 1970.
#[derive(Debug, Clone, Copy, PartialEq, Eq, Structural)]
pub struct DateTime {
    pub seconds: i64,
    pub nanos: u32,
}

/// Calls `chrono::DateTime::from_timestamp`, and gives back the `timestamp` and the
/// `timestamp_subsec_nanos` of what it returns. From the start of 1970 on there is a date for each
/// second up to the end of the year 262142, and it is that of the second that was given.
#[verifier::external_body]
fn date_time_from_timestamp(seconds: i64, nanos: u32) -> (res: Option<DateTime>)
    requires
        0 <= seconds,
        nanos < NANOS_PER_SECOND,
    ensures
        res == (if seconds <= LAST_SECOND {
            Some(DateTime { seconds, nanos })
        } else {
            None
        }),
{
    chrono::DateTime::from_timestamp(seconds, nanos).map(
        |time| DateTime { seconds: time.timestamp(), nanos: time.timestamp_subsec_nanos() },
    )
}

/// A time of day by the system's clock.
#[verifier::external_type_specification]
#[verifier::external_body]
pub struct ExSystemTime(SystemTime);

/// Reads the time of day with `std::time::SystemTime::now`. Nothing is claimed of the reading.
#[verifier::external_body]
fn system_time_now() -> SystemTime {
    SystemTime::now()
}

/// The nanoseconds from the start of 1970 that `std::time::SystemTime::duration_since` reports;
/// `None` where the time is before that. Nothing is claimed of their number.
#[verifier::external_body]
fn nanos_since_epoch(time: &SystemTime) -> Option<u128> {
    time.duration_since(UNIX_EPOCH).ok().map(|since| since.as_nanos())
}

/// A point in time, in nanoseconds since the start of 1970.
#[derive(Debug, Clone, Copy, PartialEq, Eq, Structural)]
pub struct Posix {
    pub nanos: u128,
}

impl Posix {
    /// The present time; the start of 1970 where the system's clock is set before it.
    pub fn now() -> Posix {
        Posix::from_reading(nanos_since_epoch(&system_time_now()))
    }

    /// The point in time that a reading of the system's clock stands for: the start of 1970 where
    /// the clock is set before it.
    pub fn from_reading(nanos: Option<u128>) -> (time: Posix)
        ensures
            time.nanos == (match nanos {
                Some(nanos) => nanos,
                None => 0,
            }),
    {
        match nanos {
            Some(nanos) => Posix { nanos },
            None => Posix { nanos: 0 },
        }
    }

    /// The point in time a number of seconds after the start of 1970.
    pub fn from_seconds(seconds: u64) -> (time: Posix)
        ensures
            time.nanos == seconds * NANOS_PER_SECOND,
    {
        Posix { nanos: seconds as u128 * NANOS_PER_SECOND }
    }

    /// The nanoseconds since the start of 1970.
    pub fn as_nanos(self) -> (nanos: u128)
        ensures
            nanos == self.nanos,
    {
        self.nanos
    }

    /// The date and time of day, if there are dates that late.
    pub open spec fn date_time(self) -> Option<DateTime> {
        if self.nanos / NANOS_PER_SECOND <= LAST_SECOND {
            Some(
                DateTime {
                    seconds: (self.nanos / NANOS_PER_SECOND) as i64,
                    nanos: (self.nanos % NANOS_PER_SECOND) as u32,
                },
            )
        } else {
            None
        }
    }

    /// The date and time of day, if there are dates that late.
    pub fn datetime(self) -> (res: Option<DateTime>)
        ensures
            res == self.date_time(),
    {
        let seconds: u128 = self.nanos / NANOS_PER_SECOND;
        let nanos: u128 = self.nanos % NANOS_PER_SECOND;
        if seconds > i64::MAX as u128 {
            return None;
        }
        date_time_from_timestamp(seconds as i64, nanos as u32)
    }
}

/// What has passed since an earlier reading, and a reading that far later; since a later reading
/// nothing has passed.
pub proof fn law_since(earlier: Instant, later: Instant)
    ensures
        later.nanos >= earlier.nanos ==> earlier.nanos + later.since(earlier) == later.nanos,
        later.nanos < earlier.nanos ==> later.since(earlier) == 0,
{
}

/// A date is that of the point in time: its seconds and nanoseconds make up the point in time
/// again. There is one up to the end of the year 262142.
pub proof fn law_date_of_time(time: Posix)
    ensures
        time.date_time() is Some <==> time.nanos < 8_210_266_876_800 * 1_000_000_000,
        time.date_time() is Some ==> {
            let date = time.date_time()->0;
            &&& date.seconds * 1_000_000_000 + date.nanos == time.nanos
            &&& date.nanos < 1_000_000_000
        },
{
}

} // verus!
