//! Where the timestamps of `%begin` blocks come from.

use std::time::{Duration, SystemTime};
use vstd::prelude::*;

verus! {

/// `std::time::SystemTime`, a point of wall-clock time. Nothing is known of a
/// value of it.
#[verifier::external_type_specification]
#[verifier::external_body]
pub struct ExSystemTime(std::time::SystemTime);

/// `SystemTime::now` reads the wall clock. Nothing is claimed of what it shows.
#[verifier::external_body]
fn wall_clock() -> (t: SystemTime) {
    SystemTime::now()
}

/// `SystemTime::duration_since` measures `t` from the Unix epoch; there is no
/// measure for a time before it. Nothing is claimed of the measure.
#[verifier::external_body]
fn since_epoch(t: &SystemTime) -> (d: Option<Duration>) {
    t.duration_since(SystemTime::UNIX_EPOCH).ok()
}

/// `Duration::as_secs` counts the whole seconds of `d`. Nothing is claimed of
/// the count.
#[verifier::external_body]
fn whole_seconds(d: &Duration) -> (n: u64) {
    d.as_secs()
}

/// The timestamp of a time that is so many seconds after the epoch: 0 for one
/// before it.
pub fn timestamp(seconds: Option<u64>) -> (t: u64)
    ensures
        t == (match seconds {
            Some(s) => s,
            None => 0,
        }),
{
    match seconds {
        Some(s) => s,
        None => 0,
    }
}

/// Where `%begin`'s timestamp comes from.
#[derive(Debug, Clone, Copy, PartialEq, Eq, Structural)]
pub enum Clock {
    /// Wall clock, epoch seconds.
    System,
    /// A frozen value.
    Fixed(u64),
}

impl Clock {
    /// Whether this clock can show `t`.
    pub open spec fn shows(self, t: u64) -> bool {
        self matches Clock::Fixed(f) ==> t == f
    }

    /// What the clock shows: a frozen clock its value, the wall clock the
    /// seconds since the epoch, or 0 before it.
    pub fn now(&self) -> (t: u64)
        ensures
            self.shows(t),
    {
        match self {
            Clock::System => match since_epoch(&wall_clock()) {
                Some(d) => timestamp(Some(whole_seconds(&d))),
                None => timestamp(None),
            },
            Clock::Fixed(t) => *t,
        }
    }
}

} // verus!
