//! The structured instructions the command layer hands the store's
//! caller: start an activity, close the latest one, or resume the last
//! label, each with a point in time. The textual grammar that produces
//! them lives with the command layer; only its output is modeled here.

use vstd::prelude::*;

use crate::tti::Timestamp;

verus! {

/// A point in time as an instruction names it: an offset in seconds from
/// now, an absolute instant, an explicit interval, or now itself.
#[derive(Debug, Clone, PartialEq, Eq, Structural)]
pub enum TimeSpec {
    Relative(i64),
    Absolute(Timestamp),
    Interval { from: Timestamp, to: Timestamp },
    Now,
}

/// One parsed instruction.
#[derive(Debug, Clone, PartialEq, Eq)]
pub enum Command {
    Fin(TimeSpec),
    StartActivity(TimeSpec, String),
    ResumeLast(TimeSpec),
}

impl TimeSpec {
    /// The single instant this specification denotes, given the current
    /// instant `now`. An interval denotes two instants, not one, and is
    /// excluded.
    pub fn to_date_time(&self, now: Timestamp) -> (r: Timestamp)
        requires
            !(*self matches TimeSpec::Interval { .. }),
            *self matches TimeSpec::Relative(d) ==> i64::MIN <= now.secs + d <= i64::MAX,
        ensures
            r == match *self {
                TimeSpec::Now => now,
                TimeSpec::Absolute(t) => t,
                TimeSpec::Relative(d) => Timestamp { secs: (now.secs + d) as i64, nanos: now.nanos },
                TimeSpec::Interval { .. } => now,
            },
    {
        match self {
            TimeSpec::Now => now,
            TimeSpec::Absolute(t) => *t,
            TimeSpec::Relative(d) => Timestamp::new(now.secs + *d, now.nanos),
            TimeSpec::Interval { .. } => now,
        }
    }
}

} // verus!
