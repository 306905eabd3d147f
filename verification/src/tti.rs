//! The activity-interval entity: a labeled span of time with a start
//! instant and an `Ending` that is either still open or closed at an
//! instant. `Ending` carries a total order in which an open ending is
//! greater than every closed one.

use core::cmp::Ordering;
use vstd::prelude::*;

verus! {

/// Earliest instant the library supports, in whole seconds. Mirrors the
/// range of the calendar arithmetic the storage layer relies on.
pub const MIN_SECS: i64 = -8_000_000_000_000;

/// Latest instant the library supports, in whole seconds.
pub const MAX_SECS: i64 = 8_000_000_000_000;

/// Seconds in one calendar day of the canonical timeline.
pub const SECS_PER_DAY: i64 = 86_400;

/// An absolute instant: seconds since the epoch of the canonical (naive)
/// timeline, plus a sub-second part in nanoseconds. Interval constructors
/// truncate the sub-second part away, so the store only ever holds whole
/// seconds.
#[derive(Clone, Copy, Debug, PartialEq, Eq, Structural)]
pub struct Timestamp {
    pub secs: i64,
    pub nanos: u32,
}

/// An instant the library can do calendar arithmetic on.
pub open spec fn secs_in_range(secs: int) -> bool {
    MIN_SECS <= secs <= MAX_SECS
}

/// The calendar day an instant falls on: days since the epoch day,
/// rounding toward minus infinity.
pub open spec fn day_of(secs: int) -> int {
    secs / (SECS_PER_DAY as int)
}

impl Timestamp {
    /// Lexicographic order on (secs, nanos), the full-precision order.
    pub open spec fn spec_le(self, other: Timestamp) -> bool {
        self.secs < other.secs || (self.secs == other.secs && self.nanos <= other.nanos)
    }

    /// Whole-second instants, the only form intervals keep.
    pub open spec fn is_whole_second(self) -> bool {
        self.nanos == 0
    }

    /// A whole-second instant inside the supported calendar range.
    pub open spec fn wf(self) -> bool {
        self.is_whole_second() && secs_in_range(self.secs as int)
    }

    pub fn new(secs: i64, nanos: u32) -> (r: Timestamp)
        ensures
            r == (Timestamp { secs, nanos }),
    {
        Timestamp { secs, nanos }
    }

    /// Discard the sub-second part.
    pub fn truncated(self) -> (r: Timestamp)
        ensures
            r.secs == self.secs,
            r.is_whole_second(),
    {
        Timestamp { secs: self.secs, nanos: 0 }
    }

    pub fn le(self, other: Timestamp) -> (r: bool)
        ensures
            r == self.spec_le(other),
    {
        self.secs < other.secs || (self.secs == other.secs && self.nanos <= other.nanos)
    }

    /// The calendar day this instant falls on.
    pub fn day(self) -> (d: i64)
        requires
            secs_in_range(self.secs as int),
        ensures
            d as int == day_of(self.secs as int),
    {
        let q = self.secs / SECS_PER_DAY;
        let r = self.secs % SECS_PER_DAY;
        if r < 0 {
            q - 1
        } else {
            q
        }
    }
}

/// The closing state of an interval, as a mathematical value: still open,
/// or closed at a whole-second instant.
pub ghost enum EndModel {
    Open,
    At(int),
}

/// `a <= t`: a closed ending at or before the instant `t`. An open ending
/// is after every instant.
pub open spec fn end_le_ts(a: EndModel, t: int) -> bool {
    match a {
        EndModel::Open => false,
        EndModel::At(x) => x <= t,
    }
}

/// `a < t`: a closed ending strictly before the instant `t`.
pub open spec fn end_lt_ts(a: EndModel, t: int) -> bool {
    match a {
        EndModel::Open => false,
        EndModel::At(x) => x < t,
    }
}

/// `t < a`: the instant `t` strictly before the ending `a`.
pub open spec fn ts_lt_end(t: int, a: EndModel) -> bool {
    match a {
        EndModel::Open => true,
        EndModel::At(x) => t < x,
    }
}

/// `a <= b` in the total order on endings, where open is greatest.
pub open spec fn end_le_end(a: EndModel, b: EndModel) -> bool {
    match b {
        EndModel::Open => true,
        EndModel::At(y) => match a {
            EndModel::Open => false,
            EndModel::At(x) => x <= y,
        },
    }
}

/// The closing state of an interval: still running, or stopped at an
/// instant.
#[derive(Clone, Copy, Debug, PartialEq, Eq, Structural)]
pub enum Ending {
    Open,
    At(Timestamp),
}

impl Ending {
    /// The mathematical value of this ending, in whole seconds.
    pub open spec fn model(self) -> EndModel {
        match self {
            Ending::Open => EndModel::Open,
            Ending::At(t) => EndModel::At(t.secs as int),
        }
    }

    /// A well-formed ending: closed endings sit on a whole second inside
    /// the supported range.
    pub open spec fn wf(self) -> bool {
        match self {
            Ending::Open => true,
            Ending::At(t) => t.wf(),
        }
    }

    /// The closing instant, if there is one.
    pub fn as_date_time(&self) -> (r: Option<Timestamp>)
        ensures
            r == match *self {
                Ending::Open => None::<Timestamp>,
                Ending::At(t) => Some(t),
            },
    {
        match self {
            Ending::Open => None,
            Ending::At(t) => Some(*t),
        }
    }

    /// How this ending compares to the instant `other`: an open ending is
    /// greater than every instant, a closed one compares by its whole
    /// seconds, as the store does.
    pub fn partial_cmp_timestamp(&self, other: &Timestamp) -> (r: Option<Ordering>)
        ensures
            r == match *self {
                Ending::Open => Some(Ordering::Greater),
                Ending::At(t) => if t.secs < other.secs {
                    Some(Ordering::Less)
                } else if t.secs == other.secs {
                    Some(Ordering::Equal)
                } else {
                    Some(Ordering::Greater)
                },
            },
    {
        match self {
            Ending::Open => Some(Ordering::Greater),
            Ending::At(t) => if t.secs < other.secs {
                Some(Ordering::Less)
            } else if t.secs == other.secs {
                Some(Ordering::Equal)
            } else {
                Some(Ordering::Greater)
            },
        }
    }

    /// `self < t` on whole seconds, for well-formed values.
    pub(crate) fn lt_ts(&self, t: &Timestamp) -> (r: bool)
        ensures
            r == end_lt_ts(self.model(), t.secs as int),
    {
        match self {
            Ending::Open => false,
            Ending::At(x) => x.secs < t.secs,
        }
    }

    /// `t < self` on whole seconds.
    pub(crate) fn gt_ts(&self, t: &Timestamp) -> (r: bool)
        ensures
            r == ts_lt_end(t.secs as int, self.model()),
    {
        match self {
            Ending::Open => true,
            Ending::At(x) => t.secs < x.secs,
        }
    }

    /// `self <= t` on whole seconds.
    pub(crate) fn le_ts(&self, t: &Timestamp) -> (r: bool)
        ensures
            r == end_le_ts(self.model(), t.secs as int),
    {
        match self {
            Ending::Open => false,
            Ending::At(x) => x.secs <= t.secs,
        }
    }

    /// `self <= other` in the total order on endings.
    pub(crate) fn le_end(&self, other: &Ending) -> (r: bool)
        ensures
            r == end_le_end(self.model(), other.model()),
    {
        match other {
            Ending::Open => true,
            Ending::At(y) => match self {
                Ending::Open => false,
                Ending::At(x) => x.secs <= y.secs,
            },
        }
    }
}

impl PartialOrd for Ending {
    /// The total order on endings: open endings are equal to each other
    /// and greater than every closed one; closed endings order by their
    /// instants.
    fn partial_cmp(&self, other: &Ending) -> (r: Option<Ordering>) {
        match (self, other) {
            (Ending::Open, Ending::Open) => Some(Ordering::Equal),
            (Ending::Open, Ending::At(_)) => Some(Ordering::Greater),
            (Ending::At(_), Ending::Open) => Some(Ordering::Less),
            (Ending::At(a), Ending::At(b)) => {
                if a.secs < b.secs || (a.secs == b.secs && a.nanos < b.nanos) {
                    Some(Ordering::Less)
                } else if a.secs == b.secs && a.nanos == b.nanos {
                    Some(Ordering::Equal)
                } else {
                    Some(Ordering::Greater)
                }
            },
        }
    }
}

impl vstd::std_specs::cmp::PartialOrdSpecImpl for Ending {
    open spec fn obeys_partial_cmp_spec() -> bool {
        true
    }

    open spec fn partial_cmp_spec(&self, other: &Ending) -> Option<Ordering> {
        match (*self, *other) {
            (Ending::Open, Ending::Open) => Some(Ordering::Equal),
            (Ending::Open, Ending::At(_)) => Some(Ordering::Greater),
            (Ending::At(_), Ending::Open) => Some(Ordering::Less),
            (Ending::At(a), Ending::At(b)) => {
                if a.secs < b.secs || (a.secs == b.secs && a.nanos < b.nanos) {
                    Some(Ordering::Less)
                } else if a.secs == b.secs && a.nanos == b.nanos {
                    Some(Ordering::Equal)
                } else {
                    Some(Ordering::Greater)
                }
            },
        }
    }
}

/// The mathematical value of one activity interval: a whole-second start,
/// an ending, and the label as a character sequence.
#[verifier::ext_equal]
pub ghost struct ItemModel {
    pub start: int,
    pub end: EndModel,
    pub activity: Seq<char>,
}

impl ItemModel {
    /// A valid interval value: its instants lie in the supported range and
    /// a closed interval does not end before it starts.
    pub open spec fn wf(self) -> bool {
        secs_in_range(self.start) && match self.end {
            EndModel::Open => true,
            EndModel::At(e) => self.start <= e && secs_in_range(e),
        }
    }
}

/// One labeled span of time. Constructed through `starting_at` or
/// `interval`, which truncate the instants to whole seconds and reject a
/// closed span that ends before it starts.
#[derive(Debug, Clone)]
pub struct TimeTrackingItem {
    pub start: Timestamp,
    pub end: Ending,
    pub activity: String,
}

impl View for TimeTrackingItem {
    type V = ItemModel;

    open spec fn view(&self) -> ItemModel {
        ItemModel { start: self.start.secs as int, end: self.end.model(), activity: self.activity@ }
    }
}

impl PartialEq for TimeTrackingItem {
    /// Exact equality: start, ending (at full precision) and label.
    fn eq(&self, other: &Self) -> (r: bool) {
        self.start == other.start && self.end == other.end && self.activity == other.activity
    }
}

impl vstd::std_specs::cmp::PartialEqSpecImpl for TimeTrackingItem {
    open spec fn obeys_eq_spec() -> bool {
        true
    }

    open spec fn eq_spec(&self, other: &Self) -> bool {
        self.start == other.start && self.end == other.end && self.activity@ == other.activity@
    }
}

impl TimeTrackingItem {
    /// Whole-second instants in the supported range, a closed ending not
    /// before the start: what the constructors establish and the store
    /// preserves.
    pub open spec fn wf(self) -> bool {
        self.start.wf() && self.end.wf() && self@.wf()
    }

    /// An open-ended interval beginning at `start`, truncated to whole
    /// seconds. Always valid.
    pub fn starting_at(start: Timestamp, activity: String) -> (r: TimeTrackingItem)
        requires
            secs_in_range(start.secs as int),
        ensures
            r@ == (ItemModel { start: start.secs as int, end: EndModel::Open, activity: activity@ }),
            r.wf(),
            r.start == (Timestamp { secs: start.secs, nanos: 0 }),
    {
        TimeTrackingItem { start: start.truncated(), end: Ending::Open, activity }
    }

    /// A closed interval from `start` to `end`, truncated to whole
    /// seconds. Rejected with `StartAfterEnd` exactly when `end` lies
    /// before `start` at full precision; a zero-length span is accepted.
    pub fn interval(start: Timestamp, end: Timestamp, activity: String) -> (r: Result<
        TimeTrackingItem,
        ItemError,
    >)
        requires
            secs_in_range(start.secs as int),
            secs_in_range(end.secs as int),
        ensures
            !start.spec_le(end) ==> r == Err::<TimeTrackingItem, ItemError>(
                ItemError(ItemErrorKind::StartAfterEnd),
            ),
            start.spec_le(end) ==> (r matches Ok(item) && item@ == (ItemModel {
                start: start.secs as int,
                end: EndModel::At(end.secs as int),
                activity: activity@,
            }) && item.wf() && item.start == (Timestamp { secs: start.secs, nanos: 0 })
                && item.end == Ending::At(Timestamp { secs: end.secs, nanos: 0 })),
    {
        if !start.le(end) {
            Err(ItemError(ItemErrorKind::StartAfterEnd))
        } else {
            Ok(
                TimeTrackingItem {
                    start: start.truncated(),
                    end: Ending::At(end.truncated()),
                    activity,
                },
            )
        }
    }

    /// A field-for-field copy.
    pub fn duplicate(&self) -> (r: TimeTrackingItem)
        ensures
            r == *self,
    {
        TimeTrackingItem {
            start: self.start,
            end: self.end,
            activity: self.activity.clone(),
        }
    }
}

/// Why an interval could not be built or parsed.
#[derive(Debug, Clone, PartialEq, Eq, Copy)]
pub struct ItemError(pub ItemErrorKind);

#[derive(Debug, Clone, PartialEq, Eq, Copy)]
pub enum ItemErrorKind {
    StartAfterEnd,
    BadFormat,
    ActivityMissing,
}

} // verus!
