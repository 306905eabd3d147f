//! The daily report: the intervals of one calendar day, aggregated per
//! activity with durations rounded to five minutes, next to a date
//! picker.

use itertools::Itertools;

use vstd::prelude::*;

use crate::component::Consumed;
use crate::component::Frame;
use crate::component::KeyCode;
use crate::component::KeyEvent;
use crate::date_picker::DatePickerState;
use crate::store::models;
use crate::tti::day_of;
use crate::tti::EndModel;
use crate::tti::ItemModel;
use crate::tti::TimeTrackingItem;
use crate::tti::Timestamp;

verus! {

/// What the stable sort by activity label returns for a given sequence
/// of interval values. The result depends on the sequence alone.
pub uninterp spec fn stable_sorted_by_activity(s: Seq<ItemModel>) -> Seq<ItemModel>;

/// Lexicographic order on labels, by character.
pub open spec fn str_le(a: Seq<char>, b: Seq<char>) -> bool
    decreases a.len(),
{
    if a.len() == 0 {
        true
    } else if b.len() == 0 {
        false
    } else if a[0] == b[0] {
        str_le(a.drop_first(), b.drop_first())
    } else {
        (a[0] as u32) < (b[0] as u32)
    }
}

/// Relies on itertools' `sorted_by` with `String::cmp` on the activity
/// labels: a stable sort, so the result is a function of the input
/// sequence, a permutation of it, ordered by label.
#[verifier::external_body]
fn sort_by_activity(v: Vec<TimeTrackingItem>) -> (r: Vec<TimeTrackingItem>)
    ensures
        models(r@) == stable_sorted_by_activity(models(v@)),
        models(r@).to_multiset() == models(v@).to_multiset(),
        r@.len() == v@.len(),
        forall|k: int|
            0 <= k < r@.len() ==> exists|j: int|
                0 <= j < v@.len() && (#[trigger] r@[k])@ == v@[j]@,
        forall|k: int|
            0 <= k && k + 1 < r@.len() ==> str_le(
                (#[trigger] r@[k])@.activity,
                r@[k + 1]@.activity,
            ),
{
    v.into_iter().sorted_by(|a, b| a.activity.cmp(&b.activity)).collect()
}

/// How long an interval ran, against the current instant `now` for an
/// open one.
pub open spec fn item_duration(m: ItemModel, now: int) -> int {
    match m.end {
        EndModel::Open => now - m.start,
        EndModel::At(e) => e - m.start,
    }
}

/// The total running time of a sequence of intervals.
pub open spec fn sum_durations(s: Seq<ItemModel>, now: int) -> int
    decreases s.len(),
{
    if s.len() == 0 {
        0
    } else {
        sum_durations(s.drop_last(), now) + item_duration(s.last(), now)
    }
}

/// A total rounded to the nearest five minutes, halves rounding up,
/// with the division truncating toward zero as machine division does.
pub open spec fn rounded_five_minutes(t: int) -> int {
    let b = t + 150;
    (if b >= 0 {
        b / 300
    } else {
        -((-b) / 300)
    }) * 300
}

/// How many intervals at the front of `s` carry the label `act`.
pub open spec fn run_len(s: Seq<ItemModel>, act: Seq<char>) -> int
    decreases s.len(),
{
    if s.len() == 0 {
        0
    } else if s[0].activity == act {
        1 + run_len(s.drop_first(), act)
    } else {
        0
    }
}

pub proof fn lemma_run_len(s: Seq<ItemModel>, act: Seq<char>)
    ensures
        0 <= run_len(s, act) <= s.len(),
        forall|k: int| 0 <= k < run_len(s, act) ==> (#[trigger] s[k]).activity == act,
        run_len(s, act) < s.len() ==> s[run_len(s, act)].activity != act,
    decreases s.len(),
{
    if s.len() > 0 && s[0].activity == act {
        lemma_run_len(s.drop_first(), act);
        assert forall|k: int| 0 <= k < run_len(s, act) implies (#[trigger] s[k]).activity
            == act by {
            if k >= 1 {
                assert(s.drop_first()[k - 1] == s[k]);
            }
        }
    }
}

/// The per-activity totals of a label-sorted sequence: one entry per run
/// of equal labels, in order, with the run's total rounded to five
/// minutes.
pub open spec fn spec_groups(s: Seq<ItemModel>, now: int) -> Seq<(Seq<char>, int)>
    decreases s.len(),
{
    if s.len() == 0 {
        Seq::empty()
    } else {
        let n0 = 1 + run_len(s.drop_first(), s[0].activity);
        let n = if 1 <= n0 && n0 <= s.len() {
            n0
        } else {
            1
        };
        seq![(s[0].activity, rounded_five_minutes(sum_durations(s.take(n), now)))] + spec_groups(
            s.skip(n),
            now,
        )
    }
}

/// Whether the interval at `k` carries the label `act`.
fn same_activity(v: &Vec<TimeTrackingItem>, k: usize, act: &String) -> (b: bool)
    requires
        k < v@.len(),
    ensures
        b == (v@[k as int]@.activity == act@),
{
    let it: &TimeTrackingItem = &v[k];
    it.activity == *act
}

/// One aggregated row: an activity and its rounded total in seconds.
struct ActivityWithDuration {
    activity: String,
    duration_secs: i64,
}

/// The selection of the aggregated list between draws.
pub struct DurationActivityListState {
    selected: Option<usize>,
}

impl View for DurationActivityListState {
    type V = Option<int>;

    closed spec fn view(&self) -> Option<int> {
        match self.selected {
            Some(i) => Some(i as int),
            None => None,
        }
    }
}

impl DurationActivityListState {
    /// A list with nothing selected.
    pub fn new() -> (r: DurationActivityListState)
        ensures
            r@ is None,
    {
        DurationActivityListState { selected: None }
    }

    /// Set or clear the selection.
    pub fn select(&mut self, selected: Option<usize>)
        ensures
            final(self)@ == match selected {
                Some(i) => Some(i as int),
                None => None::<int>,
            },
    {
        self.selected = selected;
    }
}

impl Default for DurationActivityListState {
    /// A list with nothing selected.
    fn default() -> (r: DurationActivityListState)
        ensures
            r@ is None,
    {
        DurationActivityListState::new()
    }
}

/// The aggregated list as it stands for one draw.
pub ghost struct DurListModel {
    pub selected: Option<int>,
    pub groups: Seq<(Seq<char>, int)>,
    pub start: Option<int>,
    pub end: Option<int>,
}

/// The aggregated per-activity durations of one day, with the day's
/// first start and last closed end.
pub struct DurationActivityListFrame {
    state: DurationActivityListState,
    items: Vec<ActivityWithDuration>,
    start: Option<Timestamp>,
    end: Option<Timestamp>,
}

impl View for DurationActivityListFrame {
    type V = DurListModel;

    closed spec fn view(&self) -> DurListModel {
        DurListModel {
            selected: self.state@,
            groups: self.items@.map_values(
                |g: ActivityWithDuration| (g.activity@, g.duration_secs as int),
            ),
            start: match self.start {
                Some(t) => Some(t.secs as int),
                None => None,
            },
            end: match self.end {
                Some(t) => Some(t.secs as int),
                None => None,
            },
        }
    }
}

impl Frame<DurationActivityListState> for DurationActivityListFrame {
    fn into_state(self) -> DurationActivityListState {
        self.state
    }
}

impl DurationActivityListState {
    /// Aggregate one day's intervals, newest first as queried: the rows
    /// are the label-sorted runs with rounded totals; the day starts at
    /// the oldest interval's start and ends at the newest one's closed
    /// end, if any.
    pub fn into_frame(self, items: &Vec<TimeTrackingItem>, now: Timestamp) -> (r:
        DurationActivityListFrame)
        requires
            forall|k: int| 0 <= k < items@.len() ==> (#[trigger] items@[k]).wf(),
            crate::tti::secs_in_range(now.secs as int),
            items@.len() <= 400_000,
        ensures
            r@.selected == self@,
            r@.groups == spec_groups(
                stable_sorted_by_activity(models(items@)),
                now.secs as int,
            ),
            r@.start == (if items@.len() > 0 {
                Some(models(items@).last().start)
            } else {
                None::<int>
            }),
            r@.end == (if items@.len() > 0 {
                match models(items@)[0].end {
                    EndModel::At(e) => Some(e),
                    EndModel::Open => None::<int>,
                }
            } else {
                None::<int>
            }),
    {
        let count = items.len();
        let start = if count > 0 {
            Some(items[count - 1].start)
        } else {
            None
        };
        let end = if count > 0 {
            items[0].end.as_date_time()
        } else {
            None
        };
        let mut copy: Vec<TimeTrackingItem> = Vec::new();
        let mut c: usize = 0;
        while c < count
            invariant
                count == items@.len(),
                0 <= c <= count,
                copy@ == items@.take(c as int),
            decreases count - c,
        {
            copy.push(items[c].duplicate());
            proof {
                assert(copy@ =~= items@.take(c + 1));
            }
            c += 1;
        }
        proof {
            assert(copy@ =~= items@);
        }
        let sorted = sort_by_activity(copy);
        let n = sorted.len();
        let ghost ss = models(sorted@);
        proof {
            assert forall|k: int| 0 <= k < ss.len() implies (#[trigger] ss[k]).wf() by {
                let j = choose|j: int| 0 <= j < items@.len() && sorted@[k]@ == items@[j]@;
                assert(items@[j].wf());
            }
        }
        let mut groups: Vec<ActivityWithDuration> = Vec::new();
        let mut i: usize = 0;
        proof {
            assert(ss.skip(0) =~= ss);
            assert(groups@.map_values(
                |g: ActivityWithDuration| (g.activity@, g.duration_secs as int),
            ) =~= Seq::<(Seq<char>, int)>::empty());
        }
        while i < n
            invariant
                n == sorted@.len(),
                ss == models(sorted@),
                crate::tti::secs_in_range(now.secs as int),
                n <= 400_000,
                forall|k: int| 0 <= k < ss.len() ==> (#[trigger] ss[k]).wf(),
                0 <= i <= n,
                spec_groups(ss, now.secs as int) == groups@.map_values(
                    |g: ActivityWithDuration| (g.activity@, g.duration_secs as int),
                ) + spec_groups(ss.skip(i as int), now.secs as int),
            decreases n - i,
        {
            let ghost g0 = groups@.map_values(
                |g: ActivityWithDuration| (g.activity@, g.duration_secs as int),
            );
            let act = {
                let it: &TimeTrackingItem = &sorted[i];
                it.activity.clone()
            };
            let mut k = i + 1;
            proof {
                assert(ss[i as int] == sorted@[i as int]@);
                assert(ss[i as int].wf());
            }
            let mut sum: i64 = {
                let it: &TimeTrackingItem = &sorted[i];
                let e = match it.end {
                    crate::tti::Ending::Open => now.secs,
                    crate::tti::Ending::At(t) => t.secs,
                };
                e - it.start.secs
            };
            proof {
                assert(sum_durations(Seq::<ItemModel>::empty(), now.secs as int) == 0);
                assert(ss.subrange(i as int, i + 1).drop_last() =~= Seq::<ItemModel>::empty());
                assert(ss.subrange(i as int, i + 1).last() == ss[i as int]);
                assert(sum as int == item_duration(ss[i as int], now.secs as int));
                assert(sum as int == sum_durations(ss.subrange(i as int, i + 1), now.secs as int));
            }
            while k < n && same_activity(&sorted, k, &act)
                invariant
                    n == sorted@.len(),
                    ss == models(sorted@),
                    crate::tti::secs_in_range(now.secs as int),
                    n <= 400_000,
                    forall|q: int| 0 <= q < ss.len() ==> (#[trigger] ss[q]).wf(),
                    0 <= i < k <= n,
                    act@ == ss[i as int].activity,
                    forall|q: int| i < q < k ==> (#[trigger] ss[q]).activity == ss[i as int].activity,
                    sum as int == sum_durations(ss.subrange(i as int, k as int), now.secs as int),
                    sum as int <= (k - i) * 16_000_000_000_000,
                    -((k - i) * 16_000_000_000_000) <= sum as int,
                decreases n - k,
            {
                proof {
                    assert(ss[k as int] == sorted@[k as int]@);
                    assert(ss[k as int].wf());
                }
                let d = {
                    let it: &TimeTrackingItem = &sorted[k];
                    let e = match it.end {
                        crate::tti::Ending::Open => now.secs,
                        crate::tti::Ending::At(t) => t.secs,
                    };
                    e - it.start.secs
                };
                proof {
                    assert(d as int == item_duration(ss[k as int], now.secs as int));
                    assert(-16_000_000_000_000 <= d as int <= 16_000_000_000_000);
                }
                sum = sum + d;
                proof {
                    assert(ss.subrange(i as int, k + 1).drop_last() =~= ss.subrange(
                        i as int,
                        k as int,
                    ));
                    assert(ss.subrange(i as int, k + 1).last() == ss[k as int]);
                }
                k += 1;
            }
            let base = sum + 150;
            let q = if base >= 0 {
                base / 300
            } else {
                -((-base) / 300)
            };
            let dur = q * 300;
            groups.push(ActivityWithDuration { activity: act, duration_secs: dur });
            proof {
                let tail = ss.skip(i as int);
                lemma_run_len(ss.skip(i + 1), ss[i as int].activity);
                assert forall|q2: int| 0 <= q2 < k - i - 1 implies (#[trigger] ss.skip(i + 1)[q2]).activity
                    == ss[i as int].activity by {
                    assert(ss.skip(i + 1)[q2] == ss[q2 + i + 1]);
                }
                if k < n {
                    assert(ss.skip(i + 1)[k - i - 1] == ss[k as int]);
                    assert(ss[k as int].activity != ss[i as int].activity);
                }
                assert(k - i - 1 == run_len(ss.skip(i + 1), ss[i as int].activity));
                assert(tail.drop_first() =~= ss.skip(i + 1));
                assert(tail[0] == ss[i as int]);
                assert(tail.take(k - i) =~= ss.subrange(i as int, k as int));
                assert(tail.skip(k - i) =~= ss.skip(k as int));
                assert(spec_groups(tail, now.secs as int) == seq![
                    (
                        ss[i as int].activity,
                        rounded_five_minutes(
                            sum_durations(ss.subrange(i as int, k as int), now.secs as int),
                        ),
                    ),
                ] + spec_groups(ss.skip(k as int), now.secs as int));
                assert(groups@.map_values(
                    |g: ActivityWithDuration| (g.activity@, g.duration_secs as int),
                ) =~= g0.push((ss[i as int].activity, dur as int)));
                assert(g0.push((ss[i as int].activity, dur as int)) =~= g0 + seq![
                    (ss[i as int].activity, dur as int),
                ]);
            }
            i = k;
        }
        proof {
            assert(ss.skip(n as int) =~= Seq::<ItemModel>::empty());
        }
        let r = DurationActivityListFrame { state: self, items: groups, start, end };
        r
    }
}

/// What the aggregated list hands outward to be copied: a duration in
/// seconds, an activity label, or an instant of the day.
#[derive(Debug, Clone, PartialEq, Eq)]
pub enum CopyRequest {
    Duration(i64),
    Activity(String),
    StartTime(Timestamp),
    EndTime(Timestamp),
}

impl DurationActivityListFrame {
    /// Move the selection or pick something to copy: rows move the
    /// selection, `d` and `a` pick the selected row's duration or label,
    /// a digit picks that row's duration (its label with a modifier),
    /// `s` and `e` pick the day's boundaries. Everything else is left to
    /// the caller.
    pub fn handle_event(&mut self, event: KeyEvent) -> (r: (Consumed, Option<CopyRequest>))
        ensures
            final(self)@.groups == old(self)@.groups,
            final(self)@.start == old(self)@.start,
            final(self)@.end == old(self)@.end,
            match event.code {
                KeyCode::Down => final(self)@.selected == Some(
                    match old(self)@.selected {
                        Some(s) => if s < usize::MAX {
                            s + 1
                        } else {
                            s
                        },
                        None => 0,
                    },
                ) && r.0 == Consumed::Consumed && r.1 is None,
                KeyCode::Up => final(self)@.selected == Some(
                    match old(self)@.selected {
                        Some(s) => if s > 0 {
                            s - 1
                        } else {
                            0
                        },
                        None => 0,
                    },
                ) && r.0 == Consumed::Consumed && r.1 is None,
                _ => final(self)@.selected == old(self)@.selected,
            },
            event.code matches KeyCode::Char(c) ==> spec_char_reply(old(self)@, event, c, r),
            !(event.code matches KeyCode::Char(c)) && !(event.code matches KeyCode::Down) && !(
            event.code matches KeyCode::Up) ==> r.0 == Consumed::NotConsumed && r.1 is None,
    {
        match event.code {
            KeyCode::Down => {
                let next = match self.state.selected {
                    Some(s) => if s < usize::MAX {
                        s + 1
                    } else {
                        s
                    },
                    None => 0,
                };
                self.state.selected = Some(next);
                (Consumed::Consumed, None)
            },
            KeyCode::Up => {
                let next = match self.state.selected {
                    Some(s) => if s > 0 {
                        s - 1
                    } else {
                        0
                    },
                    None => 0,
                };
                self.state.selected = Some(next);
                (Consumed::Consumed, None)
            },
            KeyCode::Char(c) => {
                if c == 'd' {
                    let picked = self.selected_row();
                    match picked {
                        Some(row) => (Consumed::Consumed, Some(CopyRequest::Duration(row))),
                        None => (Consumed::Consumed, None),
                    }
                } else if c == 'a' {
                    let picked = self.selected_label();
                    match picked {
                        Some(label) => (Consumed::Consumed, Some(CopyRequest::Activity(label))),
                        None => (Consumed::Consumed, None),
                    }
                } else if ('1' as u32) <= (c as u32) && (c as u32) <= ('9' as u32) {
                    let idx = ((c as u32) - ('1' as u32)) as usize;
                    if idx < self.items.len() {
                        if event.ctrl || event.alt {
                            let label = {
                                let row: &ActivityWithDuration = &self.items[idx];
                                row.activity.clone()
                            };
                            (Consumed::Consumed, Some(CopyRequest::Activity(label)))
                        } else {
                            let d = {
                                let row: &ActivityWithDuration = &self.items[idx];
                                row.duration_secs
                            };
                            (Consumed::Consumed, Some(CopyRequest::Duration(d)))
                        }
                    } else {
                        (Consumed::Consumed, None)
                    }
                } else if c == 's' {
                    match self.start {
                        Some(t) => (Consumed::Consumed, Some(CopyRequest::StartTime(t))),
                        None => (Consumed::Consumed, None),
                    }
                } else if c == 'e' {
                    match self.end {
                        Some(t) => (Consumed::Consumed, Some(CopyRequest::EndTime(t))),
                        None => (Consumed::Consumed, None),
                    }
                } else {
                    (Consumed::NotConsumed, None)
                }
            },
            _ => (Consumed::NotConsumed, None),
        }
    }

    /// The selected row's rounded duration, if the selection points at a
    /// row.
    fn selected_row(&self) -> (r: Option<i64>)
        ensures
            match self@.selected {
                Some(s) => if 0 <= s < self@.groups.len() {
                    r matches Some(d) && d as int == self@.groups[s].1
                } else {
                    r is None
                },
                None => r is None,
            },
    {
        match self.state.selected {
            Some(s) => if s < self.items.len() {
                Some(self.items[s].duration_secs)
            } else {
                None
            },
            None => None,
        }
    }

    /// The selected row's label, if the selection points at a row.
    fn selected_label(&self) -> (r: Option<String>)
        ensures
            match self@.selected {
                Some(s) => if 0 <= s < self@.groups.len() {
                    r matches Some(label) && label@ == self@.groups[s].0
                } else {
                    r is None
                },
                None => r is None,
            },
    {
        match self.state.selected {
            Some(s) => if s < self.items.len() {
                let row: &ActivityWithDuration = &self.items[s];
                Some(row.activity.clone())
            } else {
                None
            },
            None => None,
        }
    }
}

/// What a character key makes the aggregated list answer.
pub open spec fn spec_char_reply(
    m: DurListModel,
    event: KeyEvent,
    c: char,
    r: (Consumed, Option<CopyRequest>),
) -> bool {
    if c == 'd' {
        r.0 == Consumed::Consumed && match m.selected {
            Some(s) => if 0 <= s < m.groups.len() {
                r.1 matches Some(CopyRequest::Duration(d)) && d as int == m.groups[s].1
            } else {
                r.1 is None
            },
            None => r.1 is None,
        }
    } else if c == 'a' {
        r.0 == Consumed::Consumed && match m.selected {
            Some(s) => if 0 <= s < m.groups.len() {
                r.1 matches Some(CopyRequest::Activity(label)) && label@ == m.groups[s].0
            } else {
                r.1 is None
            },
            None => r.1 is None,
        }
    } else if '1' <= c && c <= '9' {
        let idx = (c as u32) - ('1' as u32);
        r.0 == Consumed::Consumed && if 0 <= idx < m.groups.len() {
            if event.ctrl || event.alt {
                r.1 matches Some(CopyRequest::Activity(label)) && label@ == m.groups[idx as int].0
            } else {
                r.1 matches Some(CopyRequest::Duration(d)) && d as int == m.groups[idx as int].1
            }
        } else {
            r.1 is None
        }
    } else if c == 's' {
        r.0 == Consumed::Consumed && match m.start {
            Some(t) => r.1 matches Some(CopyRequest::StartTime(ts)) && ts.secs as int == t,
            None => r.1 is None,
        }
    } else if c == 'e' {
        r.0 == Consumed::Consumed && match m.end {
            Some(t) => r.1 matches Some(CopyRequest::EndTime(ts)) && ts.secs as int == t,
            None => r.1 is None,
        }
    } else {
        r.0 == Consumed::NotConsumed && r.1 is None
    }
}

/// The whole daily report between draws.
pub struct DailyReportState {
    pub duration_activity_list_state: DurationActivityListState,
    pub date_picker_state: DatePickerState,
}

impl DailyReportState {
    /// A report opened on the given day, usually today, with nothing
    /// selected.
    pub fn new(today_day: i64) -> (r: DailyReportState)
        requires
            crate::date_picker::day_in_range(today_day as int),
        ensures
            r.date_picker_state.wf(),
            r.date_picker_state.spec_selected() == today_day,
            r.duration_activity_list_state@ is None,
    {
        DailyReportState {
            duration_activity_list_state: DurationActivityListState::new(),
            date_picker_state: DatePickerState::new(today_day),
        }
    }
}

/// The intervals of `s` that start on the calendar day `day`, in their
/// given order.
pub open spec fn day_filter(s: Seq<ItemModel>, day: int) -> Seq<ItemModel>
    decreases s.len(),
{
    if s.len() == 0 {
        Seq::empty()
    } else {
        let p = day_filter(s.drop_last(), day);
        if day_of(s.last().start) == day {
            p.push(s.last())
        } else {
            p
        }
    }
}

/// The whole daily report during one draw.
pub struct DailyReportFrame {
    pub duration_activity_list: DurationActivityListFrame,
    pub date_picker_state: DatePickerState,
}

impl Frame<DailyReportState> for DailyReportFrame {
    fn into_state(self) -> DailyReportState {
        DailyReportState {
            duration_activity_list_state: self.duration_activity_list.into_state(),
            date_picker_state: self.date_picker_state,
        }
    }
}

impl DailyReportFrame {
    /// Give the date picker the first chance at the event; what it does
    /// not consume goes to the aggregated list. Arrow keys move the
    /// picked day and leave the list alone; character keys answer as
    /// the list answers; everything else passes through untouched.
    pub fn handle_event(&mut self, event: KeyEvent) -> (r: (Consumed, Option<CopyRequest>))
        requires
            old(self).date_picker_state.wf(),
        ensures
            final(self).date_picker_state.wf(),
            final(self).date_picker_state.spec_selected() == crate::date_picker::spec_move_day(
                old(self).date_picker_state.spec_selected(),
                event.code,
            ),
            match event.code {
                KeyCode::Up | KeyCode::Down | KeyCode::Left | KeyCode::Right => r == (
                    Consumed::Consumed,
                    None::<CopyRequest>,
                ) && final(self).duration_activity_list == old(self).duration_activity_list,
                KeyCode::Char(c) => spec_char_reply(
                    old(self).duration_activity_list@,
                    event,
                    c,
                    r,
                ) && final(self).duration_activity_list@ == old(self).duration_activity_list@,
                _ => r == (Consumed::NotConsumed, None::<CopyRequest>)
                    && final(self).duration_activity_list@ == old(
                    self,
                ).duration_activity_list@,
            },
    {
        let first = self.date_picker_state.handle_event(event);
        if first.is_consumed() {
            return (first, None);
        }
        self.duration_activity_list.handle_event(event)
    }
}

impl DailyReportState {
    /// The report for the picked day: its intervals, aggregated.
    pub fn into_frame(self, items: &Vec<TimeTrackingItem>, now: Timestamp) -> (r: DailyReportFrame)
        requires
            forall|k: int| 0 <= k < items@.len() ==> (#[trigger] items@[k]).wf(),
            crate::tti::secs_in_range(now.secs as int),
            items@.len() <= 400_000,
        ensures
            r.duration_activity_list@.selected == self.duration_activity_list_state@,
            r.duration_activity_list@.groups == spec_groups(
                stable_sorted_by_activity(
                    day_filter(models(items@), self.date_picker_state.spec_selected()),
                ),
                now.secs as int,
            ),
            r.date_picker_state == self.date_picker_state,
    {
        let day = self.date_picker_state.get_selected();
        let count = items.len();
        let mut picked: Vec<TimeTrackingItem> = Vec::new();
        let mut c: usize = 0;
        proof {
            assert(models(items@).take(0) =~= Seq::<ItemModel>::empty());
            assert(day_filter(Seq::<ItemModel>::empty(), day as int) =~= Seq::<
                ItemModel,
            >::empty());
            assert(models(picked@) =~= Seq::<ItemModel>::empty());
        }
        while c < count
            invariant
                count == items@.len(),
                forall|k: int| 0 <= k < count ==> (#[trigger] items@[k]).wf(),
                0 <= c <= count,
                day as int == self.date_picker_state.spec_selected(),
                models(picked@) == day_filter(models(items@).take(c as int), day as int),
                picked@.len() <= c,
                forall|k: int| 0 <= k < picked@.len() ==> (#[trigger] picked@[k]).wf(),
            decreases count - c,
        {
            let ghost before = models(picked@);
            let keep = items[c].start.day() == day;
            if keep {
                picked.push(items[c].duplicate());
                proof {
                    assert(models(picked@) =~= before.push(items@[c as int]@));
                }
            }
            proof {
                let upto = models(items@).take(c + 1);
                assert(upto.drop_last() =~= models(items@).take(c as int));
                assert(upto.last() == items@[c as int]@);
            }
            c += 1;
        }
        proof {
            assert(models(items@).take(count as int) =~= models(items@));
        }
        DailyReportFrame {
            duration_activity_list: self.duration_activity_list_state.into_frame(&picked, now),
            date_picker_state: self.date_picker_state,
        }
    }
}

/// The daily report's draw entry points live with the terminal layer;
/// the state above carries everything they show.
pub struct DailyReport;

/// The aggregated list's draw entry point lives with the terminal
/// layer.
pub struct DurationActivityList;

} // verus!
