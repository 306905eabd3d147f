//! The interval store: an ordered sequence of activity intervals with an
//! insert operation that resolves temporal overlap and a delete operation
//! that can re-close the gap it leaves.
//!
//! The mutation contracts are stated against `spec_insert` and
//! `spec_delete`, mathematical descriptions of the two procedures over
//! sequences of interval values.

use vstd::prelude::*;

use crate::commands::Command;
use crate::commands::TimeSpec;
use crate::tti::day_of;
use crate::tti::secs_in_range;
use crate::tti::end_le_end;
use crate::tti::end_le_ts;
use crate::tti::end_lt_ts;
use crate::tti::ts_lt_end;
use crate::tti::EndModel;
use crate::tti::Ending;
use crate::tti::ItemModel;
use crate::tti::TimeTrackingItem;
use crate::tti::Timestamp;

verus! {

/// The sequence of interval values a sequence of intervals stands for.
pub open spec fn models(v: Seq<TimeTrackingItem>) -> Seq<ItemModel> {
    v.map_values(|t: TimeTrackingItem| t@)
}

/// The store's invariant over its sequence of interval values: every
/// interval is valid, and each one ends at or before the next begins, so
/// that the sequence is sorted by start and no two intervals overlap.
pub open spec fn store_inv(s: Seq<ItemModel>) -> bool {
    (forall|i: int| 0 <= i < s.len() ==> (#[trigger] s[i]).wf()) && (forall|i: int|
        0 <= i && i + 1 < s.len() ==> end_le_ts((#[trigger] s[i]).end, s[i + 1].start))
}

/// The first position whose interval does not end strictly before the
/// instant `t`: where an insertion at `t` starts to interact with the
/// store.
pub open spec fn first_end_not_lt(s: Seq<ItemModel>, t: int) -> int
    decreases s.len(),
{
    if s.len() == 0 {
        0
    } else if end_lt_ts(s[0].end, t) {
        1 + first_end_not_lt(s.drop_first(), t)
    } else {
        0
    }
}

pub proof fn lemma_first_end_not_lt(s: Seq<ItemModel>, t: int)
    ensures
        0 <= first_end_not_lt(s, t) <= s.len(),
        forall|k: int| 0 <= k < first_end_not_lt(s, t) ==> end_lt_ts((#[trigger] s[k]).end, t),
        first_end_not_lt(s, t) < s.len() ==> !end_lt_ts(s[first_end_not_lt(s, t)].end, t),
    decreases s.len(),
{
    if s.len() > 0 && end_lt_ts(s[0].end, t) {
        lemma_first_end_not_lt(s.drop_first(), t);
        assert forall|k: int| 0 <= k < first_end_not_lt(s, t) implies end_lt_ts(
            (#[trigger] s[k]).end,
            t,
        ) by {
            if k >= 1 {
                assert(s.drop_first()[k - 1] == s[k]);
            }
        }
    }
}

/// The first position whose interval ends strictly after the ending `e`:
/// where the removal of right-side conflicts stops.
pub open spec fn first_end_gt(s: Seq<ItemModel>, e: EndModel) -> int
    decreases s.len(),
{
    if s.len() == 0 {
        0
    } else if end_le_end(s[0].end, e) {
        1 + first_end_gt(s.drop_first(), e)
    } else {
        0
    }
}

pub proof fn lemma_first_end_gt(s: Seq<ItemModel>, e: EndModel)
    ensures
        0 <= first_end_gt(s, e) <= s.len(),
        forall|k: int| 0 <= k < first_end_gt(s, e) ==> end_le_end((#[trigger] s[k]).end, e),
        first_end_gt(s, e) < s.len() ==> !end_le_end(s[first_end_gt(s, e)].end, e),
    decreases s.len(),
{
    if s.len() > 0 && end_le_end(s[0].end, e) {
        lemma_first_end_gt(s.drop_first(), e);
        assert forall|k: int| 0 <= k < first_end_gt(s, e) implies end_le_end(
            (#[trigger] s[k]).end,
            e,
        ) by {
            if k >= 1 {
                assert(s.drop_first()[k - 1] == s[k]);
            }
        }
    }
}

/// `m` with its end clipped back to the instant `t`: the left portion it
/// keeps when a new interval starts at `t` inside it.
pub open spec fn clip_end(m: ItemModel, t: int) -> ItemModel {
    ItemModel { start: m.start, end: EndModel::At(t), activity: m.activity }
}

/// `m` with its start clipped forward to the instant `t`: the right
/// portion it keeps when a new interval ends at `t` inside it.
pub open spec fn clip_start(m: ItemModel, t: int) -> ItemModel {
    ItemModel { start: t, end: m.end, activity: m.activity }
}

/// What remains of the intervals that follow a newly inserted one ending
/// in `e`. An open-ended insertion absorbs everything after it. A closed
/// one first clips the start of its immediate follower forward when that
/// follower straddles the insertion's end, then drops every following
/// interval that ends at or before it.
pub open spec fn resolve_right(rest: Seq<ItemModel>, e: EndModel) -> Seq<ItemModel> {
    match e {
        EndModel::Open => Seq::empty(),
        EndModel::At(xe) => {
            let clipped = if rest.len() > 0 && rest[0].start < xe && ts_lt_end(xe, rest[0].end) {
                rest.update(0, clip_start(rest[0], xe))
            } else {
                rest
            };
            clipped.skip(first_end_gt(clipped, e))
        },
    }
}

/// The store's contents after inserting `x` into `s`: the procedure of
/// the insert operation, over interval values.
///
/// The insertion point is the first interval `E` not ending strictly
/// before `x.start`. If `E` straddles `x.start` it is clipped back to end
/// there, and when it also reaches past a closed `x` a remainder copy of
/// `E` starting at `x`'s end is kept after `x`. If `E` lies within `x`'s
/// span it is dropped. If `E` merely touches `x.start` it stays in front.
/// Otherwise `x` goes in before `E`. What follows is settled by
/// `resolve_right`.
pub open spec fn spec_insert(s: Seq<ItemModel>, x: ItemModel) -> Seq<ItemModel> {
    let i = first_end_not_lt(s, x.start);
    if i == s.len() {
        s.push(x)
    } else {
        let e = s[i];
        if e.start < x.start && ts_lt_end(x.start, e.end) {
            let pre = s.take(i).push(clip_end(e, x.start));
            let rest = match x.end {
                EndModel::At(xe) if ts_lt_end(xe, e.end) => seq![clip_start(e, xe)] + s.skip(i + 1),
                _ => s.skip(i + 1),
            };
            pre.push(x) + resolve_right(rest, x.end)
        } else if x.start <= e.start && end_le_end(e.end, x.end) {
            s.take(i).push(x) + resolve_right(s.skip(i + 1), x.end)
        } else if end_le_ts(e.end, x.start) {
            s.take(i + 1).push(x) + resolve_right(s.skip(i + 1), x.end)
        } else {
            s.take(i).push(x) + resolve_right(s.skip(i), x.end)
        }
    }
}

/// The first position whose interval starts strictly after the instant
/// `t`: where a stable insertion sort places an interval starting at `t`.
pub open spec fn first_start_gt(s: Seq<ItemModel>, t: int) -> int
    decreases s.len(),
{
    if s.len() == 0 {
        0
    } else if s[0].start <= t {
        1 + first_start_gt(s.drop_first(), t)
    } else {
        0
    }
}

pub proof fn lemma_first_start_gt(s: Seq<ItemModel>, t: int)
    ensures
        0 <= first_start_gt(s, t) <= s.len(),
        forall|k: int| 0 <= k < first_start_gt(s, t) ==> (#[trigger] s[k]).start <= t,
        first_start_gt(s, t) < s.len() ==> s[first_start_gt(s, t)].start > t,
    decreases s.len(),
{
    if s.len() > 0 && s[0].start <= t {
        lemma_first_start_gt(s.drop_first(), t);
        assert forall|k: int| 0 <= k < first_start_gt(s, t) implies (#[trigger] s[k]).start
            <= t by {
            if k >= 1 {
                assert(s.drop_first()[k - 1] == s[k]);
            }
        }
    }
}

/// `x` placed into `s` behind every interval that starts at or before it.
pub open spec fn insert_sorted(s: Seq<ItemModel>, x: ItemModel) -> Seq<ItemModel>
    decreases s.len(),
{
    if s.len() == 0 {
        seq![x]
    } else if s[0].start <= x.start {
        seq![s[0]] + insert_sorted(s.drop_first(), x)
    } else {
        seq![x] + s
    }
}

/// `s` sorted by start, stably: what loading the persisted intervals
/// establishes before the store is used.
pub open spec fn sort_by_start(s: Seq<ItemModel>) -> Seq<ItemModel>
    decreases s.len(),
{
    if s.len() == 0 {
        s
    } else {
        insert_sorted(sort_by_start(s.drop_last()), s.last())
    }
}

pub proof fn lemma_insert_sorted_shape(s: Seq<ItemModel>, x: ItemModel)
    ensures
        insert_sorted(s, x) == s.take(first_start_gt(s, x.start)) + seq![x] + s.skip(
            first_start_gt(s, x.start),
        ),
    decreases s.len(),
{
    let p = first_start_gt(s, x.start);
    lemma_first_start_gt(s, x.start);
    if s.len() == 0 {
        assert(s.take(0) + seq![x] + s.skip(0) =~= seq![x]);
    } else if s[0].start <= x.start {
        lemma_insert_sorted_shape(s.drop_first(), x);
        let d = s.drop_first();
        let pd = first_start_gt(d, x.start);
        lemma_first_start_gt(d, x.start);
        assert(p == 1 + pd);
        assert(seq![s[0]] + d.take(pd) =~= s.take(p));
        assert(d.skip(pd) =~= s.skip(p));
        assert(seq![s[0]] + (d.take(pd) + seq![x] + d.skip(pd)) =~= (seq![s[0]] + d.take(pd))
            + seq![x] + d.skip(pd));
    } else {
        assert(s.take(0) + seq![x] + s.skip(0) =~= seq![x] + s);
    }
}

/// The first position holding exactly the interval value `t`, or the
/// length of `s` when none does.
pub open spec fn find_match(s: Seq<ItemModel>, t: ItemModel) -> int
    decreases s.len(),
{
    if s.len() == 0 {
        0
    } else if s[0] == t {
        0
    } else {
        1 + find_match(s.drop_first(), t)
    }
}

pub proof fn lemma_find_match(s: Seq<ItemModel>, t: ItemModel)
    ensures
        0 <= find_match(s, t) <= s.len(),
        forall|k: int| 0 <= k < find_match(s, t) ==> (#[trigger] s[k]) != t,
        find_match(s, t) < s.len() ==> s[find_match(s, t)] == t,
    decreases s.len(),
{
    if s.len() > 0 && s[0] != t {
        lemma_find_match(s.drop_first(), t);
        assert forall|k: int| 0 <= k < find_match(s, t) implies (#[trigger] s[k]) != t by {
            if k >= 1 {
                assert(s.drop_first()[k - 1] == s[k]);
            }
        }
    }
}

/// Whether deleting the interval at position `i` closes the gap it
/// leaves: the predecessor was contiguous with it, its ending was closed,
/// an interval follows it, and it started and ended on the same calendar
/// day.
pub open spec fn delete_merges(s: Seq<ItemModel>, i: int) -> bool {
    &&& 0 < i
    &&& i + 1 < s.len()
    &&& s[i - 1].end == EndModel::At(s[i].start)
    &&& match s[i].end {
        EndModel::Open => false,
        EndModel::At(e) => day_of(s[i].start) == day_of(e),
    }
}

/// The store's contents after deleting the first interval equal to `t`
/// from `s`, or `s` itself when none matches. When the deletion closes a
/// gap, the predecessor's end is extended to absorb the deleted span.
pub open spec fn spec_delete(s: Seq<ItemModel>, t: ItemModel) -> Seq<ItemModel> {
    let i = find_match(s, t);
    if i == s.len() {
        s
    } else {
        let removed = s.remove(i);
        if delete_merges(s, i) {
            removed.update(i - 1, ItemModel { end: t.end, ..s[i - 1] })
        } else {
            removed
        }
    }
}

/// Copy `items[from..]` onto the end of `out`.
fn append_tail(out: &mut Vec<TimeTrackingItem>, items: &Vec<TimeTrackingItem>, from: usize)
    requires
        from <= items@.len(),
    ensures
        final(out)@ == old(out)@ + items@.skip(from as int),
{
    let n = items.len();
    let mut r = from;
    while r < n
        invariant
            from <= r <= n,
            n == items@.len(),
            out@.len() == old(out)@.len() + r - from,
            forall|k: int| 0 <= k < old(out)@.len() ==> out@[k] == old(out)@[k],
            forall|k: int|
                old(out)@.len() <= k < out@.len() ==> out@[k] == items@[k - old(out)@.len()
                    + from],
        decreases n - r,
    {
        out.push(items[r].duplicate());
        r += 1;
    }
    proof {
        assert(out@ =~= old(out)@ + items@.skip(from as int));
    }
}

/// Settle the intervals that follow a newly inserted one: append to
/// `out` what `resolve_right` keeps of `items[from..]`.
fn append_right(
    out: &mut Vec<TimeTrackingItem>,
    items: &Vec<TimeTrackingItem>,
    from: usize,
    x_end: Ending,
)
    requires
        from <= items@.len(),
        x_end.wf(),
        forall|k: int| 0 <= k < items@.len() ==> (#[trigger] items@[k]).wf(),
        forall|k: int| 0 <= k < old(out)@.len() ==> (#[trigger] old(out)@[k]).wf(),
    ensures
        models(final(out)@) == models(old(out)@) + resolve_right(
            models(items@).skip(from as int),
            x_end.model(),
        ),
        forall|k: int| 0 <= k < final(out)@.len() ==> (#[trigger] final(out)@[k]).wf(),
{
    let ghost rest = models(items@).skip(from as int);
    let n = items.len();
    match x_end {
        Ending::Open => {
            proof {
                assert(models(out@) =~= models(old(out)@) + resolve_right(
                    rest,
                    x_end.model(),
                ));
            }
        },
        Ending::At(xe) => {
            let ghost e = x_end.model();
            if from < n && items[from].start.secs < xe.secs && items[from].end.gt_ts(&xe) {
                // The immediate follower straddles the insertion's end:
                // it keeps its right portion.
                let mut c = items[from].duplicate();
                c.start = xe;
                proof {
                    assert(c@ == clip_start(rest[0], xe.secs as int));
                    assert(c.wf());
                }
                out.push(c);
                let ghost clipped = rest.update(0, clip_start(rest[0], xe.secs as int));
                proof {
                    assert(!end_le_end(clipped[0].end, e));
                    assert(first_end_gt(clipped, e) == 0);
                    assert(clipped.skip(0) =~= clipped);
                }
                append_tail(out, items, from + 1);
                proof {
                    assert(models(out@) =~= models(old(out)@) + resolve_right(rest, e));
                }
            } else {
                // Drop every follower that ends at or before the
                // insertion's end.
                let mut r = from;
                while r < n && items[r].end.le_end(&x_end)
                    invariant
                        from <= r <= n,
                        n == items@.len(),
                        x_end == Ending::At(xe),
                        e == x_end.model(),
                        rest == models(items@).skip(from as int),
                        forall|k: int| from <= k < r ==> end_le_end((#[trigger] items@[k])@.end, e),
                        out@ == old(out)@,
                    decreases n - r,
                {
                    r += 1;
                }
                proof {
                    lemma_first_end_gt(rest, e);
                    assert forall|k: int| 0 <= k < r - from implies end_le_end(
                        (#[trigger] rest[k]).end,
                        e,
                    ) by {
                        assert(rest[k] == items@[k + from]@);
                    }
                    if r < n {
                        assert(rest[r - from] == items@[r as int]@);
                        assert(!end_le_end(rest[r - from].end, e));
                    }
                    assert(r - from == first_end_gt(rest, e));
                }
                append_tail(out, items, r);
                proof {
                    assert(models(out@) =~= models(old(out)@) + resolve_right(rest, e));
                }
            }
        },
    }
    proof {
        assert forall|k: int| 0 <= k < out@.len() implies (#[trigger] out@[k]).wf() by {}
    }
}

/// A time specification the store can act on: its instants lie in the
/// supported range, and an explicit interval does not end before it
/// starts.
pub open spec fn time_spec_usable(ts: TimeSpec, now: Timestamp) -> bool {
    match ts {
        TimeSpec::Relative(d) => secs_in_range(now.secs + d),
        TimeSpec::Absolute(t) => secs_in_range(t.secs as int),
        TimeSpec::Interval { from, to } => secs_in_range(from.secs as int) && secs_in_range(
            to.secs as int,
        ) && from.spec_le(to),
        TimeSpec::Now => true,
    }
}

/// The single instant a non-interval time specification denotes, in
/// whole seconds.
pub open spec fn spec_point(ts: TimeSpec, now: int) -> int {
    match ts {
        TimeSpec::Now => now,
        TimeSpec::Absolute(t) => t.secs as int,
        TimeSpec::Relative(d) => now + d,
        TimeSpec::Interval { .. } => now,
    }
}

/// The store's contents after carrying out one instruction: starting an
/// activity inserts the interval it describes, closing the latest
/// activity deletes it and re-inserts it closed at the given instant,
/// and everything else leaves the store alone.
pub open spec fn spec_apply(s: Seq<ItemModel>, cmd: Command, now: int) -> Seq<ItemModel> {
    match cmd {
        Command::ResumeLast(_) => s,
        Command::StartActivity(ts, activity) => {
            let m = match ts {
                TimeSpec::Interval { from, to } => ItemModel {
                    start: from.secs as int,
                    end: EndModel::At(to.secs as int),
                    activity: activity@,
                },
                _ => ItemModel {
                    start: spec_point(ts, now),
                    end: EndModel::Open,
                    activity: activity@,
                },
            };
            spec_insert(s, m)
        },
        Command::Fin(ts) => {
            if s.len() == 0 {
                s
            } else {
                let last = s[s.len() - 1];
                let e = spec_point(ts, now);
                if last.start <= e {
                    spec_insert(
                        spec_delete(s, last),
                        ItemModel { start: last.start, end: EndModel::At(e), activity: last.activity },
                    )
                } else {
                    s
                }
            }
        },
    }
}

/// Why a store mutation was refused.
#[derive(Debug, Clone, Copy, PartialEq, Eq, Structural)]
pub enum StoreError {
    /// No stored interval matches the one to delete.
    NotFound,
}

/// The interval store. It holds valid intervals; the order invariant
/// `store_inv` is established and preserved by the mutations (see the
/// laws module) whenever the initial contents satisfy it.
pub struct IntervalStore {
    items: Vec<TimeTrackingItem>,
}

impl View for IntervalStore {
    type V = Seq<ItemModel>;

    closed spec fn view(&self) -> Seq<ItemModel> {
        models(self.items@)
    }
}

impl IntervalStore {
    /// Every held interval is well formed.
    pub closed spec fn wf(self) -> bool {
        forall|i: int| 0 <= i < self.items@.len() ==> (#[trigger] self.items@[i]).wf()
    }

    /// An empty store.
    pub fn new() -> (r: IntervalStore)
        ensures
            r@ == Seq::<ItemModel>::empty(),
            r.wf(),
    {
        let r = IntervalStore { items: Vec::new() };
        proof {
            assert(r@ =~= Seq::<ItemModel>::empty());
        }
        r
    }

    /// A store over previously persisted intervals, handed over in any
    /// order: they are sorted by start, stably, before use.
    pub fn from_items(list: Vec<TimeTrackingItem>) -> (r: IntervalStore)
        requires
            forall|k: int| 0 <= k < list@.len() ==> (#[trigger] list@[k]).wf(),
        ensures
            r.wf(),
            r@ == sort_by_start(models(list@)),
    {
        let n = list.len();
        let mut items: Vec<TimeTrackingItem> = Vec::new();
        let mut j: usize = 0;
        proof {
            assert(models(list@).take(0) =~= Seq::<ItemModel>::empty());
            assert(models(items@) =~= Seq::<ItemModel>::empty());
        }
        while j < n
            invariant
                n == list@.len(),
                forall|k: int| 0 <= k < n ==> (#[trigger] list@[k]).wf(),
                0 <= j <= n,
                models(items@) == sort_by_start(models(list@).take(j as int)),
                forall|k: int| 0 <= k < items@.len() ==> (#[trigger] items@[k]).wf(),
            decreases n - j,
        {
            let x = list[j].duplicate();
            let m = items.len();
            let mut p: usize = 0;
            while p < m && items[p].start.secs <= x.start.secs
                invariant
                    m == items@.len(),
                    x == list@[j as int],
                    0 <= p <= m,
                    forall|k: int| 0 <= k < p ==> (#[trigger] items@[k])@.start <= x@.start,
                decreases m - p,
            {
                p += 1;
            }
            let ghost before = models(items@);
            proof {
                lemma_first_start_gt(before, x@.start);
                assert forall|k: int| 0 <= k < p implies (#[trigger] before[k]).start
                    <= x@.start by {
                    assert(before[k] == items@[k]@);
                }
                if p < m {
                    assert(before[p as int] == items@[p as int]@);
                }
                assert(p as int == first_start_gt(before, x@.start));
                lemma_insert_sorted_shape(before, x@);
            }
            items.insert(p, x);
            proof {
                assert(models(items@) =~= before.take(p as int) + seq![x@] + before.skip(
                    p as int,
                ));
                let upto = models(list@).take(j + 1);
                assert(upto.drop_last() =~= models(list@).take(j as int));
                assert(upto.last() == x@);
                assert(models(items@) == sort_by_start(upto));
            }
            j += 1;
        }
        proof {
            assert(models(list@).take(n as int) =~= models(list@));
        }
        let r = IntervalStore { items };
        r
    }

    /// How many intervals the store holds.
    pub fn len(&self) -> (n: usize)
        ensures
            n == self@.len(),
    {
        self.items.len()
    }

    /// Insert `item`, resolving any temporal overlap with the stored
    /// intervals: the store afterwards holds exactly `spec_insert` of its
    /// previous contents and the new interval's value.
    pub fn insert_item(&mut self, item: TimeTrackingItem)
        requires
            old(self).wf(),
            item.wf(),
        ensures
            final(self).wf(),
            final(self)@ == spec_insert(old(self)@, item@),
    {
        let ghost s = self@;
        let ghost x = item@;
        let ghost result = spec_insert(s, x);
        let n = self.items.len();
        let mut out: Vec<TimeTrackingItem> = Vec::new();
        let mut j: usize = 0;
        while j < n && self.items[j].end.lt_ts(&item.start)
            invariant
                n == self.items@.len(),
                s == models(self.items@),
                x == item@,
                0 <= j <= n,
                forall|k: int| 0 <= k < j ==> end_lt_ts((#[trigger] s[k]).end, x.start),
                out@ == self.items@.take(j as int),
            decreases n - j,
        {
            out.push(self.items[j].duplicate());
            proof {
                assert(out@ =~= self.items@.take(j + 1));
            }
            j += 1;
        }
        proof {
            lemma_first_end_not_lt(s, x.start);
            assert(j as int == first_end_not_lt(s, x.start));
            assert(models(out@) =~= s.take(j as int));
        }
        if j == n {
            out.push(item);
            proof {
                assert(models(out@) =~= result);
            }
        } else {
            let e_start = self.items[j].start;
            let e_end = self.items[j].end;
            let x_end = item.end;
            let ghost e = s[j as int];
            if e_start.secs < item.start.secs && e_end.gt_ts(&item.start) {
                // Partial left overlap: the found interval keeps its left
                // portion, ending where the new one starts.
                let mut clipped = self.items[j].duplicate();
                clipped.end = Ending::At(item.start);
                proof {
                    assert(clipped@ == clip_end(e, x.start));
                    assert(models(out@.push(clipped)) =~= s.take(j as int).push(
                        clip_end(e, x.start),
                    ));
                }
                out.push(clipped);
                out.push(item);
                match x_end {
                    Ending::At(xe) if e_end.gt_ts(&xe) => {
                        // The found interval also reaches past the new
                        // one's end: keep its right remainder after it.
                        let mut rem = self.items[j].duplicate();
                        rem.start = xe;
                        proof {
                            assert(rem@ == clip_start(e, xe.secs as int));
                            assert(rem.wf());
                        }
                        out.push(rem);
                        append_tail(&mut out, &self.items, j + 1);
                        proof {
                            let rest = seq![clip_start(e, xe.secs as int)] + s.skip(j + 1);
                            assert(!end_le_end(rest[0].end, x.end));
                            assert(first_end_gt(rest, x.end) == 0);
                            assert(resolve_right(rest, x.end) =~= rest);
                            assert(models(out@) =~= result);
                        }
                    },
                    _ => {
                        append_right(&mut out, &self.items, j + 1, x_end);
                        proof {
                            assert(models(out@) =~= result);
                        }
                    },
                }
            } else if item.start.secs <= e_start.secs && e_end.le_end(&x_end) {
                // The found interval lies entirely within the new one's
                // span: it is superseded and dropped.
                out.push(item);
                append_right(&mut out, &self.items, j + 1, x_end);
                proof {
                    assert(models(out@) =~= result);
                }
            } else if e_end.le_ts(&item.start) {
                // Adjacency: the found interval ends exactly where the new
                // one starts and stays in front of it.
                out.push(self.items[j].duplicate());
                out.push(item);
                proof {
                    assert(models(out@) =~= s.take(j + 1).push(x));
                }
                append_right(&mut out, &self.items, j + 1, x_end);
                proof {
                    assert(models(out@) =~= result);
                }
            } else {
                // The new interval goes in before the found one, which is
                // settled with the rest of the right side.
                out.push(item);
                append_right(&mut out, &self.items, j, x_end);
                proof {
                    assert(models(out@) =~= result);
                }
            }
        }
        self.items = out;
    }

    /// Delete the first stored interval exactly equal to `item`, closing
    /// the gap it leaves when `spec_delete` says so. Fails with
    /// `NotFound`, leaving the store unchanged, exactly when no stored
    /// interval equals `item`.
    pub fn delete_item(&mut self, item: &TimeTrackingItem) -> (r: Result<(), StoreError>)
        requires
            old(self).wf(),
            item.wf(),
        ensures
            final(self).wf(),
            final(self)@ == spec_delete(old(self)@, item@),
            r is Ok <==> exists|k: int| 0 <= k < old(self)@.len() && old(self)@[k] == item@,
            r is Err ==> r == Err::<(), StoreError>(StoreError::NotFound) && final(self)@ == old(
                self,
            )@,
    {
        let ghost s = self@;
        let ghost x = item@;
        let n = self.items.len();
        let mut i: usize = 0;
        while i < n && !(self.items[i] == *item)
            invariant
                n == self.items@.len(),
                s == models(self.items@),
                x == item@,
                item.wf(),
                old(self).wf(),
                self == old(self),
                0 <= i <= n,
                forall|k: int| 0 <= k < i ==> (#[trigger] s[k]) != x,
            decreases n - i,
        {
            proof {
                // Both sides are whole-second values, so inequality of the
                // stored fields carries over to the interval values.
                assert(self.items@[i as int].wf());
                assert(s[i as int] != x);
            }
            i += 1;
        }
        proof {
            lemma_find_match(s, x);
            if i < n {
                assert(self.items@[i as int].wf());
                assert(s[i as int] == x);
            }
            assert(i as int == find_match(s, x));
        }
        if i == n {
            proof {
                assert(spec_delete(s, x) == s);
            }
            return Err(StoreError::NotFound);
        }
        let removed = self.items.remove(i);
        let len = self.items.len();
        proof {
            assert(models(self.items@) =~= s.remove(i as int));
        }
        if i > 0 && i < len {
            let merge = match (self.items[i - 1].end, item.end) {
                (Ending::At(pe), Ending::At(ie)) => pe.secs == item.start.secs && item.start.day()
                    == ie.day(),
                _ => false,
            };
            proof {
                assert(self.items@[i - 1]@ == s.remove(i as int)[i - 1]);
                assert(s.remove(i as int)[i - 1] == s[i - 1]);
                assert(merge == delete_merges(s, i as int));
            }
            if merge {
                // The predecessor was contiguous and the deleted span
                // stayed within one calendar day: extend the predecessor
                // to absorb it.
                let mut p = self.items.remove(i - 1);
                p.end = item.end;
                proof {
                    assert(p@ == (ItemModel { end: x.end, ..s[i - 1] }));
                    assert(p.wf());
                }
                self.items.insert(i - 1, p);
                proof {
                    assert(models(self.items@) =~= s.remove(i as int).update(
                        i - 1,
                        ItemModel { end: x.end, ..s[i - 1] },
                    ));
                }
            }
        } else {
            proof {
                assert(!delete_merges(s, i as int));
            }
        }
        Ok(())
    }

    /// Carry out one parsed instruction against the store, as the
    /// session loop does: starting an activity inserts an interval built
    /// from its time specification, and closing the latest activity
    /// re-inserts it with the given end. Resuming is the session loop's
    /// own affair and leaves the store alone, as does closing when there
    /// is nothing to close or the closing instant lies before the
    /// latest start.
    pub fn apply_command(&mut self, cmd: &Command, now: Timestamp)
        requires
            old(self).wf(),
            secs_in_range(now.secs as int),
            *cmd matches Command::StartActivity(ts, _) ==> time_spec_usable(ts, now),
            *cmd matches Command::Fin(ts) ==> time_spec_usable(ts, now) && !(ts matches
            TimeSpec::Interval { .. }),
        ensures
            final(self).wf(),
            final(self)@ == spec_apply(old(self)@, *cmd, now.secs as int),
    {
        match cmd {
            Command::ResumeLast(_) => {},
            Command::StartActivity(ts, activity) => {
                match ts {
                    TimeSpec::Interval { from, to } => {
                        match TimeTrackingItem::interval(*from, *to, activity.clone()) {
                            Ok(item) => self.insert_item(item),
                            Err(_) => {
                                proof {
                                    assert(false);
                                }
                            },
                        }
                    },
                    _ => {
                        let at = ts.to_date_time(now);
                        self.insert_item(TimeTrackingItem::starting_at(at, activity.clone()));
                    },
                }
            },
            Command::Fin(ts) => {
                let latest = match self.query_latest() {
                    Some(item) => Some(item.duplicate()),
                    None => None,
                };
                match latest {
                    None => {},
                    Some(mut item) => {
                        let end = ts.to_date_time(now).truncated();
                        if item.start.secs <= end.secs {
                            let deleted = self.delete_item(&item);
                            proof {
                                assert(deleted is Ok);
                            }
                            item.end = Ending::At(end);
                            self.insert_item(item);
                        }
                    },
                }
            },
        }
    }

    /// The chronologically last interval: the store's last element, or
    /// none if the store is empty.
    pub fn query_latest(&self) -> (r: Option<&TimeTrackingItem>)
        ensures
            r is None <==> self@.len() == 0,
            r matches Some(item) ==> item@ == self@[self@.len() - 1],
            self.wf() ==> (r matches Some(item) ==> item.wf()),
    {
        if self.items.len() == 0 {
            None
        } else {
            Some(&self.items[self.items.len() - 1])
        }
    }

    /// All intervals, most recent first.
    pub fn query(&self) -> (r: Vec<&TimeTrackingItem>)
        ensures
            r@.len() == self@.len(),
            forall|j: int| 0 <= j < r@.len() ==> (#[trigger] r@[j])@ == self@[self@.len() - 1 - j],
    {
        let n = self.items.len();
        let mut r: Vec<&TimeTrackingItem> = Vec::new();
        let mut j: usize = 0;
        while j < n
            invariant
                n == self.items@.len(),
                0 <= j <= n,
                r@.len() == j,
                forall|k: int| 0 <= k < j ==> (#[trigger] r@[k])@ == self@[n - 1 - k],
            decreases n - j,
        {
            r.push(&self.items[n - 1 - j]);
            j += 1;
        }
        r
    }

    /// The most recent intervals, newest first, at most `limit` of them.
    pub fn query_n(&self, limit: usize) -> (r: Vec<&TimeTrackingItem>)
        ensures
            r@.len() == vstd::math::min(limit as int, self@.len() as int),
            forall|j: int| 0 <= j < r@.len() ==> (#[trigger] r@[j])@ == self@[self@.len() - 1 - j],
    {
        let n = self.items.len();
        let count = if limit < n {
            limit
        } else {
            n
        };
        let mut r: Vec<&TimeTrackingItem> = Vec::new();
        let mut j: usize = 0;
        while j < count
            invariant
                n == self.items@.len(),
                count <= n,
                0 <= j <= count,
                r@.len() == j,
                forall|k: int| 0 <= k < j ==> (#[trigger] r@[k])@ == self@[n - 1 - k],
            decreases count - j,
        {
            r.push(&self.items[n - 1 - j]);
            j += 1;
        }
        r
    }
}

} // verus!
