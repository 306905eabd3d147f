//! The store's laws: the order invariant is preserved by both mutations,
//! an exactly covering insertion replaces the covered interval, an
//! insertion strictly inside an open interval splits it, deleting the
//! last interval never extends a predecessor, and the last interval is
//! the chronological maximum.

use vstd::prelude::*;

use crate::store::clip_end;
use crate::store::clip_start;
use crate::store::find_match;
use crate::store::first_end_gt;
use crate::store::first_end_not_lt;
use crate::store::lemma_find_match;
use crate::store::lemma_first_end_gt;
use crate::store::lemma_first_end_not_lt;
use crate::store::resolve_right;
use crate::store::spec_delete;
use crate::store::spec_insert;
use crate::store::store_inv;
use crate::tti::end_le_end;
use crate::tti::end_le_ts;
use crate::tti::end_lt_ts;
use crate::tti::secs_in_range;
use crate::tti::ts_lt_end;
use crate::tti::EndModel;
use crate::tti::ItemModel;

verus! {

/// In an invariant store, every interval ends at or before every later
/// interval begins, not just its immediate successor.
pub proof fn lemma_store_inv_spread(s: Seq<ItemModel>)
    requires
        store_inv(s),
    ensures
        forall|k: int, l: int|
            0 <= k < l < s.len() ==> end_le_ts((#[trigger] s[k]).end, (#[trigger] s[l]).start),
{
    assert forall|k: int, l: int| 0 <= k < l < s.len() implies end_le_ts(
        (#[trigger] s[k]).end,
        (#[trigger] s[l]).start,
    ) by {
        lemma_spread_step(s, k, l);
    }
}

proof fn lemma_spread_step(s: Seq<ItemModel>, k: int, l: int)
    requires
        store_inv(s),
        0 <= k < l < s.len(),
    ensures
        end_le_ts(s[k].end, s[l].start),
    decreases l - k,
{
    if k + 1 < l {
        lemma_spread_step(s, k + 1, l);
        // s[k + 1] cannot be open-ended: something follows it.
        assert(end_le_ts(s[k + 1].end, s[k + 2].start));
    }
}

/// The invariant carries over to any suffix of the store.
pub proof fn lemma_inv_suffix(s: Seq<ItemModel>, from: int)
    requires
        store_inv(s),
        0 <= from <= s.len(),
    ensures
        store_inv(s.skip(from)),
{
    assert forall|i: int| 0 <= i < s.skip(from).len() implies (#[trigger] s.skip(from)[i]).wf() by {
        assert(s.skip(from)[i] == s[i + from]);
    }
    assert forall|i: int| 0 <= i && i + 1 < s.skip(from).len() implies end_le_ts(
        (#[trigger] s.skip(from)[i]).end,
        s.skip(from)[i + 1].start,
    ) by {
        assert(s.skip(from)[i] == s[i + from]);
        assert(s.skip(from)[i + 1] == s[i + from + 1]);
    }
}

/// The invariant carries over to any prefix of the store.
pub proof fn lemma_inv_prefix(s: Seq<ItemModel>, to: int)
    requires
        store_inv(s),
        0 <= to <= s.len(),
    ensures
        store_inv(s.take(to)),
{
    assert forall|i: int| 0 <= i < s.take(to).len() implies (#[trigger] s.take(to)[i]).wf() by {
        assert(s.take(to)[i] == s[i]);
    }
    assert forall|i: int| 0 <= i && i + 1 < s.take(to).len() implies end_le_ts(
        (#[trigger] s.take(to)[i]).end,
        s.take(to)[i + 1].start,
    ) by {
        assert(s.take(to)[i] == s[i]);
        assert(s.take(to)[i + 1] == s[i + 1]);
    }
}

/// Two invariant stores in a row form one invariant store when the first
/// ends at or before the second begins.
pub proof fn lemma_inv_concat(a: Seq<ItemModel>, b: Seq<ItemModel>)
    requires
        store_inv(a),
        store_inv(b),
        a.len() > 0 && b.len() > 0 ==> end_le_ts(a[a.len() - 1].end, b[0].start),
    ensures
        store_inv(a + b),
{
    let c = a + b;
    assert forall|i: int| 0 <= i < c.len() implies (#[trigger] c[i]).wf() by {
        if i < a.len() {
            assert(c[i] == a[i]);
        } else {
            assert(c[i] == b[i - a.len()]);
        }
    }
    assert forall|i: int| 0 <= i && i + 1 < c.len() implies end_le_ts(
        (#[trigger] c[i]).end,
        c[i + 1].start,
    ) by {
        if i + 1 < a.len() {
            assert(c[i] == a[i] && c[i + 1] == a[i + 1]);
        } else if i + 1 == a.len() {
            assert(c[i] == a[i] && c[i + 1] == b[0]);
        } else {
            assert(c[i] == b[i - a.len()] && c[i + 1] == b[i + 1 - a.len()]);
        }
    }
}

/// The position of the interval that ends up immediately after a newly
/// inserted `x`, in the indexing of the store before the insertion.
pub open spec fn follower_idx(s: Seq<ItemModel>, x: ItemModel) -> int {
    let i = first_end_not_lt(s, x.start);
    if i == s.len() {
        i
    } else {
        let e = s[i];
        if e.start < x.start && ts_lt_end(x.start, e.end) {
            i + 1
        } else if x.start <= e.start && end_le_end(e.end, x.end) {
            i + 1
        } else if end_le_ts(e.end, x.start) {
            i + 1
        } else {
            i
        }
    }
}

/// Inserting `x` keeps the store's order invariant exactly when no
/// interval strictly after `x`'s eventual follower both begins before
/// `x`'s closed end and reaches past it. The one arrangement this
/// excludes: a fully covered interval standing between `x` and a later
/// interval that straddles `x`'s end, which the removal of covered
/// intervals would expose without clipping it.
pub open spec fn insert_safe(s: Seq<ItemModel>, x: ItemModel) -> bool {
    match x.end {
        EndModel::Open => true,
        EndModel::At(xe) => forall|j: int|
            follower_idx(s, x) < j < s.len() && (#[trigger] s[j]).start < xe ==> end_le_end(
                s[j].end,
                x.end,
            ),
    }
}

/// What `resolve_right` keeps of an invariant tail is again invariant,
/// and starts no earlier than the closed end `xe` it was resolved
/// against.
proof fn lemma_resolve_right_inv(rest: Seq<ItemModel>, xe: int)
    requires
        store_inv(rest),
        secs_in_range(xe),
        forall|j: int|
            1 <= j < rest.len() && (#[trigger] rest[j]).start < xe ==> end_le_end(
                rest[j].end,
                EndModel::At(xe),
            ),
    ensures
        store_inv(resolve_right(rest, EndModel::At(xe))),
        resolve_right(rest, EndModel::At(xe)).len() > 0 ==> xe <= resolve_right(
            rest,
            EndModel::At(xe),
        )[0].start,
{
    let e = EndModel::At(xe);
    let clipped = if rest.len() > 0 && rest[0].start < xe && ts_lt_end(xe, rest[0].end) {
        rest.update(0, clip_start(rest[0], xe))
    } else {
        rest
    };
    assert(store_inv(clipped));
    let d = first_end_gt(clipped, e);
    lemma_first_end_gt(clipped, e);
    let r = clipped.skip(d);
    lemma_inv_suffix(clipped, d);
    assert(resolve_right(rest, e) == r);
    if r.len() > 0 {
        assert(r[0] == clipped[d]);
        assert(!end_le_end(clipped[d].end, e));
        if clipped != rest {
            // The head was clipped forward to xe, so its end reaches past
            // xe and the removal stops at it immediately.
            assert(!end_le_end(clipped[0].end, e));
            assert(d == 0);
        } else {
            if d == 0 {
                // The head was not clipped: since its end reaches past
                // xe, it cannot begin before xe.
                assert(!(rest[0].start < xe && ts_lt_end(xe, rest[0].end)));
                assert(ts_lt_end(xe, rest[0].end));
            } else {
                // A later interval ending past xe beginning before xe
                // would be the excluded arrangement.
                assert(rest[d].start < xe ==> end_le_end(rest[d].end, e));
            }
        }
        assert(xe <= r[0].start);
    }
}

/// Law: inserting a valid interval into a store that satisfies the order
/// invariant yields a store that satisfies it again, for every insertion
/// that `insert_safe` admits.
pub proof fn lemma_insert_preserves_inv(s: Seq<ItemModel>, x: ItemModel)
    requires
        store_inv(s),
        x.wf(),
        insert_safe(s, x),
    ensures
        store_inv(spec_insert(s, x)),
{
    lemma_first_end_not_lt(s, x.start);
    lemma_store_inv_spread(s);
    let i = first_end_not_lt(s, x.start);
    let r = spec_insert(s, x);
    if i == s.len() {
        assert forall|a: int| 0 <= a && a + 1 < r.len() implies end_le_ts(
            (#[trigger] r[a]).end,
            r[a + 1].start,
        ) by {
            if a + 1 == s.len() {
                assert(end_lt_ts(s[a].end, x.start));
            }
        }
        assert(store_inv(r));
    } else {
        let e = s[i];
        if e.start < x.start && ts_lt_end(x.start, e.end) {
            lemma_insert_inv_left_overlap(s, x);
        } else if x.start <= e.start && end_le_end(e.end, x.end) {
            lemma_insert_inv_with_right(s, x, i, s.take(i).push(x), i + 1);
        } else if end_le_ts(e.end, x.start) {
            lemma_insert_inv_with_right(s, x, i + 1, s.take(i + 1).push(x), i + 1);
        } else {
            // The found interval begins at or after x and reaches past
            // x's closed end: x goes in front of it.
            assert(!(e.start < x.start) || end_le_ts(e.end, x.start)) by {
                if e.start < x.start && !end_le_ts(e.end, x.start) {
                    assert(ts_lt_end(x.start, e.end));
                }
            }
            assert(x.start <= e.start);
            assert(!end_le_end(e.end, x.end));
            assert(x.end is At);
            lemma_insert_inv_with_right(s, x, i, s.take(i).push(x), i);
        }
    }
}

/// The partial-left-overlap branch of `lemma_insert_preserves_inv`.
#[verifier::rlimit(100)]
proof fn lemma_insert_inv_left_overlap(s: Seq<ItemModel>, x: ItemModel)
    requires
        store_inv(s),
        x.wf(),
        insert_safe(s, x),
        first_end_not_lt(s, x.start) < s.len(),
        s[first_end_not_lt(s, x.start)].start < x.start,
        ts_lt_end(x.start, s[first_end_not_lt(s, x.start)].end),
    ensures
        store_inv(spec_insert(s, x)),
{
    lemma_first_end_not_lt(s, x.start);
    let i = first_end_not_lt(s, x.start);
    let e = s[i];
    let clip = clip_end(e, x.start);
    let r = spec_insert(s, x);
    lemma_inv_prefix(s, i);
    assert(clip.wf());
    assert(store_inv(seq![clip, x])) by {
        assert(seq![clip, x][0] == clip && seq![clip, x][1] == x);
    }
    if i > 0 {
        assert(s.take(i)[i - 1] == s[i - 1]);
        assert(end_le_ts(s[i - 1].end, e.start));
    }
    lemma_inv_concat(s.take(i), seq![clip, x]);
    let pre1 = s.take(i) + seq![clip, x];
    assert(s.take(i).push(clip).push(x) =~= pre1);
    assert(pre1[pre1.len() - 1] == x);
    match x.end {
        EndModel::At(xe) if ts_lt_end(xe, e.end) => {
            // A remainder of e is kept after x; everything further stays.
            let rem = clip_start(e, xe);
            let rest = seq![rem] + s.skip(i + 1);
            assert(rest[0] == rem);
            assert(!end_le_end(rest[0].end, x.end));
            assert(first_end_gt(rest, x.end) == 0);
            assert(resolve_right(rest, x.end) == rest.skip(0));
            assert(rest.skip(0) =~= rest);
            assert(r == pre1 + rest);
            assert(rem.wf());
            assert(store_inv(seq![rem])) by {
                assert(seq![rem][0] == rem);
            }
            lemma_inv_suffix(s, i + 1);
            if i + 1 < s.len() {
                assert(end_le_ts(e.end, s[i + 1].start));
                assert(s.skip(i + 1)[0] == s[i + 1]);
            }
            lemma_inv_concat(seq![rem], s.skip(i + 1));
            lemma_inv_concat(pre1, rest);
            assert(store_inv(r));
        },
        _ => {
            let b = resolve_right(s.skip(i + 1), x.end);
            assert(r == pre1 + b);
            lemma_inv_suffix(s, i + 1);
            match x.end {
                EndModel::Open => {
                    assert(b == Seq::<ItemModel>::empty());
                    assert(pre1 + b =~= pre1);
                    assert(store_inv(r));
                },
                EndModel::At(xe) => {
                    assert forall|j: int|
                        1 <= j < s.skip(i + 1).len() && (#[trigger] s.skip(i + 1)[j]).start
                            < xe implies end_le_end(s.skip(i + 1)[j].end, EndModel::At(xe)) by {
                        assert(s.skip(i + 1)[j] == s[i + 1 + j]);
                        assert(follower_idx(s, x) == i + 1);
                    }
                    lemma_resolve_right_inv(s.skip(i + 1), xe);
                    lemma_inv_concat(pre1, b);
                    assert(store_inv(r));
                },
            }
        },
    }
}

/// The common shape of the remaining branches: the result is a prefix
/// ending in `x` followed by the resolved right side starting at `from`.
proof fn lemma_insert_inv_with_right(
    s: Seq<ItemModel>,
    x: ItemModel,
    keep: int,
    pre: Seq<ItemModel>,
    from: int,
)
    requires
        store_inv(s),
        x.wf(),
        insert_safe(s, x),
        first_end_not_lt(s, x.start) < s.len(),
        keep == first_end_not_lt(s, x.start) || keep == first_end_not_lt(s, x.start) + 1,
        keep < from + 1,
        from <= s.len(),
        pre == s.take(keep).push(x),
        spec_insert(s, x) == pre + resolve_right(s.skip(from), x.end),
        follower_idx(s, x) == from,
        keep == first_end_not_lt(s, x.start) + 1 ==> end_le_ts(
            s[first_end_not_lt(s, x.start)].end,
            x.start,
        ),
    ensures
        store_inv(spec_insert(s, x)),
{
    lemma_first_end_not_lt(s, x.start);
    let i = first_end_not_lt(s, x.start);
    let r = spec_insert(s, x);
    let b = resolve_right(s.skip(from), x.end);
    lemma_inv_prefix(s, keep);
    assert(store_inv(seq![x])) by {
        assert(seq![x][0] == x);
    }
    if keep > 0 {
        assert(s.take(keep)[keep - 1] == s[keep - 1]);
        if keep == i {
            assert(end_lt_ts(s[keep - 1].end, x.start));
        }
        assert(end_le_ts(s[keep - 1].end, x.start));
    }
    lemma_inv_concat(s.take(keep), seq![x]);
    let pre1 = s.take(keep) + seq![x];
    assert(pre =~= pre1);
    assert(pre1[pre1.len() - 1] == x);
    lemma_inv_suffix(s, from);
    match x.end {
        EndModel::Open => {
            assert(b == Seq::<ItemModel>::empty());
            assert(pre1 + b =~= pre1);
            assert(store_inv(r));
        },
        EndModel::At(xe) => {
            assert forall|j: int|
                1 <= j < s.skip(from).len() && (#[trigger] s.skip(from)[j]).start < xe implies
                end_le_end(s.skip(from)[j].end, EndModel::At(xe)) by {
                assert(s.skip(from)[j] == s[from + j]);
            }
            lemma_resolve_right_inv(s.skip(from), xe);
            lemma_inv_concat(pre1, b);
            assert(store_inv(r));
        },
    }
}

/// Law: deleting an interval from a store that satisfies the order
/// invariant yields a store that satisfies it again, whether or not the
/// deletion closes a gap.
pub proof fn lemma_delete_preserves_inv(s: Seq<ItemModel>, t: ItemModel)
    requires
        store_inv(s),
    ensures
        store_inv(spec_delete(s, t)),
{
    lemma_find_match(s, t);
    lemma_store_inv_spread(s);
    let i = find_match(s, t);
    let r = spec_delete(s, t);
    if i < s.len() {
        let removed = s.remove(i);
        assert forall|a: int| 0 <= a && a + 1 < removed.len() implies end_le_ts(
            (#[trigger] removed[a]).end,
            removed[a + 1].start,
        ) by {
            if a + 1 < i {
                assert(removed[a] == s[a] && removed[a + 1] == s[a + 1]);
            } else if a + 1 == i {
                assert(removed[a] == s[a] && removed[a + 1] == s[i + 1]);
            } else {
                assert(removed[a] == s[a + 1] && removed[a + 1] == s[a + 2]);
            }
        }
        assert forall|a: int| 0 <= a < removed.len() implies (#[trigger] removed[a]).wf() by {
            if a < i {
                assert(removed[a] == s[a]);
            } else {
                assert(removed[a] == s[a + 1]);
            }
        }
        if crate::store::delete_merges(s, i) {
            let merged = ItemModel { end: t.end, ..s[i - 1] };
            assert(r == removed.update(i - 1, merged));
            assert(s[i] == t);
            assert(merged.wf());
            assert forall|a: int| 0 <= a && a + 1 < r.len() implies end_le_ts(
                (#[trigger] r[a]).end,
                r[a + 1].start,
            ) by {
                if a + 1 == i - 1 {
                    assert(r[a] == removed[a] && r[a + 1].start == s[i - 1].start);
                } else if a == i - 1 {
                    assert(r[a].end == t.end && r[a + 1] == s[i + 1]);
                } else {
                    assert(r[a] == removed[a] && r[a + 1] == removed[a + 1]);
                }
            }
            assert forall|a: int| 0 <= a < r.len() implies (#[trigger] r[a]).wf() by {
                if a != i - 1 {
                    assert(r[a] == removed[a]);
                }
            }
            assert(store_inv(r));
        } else {
            assert(r == removed);
        }
    }
}

/// Law: inserting an interval that exactly covers a stored one, with no
/// zero-length neighbor sitting on either boundary, removes the covered
/// interval and leaves exactly the new one in its place.
pub proof fn lemma_insert_exact_cover(s: Seq<ItemModel>, x: ItemModel, i: int)
    requires
        store_inv(s),
        x.wf(),
        0 <= i < s.len(),
        s[i].start == x.start,
        s[i].end == x.end,
        i > 0 ==> s[i - 1].start < x.start,
        i + 1 < s.len() ==> !end_le_end(s[i + 1].end, x.end),
    ensures
        spec_insert(s, x) == s.update(i, x),
{
    lemma_first_end_not_lt(s, x.start);
    lemma_store_inv_spread(s);
    // Everything before i - 1 ends strictly before x.start; s[i] itself
    // does not, so the insertion lands at i or at a predecessor that ends
    // exactly at x.start.
    assert forall|k: int| 0 <= k < i - 1 implies end_lt_ts((#[trigger] s[k]).end, x.start) by {
        assert(end_le_ts(s[k].end, s[i - 1].start));
    }
    assert(!end_lt_ts(s[i].end, x.start));
    if i == 0 || end_lt_ts(s[i - 1].end, x.start) {
        assert(first_end_not_lt(s, x.start) == i);
        lemma_exact_cover_at(s, x, i);
    } else {
        assert(s[i - 1].end == EndModel::At(x.start)) by {
            assert(end_le_ts(s[i - 1].end, s[i].start));
        }
        assert(first_end_not_lt(s, x.start) == i - 1);
        lemma_exact_cover_after_touch(s, x, i);
    }
}

/// The case of `lemma_insert_exact_cover` where the scan stops at the
/// covered interval itself: it is dropped as superseded and x takes its
/// place.
proof fn lemma_exact_cover_at(s: Seq<ItemModel>, x: ItemModel, i: int)
    requires
        store_inv(s),
        x.wf(),
        0 <= i < s.len(),
        s[i].start == x.start,
        s[i].end == x.end,
        i + 1 < s.len() ==> !end_le_end(s[i + 1].end, x.end),
        first_end_not_lt(s, x.start) == i,
    ensures
        spec_insert(s, x) == s.update(i, x),
{
    let b = resolve_right(s.skip(i + 1), x.end);
    assert(spec_insert(s, x) == s.take(i).push(x) + b);
    match x.end {
        EndModel::Open => {
            // An open-ended interval is last under the invariant.
            if i + 1 < s.len() {
                assert(end_le_ts(s[i].end, s[i + 1].start));
            }
            assert(s.skip(i + 1) =~= Seq::<ItemModel>::empty());
            assert(b == Seq::<ItemModel>::empty());
        },
        EndModel::At(xe) => {
            let rest = s.skip(i + 1);
            if rest.len() > 0 {
                assert(rest[0] == s[i + 1]);
                assert(end_le_ts(s[i].end, s[i + 1].start));
                assert(!(rest[0].start < xe));
                assert(first_end_gt(rest, x.end) == 0);
                assert(b == rest.skip(0));
                assert(rest.skip(0) =~= rest);
            } else {
                lemma_first_end_gt(rest, x.end);
                assert(b =~= rest);
            }
        },
    }
    assert(spec_insert(s, x) =~= s.update(i, x));
}

/// The case of `lemma_insert_exact_cover` where the predecessor ends
/// exactly at x.start: the scan stops there, x slots in after it, and
/// the covered interval is dropped by the right-side resolution.
proof fn lemma_exact_cover_after_touch(s: Seq<ItemModel>, x: ItemModel, i: int)
    requires
        store_inv(s),
        x.wf(),
        0 < i < s.len(),
        s[i].start == x.start,
        s[i].end == x.end,
        s[i - 1].start < x.start,
        s[i - 1].end == EndModel::At(x.start),
        i + 1 < s.len() ==> !end_le_end(s[i + 1].end, x.end),
        first_end_not_lt(s, x.start) == i - 1,
    ensures
        spec_insert(s, x) == s.update(i, x),
{
    let e = s[i - 1];
    assert(!(e.start < x.start && ts_lt_end(x.start, e.end)));
    assert(!(x.start <= e.start));
    assert(end_le_ts(e.end, x.start));
    let rest = s.skip(i);
    let b = resolve_right(rest, x.end);
    assert(spec_insert(s, x) == s.take(i).push(x) + b);
    assert(rest[0] == s[i as int]);
    match x.end {
        EndModel::Open => {
            // An open-ended interval is last under the invariant.
            if i + 1 < s.len() {
                assert(end_le_ts(s[i].end, s[i + 1].start));
            }
            assert(b == Seq::<ItemModel>::empty());
        },
        EndModel::At(xe) => {
            assert(!ts_lt_end(xe, rest[0].end));
            assert(end_le_end(rest[0].end, x.end));
            if rest.len() > 1 {
                assert(rest[1] == s[i + 1]);
                assert(!end_le_end(rest[1].end, x.end));
                assert(first_end_gt(rest, x.end) == 1) by {
                    lemma_first_end_gt(rest, x.end);
                    if first_end_gt(rest, x.end) == 0 {
                        assert(end_le_end(rest[0].end, x.end));
                    }
                    if first_end_gt(rest, x.end) > 1 {
                        assert(end_le_end(rest[1].end, x.end));
                    }
                }
                assert(b == rest.skip(1));
            } else {
                lemma_first_end_gt(rest, x.end);
                assert(first_end_gt(rest, x.end) == 1);
                assert(b == rest.skip(1));
            }
            assert(rest.skip(1) =~= s.skip(i + 1));
        },
    }
    assert(spec_insert(s, x) =~= s.update(i, x));
}

/// Law: inserting a closed interval strictly inside the span of the only
/// stored interval, an open-ended one, splits it: the old interval
/// survives as a left portion ending where the new one starts and a right
/// portion starting where it ends.
pub proof fn lemma_insert_splits_open(s: Seq<ItemModel>, x: ItemModel, xe: int)
    requires
        store_inv(s),
        x.wf(),
        s.len() == 1,
        s[0].end == EndModel::Open,
        s[0].start < x.start,
        x.end == EndModel::At(xe),
    ensures
        spec_insert(s, x) == seq![clip_end(s[0], x.start), x, clip_start(s[0], xe)],
{
    lemma_first_end_not_lt(s, x.start);
    let i0 = first_end_not_lt(s, x.start);
    assert(i0 == 0);
    let e = s[0];
    assert(e.start < x.start && ts_lt_end(x.start, e.end));
    assert(ts_lt_end(xe, e.end));
    let rest = seq![clip_start(e, xe)] + s.skip(1);
    assert(rest =~= seq![clip_start(e, xe)]);
    assert(!end_le_end(rest[0].end, x.end));
    assert(first_end_gt(rest, x.end) == 0);
    assert(resolve_right(rest, x.end) == rest.skip(0));
    assert(rest.skip(0) =~= rest);
    assert(spec_insert(s, x) =~= seq![clip_end(s[0], x.start), x, clip_start(s[0], xe)]);
}

/// Law: deleting the last interval of the store never extends a
/// predecessor; the rest of the store is exactly what it was.
pub proof fn lemma_delete_last_no_merge(s: Seq<ItemModel>, t: ItemModel)
    requires
        s.len() > 0,
        find_match(s, t) == s.len() - 1,
    ensures
        spec_delete(s, t) == s.drop_last(),
{
    lemma_find_match(s, t);
    assert(!crate::store::delete_merges(s, s.len() - 1));
    assert(s.remove(s.len() - 1) =~= s.drop_last());
}

/// Law: the common case of continuous tracking — inserting an interval
/// that begins at or after the end of the last stored one, and strictly
/// after its start, is always admitted by `insert_safe` and simply
/// appends.
pub proof fn lemma_insert_append(s: Seq<ItemModel>, x: ItemModel)
    requires
        store_inv(s),
        x.wf(),
        s.len() > 0 ==> end_le_ts(s[s.len() - 1].end, x.start) && s[s.len() - 1].start < x.start,
    ensures
        insert_safe(s, x),
        spec_insert(s, x) == s.push(x),
{
    lemma_first_end_not_lt(s, x.start);
    lemma_store_inv_spread(s);
    let i = first_end_not_lt(s, x.start);
    let last = s.len() - 1;
    assert forall|k: int| 0 <= k < last implies end_lt_ts((#[trigger] s[k]).end, x.start) by {
        assert(end_le_ts(s[k].end, s[last].start));
    }
    if i < s.len() {
        assert(i == last);
        let e = s[i];
        assert(!(e.start < x.start && ts_lt_end(x.start, e.end)));
        assert(!(x.start <= e.start));
        assert(end_le_ts(e.end, x.start));
        assert(s.skip(i + 1) =~= Seq::<ItemModel>::empty());
        match x.end {
            EndModel::Open => {
                assert(resolve_right(s.skip(i + 1), x.end) == Seq::<ItemModel>::empty());
            },
            EndModel::At(_) => {
                lemma_first_end_gt(s.skip(i + 1), x.end);
                assert(resolve_right(s.skip(i + 1), x.end) =~= Seq::<ItemModel>::empty());
            },
        }
        assert(spec_insert(s, x) =~= s.push(x));
        assert(follower_idx(s, x) == s.len());
    }
}

/// Intervals in nondecreasing order of start.
pub open spec fn sorted_by_start(s: Seq<ItemModel>) -> bool {
    forall|i: int| 0 <= i && i + 1 < s.len() ==> (#[trigger] s[i]).start <= s[i + 1].start
}

/// Law: what loading establishes — the store built from a persisted
/// collection is sorted by start, whatever order the collection came in.
pub proof fn lemma_sort_by_start_sorted(s: Seq<ItemModel>)
    ensures
        sorted_by_start(crate::store::sort_by_start(s)),
    decreases s.len(),
{
    if s.len() > 0 {
        lemma_sort_by_start_sorted(s.drop_last());
        lemma_insert_sorted_keeps_order(crate::store::sort_by_start(s.drop_last()), s.last());
    }
}

proof fn lemma_insert_sorted_keeps_order(s: Seq<ItemModel>, x: ItemModel)
    requires
        sorted_by_start(s),
    ensures
        sorted_by_start(crate::store::insert_sorted(s, x)),
{
    crate::store::lemma_first_start_gt(s, x.start);
    crate::store::lemma_insert_sorted_shape(s, x);
    let p = crate::store::first_start_gt(s, x.start);
    let r = crate::store::insert_sorted(s, x);
    assert forall|i: int| 0 <= i && i + 1 < r.len() implies (#[trigger] r[i]).start <= r[i
        + 1].start by {
        if i + 1 < p {
            assert(r[i] == s[i] && r[i + 1] == s[i + 1]);
        } else if i + 1 == p {
            assert(r[i] == s[i] && r[i + 1] == x);
        } else if i == p {
            assert(r[i] == x && r[i + 1] == s[p]);
        } else {
            assert(r[i] == s[i - 1] && r[i + 1] == s[i]);
        }
    }
}

/// Law: in a store that satisfies the order invariant, the last interval
/// has the greatest start, and the greatest ending in the total order on
/// endings, of all stored intervals: what `query_latest` returns is what
/// a linear scan for the maximum would find.
pub proof fn lemma_latest_is_max(s: Seq<ItemModel>)
    requires
        store_inv(s),
        s.len() > 0,
    ensures
        forall|j: int| 0 <= j < s.len() ==> (#[trigger] s[j]).start <= s[s.len() - 1].start,
        forall|j: int|
            0 <= j < s.len() ==> end_le_end((#[trigger] s[j]).end, s[s.len() - 1].end),
{
    lemma_store_inv_spread(s);
    let last = s.len() - 1;
    assert forall|j: int| 0 <= j < s.len() implies (#[trigger] s[j]).start <= s[last].start by {
        if j < last {
            assert(end_le_ts(s[j].end, s[last].start));
            assert(s[j].wf());
        }
    }
    assert forall|j: int| 0 <= j < s.len() implies end_le_end(
        (#[trigger] s[j]).end,
        s[last].end,
    ) by {
        if j < last {
            assert(end_le_ts(s[j].end, s[last].start));
            assert(s[last].wf());
        }
    }
}

} // verus!
