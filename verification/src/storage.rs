//! The persisted line format: one interval per line, a fixed-width
//! timestamp (or two, for a closed interval), a space, and the label with
//! backslashes and newlines escaped.
//!
//! The timestamp text itself comes from the calendar formatter, named by
//! `fmt_ymdhms` / `parse_ymdhms`; everything around it is verified
//! character work.

use vstd::prelude::*;

use crate::string_ext::chars_of;
use crate::string_ext::string_from_chars;
use crate::tti::secs_in_range;
use crate::tti::EndModel;
use crate::tti::ItemError;
use crate::tti::ItemErrorKind;
use crate::tti::ItemModel;
use crate::tti::TimeTrackingItem;
use crate::tti::Timestamp;

verus! {

/// The text of the instant `secs` in the calendar form
/// `%Y-%m-%d_%H:%M:%S`. The result depends on the seconds alone.
pub uninterp spec fn fmt_ymdhms(secs: int) -> Seq<char>;

/// The instant a text in the calendar form `%Y-%m-%d_%H:%M:%S` denotes,
/// if it is well formed. The result depends on the text alone.
pub uninterp spec fn parse_ymdhms(s: Seq<char>) -> Option<i64>;

/// Relies on chrono's `DateTime::from_timestamp` and `NaiveDateTime`
/// formatting with the fixed format string `%Y-%m-%d_%H:%M:%S`: within
/// chrono's calendar range the call succeeds and the text is a function
/// of the seconds alone.
#[verifier::external_body]
fn format_timestamp(secs: i64) -> (r: String)
    requires
        secs_in_range(secs as int),
    ensures
        r@ == fmt_ymdhms(secs as int),
{
    let dt = chrono::DateTime::<chrono::Utc>::from_timestamp(secs, 0).unwrap().naive_utc();
    dt.format("%Y-%m-%d_%H:%M:%S").to_string()
}

/// Relies on chrono's `NaiveDateTime::parse_from_str` with the fixed
/// format string `%Y-%m-%d_%H:%M:%S`: success and value are a function of
/// the text alone.
#[verifier::external_body]
fn parse_timestamp(s: &str) -> (r: Option<i64>)
    ensures
        r == parse_ymdhms(s@),
{
    chrono::NaiveDateTime::parse_from_str(s, "%Y-%m-%d_%H:%M:%S")
        .ok()
        .map(|dt| dt.and_utc().timestamp())
}

/// `s` with every non-overlapping occurrence of `pat` replaced by `rep`,
/// scanning from the left, as `str::replace` does. A pattern of no
/// characters changes nothing.
pub open spec fn replace_seq(s: Seq<char>, pat: Seq<char>, rep: Seq<char>) -> Seq<char>
    decreases s.len(),
{
    if pat.len() == 0 {
        s
    } else if s.len() < pat.len() {
        s
    } else if s.take(pat.len() as int) == pat {
        rep + replace_seq(s.skip(pat.len() as int), pat, rep)
    } else {
        seq![s[0]] + replace_seq(s.drop_first(), pat, rep)
    }
}

/// A label as it stands in a storage line: backslashes doubled, then
/// newlines written as a backslash and an `n`.
pub open spec fn escaped(a: Seq<char>) -> Seq<char> {
    replace_seq(replace_seq(a, seq!['\\'], seq!['\\', '\\']), seq!['\n'], seq!['\\', 'n'])
}

/// A storage-line label read back: a backslash and an `n` become a
/// newline, then doubled backslashes become one.
pub open spec fn unescaped(a: Seq<char>) -> Seq<char> {
    replace_seq(replace_seq(a, seq!['\\', 'n'], seq!['\n']), seq!['\\', '\\'], seq!['\\'])
}

/// Replace each occurrence of the two characters `p0 p1` by `q`.
fn replace_pair(v: &Vec<char>, p0: char, p1: char, q: char) -> (r: Vec<char>)
    ensures
        r@ == replace_seq(v@, seq![p0, p1], seq![q]),
{
    let ghost pat = seq![p0, p1];
    let ghost rep = seq![q];
    let n = v.len();
    let mut r: Vec<char> = Vec::new();
    let mut i: usize = 0;
    proof {
        assert(v@.skip(0) =~= v@);
        assert(r@ + replace_seq(v@, pat, rep) =~= replace_seq(v@, pat, rep));
    }
    while i < n
        invariant
            n == v@.len(),
            0 <= i <= n,
            pat == seq![p0, p1],
            rep == seq![q],
            replace_seq(v@, pat, rep) == r@ + replace_seq(v@.skip(i as int), pat, rep),
        decreases n - i,
    {
        let ghost tail = v@.skip(i as int);
        let ghost r0 = r@;
        if i + 1 < n && v[i] == p0 && v[i + 1] == p1 {
            proof {
                assert(tail.take(2) =~= pat);
                assert(tail.skip(2) =~= v@.skip(i + 2));
                assert(replace_seq(tail, pat, rep) == rep + replace_seq(v@.skip(i + 2), pat, rep));
            }
            r.push(q);
            i += 2;
            proof {
                assert(r@ =~= r0 + rep);
                assert((r0 + rep) + replace_seq(v@.skip(i as int), pat, rep) =~= r0 + (rep
                    + replace_seq(v@.skip(i as int), pat, rep)));
            }
        } else {
            proof {
                assert(tail[0] == v@[i as int]);
                if tail.len() >= 2 {
                    assert(tail.take(2) =~= seq![v@[i as int], v@[i + 1]]);
                    assert(tail.take(2) != pat);
                }
                assert(tail.drop_first() =~= v@.skip(i + 1));
                assert(replace_seq(tail, pat, rep) == seq![v@[i as int]] + replace_seq(
                    v@.skip(i + 1),
                    pat,
                    rep,
                ));
            }
            r.push(v[i]);
            i += 1;
            proof {
                assert(r@ =~= r0 + seq![v@[i - 1]]);
                assert((r0 + seq![v@[i - 1]]) + replace_seq(v@.skip(i as int), pat, rep) =~= r0 + (
                seq![v@[i - 1]] + replace_seq(v@.skip(i as int), pat, rep)));
            }
        }
    }
    proof {
        assert(v@.skip(n as int) =~= Seq::<char>::empty());
        assert(replace_seq(v@, pat, rep) =~= r@);
    }
    r
}

/// Replace each occurrence of the character `p` by the two characters
/// `q0 q1`.
fn replace_single(v: &Vec<char>, p: char, q0: char, q1: char) -> (r: Vec<char>)
    ensures
        r@ == replace_seq(v@, seq![p], seq![q0, q1]),
{
    let ghost pat = seq![p];
    let ghost rep = seq![q0, q1];
    let n = v.len();
    let mut r: Vec<char> = Vec::new();
    let mut i: usize = 0;
    proof {
        assert(v@.skip(0) =~= v@);
        assert(r@ + replace_seq(v@, pat, rep) =~= replace_seq(v@, pat, rep));
    }
    while i < n
        invariant
            n == v@.len(),
            0 <= i <= n,
            pat == seq![p],
            rep == seq![q0, q1],
            replace_seq(v@, pat, rep) == r@ + replace_seq(v@.skip(i as int), pat, rep),
        decreases n - i,
    {
        let ghost tail = v@.skip(i as int);
        let ghost r0 = r@;
        proof {
            assert(tail.take(1) =~= seq![v@[i as int]]);
            assert(tail.skip(1) =~= v@.skip(i + 1));
            assert(tail.drop_first() =~= v@.skip(i + 1));
        }
        if v[i] == p {
            proof {
                assert(tail.take(1) == pat);
                assert(replace_seq(tail, pat, rep) == rep + replace_seq(v@.skip(i + 1), pat, rep));
            }
            r.push(q0);
            r.push(q1);
            proof {
                assert(r@ =~= r0 + rep);
                assert((r0 + rep) + replace_seq(v@.skip(i + 1), pat, rep) =~= r0 + (rep
                    + replace_seq(v@.skip(i + 1), pat, rep)));
            }
        } else {
            proof {
                assert(tail.take(1)[0] == v@[i as int] && pat[0] == p);
                assert(tail.take(1) != pat);
                assert(replace_seq(tail, pat, rep) == seq![v@[i as int]] + replace_seq(
                    v@.skip(i + 1),
                    pat,
                    rep,
                ));
            }
            r.push(v[i]);
            proof {
                assert(r@ =~= r0 + seq![v@[i as int]]);
                assert((r0 + seq![v@[i as int]]) + replace_seq(v@.skip(i + 1), pat, rep) =~= r0 + (
                seq![v@[i as int]] + replace_seq(v@.skip(i + 1), pat, rep)));
            }
        }
        i += 1;
    }
    proof {
        assert(v@.skip(n as int) =~= Seq::<char>::empty());
        assert(replace_seq(v@, pat, rep) =~= r@);
    }
    r
}

/// A storage-line label read back into a `String`.
fn unescape_str(s: &str) -> (r: String)
    ensures
        r@ == unescaped(s@),
{
    let cs = chars_of(s);
    let a = replace_pair(&cs, '\\', 'n', '\n');
    let b = replace_pair(&a, '\\', '\\', '\\');
    string_from_chars(&b)
}

/// The interval value a storage line denotes, or why it denotes none.
///
/// The first nineteen characters must parse as the start instant. When
/// characters twenty to thirty-nine parse as an instant too, the line is
/// a closed interval and the label follows from character forty;
/// otherwise it is open-ended and the label follows from character
/// twenty. A missing label is `ActivityMissing`, an unparsable or
/// out-of-range instant is `BadFormat`, and a closed end before the
/// start is `StartAfterEnd`.
pub open spec fn spec_parse_line(s: Seq<char>) -> Result<ItemModel, ItemError> {
    if s.len() < 19 {
        Err(ItemError(ItemErrorKind::BadFormat))
    } else {
        match parse_ymdhms(s.subrange(0, 19)) {
            Option::None => Err(ItemError(ItemErrorKind::BadFormat)),
            Option::Some(st) => if !secs_in_range(st as int) {
                Err(ItemError(ItemErrorKind::BadFormat))
            } else {
                let e = if s.len() >= 39 {
                    parse_ymdhms(s.subrange(20, 39))
                } else {
                    Option::None
                };
                match e {
                    Option::Some(en) => if s.len() < 40 {
                        Err(ItemError(ItemErrorKind::ActivityMissing))
                    } else if !secs_in_range(en as int) {
                        Err(ItemError(ItemErrorKind::BadFormat))
                    } else if en < st {
                        Err(ItemError(ItemErrorKind::StartAfterEnd))
                    } else {
                        Ok(
                            ItemModel {
                                start: st as int,
                                end: EndModel::At(en as int),
                                activity: unescaped(s.skip(40)),
                            },
                        )
                    },
                    Option::None => if s.len() < 20 {
                        Err(ItemError(ItemErrorKind::ActivityMissing))
                    } else {
                        Ok(
                            ItemModel {
                                start: st as int,
                                end: EndModel::Open,
                                activity: unescaped(s.skip(20)),
                            },
                        )
                    },
                }
            },
        }
    }
}

impl TimeTrackingItem {
    /// Read one storage line back into an interval: exactly
    /// `spec_parse_line` of its characters.
    pub fn parse_line(s: &str) -> (r: Result<TimeTrackingItem, ItemError>)
        ensures
            spec_parse_line(s@) matches Err(e) ==> r == Err::<TimeTrackingItem, ItemError>(e),
            spec_parse_line(s@) matches Ok(m) ==> r matches Ok(item) && item@ == m && item.wf(),
    {
        let n = s.unicode_len();
        if n < 19 {
            return Err(ItemError(ItemErrorKind::BadFormat));
        }
        let st = match parse_timestamp(s.substring_char(0, 19)) {
            Some(v) => v,
            None => {
                return Err(ItemError(ItemErrorKind::BadFormat));
            },
        };
        if st < crate::tti::MIN_SECS || st > crate::tti::MAX_SECS {
            return Err(ItemError(ItemErrorKind::BadFormat));
        }
        let end_opt = if n >= 39 {
            parse_timestamp(s.substring_char(20, 39))
        } else {
            None
        };
        match end_opt {
            Some(en) => {
                if n < 40 {
                    return Err(ItemError(ItemErrorKind::ActivityMissing));
                }
                if en < crate::tti::MIN_SECS || en > crate::tti::MAX_SECS {
                    return Err(ItemError(ItemErrorKind::BadFormat));
                }
                if en < st {
                    return Err(ItemError(ItemErrorKind::StartAfterEnd));
                }
                let activity = unescape_str(s.substring_char(40, n));
                match TimeTrackingItem::interval(
                    Timestamp::new(st, 0),
                    Timestamp::new(en, 0),
                    activity,
                ) {
                    Ok(item) => Ok(item),
                    Err(e) => {
                        proof {
                            assert(false);
                        }
                        Err(e)
                    },
                }
            },
            None => {
                if n < 20 {
                    return Err(ItemError(ItemErrorKind::ActivityMissing));
                }
                let activity = unescape_str(s.substring_char(20, n));
                Ok(TimeTrackingItem::starting_at(Timestamp::new(st, 0), activity))
            },
        }
    }
}

impl core::str::FromStr for TimeTrackingItem {
    type Err = ItemError;

    /// Read one storage line back into an interval; see `parse_line`.
    fn from_str(s: &str) -> Result<TimeTrackingItem, ItemError> {
        TimeTrackingItem::parse_line(s)
    }
}

/// The storage line of the interval value `m`: start instant, for a
/// closed interval the end instant, then the escaped label, separated by
/// single spaces.
pub open spec fn spec_storage_line(m: ItemModel) -> Seq<char> {
    match m.end {
        EndModel::Open => fmt_ymdhms(m.start) + seq![' '] + escaped(m.activity),
        EndModel::At(e) => fmt_ymdhms(m.start) + seq![' '] + fmt_ymdhms(e) + seq![' ']
            + escaped(m.activity),
    }
}

impl TimeTrackingItem {
    /// This interval as one line of the storage format.
    pub fn to_storage_line(&self) -> (r: String)
        requires
            self.wf(),
        ensures
            r@ == spec_storage_line(self@),
    {
        let mut out: Vec<char> = Vec::new();
        let start_text = format_timestamp(self.start.secs);
        let start_chars = chars_of(start_text.as_str());
        let mut k: usize = 0;
        let ns = start_chars.len();
        while k < ns
            invariant
                ns == start_chars@.len(),
                0 <= k <= ns,
                out@ == start_chars@.take(k as int),
            decreases ns - k,
        {
            out.push(start_chars[k]);
            proof {
                assert(out@ =~= start_chars@.take(k + 1));
            }
            k += 1;
        }
        proof {
            assert(out@ =~= fmt_ymdhms(self@.start));
        }
        out.push(' ');
        match &self.end {
            crate::tti::Ending::At(e) => {
                let end_text = format_timestamp(e.secs);
                let end_chars = chars_of(end_text.as_str());
                let ghost mid = fmt_ymdhms(self@.start) + seq![' '];
                let mut k2: usize = 0;
                let ne = end_chars.len();
                proof {
                    assert(out@ =~= mid);
                }
                while k2 < ne
                    invariant
                        ne == end_chars@.len(),
                        0 <= k2 <= ne,
                        out@ == mid + end_chars@.take(k2 as int),
                    decreases ne - k2,
                {
                    out.push(end_chars[k2]);
                    proof {
                        assert(out@ =~= mid + end_chars@.take(k2 + 1));
                    }
                    k2 += 1;
                }
                out.push(' ');
            },
            crate::tti::Ending::Open => {},
        }
        let activity_chars = chars_of(self.activity.as_str());
        let doubled = replace_single(&activity_chars, '\\', '\\', '\\');
        let escaped_chars = replace_single(&doubled, '\n', '\\', 'n');
        let ghost head = out@;
        let mut k3: usize = 0;
        let na = escaped_chars.len();
        while k3 < na
            invariant
                na == escaped_chars@.len(),
                0 <= k3 <= na,
                out@ == head + escaped_chars@.take(k3 as int),
            decreases na - k3,
        {
            out.push(escaped_chars[k3]);
            proof {
                assert(out@ =~= head + escaped_chars@.take(k3 + 1));
            }
            k3 += 1;
        }
        proof {
            assert(out@ =~= spec_storage_line(self@));
        }
        string_from_chars(&out)
    }
}

} // verus!
