//! The activity tab: the entry field, the filtered history underneath,
//! and the tracked-time sums, driven by one mode state machine.

use vstd::prelude::*;

use crate::commands::Command;
use crate::component::Consumed;
use crate::component::KeyCode;
use crate::component::KeyEvent;
use crate::history_list::HistoryListFrame;
use crate::history_list::HistoryListState;
use crate::history_list::HistoryModel;
use crate::history_list::HistoryStateModel;
use crate::history_list::spec_selection;
use crate::store::models;
use crate::string_ext::chars_of;
use crate::string_ext::string_from_chars;
use crate::textfield::spec_handle;
use crate::textfield::split_lines;
use crate::textfield::TextFieldState;
use crate::textfield::TextModel;
use crate::tti::ItemModel;
use crate::tti::TimeTrackingItem;
use crate::tti::Timestamp;
use crate::tti::ts_lt_end;

verus! {

#[verifier::external_type_specification]
#[verifier::external_body]
pub struct ExRegex(regex::Regex);

/// The escaped form of a pattern text, as the regex engine escapes it.
/// The result depends on the text alone.
pub uninterp spec fn rx_escaped(s: Seq<char>) -> Seq<char>;

/// Whether the compiled pattern finds a match in the text. The result
/// depends on the pattern and the text alone.
pub uninterp spec fn rx_found(pattern: Seq<char>, text: Seq<char>) -> bool;

/// Relies on `regex::escape`: the escaped text is a function of the
/// input text.
#[verifier::external_body]
fn regex_escape(s: &str) -> (r: String)
    ensures
        r@ == rx_escaped(s@),
{
    regex::escape(s)
}

/// A compiled pattern, remembering the text it was compiled from.
pub struct Matcher {
    re: regex::Regex,
    pattern: Ghost<Seq<char>>,
}

impl Matcher {
    /// The pattern text this matcher was compiled from.
    pub closed spec fn spec_pattern(&self) -> Seq<char> {
        self.pattern@
    }
}

/// Relies on `regex::Regex::new`: whether a pattern compiles depends on
/// the pattern alone.
#[verifier::external_body]
fn regex_new_raw(pattern: &str) -> (r: Option<regex::Regex>) {
    regex::Regex::new(pattern).ok()
}

/// Compile a pattern, keeping the pattern text beside the compiled
/// engine.
fn matcher_new(pattern: &str) -> (r: Option<Matcher>)
    ensures
        r matches Some(m) ==> m.spec_pattern() == pattern@,
{
    match regex_new_raw(pattern) {
        Some(re) => Some(Matcher { re, pattern: Ghost(pattern@) }),
        None => None,
    }
}

/// Relies on `regex::Regex::find`: whether the pattern occurs in the
/// text is a function of the pattern and the text.
#[verifier::external_body]
fn matcher_find(m: &Matcher, text: &str) -> (b: bool)
    ensures
        b == rx_found(m.spec_pattern(), text@),
{
    m.re.find(text).is_some()
}

/// The intervals whose label the pattern matches, in their given order.
pub open spec fn rx_filter(s: Seq<ItemModel>, pattern: Seq<char>) -> Seq<ItemModel>
    decreases s.len(),
{
    if s.len() == 0 {
        Seq::empty()
    } else {
        let p = rx_filter(s.drop_last(), pattern);
        if rx_found(pattern, s.last().activity) {
            p.push(s.last())
        } else {
            p
        }
    }
}

/// The pause pattern: activities it matches do not count as work.
pub open spec fn pause_pattern() -> Seq<char> {
    "(?i).*pause.*"@
}

/// The tracked time of the intervals, newest first, that end after the
/// boundary instant: open intervals run until `now`, and pause
/// activities count only when the pause pattern was unavailable
/// (`use_rx` false).
pub open spec fn spec_work_time(s: Seq<ItemModel>, now: int, boundary: int, use_rx: bool) -> int
    decreases s.len(),
{
    if s.len() == 0 {
        0
    } else if !ts_lt_end(boundary, s[0].end) {
        0
    } else {
        (if use_rx && rx_found(pause_pattern(), s[0].activity) {
            0
        } else {
            crate::daily_report::item_duration(s[0], now)
        }) + spec_work_time(s.drop_first(), now, boundary, use_rx)
    }
}

/// Which part of the tab reacts to keys.
pub ghost enum ModeModel {
    Normal,
    EnteringActivity,
    SearchHistory,
}

#[derive(PartialEq, Eq, Structural, Clone, Copy, Debug)]
enum Mode {
    Normal,
    EnteringActivity,
    SearchHistory,
}

impl Mode {
    spec fn model(self) -> ModeModel {
        match self {
            Mode::Normal => ModeModel::Normal,
            Mode::EnteringActivity => ModeModel::EnteringActivity,
            Mode::SearchHistory => ModeModel::SearchHistory,
        }
    }
}

/// The activity tab between draws.
pub struct ActivityTabState {
    activity_field: TextFieldState,
    history_list: HistoryListState,
    mode: Mode,
    filter_field: TextFieldState,
}

impl ActivityTabState {
    pub open spec fn wf(self) -> bool {
        self.spec_activity_field().wf() && self.spec_filter_field().wf()
    }

    pub closed spec fn spec_activity_field(self) -> TextFieldState {
        self.activity_field
    }

    pub closed spec fn spec_filter_field(self) -> TextFieldState {
        self.filter_field
    }

    pub closed spec fn spec_mode(self) -> ModeModel {
        self.mode.model()
    }

    pub closed spec fn spec_history(self) -> HistoryStateModel {
        self.history_list@
    }

    /// A fresh tab: empty fields, history at the top, normal mode.
    pub fn new() -> (r: ActivityTabState)
        ensures
            r.wf(),
            r.spec_mode() == ModeModel::Normal,
            r.spec_activity_field()@.lines == Seq::<Seq<char>>::empty(),
            r.spec_filter_field()@.lines == Seq::<Seq<char>>::empty(),
            r.spec_history() == (HistoryStateModel { scroll_y: 0, selected: None }),
    {
        ActivityTabState {
            activity_field: TextFieldState::new(),
            history_list: HistoryListState::new(),
            mode: Mode::Normal,
            filter_field: TextFieldState::new(),
        }
    }
}

/// The activity tab during one draw.
pub struct ActivityTabFrame {
    activity_field: TextFieldState,
    history_list: HistoryListFrame,
    mode: Mode,
    filter_field: TextFieldState,
    work_time_today: i64,
    work_time_week: i64,
}

impl ActivityTabFrame {
    pub open spec fn wf(self) -> bool {
        self.spec_activity_field().wf() && self.spec_filter_field().wf()
    }

    pub closed spec fn spec_activity_field(self) -> TextFieldState {
        self.activity_field
    }

    pub closed spec fn spec_filter_field(self) -> TextFieldState {
        self.filter_field
    }

    pub closed spec fn spec_mode(self) -> ModeModel {
        self.mode.model()
    }

    pub closed spec fn spec_history(self) -> HistoryModel {
        self.history_list@
    }

    pub closed spec fn spec_work_today(self) -> int {
        self.work_time_today as int
    }

    pub closed spec fn spec_work_week(self) -> int {
        self.work_time_week as int
    }

    /// The tracked time today and this week, in seconds.
    pub fn work_times(&self) -> (r: (i64, i64))
        ensures
            r.0 as int == self.spec_work_today(),
            r.1 as int == self.spec_work_week(),
    {
        (self.work_time_today, self.work_time_week)
    }
}

impl crate::component::Frame<ActivityTabState> for ActivityTabFrame {
    fn into_state(self) -> ActivityTabState {
        ActivityTabState {
            activity_field: self.activity_field,
            history_list: self.history_list.into_state(),
            mode: self.mode,
            filter_field: self.filter_field,
        }
    }
}

impl ActivityTabState {
    /// The tab for one draw: the history filtered by the search text,
    /// and the time tracked since the start of the day and of the week.
    ///
    /// When the search text does not compile as a pattern the history is
    /// left unfiltered, and when the pause pattern is unavailable the
    /// sums count every activity; both outcomes are covered below.
    pub fn into_frame(
        self,
        items: &Vec<TimeTrackingItem>,
        now: Timestamp,
        start_of_day: Timestamp,
        start_of_week: Timestamp,
    ) -> (r: ActivityTabFrame)
        requires
            self.wf(),
            forall|k: int| 0 <= k < items@.len() ==> (#[trigger] items@[k]).wf(),
            crate::tti::secs_in_range(now.secs as int),
            crate::tti::secs_in_range(start_of_day.secs as int),
            crate::tti::secs_in_range(start_of_week.secs as int),
            items@.len() <= 400_000,
        ensures
            r.wf(),
            r.spec_mode() == self.spec_mode(),
            r.spec_activity_field() == self.spec_activity_field(),
            r.spec_filter_field() == self.spec_filter_field(),
            r.spec_history().state == self.spec_history(),
            crate::textfield::joined(self.spec_filter_field()@.lines).len() > 0
                ==> (r.spec_history().items == rx_filter(
                models(items@),
                "(?i)"@ + rx_escaped(crate::textfield::joined(self.spec_filter_field()@.lines)),
            ) || r.spec_history().items == models(items@)),
            crate::textfield::joined(self.spec_filter_field()@.lines).len() == 0
                ==> r.spec_history().items == models(items@),
            (r.spec_work_today() == spec_work_time(
                models(items@),
                now.secs as int,
                start_of_day.secs as int,
                true,
            ) || r.spec_work_today() == spec_work_time(
                models(items@),
                now.secs as int,
                start_of_day.secs as int,
                false,
            )),
            (r.spec_work_week() == spec_work_time(
                models(items@),
                now.secs as int,
                start_of_week.secs as int,
                true,
            ) || r.spec_work_week() == spec_work_time(
                models(items@),
                now.secs as int,
                start_of_week.secs as int,
                false,
            )),
    {
        let filter = self.filter_field.get_text();
        let filtered: Vec<TimeTrackingItem> = if filter.as_str().unicode_len() > 0 {
            let escaped = regex_escape(filter.as_str());
            let mut pat_chars: Vec<char> = Vec::new();
            pat_chars.push('(');
            pat_chars.push('?');
            pat_chars.push('i');
            pat_chars.push(')');
            let escaped_chars = chars_of(escaped.as_str());
            let mut pc: usize = 0;
            let en = escaped_chars.len();
            while pc < en
                invariant
                    en == escaped_chars@.len(),
                    0 <= pc <= en,
                    pat_chars@ == seq!['(', '?', 'i', ')'] + escaped_chars@.take(pc as int),
                decreases en - pc,
            {
                pat_chars.push(escaped_chars[pc]);
                proof {
                    assert(pat_chars@ =~= seq!['(', '?', 'i', ')'] + escaped_chars@.take(pc + 1));
                }
                pc += 1;
            }
            let pattern = string_from_chars(&pat_chars);
            proof {
                assert(pattern@ =~= "(?i)"@ + rx_escaped(filter@)) by {
                    reveal_strlit("(?i)");
                    assert(escaped_chars@.take(en as int) =~= escaped_chars@);
                    assert(seq!['(', '?', 'i', ')'] =~= "(?i)"@);
                }
            }
            match matcher_new(pattern.as_str()) {
                Some(m) => {
                    let ghost pat = pattern@;
                    let n = items.len();
                    let mut kept: Vec<TimeTrackingItem> = Vec::new();
                    let mut c: usize = 0;
                    proof {
                        assert(models(items@).take(0) =~= Seq::<ItemModel>::empty());
                        assert(rx_filter(Seq::<ItemModel>::empty(), pat) =~= Seq::<
                            ItemModel,
                        >::empty());
                        assert(models(kept@) =~= Seq::<ItemModel>::empty());
                    }
                    while c < n
                        invariant
                            n == items@.len(),
                            forall|k: int| 0 <= k < n ==> (#[trigger] items@[k]).wf(),
                            0 <= c <= n,
                            m.spec_pattern() == pat,
                            models(kept@) == rx_filter(models(items@).take(c as int), pat),
                            forall|k: int| 0 <= k < kept@.len() ==> (#[trigger] kept@[k]).wf(),
                        decreases n - c,
                    {
                        let ghost before = models(kept@);
                        let keep = {
                            let it: &TimeTrackingItem = &items[c];
                            matcher_find(&m, it.activity.as_str())
                        };
                        if keep {
                            kept.push(items[c].duplicate());
                            proof {
                                assert(models(kept@) =~= before.push(items@[c as int]@));
                            }
                        }
                        proof {
                            let upto = models(items@).take(c + 1);
                            assert(upto.drop_last() =~= models(items@).take(c as int));
                            assert(upto.last() == items@[c as int]@);
                        }
                        c += 1;
                    }
                    proof {
                        assert(models(items@).take(n as int) =~= models(items@));
                    }
                    kept
                },
                None => copy_items(items),
            }
        } else {
            copy_items(items)
        };
        let work_time_today = work_time(items, now, start_of_day);
        let work_time_week = work_time(items, now, start_of_week);
        let r = ActivityTabFrame {
            activity_field: self.activity_field,
            history_list: self.history_list.into_frame(filtered),
            mode: self.mode,
            filter_field: self.filter_field,
            work_time_today,
            work_time_week,
        };
        r
    }

}

/// A text field wiped empty.
pub open spec fn cleared_field() -> TextModel {
    TextModel { cursor: (0int, 0int), scroll: (0int, 0int), lines: Seq::empty() }
}

/// The cursor position after jumping to the end of the text.
pub open spec fn end_cursor(lines: Seq<Seq<char>>) -> (int, int) {
    if lines.len() == 0 {
        (0int, 0int)
    } else {
        (lines.last().len() as int, lines.len() - 1)
    }
}

/// A history list scrolled back to the top with nothing selected.
pub open spec fn reset_history(h: HistoryModel) -> HistoryModel {
    HistoryModel { state: HistoryStateModel { scroll_y: 0, selected: None }, ..h }
}

/// Whether the history selection points at an interval.
pub open spec fn history_selection_ok(h: HistoryModel) -> bool {
    match h.state.selected {
        Some(i) => 0 <= i < h.items.len(),
        None => false,
    }
}

/// The selected interval of the history.
pub open spec fn history_selected(h: HistoryModel) -> ItemModel {
    h.items[h.state.selected->Some_0]
}

/// Whether quick-select entry `idx` points at an interval.
pub open spec fn quick_pick_ok(h: HistoryModel, idx: int) -> bool {
    0 <= idx < h.indices.len() && 0 <= h.indices[idx] < h.items.len()
}

/// The interval behind quick-select entry `idx`.
pub open spec fn quick_pick(h: HistoryModel, idx: int) -> ItemModel {
    h.items[h.indices[idx]]
}

/// The whole tab as a mathematical value, except the tracked-time sums,
/// which key handling never touches.
pub ghost struct TabModel {
    pub activity: TextModel,
    pub filter: TextModel,
    pub history: HistoryModel,
    pub mode: ModeModel,
}

/// What key handling answers, beside the new tab value.
pub ghost enum TabOut {
    Consumed,
    NotConsumed,
    Command,
}

/// The activity field set to a label, with the cursor at its end.
pub open spec fn field_with_text(old: TextModel, text: Seq<char>) -> TextModel {
    let lines = split_lines(text);
    TextModel { lines, cursor: end_cursor(lines), scroll: old.scroll }
}

/// The tab's state machine: what one key event, with the parse of the
/// entry text when one is at hand, does to the tab.
///
/// Escape leaves any mode. In normal or search mode, enter takes the
/// selected history entry into the activity field. Normal mode also
/// takes quick-select digits, starts a search on a slash, and opens the
/// entry field on `n` (emptied) or `i`; other keys move the history
/// selection. While entering, a modified enter submits the parsed
/// command and empties the field, and every other key edits the field.
/// While searching, enter returns to normal mode and other keys edit the
/// filter, with the history selection keys acting as well.
pub open spec fn spec_tab_handle(m: TabModel, e: KeyEvent, has_cmd: bool) -> (TabModel, TabOut) {
    if e.code == KeyCode::Esc {
        let m2 = TabModel {
            history: reset_history(m.history),
            filter: cleared_field(),
            mode: ModeModel::Normal,
            ..m
        };
        if !(m.mode is Normal) {
            (m2, TabOut::Consumed)
        } else {
            (m2, TabOut::NotConsumed)
        }
    } else if (m.mode is Normal || m.mode is SearchHistory) && e.code == KeyCode::Enter
        && history_selection_ok(m.history) {
        (
            TabModel {
                mode: ModeModel::EnteringActivity,
                activity: field_with_text(m.activity, history_selected(m.history).activity),
                history: reset_history(m.history),
                ..m
            },
            TabOut::Consumed,
        )
    } else if m.mode is Normal {
        match e.code {
            KeyCode::Char(c) => if '1' <= c && c <= '9' && quick_pick_ok(
                m.history,
                (c as u32) - ('1' as u32),
            ) {
                (
                    TabModel {
                        mode: ModeModel::EnteringActivity,
                        activity: field_with_text(
                            m.activity,
                            quick_pick(m.history, (c as u32) - ('1' as u32)).activity,
                        ),
                        history: reset_history(m.history),
                        ..m
                    },
                    TabOut::Consumed,
                )
            } else if c == '/' {
                (
                    TabModel {
                        history: reset_history(m.history),
                        filter: cleared_field(),
                        mode: ModeModel::SearchHistory,
                        ..m
                    },
                    TabOut::Consumed,
                )
            } else if c == 'n' {
                (
                    TabModel {
                        history: reset_history(m.history),
                        mode: ModeModel::EnteringActivity,
                        activity: cleared_field(),
                        ..m
                    },
                    TabOut::Consumed,
                )
            } else if c == 'i' {
                (
                    TabModel {
                        history: reset_history(m.history),
                        mode: ModeModel::EnteringActivity,
                        ..m
                    },
                    TabOut::Consumed,
                )
            } else {
                (moved_selection(m, e), TabOut::NotConsumed)
            },
            _ => (moved_selection(m, e), TabOut::NotConsumed),
        }
    } else if m.mode is EnteringActivity {
        if (e.code == KeyCode::Enter || e.code == KeyCode::Char('\r')) && (e.ctrl || e.alt) {
            if has_cmd {
                (TabModel { activity: cleared_field(), ..m }, TabOut::Command)
            } else {
                (m, TabOut::NotConsumed)
            }
        } else {
            (TabModel { activity: spec_handle(m.activity, e), ..m }, TabOut::Consumed)
        }
    } else {
        let m2 = moved_selection(m, e);
        if e.code == KeyCode::Enter {
            (TabModel { mode: ModeModel::Normal, ..m2 }, TabOut::Consumed)
        } else {
            (TabModel { filter: spec_handle(m.filter, e), ..m2 }, TabOut::Consumed)
        }
    }
}

/// The tab with only the history selection moved by the event.
pub open spec fn moved_selection(m: TabModel, e: KeyEvent) -> TabModel {
    TabModel {
        history: HistoryModel {
            state: HistoryStateModel {
                selected: spec_selection(m.history, e.code),
                ..m.history.state
            },
            ..m.history
        },
        ..m
    }
}

impl ActivityTabFrame {
    /// The whole tab as a mathematical value.
    pub open spec fn model(self) -> TabModel {
        TabModel {
            activity: self.spec_activity_field()@,
            filter: self.spec_filter_field()@,
            history: self.spec_history(),
            mode: self.spec_mode(),
        }
    }

    /// Apply one key event: exactly `spec_tab_handle` of the tab's
    /// value, the event, and whether `parsed` holds a command. A
    /// submitting event answers with the parsed command itself.
    pub fn handle_event(&mut self, event: KeyEvent, parsed: Option<Command>) -> (r: Consumed)
        requires
            old(self).wf(),
        ensures
            final(self).wf(),
            final(self).model() == spec_tab_handle(
                old(self).model(),
                event,
                parsed is Some,
            ).0,
            final(self).spec_work_today() == old(self).spec_work_today(),
            final(self).spec_work_week() == old(self).spec_work_week(),
            match spec_tab_handle(old(self).model(), event, parsed is Some).1 {
                TabOut::Consumed => r == Consumed::Consumed,
                TabOut::NotConsumed => r == Consumed::NotConsumed,
                TabOut::Command => parsed matches Some(cmd) && r == Consumed::Command(cmd),
            },
    {
        if event.code == KeyCode::Esc {
            self.history_list.reset();
            self.filter_field.clear();
            if !(matches!(self.mode, Mode::Normal)) {
                self.mode = Mode::Normal;
                return Consumed::Consumed;
            }
            self.mode = Mode::Normal;
            return Consumed::NotConsumed;
        }
        if (matches!(self.mode, Mode::Normal) || matches!(self.mode, Mode::SearchHistory))
            && event.code == KeyCode::Enter {
            let sel = self.history_list.get_selected_item();
            match sel {
                Some(item) => {
                    self.mode = Mode::EnteringActivity;
                    self.activity_field.set_text(item.activity.as_str());
                    self.activity_field.end();
                    self.history_list.reset();
                    return Consumed::Consumed;
                },
                None => {},
            }
        }
        match self.mode {
            Mode::Normal => {
                match event.code {
                    KeyCode::Char(c) => {
                        if ('1' as u32) <= (c as u32) && (c as u32) <= ('9' as u32) {
                            let idx = ((c as u32) - ('1' as u32)) as usize;
                            match self.history_list.get_item_with_index(idx) {
                                Some(item) => {
                                    self.mode = Mode::EnteringActivity;
                                    self.activity_field.set_text(item.activity.as_str());
                                    self.activity_field.end();
                                    self.history_list.reset();
                                    Consumed::Consumed
                                },
                                None => self.history_list.handle_event(event),
                            }
                        } else if c == '/' {
                            self.history_list.reset();
                            self.filter_field.clear();
                            self.mode = Mode::SearchHistory;
                            Consumed::Consumed
                        } else if c == 'n' {
                            self.history_list.reset();
                            self.mode = Mode::EnteringActivity;
                            self.activity_field.clear();
                            Consumed::Consumed
                        } else if c == 'i' {
                            self.history_list.reset();
                            self.mode = Mode::EnteringActivity;
                            Consumed::Consumed
                        } else {
                            self.history_list.handle_event(event)
                        }
                    },
                    _ => self.history_list.handle_event(event),
                }
            },
            Mode::EnteringActivity => {
                if (event.code == KeyCode::Enter || event.code == KeyCode::Char('\r'))
                    && (event.ctrl || event.alt) {
                    match parsed {
                        Some(cmd) => {
                            self.activity_field.clear();
                            Consumed::Command(cmd)
                        },
                        None => Consumed::NotConsumed,
                    }
                } else {
                    self.activity_field.handle_event(event)
                }
            },
            Mode::SearchHistory => {
                let _moved = self.history_list.handle_event(event);
                if event.code == KeyCode::Enter {
                    self.mode = Mode::Normal;
                    Consumed::Consumed
                } else {
                    self.filter_field.handle_event(event)
                }
            },
        }
    }
}

/// A field-for-field copy of the interval list.
fn copy_items(items: &Vec<TimeTrackingItem>) -> (r: Vec<TimeTrackingItem>)
    ensures
        r@ == items@,
        models(r@) == models(items@),
{
    let n = items.len();
    let mut copy: Vec<TimeTrackingItem> = Vec::new();
    let mut c: usize = 0;
    while c < n
        invariant
            n == items@.len(),
            0 <= c <= n,
            copy@ == items@.take(c as int),
        decreases n - c,
    {
        copy.push(items[c].duplicate());
        proof {
            assert(copy@ =~= items@.take(c + 1));
        }
        c += 1;
    }
    proof {
        assert(copy@ =~= items@);
    }
    copy
}

/// The tracked time of the intervals ending after `boundary`, with pause
/// activities excluded when the pause pattern compiles.
fn work_time(items: &Vec<TimeTrackingItem>, now: Timestamp, boundary: Timestamp) -> (r: i64)
    requires
        forall|k: int| 0 <= k < items@.len() ==> (#[trigger] items@[k]).wf(),
        crate::tti::secs_in_range(now.secs as int),
        crate::tti::secs_in_range(boundary.secs as int),
        items@.len() <= 400_000,
    ensures
        r as int == spec_work_time(models(items@), now.secs as int, boundary.secs as int, true)
            || r as int == spec_work_time(
            models(items@),
            now.secs as int,
            boundary.secs as int,
            false,
        ),
{
    let pause = matcher_new("(?i).*pause.*");
    let ghost use_rx = pause is Some;
    let ghost ms = models(items@);
    let ghost bnd = boundary.secs as int;
    let n = items.len();
    let mut acc: i64 = 0;
    let mut c: usize = 0;
    let mut stopped = false;
    proof {
        assert(ms.skip(0) =~= ms);
        if pause is Some {
            reveal_strlit("(?i).*pause.*");
        }
    }
    while c < n && !stopped
        invariant
            n == items@.len(),
            ms == models(items@),
            forall|k: int| 0 <= k < n ==> (#[trigger] items@[k]).wf(),
            crate::tti::secs_in_range(now.secs as int),
            crate::tti::secs_in_range(bnd),
            n <= 400_000,
            bnd == boundary.secs as int,
            0 <= c <= n,
            use_rx == (pause is Some),
            pause matches Some(m) ==> m.spec_pattern() == pause_pattern(),
            !stopped ==> spec_work_time(ms, now.secs as int, bnd, use_rx) == acc as int
                + spec_work_time(ms.skip(c as int), now.secs as int, bnd, use_rx),
            stopped ==> spec_work_time(ms, now.secs as int, bnd, use_rx) == acc as int,
            -((c as int) * 16_000_000_000_000) <= acc as int <= (c as int) * 16_000_000_000_000,
        decreases n - c + (if stopped { 0int } else { 1int }),
    {
        let ghost tail = ms.skip(c as int);
        proof {
            assert(tail[0] == items@[c as int]@);
            assert(tail.drop_first() =~= ms.skip(c + 1));
            assert(items@[c as int].wf());
        }
        let past_boundary = {
            let it: &TimeTrackingItem = &items[c];
            it.end.gt_ts(&boundary)
        };
        if !past_boundary {
            stopped = true;
        } else {
            let skip_item = match &pause {
                Some(m) => {
                    let it: &TimeTrackingItem = &items[c];
                    matcher_find(m, it.activity.as_str())
                },
                None => false,
            };
            if !skip_item {
                let d = {
                    let it: &TimeTrackingItem = &items[c];
                    let e = match it.end {
                        crate::tti::Ending::Open => now.secs,
                        crate::tti::Ending::At(t) => t.secs,
                    };
                    e - it.start.secs
                };
                proof {
                    assert(d as int == crate::daily_report::item_duration(
                        ms[c as int],
                        now.secs as int,
                    ));
                }
                acc = acc + d;
            }
            c += 1;
        }
    }
    proof {
        if !stopped {
            assert(ms.skip(n as int) =~= Seq::<ItemModel>::empty());
        }
    }
    acc
}

/// The activity tab's draw entry point; painting lives with the
/// terminal layer.
pub struct ActivityTab;

} // verus!
