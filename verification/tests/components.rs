use chrono::TimeZone;
use stt::activity_tab::ActivityTabState;
use stt::commands::Command;
use stt::commands::TimeSpec;
use stt::component::Consumed;
use stt::daily_report::CopyRequest;
use stt::daily_report::DurationActivityListState;
use stt::component::Frame;
use stt::component::KeyCode;
use stt::component::KeyEvent;
use stt::daily_report::DailyReportState;
use stt::date_picker::DatePickerState;
use stt::format::duration_to_string;
use stt::history_list::HistoryListState;
use stt::store::IntervalStore;
use stt::string_ext::StringExt;
use stt::textfield::TextField;
use stt::textfield::TextFieldState;
use stt::tti::TimeTrackingItem;
use stt::tti::Timestamp;

fn local(y: i32, mo: u32, d: u32, h: u32, mi: u32, s: u32) -> Timestamp {
    let dt = chrono::Local.with_ymd_and_hms(y, mo, d, h, mi, s).unwrap();
    Timestamp::new(dt.naive_utc().and_utc().timestamp(), 0)
}

fn interval(a: Timestamp, b: Timestamp, activity: &str) -> TimeTrackingItem {
    TimeTrackingItem::interval(a, b, activity.to_string()).unwrap()
}

fn key(code: KeyCode) -> KeyEvent {
    KeyEvent::plain(code)
}

fn type_text(field: &mut TextFieldState, text: &str) {
    for c in text.chars() {
        field.handle_event(key(KeyCode::Char(c)));
    }
}

#[test]
fn textfield_types_and_reads_back() {
    let mut field = TextFieldState::new();
    type_text(&mut field, "hello");
    assert_eq!("hello", field.get_text());
    assert!(field.has_text());
}

#[test]
fn textfield_enter_splits_lines() {
    let mut field = TextFieldState::new();
    type_text(&mut field, "ab");
    field.handle_event(key(KeyCode::Left));
    field.handle_event(key(KeyCode::Enter));
    assert_eq!("a\nb", field.get_text());
    type_text(&mut field, "c");
    assert_eq!("a\ncb", field.get_text());
}

#[test]
fn textfield_backspace_joins_lines() {
    let mut field = TextFieldState::new();
    field.set_text("ab\ncd");
    field.end();
    field.handle_event(key(KeyCode::Home));
    field.handle_event(key(KeyCode::Backspace));
    assert_eq!("abcd", field.get_text());
}

#[test]
fn textfield_delete_removes_at_cursor() {
    let mut field = TextFieldState::new();
    field.set_text("abc");
    field.end();
    field.handle_event(key(KeyCode::Left));
    field.handle_event(key(KeyCode::Delete));
    assert_eq!("ab", field.get_text());
}

#[test]
fn textfield_set_text_splits_on_newlines() {
    let mut field = TextFieldState::new();
    field.set_text("one\ntwo\r\nthree\n");
    assert_eq!("one\ntwo\nthree", field.get_text());
    field.clear();
    assert!(!field.has_text());
    assert_eq!("", field.get_text());
}

#[test]
fn string_ext_edits_by_character() {
    let mut s = "abc".to_string();
    assert_eq!(3, s.char_len());
    s.insert_char(1, 'x');
    assert_eq!("axbc", s);
    let removed = s.remove_char(2);
    assert_eq!('b', removed);
    assert_eq!("axc", s);
    let (front, back) = s.split_at_char(1);
    assert_eq!(("a", "xc"), (front, back));
    let (all, nothing) = s.split_at_char(9);
    assert_eq!(("axc", ""), (all, nothing));
}

#[test]
fn history_list_moves_selection_and_picks_items() {
    let a = interval(
        local(2020, 10, 10, 10, 0, 0),
        local(2020, 10, 10, 11, 0, 0),
        "alpha",
    );
    let b = interval(
        local(2020, 10, 10, 11, 0, 0),
        local(2020, 10, 10, 12, 0, 0),
        "beta",
    );
    let mut frame = HistoryListState::new().into_frame(vec![a.clone(), b.clone()]);
    frame.set_show_indices(true);
    let highlight = frame.prepare(10);
    assert_eq!(None, highlight);
    assert_eq!(Some(a.clone()), frame.get_item_with_index(0));
    assert_eq!(Some(b.clone()), frame.get_item_with_index(1));
    assert_eq!(None, frame.get_item_with_index(2));
    assert_eq!(
        Consumed::NotConsumed,
        frame.handle_event(key(KeyCode::Down))
    );
    assert_eq!(Some(a.clone()), frame.get_selected_item());
    frame.handle_event(key(KeyCode::Down));
    let highlight = frame.prepare(10);
    assert_eq!(Some(1), highlight);
    assert_eq!(Some(b.clone()), frame.get_selected_item());
    frame.reset();
    assert_eq!(None, frame.get_selected_item());
}

#[test]
fn history_list_indices_skip_repeated_activities() {
    let a = interval(
        local(2020, 10, 10, 10, 0, 0),
        local(2020, 10, 10, 11, 0, 0),
        "same",
    );
    let b = interval(
        local(2020, 10, 10, 11, 0, 0),
        local(2020, 10, 10, 12, 0, 0),
        "same",
    );
    let c = interval(
        local(2020, 10, 10, 12, 0, 0),
        local(2020, 10, 10, 13, 0, 0),
        "other",
    );
    let mut frame = HistoryListState::new().into_frame(vec![a.clone(), b, c.clone()]);
    frame.set_show_indices(true);
    frame.prepare(10);
    assert_eq!(Some(a), frame.get_item_with_index(0));
    assert_eq!(Some(c), frame.get_item_with_index(1));
    assert_eq!(None, frame.get_item_with_index(2));
}

#[test]
fn date_picker_moves_by_day_and_week() {
    let mut picker = DatePickerState::new(100);
    assert_eq!(
        Consumed::Consumed,
        picker.handle_event(key(KeyCode::Right))
    );
    assert_eq!(101, picker.get_selected());
    picker.handle_event(key(KeyCode::Down));
    assert_eq!(108, picker.get_selected());
    picker.handle_event(key(KeyCode::Up));
    picker.handle_event(key(KeyCode::Left));
    assert_eq!(100, picker.get_selected());
    assert_eq!(
        Consumed::NotConsumed,
        picker.handle_event(key(KeyCode::Enter))
    );
    picker.set_selected(7);
    assert_eq!(7, picker.get_selected());
}

#[test]
fn duration_renders_hours_minutes_seconds() {
    assert_eq!("1:02:03", duration_to_string(3723));
    assert_eq!("0:00:00", duration_to_string(0));
    assert_eq!("27:46:39", duration_to_string(99999));
}

#[test]
fn daily_report_aggregates_one_day() {
    let day = local(2020, 10, 10, 0, 0, 0).day();
    let items = vec![
        interval(
            local(2020, 10, 11, 9, 0, 0),
            local(2020, 10, 11, 10, 0, 0),
            "elsewhere",
        ),
        interval(
            local(2020, 10, 10, 11, 0, 0),
            local(2020, 10, 10, 12, 1, 0),
            "writing",
        ),
        interval(
            local(2020, 10, 10, 9, 0, 0),
            local(2020, 10, 10, 10, 0, 0),
            "writing",
        ),
    ];
    let report = DailyReportState::new(day);
    let now = local(2020, 10, 12, 0, 0, 0);
    let frame = report.into_frame(&items, now);
    let state = frame.into_state();
    assert_eq!(day, state.date_picker_state.get_selected());
}

#[test]
fn daily_report_copy_requests_follow_selection() {
    let items = vec![interval(
        local(2020, 10, 10, 9, 0, 0),
        local(2020, 10, 10, 10, 2, 0),
        "writing",
    )];
    let now = local(2020, 10, 10, 12, 0, 0);
    let mut frame = DurationActivityListState::new().into_frame(&items, now);
    let (consumed, copied) = frame.handle_event(key(KeyCode::Char('1')));
    assert_eq!(Consumed::Consumed, consumed);
    // 62 minutes round to the nearest five: one hour.
    assert_eq!(Some(CopyRequest::Duration(3600)), copied);
    frame.handle_event(key(KeyCode::Down));
    let (_, copied) = frame.handle_event(key(KeyCode::Char('a')));
    assert_eq!(Some(CopyRequest::Activity("writing".to_string())), copied);
    let (_, copied) = frame.handle_event(key(KeyCode::Char('s')));
    assert_eq!(
        Some(CopyRequest::StartTime(local(2020, 10, 10, 9, 0, 0))),
        copied
    );
    let (_, copied) = frame.handle_event(key(KeyCode::Char('e')));
    assert_eq!(
        Some(CopyRequest::EndTime(local(2020, 10, 10, 10, 2, 0))),
        copied
    );
    let (consumed, copied) = frame.handle_event(key(KeyCode::Char('z')));
    assert_eq!(Consumed::NotConsumed, consumed);
    assert_eq!(None, copied);
}

#[test]
fn activity_tab_filters_history_by_search_text() {
    let items = vec![
        interval(
            local(2020, 10, 10, 10, 0, 0),
            local(2020, 10, 10, 11, 0, 0),
            "deep work",
        ),
        interval(
            local(2020, 10, 10, 11, 0, 0),
            local(2020, 10, 10, 12, 0, 0),
            "Pause",
        ),
    ];
    let now = local(2020, 10, 10, 12, 0, 0);
    let sod = local(2020, 10, 10, 0, 0, 0);
    let sow = local(2020, 10, 5, 0, 0, 0);
    let mut tab = ActivityTabState::new();
    let mut frame = tab.into_frame(&items, now, sod, sow);
    frame.handle_event(key(KeyCode::Char('/')), None);
    frame.handle_event(key(KeyCode::Char('d')), None);
    tab = frame.into_state();
    let mut frame = tab.into_frame(&items, now, sod, sow);
    // Only "deep work" matches the filter, and the pause entry does not
    // count toward the tracked hour.
    let (today, week) = frame.work_times();
    assert_eq!(3600, today);
    assert_eq!(3600, week);
    frame.handle_event(key(KeyCode::Esc), None);
    frame.handle_event(key(KeyCode::Char('i')), None);
    let event = KeyEvent {
        code: KeyCode::Enter,
        ctrl: true,
        alt: false,
    };
    let cmd = Command::StartActivity(TimeSpec::Now, "deep work".to_string());
    let reply = frame.handle_event(event, Some(cmd.clone()));
    assert_eq!(Consumed::Command(cmd), reply);
}

#[test]
fn apply_command_starts_and_finishes_activities() {
    let mut store = IntervalStore::new();
    let now = local(2020, 10, 10, 10, 0, 0);
    store.apply_command(
        &Command::StartActivity(TimeSpec::Now, "writing".to_string()),
        now,
    );
    let later = local(2020, 10, 10, 11, 0, 0);
    store.apply_command(&Command::Fin(TimeSpec::Now), later);
    let all: Vec<TimeTrackingItem> = store.query().into_iter().cloned().collect();
    assert_eq!(1, all.len());
    assert_eq!(
        interval(now, later, "writing"),
        all[0]
    );
    // Resuming is the session loop's affair: the store stays as it is.
    store.apply_command(&Command::ResumeLast(TimeSpec::Now), later);
    assert_eq!(1, store.query().len());
}

#[test]
fn textfield_layout_scrolls_cursor_into_view() {
    let mut field = TextFieldState::new();
    type_text(&mut field, "0123456789");
    // A five-column area: the cursor sits past the right edge, so the
    // field scrolls right and the cursor lands on the area's last column.
    TextField::layout(2, 1, 5, 3, &mut field);
    assert_eq!((6, 1), field.cursor_screen_pos);
    field.handle_event(key(KeyCode::Home));
    TextField::layout(2, 1, 5, 3, &mut field);
    assert_eq!((2, 1), field.cursor_screen_pos);
}
