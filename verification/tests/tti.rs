use std::cmp::Ordering;
use std::str::FromStr;

use stt::tti::Ending;
use stt::tti::TimeTrackingItem;
use stt::tti::Timestamp;

fn naive(y: i32, mo: u32, d: u32, h: u32, mi: u32, s: u32) -> Timestamp {
    let dt = chrono::NaiveDate::from_ymd_opt(y, mo, d)
        .unwrap()
        .and_hms_opt(h, mi, s)
        .unwrap();
    Timestamp::new(dt.and_utc().timestamp(), 0)
}

#[test]
fn should_round_start_to_second() {
    let start = Timestamp::new(0, 1);

    let sut = TimeTrackingItem::starting_at(start, "".to_string());

    assert_ne!(sut.start, start);
}

#[test]
fn should_round_interval_to_second() {
    let start = Timestamp::new(9999, 9999);
    let end = Timestamp::new(99999999, 9999999);

    let sut = TimeTrackingItem::interval(start, end, "".to_string()).unwrap();

    assert_ne!(sut.start, start);
    assert_ne!(sut.end, Ending::At(end));
}

#[test]
fn should_parse_interval() {
    let result: TimeTrackingItem = "2017-07-01_21:06:03 2017-07-01_21:06:11 bla bla blub blub"
        .parse()
        .unwrap();

    assert_eq!(result.start, naive(2017, 7, 1, 21, 6, 3));
    assert_eq!(result.end, Ending::At(naive(2017, 7, 1, 21, 6, 11)));
    assert_eq!(result.activity, "bla bla blub blub")
}

#[test]
fn should_parse_start_only() {
    let result = TimeTrackingItem::from_str("2022-11-01_11:06:03 bla").unwrap();

    assert_eq!(result.start, naive(2022, 11, 1, 11, 6, 3));
    assert_eq!(result.end, Ending::Open);
    assert_eq!(result.activity, "bla");
}

#[test]
#[should_panic(expected = "ItemError(ActivityMissing)")]
fn should_fail_without_activity_separator() {
    TimeTrackingItem::from_str("2022-11-01_11:06:03").unwrap();
}

#[test]
#[should_panic(expected = "ItemError(ActivityMissing)")]
fn should_fail_without_activity_separator2() {
    TimeTrackingItem::from_str("2022-11-01_11:06:03 2022-11-01_11:06:03").unwrap();
}

#[test]
#[should_panic(expected = "ItemError(StartAfterEnd)")]
fn should_fail_when_start_is_after_end() {
    TimeTrackingItem::interval(
        naive(2022, 11, 1, 11, 6, 3),
        naive(2020, 11, 1, 11, 6, 3),
        "test".to_string(),
    )
    .unwrap();
}

#[test]
fn should_print_in_storage_format() {
    let item = TimeTrackingItem::starting_at(naive(2022, 11, 1, 11, 6, 3), "test".to_string());

    let line = item.to_storage_line();

    assert_eq!("2022-11-01_11:06:03 test", line);
}

#[test]
fn should_escape_cr_in_storage_format() {
    let item = TimeTrackingItem::starting_at(
        naive(2022, 11, 1, 11, 6, 3),
        "test\ntest\\".to_string(),
    );

    let line = item.to_storage_line();

    assert_eq!("2022-11-01_11:06:03 test\\ntest\\\\", line);
}

#[test]
fn should_unescape_cr_in_storage_format() {
    let item = TimeTrackingItem::from_str("2022-11-01_11:06:03 test\\ntest\\\\").unwrap();

    let line = item.to_storage_line();

    assert_eq!("2022-11-01_11:06:03 test\\ntest\\\\", line);
}

#[test]
fn parses_and_store_example_lines() {
    let lines = vec!["2017-03-24_18:14:27 2017-03-25_16:34:45 sdfsadfsdfsafasdsdfsadfsdfsafasdsdfsadfsdfsafasdsdfsadfsdfsafasdsdfsadfsdfsafasdsdfsadfsdfsafasdsdfsadfsdfsafasdsdfsadfsdfsafasdsdfsadfsdfsafasdsdfsadfsdfsafasd",
     "2017-03-25_16:34:45 2017-03-30_14:58:30 http://stackoverflow.com/questions/163360/regular-expression-to-match-urls-in-java",
      "2017-03-22_10:00:00 2017-03-22_20:00:00 asdfsdfi"];

    let result: Vec<String> = lines
        .iter()
        .map(|l| TimeTrackingItem::from_str(l).unwrap())
        .map(|t| t.to_storage_line())
        .collect();

    assert_eq!(lines, result);
}

#[test]
fn open_should_be_same_as_open() {
    assert_eq!(
        Ending::Open.partial_cmp(&Ending::Open),
        Some(Ordering::Equal)
    );
}

#[test]
fn open_should_be_after_any_date() {
    assert_eq!(
        Ending::Open.partial_cmp_timestamp(&naive(99999, 12, 31, 12, 12, 12)),
        Some(Ordering::Greater)
    );
}

#[test]
fn ending_at_should_be_comparable() {
    assert_eq!(
        Ending::At(naive(1, 1, 1, 1, 1, 1)).partial_cmp(&Ending::At(naive(
            99999, 12, 31, 12, 12, 12
        ))),
        Some(Ordering::Less)
    );
}

#[test]
fn unparsable_line_is_bad_format() {
    let result = TimeTrackingItem::from_str("not a timestamp line");
    let text = format!("{:?}", result.unwrap_err());
    assert_eq!("ItemError(BadFormat)", text);
}

#[test]
fn ending_as_date_time() {
    assert_eq!(None, Ending::Open.as_date_time());
    let t = naive(2022, 11, 1, 11, 6, 3);
    assert_eq!(Some(t), Ending::At(t).as_date_time());
}

#[test]
fn same_calendar_day_by_day_number() {
    let morning = naive(2020, 10, 10, 0, 0, 0);
    let evening = naive(2020, 10, 10, 23, 59, 59);
    let next = naive(2020, 10, 11, 0, 0, 0);
    assert_eq!(morning.day(), evening.day());
    assert_ne!(evening.day(), next.day());
    let before_epoch = Timestamp::new(-1, 0);
    let at_epoch = Timestamp::new(0, 0);
    assert_ne!(before_epoch.day(), at_epoch.day());
}
