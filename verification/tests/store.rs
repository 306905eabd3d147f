use chrono::TimeZone;
use stt::store::IntervalStore;
use stt::store::StoreError;
use stt::tti::Ending;
use stt::tti::TimeTrackingItem;
use stt::tti::Timestamp;

fn local(y: i32, mo: u32, d: u32, h: u32, mi: u32, s: u32) -> Timestamp {
    let dt = chrono::Local.with_ymd_and_hms(y, mo, d, h, mi, s).unwrap();
    Timestamp::new(dt.naive_utc().and_utc().timestamp(), 0)
}

fn starting_at(t: Timestamp, activity: &str) -> TimeTrackingItem {
    TimeTrackingItem::starting_at(t, activity.to_string())
}

fn interval(a: Timestamp, b: Timestamp, activity: &str) -> TimeTrackingItem {
    TimeTrackingItem::interval(a, b, activity.to_string()).unwrap()
}

fn contents(store: &IntervalStore) -> Vec<TimeTrackingItem> {
    let mut items: Vec<TimeTrackingItem> = store.query().into_iter().cloned().collect();
    items.reverse();
    items
}

#[test]
fn should_modify_end_on_overlap() {
    let mut times = IntervalStore::from_items(vec![starting_at(
        local(2020, 10, 10, 10, 10, 10),
        "test",
    )]);
    let to_insert = starting_at(local(2020, 11, 10, 10, 10, 10), "test 2");

    times.insert_item(to_insert);

    assert_eq!(
        contents(&times)[0].end,
        Ending::At(local(2020, 11, 10, 10, 10, 10))
    );
}

#[test]
fn should_modify_start_on_overlap() {
    let mut times = IntervalStore::from_items(vec![starting_at(
        local(2020, 10, 10, 10, 10, 10),
        "test",
    )]);
    let to_insert = interval(
        local(2020, 10, 10, 9, 10, 10),
        local(2020, 10, 10, 11, 10, 10),
        "test 2",
    );

    times.insert_item(to_insert);

    assert_eq!(contents(&times)[1].start, local(2020, 10, 10, 11, 10, 10));
}

#[test]
fn should_split_up_overlap() {
    let mut times = IntervalStore::from_items(vec![starting_at(
        local(2020, 10, 10, 10, 10, 10),
        "test",
    )]);
    let to_insert = interval(
        local(2020, 10, 10, 11, 10, 10),
        local(2020, 10, 10, 12, 10, 10),
        "test 2",
    );

    times.insert_item(to_insert);

    let items = contents(&times);
    assert_eq!(items[0].end, Ending::At(local(2020, 10, 10, 11, 10, 10)));
    assert_eq!(items[2].start, local(2020, 10, 10, 12, 10, 10));
}

#[test]
fn should_not_modify_others_on_non_overlapping() {
    let mut times = IntervalStore::from_items(vec![
        interval(
            local(2020, 10, 10, 10, 10, 10),
            local(2020, 10, 10, 11, 10, 10),
            "test",
        ),
        interval(
            local(2020, 10, 10, 13, 10, 10),
            local(2020, 10, 10, 14, 10, 10),
            "test",
        ),
    ]);
    let to_insert = interval(
        local(2020, 10, 10, 11, 10, 10),
        local(2020, 10, 10, 13, 10, 10),
        "test 2",
    );

    times.insert_item(to_insert);

    assert_eq!(
        vec![
            interval(
                local(2020, 10, 10, 10, 10, 10),
                local(2020, 10, 10, 11, 10, 10),
                "test",
            ),
            interval(
                local(2020, 10, 10, 11, 10, 10),
                local(2020, 10, 10, 13, 10, 10),
                "test 2",
            ),
            interval(
                local(2020, 10, 10, 13, 10, 10),
                local(2020, 10, 10, 14, 10, 10),
                "test",
            ),
        ],
        contents(&times)
    );
}

#[test]
fn should_delete_covered_items() {
    let mut times = IntervalStore::from_items(vec![
        interval(
            local(2020, 10, 10, 10, 10, 10),
            local(2020, 10, 10, 11, 10, 10),
            "test",
        ),
        interval(
            local(2020, 10, 10, 12, 10, 10),
            local(2020, 10, 10, 13, 10, 10),
            "test 3",
        ),
    ]);
    let to_insert = starting_at(local(2020, 10, 10, 9, 10, 10), "test 2");

    times.insert_item(to_insert);

    assert_eq!(
        vec![starting_at(local(2020, 10, 10, 9, 10, 10), "test 2")],
        contents(&times)
    );
}

#[test]
fn should_delete_covered_open_items() {
    let mut times = IntervalStore::from_items(vec![
        interval(
            local(2020, 10, 10, 12, 10, 10),
            local(2020, 10, 10, 13, 10, 10),
            "test 3",
        ),
        starting_at(local(2020, 10, 10, 14, 10, 10), "test"),
    ]);
    let to_insert = starting_at(local(2020, 10, 10, 9, 10, 10), "test 2");

    times.insert_item(to_insert);

    assert_eq!(
        vec![starting_at(local(2020, 10, 10, 9, 10, 10), "test 2")],
        contents(&times)
    );
}

#[test]
fn should_delete_item() {
    let mut times = IntervalStore::from_items(vec![
        interval(
            local(2020, 10, 10, 10, 10, 10),
            local(2020, 10, 10, 11, 10, 10),
            "test",
        ),
        interval(
            local(2020, 10, 10, 11, 20, 10),
            local(2020, 10, 10, 13, 00, 10),
            "test 2",
        ),
        interval(
            local(2020, 10, 10, 13, 10, 10),
            local(2020, 10, 10, 14, 10, 10),
            "test",
        ),
    ]);

    let target = contents(&times)[1].clone();
    times.delete_item(&target).unwrap();

    assert_eq!(
        vec![
            interval(
                local(2020, 10, 10, 10, 10, 10),
                local(2020, 10, 10, 11, 10, 10),
                "test",
            ),
            interval(
                local(2020, 10, 10, 13, 10, 10),
                local(2020, 10, 10, 14, 10, 10),
                "test",
            ),
        ],
        contents(&times)
    );
}

#[test]
fn should_close_new_gap_on_delete() {
    let mut times = IntervalStore::from_items(vec![
        interval(
            local(2020, 10, 10, 10, 10, 10),
            local(2020, 10, 10, 11, 10, 10),
            "test",
        ),
        interval(
            local(2020, 10, 10, 11, 10, 10),
            local(2020, 10, 10, 13, 10, 10),
            "test 2",
        ),
        interval(
            local(2020, 10, 10, 13, 10, 10),
            local(2020, 10, 10, 14, 10, 10),
            "test",
        ),
    ]);

    let target = contents(&times)[1].clone();
    times.delete_item(&target).unwrap();

    assert_eq!(
        vec![
            interval(
                local(2020, 10, 10, 10, 10, 10),
                local(2020, 10, 10, 13, 10, 10),
                "test",
            ),
            interval(
                local(2020, 10, 10, 13, 10, 10),
                local(2020, 10, 10, 14, 10, 10),
                "test",
            ),
        ],
        contents(&times)
    );
}

#[test]
fn should_not_close_gap_crossing_midnight() {
    let mut times = IntervalStore::from_items(vec![
        interval(
            local(2020, 10, 10, 10, 10, 10),
            local(2020, 10, 10, 11, 10, 10),
            "test",
        ),
        interval(
            local(2020, 10, 10, 11, 10, 10),
            local(2020, 10, 11, 13, 10, 10),
            "test 2",
        ),
        interval(
            local(2020, 10, 11, 13, 10, 10),
            local(2020, 10, 11, 14, 10, 10),
            "test",
        ),
    ]);

    let target = contents(&times)[1].clone();
    times.delete_item(&target).unwrap();

    assert_eq!(
        vec![
            interval(
                local(2020, 10, 10, 10, 10, 10),
                local(2020, 10, 10, 11, 10, 10),
                "test",
            ),
            interval(
                local(2020, 10, 11, 13, 10, 10),
                local(2020, 10, 11, 14, 10, 10),
                "test",
            ),
        ],
        contents(&times)
    );
}

#[test]
fn should_not_close_gap_for_last_item() {
    let mut times = IntervalStore::from_items(vec![
        interval(
            local(2020, 10, 10, 10, 10, 10),
            local(2020, 10, 10, 11, 10, 10),
            "test",
        ),
        interval(
            local(2020, 10, 10, 11, 10, 10),
            local(2020, 10, 10, 14, 10, 10),
            "test",
        ),
    ]);

    let target = contents(&times)[1].clone();
    times.delete_item(&target).unwrap();

    assert_eq!(
        vec![interval(
            local(2020, 10, 10, 10, 10, 10),
            local(2020, 10, 10, 11, 10, 10),
            "test",
        )],
        contents(&times)
    );
}

#[test]
fn delete_of_absent_item_reports_not_found() {
    let mut times = IntervalStore::from_items(vec![interval(
        local(2020, 10, 10, 10, 10, 10),
        local(2020, 10, 10, 11, 10, 10),
        "test",
    )]);
    let absent = interval(
        local(2020, 10, 10, 10, 10, 10),
        local(2020, 10, 10, 11, 10, 10),
        "other",
    );

    let result = times.delete_item(&absent);

    assert_eq!(result, Err(StoreError::NotFound));
    assert_eq!(1, contents(&times).len());
}

#[test]
fn delete_of_first_item_leaves_rest() {
    let mut times = IntervalStore::from_items(vec![
        interval(
            local(2020, 10, 10, 10, 10, 10),
            local(2020, 10, 10, 11, 10, 10),
            "test",
        ),
        interval(
            local(2020, 10, 10, 11, 10, 10),
            local(2020, 10, 10, 12, 10, 10),
            "test 2",
        ),
    ]);

    let target = contents(&times)[0].clone();
    times.delete_item(&target).unwrap();

    assert_eq!(
        vec![interval(
            local(2020, 10, 10, 11, 10, 10),
            local(2020, 10, 10, 12, 10, 10),
            "test 2",
        )],
        contents(&times)
    );
}

#[test]
fn exact_cover_replaces_covered_item() {
    let mut times = IntervalStore::from_items(vec![
        interval(
            local(2020, 10, 10, 10, 0, 0),
            local(2020, 10, 10, 11, 0, 0),
            "old",
        ),
        interval(
            local(2020, 10, 10, 12, 0, 0),
            local(2020, 10, 10, 13, 0, 0),
            "later",
        ),
    ]);

    times.insert_item(interval(
        local(2020, 10, 10, 10, 0, 0),
        local(2020, 10, 10, 11, 0, 0),
        "new",
    ));

    assert_eq!(
        vec![
            interval(
                local(2020, 10, 10, 10, 0, 0),
                local(2020, 10, 10, 11, 0, 0),
                "new",
            ),
            interval(
                local(2020, 10, 10, 12, 0, 0),
                local(2020, 10, 10, 13, 0, 0),
                "later",
            ),
        ],
        contents(&times)
    );
}

#[test]
fn zero_length_interval_participates() {
    let mut times = IntervalStore::new();
    let zero = interval(
        local(2020, 10, 10, 10, 0, 0),
        local(2020, 10, 10, 10, 0, 0),
        "blip",
    );
    times.insert_item(zero.clone());
    assert_eq!(vec![zero], contents(&times));
}

#[test]
fn invariant_holds_after_mixed_mutations() {
    let mut times = IntervalStore::new();
    times.insert_item(starting_at(local(2020, 10, 10, 9, 0, 0), "a"));
    times.insert_item(interval(
        local(2020, 10, 10, 10, 0, 0),
        local(2020, 10, 10, 11, 0, 0),
        "b",
    ));
    times.insert_item(interval(
        local(2020, 10, 10, 10, 30, 0),
        local(2020, 10, 10, 12, 0, 0),
        "c",
    ));
    let target = contents(&times)[1].clone();
    times.delete_item(&target).unwrap();

    let items = contents(&times);
    for pair in items.windows(2) {
        let end = match pair[0].end {
            Ending::At(t) => t,
            Ending::Open => panic!("open interval before the last position"),
        };
        assert!(end.secs <= pair[1].start.secs);
    }
}

#[test]
fn latest_matches_linear_scan_maximum() {
    let mut times = IntervalStore::new();
    times.insert_item(interval(
        local(2020, 10, 10, 8, 0, 0),
        local(2020, 10, 10, 9, 0, 0),
        "early",
    ));
    times.insert_item(interval(
        local(2020, 10, 10, 12, 0, 0),
        local(2020, 10, 10, 13, 0, 0),
        "late",
    ));
    times.insert_item(interval(
        local(2020, 10, 10, 10, 0, 0),
        local(2020, 10, 10, 11, 0, 0),
        "middle",
    ));

    let items = contents(&times);
    let by_scan = items
        .iter()
        .max_by_key(|i| i.start.secs)
        .unwrap()
        .clone();
    assert_eq!(&by_scan, times.query_latest().unwrap());
}

#[test]
fn from_items_sorts_unordered_input() {
    let times = IntervalStore::from_items(vec![
        interval(
            local(2020, 10, 10, 12, 0, 0),
            local(2020, 10, 10, 13, 0, 0),
            "second",
        ),
        interval(
            local(2020, 10, 10, 10, 0, 0),
            local(2020, 10, 10, 11, 0, 0),
            "first",
        ),
    ]);

    let items = contents(&times);
    assert_eq!(items[0].activity, "first");
    assert_eq!(items[1].activity, "second");
}

#[test]
fn query_n_truncates_to_limit() {
    let mut times = IntervalStore::new();
    times.insert_item(interval(
        local(2020, 10, 10, 10, 0, 0),
        local(2020, 10, 10, 11, 0, 0),
        "a",
    ));
    times.insert_item(interval(
        local(2020, 10, 10, 11, 0, 0),
        local(2020, 10, 10, 12, 0, 0),
        "b",
    ));
    times.insert_item(interval(
        local(2020, 10, 10, 12, 0, 0),
        local(2020, 10, 10, 13, 0, 0),
        "c",
    ));

    let two = times.query_n(2);
    assert_eq!(2, two.len());
    assert_eq!("c", two[0].activity);
    assert_eq!("b", two[1].activity);
    assert_eq!(0, times.query_n(0).len());
    assert!(times.query_latest().is_some());
    assert_eq!(3, times.query().len());
}

#[test]
fn query_latest_of_empty_store_is_none() {
    let times = IntervalStore::new();
    assert!(times.query_latest().is_none());
    assert_eq!(0, times.len());
}
