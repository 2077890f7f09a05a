use twitch_notify::clock::{elapsed, live_text, live_time, live_time_now, numbers_of, LiveNow};

#[test]
fn live_time_within_a_day() {
    let t = live_time("2021-03-04T05:06:07Z", "2021-03-04 06:10:05.123456789 UTC").unwrap();
    assert_eq!(t, vec![0, 0, 0, 1, 3, 58]);
    assert_eq!(live_text(&t), "01:03:58");
}

#[test]
fn live_time_borrows_the_current_months_days() {
    let t = live_time("2021-02-28T23:59:59Z", "2021-03-01 00:00:00.5 UTC").unwrap();
    assert_eq!(t, vec![0, 0, 3, 0, 0, 1]);
    assert_eq!(live_text(&t), "3 days00:00:01");
}

#[test]
fn live_time_over_months_and_years() {
    let t = live_time("2020-11-20T10:00:00Z", "2022-01-05 09:30:00.0 UTC").unwrap();
    assert_eq!(t, vec![1, 1, 15, 23, 30, 0]);
    assert_eq!(live_text(&t), "1 years1 months15 days23:30:00");
}

#[test]
fn live_time_refuses_what_cannot_be_read() {
    assert_eq!(live_time("yesterday", "2021-03-04 06:10:05.1 UTC"), None);
    assert_eq!(live_time("2021-03-04T05:06:07Z", "2021-03-04"), None);
    assert_eq!(live_time("2021-03T05:06Z", "2021-03-04 06:10:05.1 UTC"), None);
    assert_eq!(live_time("2021-03-x4T05:06:07Z", "2021-03-04 06:10:05.1 UTC"), None);
}

#[test]
fn elapsed_needs_matching_fields_and_no_overflow() {
    assert_eq!(elapsed(&vec![1], &vec![0, 0, 0], &vec![1, 2], &vec![0, 0, 0]), None);
    assert_eq!(
        elapsed(&vec![i128::MIN, 1, 1], &vec![0, 0, 0], &vec![1, 1, 1], &vec![0, 0, 0]),
        None
    );
    assert_eq!(
        elapsed(&vec![2020, 5, 5], &vec![1, 0, 0], &vec![2020, 5, 5], &vec![0, 0, 1]),
        Some(vec![0, 0, 0, 0, 59, 59])
    );
}

#[test]
fn negative_fields_are_not_padded() {
    assert_eq!(live_text(&vec![0, 0, 0, -5, 7, 12]), "-5:07:12");
    assert_eq!(live_text(&vec![0, 0, 0]), "");
}

#[test]
fn numbers_between_separators() {
    assert_eq!(numbers_of("2021-03-04", "-"), Some(vec![2021, 3, 4]));
    assert_eq!(numbers_of("1::2", ":"), None);
}

#[test]
fn live_time_now_of_a_twitch_start_time() {
    let t = match live_time_now("2021-03-04T05:06:07Z") {
        LiveNow::Live(t) => t,
        LiveNow::NoClock => panic!("the clock gave no time"),
        LiveNow::Unreadable => panic!("a Twitch start time was not read"),
    };
    assert_eq!(t.len(), 6);
    assert!(t[0] >= 4);
    assert!((0..60).contains(&t[5]));
    assert!(matches!(live_time_now("not a time"), LiveNow::Unreadable));
}
