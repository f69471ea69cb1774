use guitar::time::{timestamp_to_utc, timestamp_to_utc_checked};

#[test]
fn commit_times_are_shown_in_utc() {
    assert_eq!(timestamp_to_utc(0, 0), "Thu, 1 Jan 1970 00:00:00 +0000");
    assert_eq!(timestamp_to_utc(1_431_648_000, 120), "Fri, 15 May 2015 00:00:00 +0000");
    assert_eq!(timestamp_to_utc(1_431_648_000, -300), "Fri, 15 May 2015 00:00:00 +0000");
}

#[test]
fn times_that_cannot_be_shown_are_refused() {
    assert_eq!(timestamp_to_utc_checked(0, 1440), None);
    assert_eq!(timestamp_to_utc_checked(i64::MAX, 0), None);
    assert_eq!(timestamp_to_utc_checked(86_400, 60), Some("Fri, 2 Jan 1970 00:00:00 +0000".to_string()));
}
