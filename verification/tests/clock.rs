use html_navigator::clock::{shown_with_zone, Timestamp, FIRST_SECOND, LAST_SECOND};

fn shown(seconds: u64) -> Option<String> {
    Timestamp::Since { seconds, nanos: 123 }.shown_text()
}

#[test]
fn time_is_shown_in_utc() {
    assert_eq!(shown(0), Some("1970-01-01 00:00:00".to_string()));
    assert_eq!(shown(951_782_400), Some("2000-02-29 00:00:00".to_string()));
    assert_eq!(shown(1_431_648_000), Some("2015-05-15 00:00:00".to_string()));
    assert_eq!(shown(1_700_000_000), Some("2023-11-14 22:13:20".to_string()));
    assert_eq!(shown(253_402_300_799), Some("9999-12-31 23:59:59".to_string()));
    assert_eq!(shown(253_402_300_800), Some("+10000-01-01 00:00:00".to_string()));
}

#[test]
fn time_outside_the_calendar_is_shown_as_the_epoch() {
    let last = LAST_SECOND as u64;
    assert_eq!(shown(last), Some("+262142-12-31 23:59:59".to_string()));
    assert_eq!(shown(last + 1), Some("1970-01-01 00:00:00".to_string()));
    assert_eq!(shown(i64::MAX as u64), Some("1970-01-01 00:00:00".to_string()));
    assert_eq!(shown_with_zone(FIRST_SECOND), "-262143-01-01 00:00:00 UTC");
    assert_eq!(shown_with_zone(FIRST_SECOND - 1), "1970-01-01 00:00:00 UTC");
}

#[test]
fn seconds_past_the_signed_range_wrap_around() {
    assert_eq!(shown(u64::MAX), Some("1969-12-31 23:59:59".to_string()));
}

#[test]
fn time_before_the_epoch_is_not_shown() {
    assert_eq!(Timestamp::Before { seconds: 1, nanos: 0 }.shown_text(), None);
}

#[test]
fn zone_is_named_on_request() {
    assert_eq!(shown_with_zone(1_700_000_000), "2023-11-14 22:13:20 UTC");
    assert_eq!(shown_with_zone(-1), "1969-12-31 23:59:59 UTC");
}

#[test]
fn points_in_time_are_ordered() {
    let early = Timestamp::Before { seconds: 3, nanos: 5 };
    let later = Timestamp::Before { seconds: 3, nanos: 4 };
    let latest = Timestamp::Since { seconds: 0, nanos: 0 };
    assert!(early.is_before(&later) && later.is_before(&latest));
    assert!(!later.is_before(&later));
    assert!(!latest.is_before(&early));
    let far = Timestamp::Since { seconds: u64::MAX, nanos: u32::MAX };
    assert!(latest.is_before(&far));
}
