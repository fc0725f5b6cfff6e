use crabmail::filters::time_ago;
use crabmail::time::{secs_to_date, timeago, timeago_at, MailDate};
use crabmail::utils::{epoch_days, epoch_time};

#[test]
fn test_date_conversion() {
    assert_eq!(secs_to_date(1640211435).ymd(), "2021-12-22");
    assert_eq!(secs_to_date(1641321435).ymd(), "2022-01-04");
}

#[test]
fn epoch_start_is_first_of_january_1970() {
    let d = secs_to_date(0);
    assert_eq!((d.year, d.month, d.day_of_month), (1970, 1, 1));
    assert_eq!(d.ymd(), "1970-01-01");
}

#[test]
fn leap_day_is_found() {
    assert_eq!(secs_to_date(951782400).ymd(), "2000-02-29");
    assert_eq!(secs_to_date(951782400 + 86399).ymd(), "2000-02-29");
    assert_eq!(secs_to_date(951782400 + 86400).ymd(), "2000-03-01");
}

#[test]
fn timeago_words() {
    assert_eq!(timeago_at(200, 100), "in the future");
    assert_eq!(timeago_at(100, 100), "0 seconds ago");
    assert_eq!(timeago_at(99, 100), "1 second ago");
    assert_eq!(timeago_at(0, 120), "2 minutes ago");
    assert_eq!(timeago_at(0, 3600), "1 hour ago");
    assert_eq!(timeago_at(0, 86400 * 3), "3 days ago");
    // past two solar years the count is years, doubled
    assert_eq!(timeago_at(0, 31556926 * 3), "6 years ago");
}

#[test]
fn timeago_by_the_clock() {
    assert_eq!(timeago(u64::MAX), Some("in the future".to_string()));
    assert_eq!(time_ago(&u64::MAX), Some("in the future".to_string()));
    let old = timeago(0).unwrap();
    assert!(old.ends_with("years ago"));
}

fn date(year: u16, month: u8, day: u8, hour: u8, minute: u8, second: u8, before: bool, tzh: u8, tzm: u8) -> MailDate {
    MailDate { year, month, day, hour, minute, second, tz_before_gmt: before, tz_hour: tzh, tz_minute: tzm }
}

#[test]
fn mail_date_timestamps() {
    assert_eq!(MailDate::epoch().to_timestamp(), 0);
    assert_eq!(date(2021, 12, 22, 22, 17, 15, false, 0, 0).to_timestamp(), 1640211435);
    // 10:30:15 at +01:00 is 09:30:15 UTC
    assert_eq!(date(2021, 12, 22, 10, 30, 15, false, 1, 0).to_timestamp(), 1640165415);
    // 04:30:15 at -05:00 is 09:30:15 UTC
    assert_eq!(date(2021, 12, 22, 4, 30, 15, true, 5, 0).to_timestamp(), 1640165415);
    assert_eq!(date(2000, 2, 29, 0, 0, 0, false, 0, 0).to_timestamp(), 951782400);
}

#[test]
fn mail_date_rfc3339() {
    assert_eq!(MailDate::epoch().to_rfc3339(), "1970-01-01T00:00:00Z");
    assert_eq!(date(2021, 12, 22, 10, 30, 5, false, 1, 30).to_rfc3339(), "2021-12-22T10:30:05+01:30");
    assert_eq!(date(2021, 1, 2, 3, 4, 5, true, 5, 0).to_rfc3339(), "2021-01-02T03:04:05-05:00");
    assert_eq!(date(2021, 1, 2, 3, 4, 5, true, 5, 0).ymd(), "2021-01-02");
}

#[test]
fn epoch_days_counts_from_1970() {
    assert_eq!(epoch_days(1970, 1, 1), 0);
    assert_eq!(epoch_days(1970, 3, 1), 59);
    assert_eq!(epoch_days(2000, 3, 1), 11017);
    assert_eq!(epoch_days(2000, 2, 29), 11016);
    assert_eq!(epoch_days(1969, 12, 31), -1);
    assert_eq!(epoch_days(2021, 12, 22), 18983);
    assert_eq!(epoch_days(1999, 12, 22), 10947);
    assert_eq!(epoch_days(2021, 12, 23), 18984);
}

#[test]
fn epoch_time_applies_the_offset() {
    let d = date(2021, 12, 22, 10, 30, 15, false, 1, 0);
    assert_eq!(epoch_time(&d), 18983 * 86400 + 9 * 3600 + 30 * 60 + 15);
    assert_eq!(epoch_time(&d), d.to_timestamp());
    let e = date(2021, 12, 22, 10, 30, 15, true, 1, 0);
    assert_eq!(epoch_time(&e), 18983 * 86400 + 11 * 3600 + 30 * 60 + 15);
    let f = date(2021, 1, 2, 3, 4, 5, true, 5, 0);
    assert_eq!(epoch_time(&f), f.to_timestamp());
}
