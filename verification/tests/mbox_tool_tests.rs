use crabmail::mbox_tool::email::{local_parse_email, EmailError};
use crabmail::mbox_tool::filters::{time_ago, timeago_at};

#[test]
fn email_fields_from_mailparse() {
    let data = b"From: Alice <alice@example.com>\r\nMessage-ID: <a1@example.com>\r\nIn-Reply-To: <z@example.com>\r\nDate: Wed, 22 Dec 2021 10:30:15 +0100\r\n\r\nbody\r\n";
    let e = local_parse_email(data).ok().unwrap();
    assert_eq!(e.id, "<a1@example.com>");
    assert_eq!(e.from, "Alice <alice@example.com>");
    assert_eq!(e.subject, "(no subject)");
    assert_eq!(e.in_reply_to.as_deref(), Some("<z@example.com>"));
    assert_eq!(e.date, 1640165415);
    assert_eq!(e.body, "lorem ipsum");
}

#[test]
fn email_errors_in_order() {
    let no_id = b"From: a@x\r\nDate: Wed, 22 Dec 2021 10:30:15 +0100\r\n\r\nb\r\n";
    assert!(matches!(local_parse_email(no_id), Err(EmailError::MissingMessageId)));
    let dots = b"Message-ID: <a..b@x>\r\n\r\nb\r\n";
    assert!(matches!(local_parse_email(dots), Err(EmailError::BadMessageId)));
    let no_date = b"Message-ID: <a@x>\r\nFrom: a@x\r\n\r\nb\r\n";
    assert!(matches!(local_parse_email(no_date), Err(EmailError::MissingDate)));
    let bad_date = b"Message-ID: <a@x>\r\nDate: 22 Foo 2021\r\nFrom: a@x\r\n\r\nb\r\n";
    assert!(matches!(local_parse_email(bad_date), Err(EmailError::BadDate)));
    let no_from = b"Message-ID: <a@x>\r\nDate: Wed, 22 Dec 2021 10:30:15 +0100\r\nSubject: s\r\n\r\nb\r\n";
    assert!(matches!(local_parse_email(no_from), Err(EmailError::MissingFrom)));
}

#[test]
fn ages_in_days() {
    assert_eq!(timeago_at(5, 1), "in the future");
    assert_eq!(timeago_at(0, 86400), "1 day ago");
    assert_eq!(timeago_at(0, 86400 * 800), "800 days ago");
    assert_eq!(timeago_at(0, 59), "59 seconds ago");
    assert_eq!(time_ago(&u64::MAX), Some("in the future".to_string()));
}

#[test]
fn absurd_time_zones_are_bad_dates() {
    let data = b"Message-ID: <a@x>\r\nDate: Wed, 22 Dec 2021 10:30:15 +99999999\r\nFrom: a@x\r\n\r\nb\r\n";
    assert!(matches!(local_parse_email(data), Err(EmailError::BadDate)));
    let min = b"Message-ID: <a@x>\r\nDate: Wed, 22 Dec 2021 10:30:15 -2147483648\r\nFrom: a@x\r\n\r\nb\r\n";
    assert!(matches!(local_parse_email(min), Err(EmailError::BadDate)));
}

#[test]
fn long_digit_runs_elsewhere_are_good_dates() {
    // digits in a trailing comment and a zone written with leading zeros
    let comment = b"Message-ID: <a@x>\r\nDate: Sun, 25 Sep 2016 18:36:33 -0400 (12345678)\r\nFrom: a@x\r\n\r\nb\r\n";
    assert_eq!(local_parse_email(comment).ok().unwrap().date, 1474842993);
    let zeros = b"Message-ID: <a@x>\r\nDate: Sun, 25 Sep 2016 18:36:33 -00000400\r\nFrom: a@x\r\n\r\nb\r\n";
    assert_eq!(local_parse_email(zeros).ok().unwrap().date, 1474842993);
    // a zone just short of overflowing
    let edge = b"Message-ID: <a@x>\r\nDate: Thu, 1 Jan 1970 00:00:00 +59652300\r\nFrom: a@x\r\n\r\nb\r\n";
    assert_eq!(local_parse_email(edge).ok().unwrap().date, -(596523 * 3600));
}
