use crabmail::jwzthreading::{JwzError, JwzMessage, List};
use crabmail::message::parse_fields;

#[test]
fn jwz_messages_need_id_and_subject() {
    let ok = parse_fields(b"Message-ID: <a@x>\r\nSubject: s\r\n\r\nbody\r\n").unwrap();
    assert!(JwzMessage::parse(&ok).is_ok());
    let no_id = parse_fields(b"Subject: s\r\n\r\nbody\r\n").unwrap();
    assert!(matches!(JwzMessage::parse(&no_id), Err(JwzError::MissingMessageId)));
    let no_subject = parse_fields(b"Message-ID: <a@x>\r\n\r\nbody\r\n").unwrap();
    assert!(matches!(JwzMessage::parse(&no_subject), Err(JwzError::MissingSubject)));
}

#[test]
fn jwz_list_takes_messages() {
    let mut list = List::new();
    let f = parse_fields(b"Message-ID: <a@x>\r\nSubject: s\r\n\r\nbody\r\n").unwrap();
    list.add_email(JwzMessage::parse(&f).ok().unwrap());
    list.add_email(JwzMessage::parse(&f).ok().unwrap());
    list.finalize();
}
