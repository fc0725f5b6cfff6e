use crabmail::config::Config;
use crabmail::message::parse_fields;
use crabmail::models::{
    message_from_bytes, messages_from_bytes, AddressField, Lists, MailAddress, MessageFields,
    RawAddress, StrMessage, Thread,
};
use crabmail::threading::ThreadIdx;
use crabmail::time::MailDate;

const MAIL_A: &str = "From: Alice <alice@example.com>\r\nTo: dev@lists.example.com\r\nCc: Bob <bob@example.com>, carol@example.com\r\nSubject: Hello\r\nMessage-ID: <a1@example.com>\r\nDate: Wed, 22 Dec 2021 10:30:15 +0100\r\n\r\nHi there\r\nsecond line\r\n";
const MAIL_B: &str = "From: Bob <bob@example.com>\r\nTo: dev@lists.example.com\r\nSubject: Re: Hello\r\nMessage-ID: <b2@example.com>\r\nIn-Reply-To: <a1@example.com>\r\nDate: Thu, 23 Dec 2021 08:00:00 +0000\r\n\r\n> Hi there\r\nHello Alice\r\n";
const MAIL_C: &str = "From: Carol <carol@example.com>\r\nSubject: Other topic\r\nMessage-ID: <c3/x@example.com>\r\nDate: Fri, 24 Dec 2021 08:00:00 +0000\r\n\r\nNew thread\r\n";

fn date(year: u16, month: u8, day: u8, hour: u8) -> MailDate {
    MailDate { year, month, day, hour, minute: 0, second: 0, tz_before_gmt: false, tz_hour: 0, tz_minute: 0 }
}

fn fields(id: Option<&str>, subject: Option<&str>, date: Option<MailDate>) -> MessageFields {
    MessageFields {
        message_id: id.map(|s| s.to_string()),
        received: None,
        date,
        subject: subject.map(|s| s.to_string()),
        thread_name: subject.map(|s| s.to_string()),
        preview: None,
        from: AddressField::Single(RawAddress { name: None, address: Some("x@example.com".to_string()) }),
        to: AddressField::Other,
        cc: AddressField::Other,
        in_reply_to: None,
        body_text: None,
        content_type: None,
    }
}

#[test]
fn parsed_fields_of_a_message() {
    let f = parse_fields(MAIL_B.as_bytes()).unwrap();
    assert_eq!(f.message_id.as_deref(), Some("b2@example.com"));
    assert_eq!(f.subject.as_deref(), Some("Re: Hello"));
    // the thread name drops the reply prefix
    assert_eq!(f.thread_name.as_deref(), Some("Hello"));
    assert_eq!(f.in_reply_to.as_deref(), Some("a1@example.com"));
    let d = f.date.unwrap();
    assert_eq!((d.year, d.month, d.day, d.hour), (2021, 12, 23, 8));
    assert!(parse_fields(b"").is_none());
}

#[test]
fn str_message_from_bytes() {
    let m = message_from_bytes(MAIL_A.as_bytes()).unwrap();
    assert_eq!(m.id, "a1@example.com");
    assert_eq!(m.subject, "Hello");
    assert_eq!(m.thread_subject, "Hello");
    assert_eq!(m.from.name.as_deref(), Some("Alice"));
    assert_eq!(m.from.address, "alice@example.com");
    assert_eq!(m.to.len(), 1);
    assert_eq!(m.cc.len(), 2);
    assert_eq!(m.cc[1].address, "carol@example.com");
    assert_eq!(m.date.to_rfc3339(), "2021-12-22T10:30:15+01:00");
    // no Received header: the date stands in
    assert_eq!(m.received.to_rfc3339(), "2021-12-22T10:30:15+01:00");
    assert!(m.body.starts_with("Hi there"));
    assert_eq!(m.url, "");
    assert_eq!(m.mailto, "");
    assert!(!m.flowed);
}

#[test]
fn str_message_defaults() {
    let m = StrMessage::new(&fields(None, None, Some(date(2020, 1, 2, 3)))).unwrap();
    assert_eq!(m.id, "");
    assert_eq!(m.subject, "(No Subject)");
    assert_eq!(m.thread_subject, "(No Subject)");
    assert_eq!(m.body, "[No message body]");
    assert_eq!(m.preview, "");
    assert!(m.in_reply_to.is_none());
    // neither Received nor Date: no message
    assert!(StrMessage::new(&fields(Some("x"), None, None)).is_none());
    // a sender that is not a single address
    let mut f = fields(Some("x"), None, Some(date(2020, 1, 2, 3)));
    f.from = AddressField::Other;
    let m2 = StrMessage::new(&f).unwrap();
    assert_eq!(m2.from.address, "invalid-email");
    // an address without its address part
    f.to = AddressField::List(vec![RawAddress { name: Some("n".to_string()), address: None }]);
    assert!(StrMessage::new(&f).is_none());
    // no date, a Received header
    let mut g = fields(Some("x"), None, None);
    g.received = Some(date(2020, 5, 6, 7));
    let m3 = StrMessage::new(&g).unwrap();
    assert_eq!(m3.date.to_rfc3339(), "1970-01-01T00:00:00Z");
    assert_eq!(m3.received.to_rfc3339(), "2020-05-06T07:00:00Z");
}

#[test]
fn flowed_content_type() {
    let mut f = fields(Some("x"), None, Some(date(2020, 1, 2, 3)));
    f.content_type = Some("flowed".to_string());
    assert!(StrMessage::new(&f).unwrap().flowed);
    f.content_type = Some("text".to_string());
    assert!(!StrMessage::new(&f).unwrap().flowed);
}

#[test]
fn message_ids_escape_slashes() {
    let m = message_from_bytes(MAIL_C.as_bytes()).unwrap();
    assert_eq!(m.id, "c3/x@example.com");
    assert_eq!(m.pathescape_msg_id(), "c3;x@example.com");
}

#[test]
fn mailto_link() {
    let m = message_from_bytes(MAIL_A.as_bytes()).unwrap();
    let link = m.mailto("dev", "dev@lists.example.com", "https://lists.example.com");
    assert_eq!(
        link,
        "mailto:dev@lists.example.com?cc=alice%40example.com&in-reply-to=%3Ca1%40example.com%3E&list-archive=https%3A%2F%2Flists.example.com%2Fdev&subject=Re%3A%20Hello&body=%3E%20Hi%20there%0A%3E%20second%20line%0A"
    );
}

#[test]
fn mailto_encodes_utf8_bytes() {
    let mut f = fields(Some("i"), Some("wörld"), Some(date(2020, 1, 2, 3)));
    f.body_text = Some(String::new());
    let m = StrMessage::new(&f).unwrap();
    let link = m.mailto("l", "e", "b");
    assert!(link.contains("&subject=Re%3A%20w%C3%B6rld&body="));
    assert!(link.ends_with("body="));
}

#[test]
fn addresses_copy_and_print() {
    let a = MailAddress { name: Some("A".to_string()), address: "a@x".to_string() };
    let b = a.copy();
    assert_eq!(b.name.as_deref(), Some("A"));
    assert_eq!(b.to_string(), "\"A\" <a@x>");
}

fn idx_of(mails: &[&str]) -> ThreadIdx {
    let mut idx = ThreadIdx::new();
    for (i, m) in mails.iter().enumerate() {
        let f = parse_fields(m.as_bytes()).unwrap();
        idx.add_email(&f, format!("path{}", i));
    }
    idx.finalize();
    idx
}

#[test]
fn threads_by_subject() {
    let idx = idx_of(&[MAIL_B, MAIL_C, MAIL_A]);
    assert_eq!(idx.threads.len(), 2);
    // "Re: Hello" and "Hello" share a thread, ordered by time
    assert_eq!(idx.threads[0].len(), 2);
    assert_eq!(idx.threads[0][0].id, "a1@example.com");
    assert_eq!(idx.threads[0][0].path, "path2");
    assert_eq!(idx.threads[0][1].id, "b2@example.com");
    assert_eq!(idx.threads[1][0].id, "c3/x@example.com");
}

#[test]
fn duplicate_ids_are_ignored() {
    let idx = idx_of(&[MAIL_A, MAIL_A]);
    assert_eq!(idx.threads.len(), 1);
    assert_eq!(idx.threads[0].len(), 1);
    assert_eq!(idx.threads[0][0].path, "path0");
}

#[test]
fn messages_without_id_or_date_are_ignored() {
    let mut idx = ThreadIdx::new();
    idx.add_email(&fields(None, Some("s"), Some(date(2020, 1, 1, 0))), "p".to_string());
    idx.add_email(&fields(Some("i"), Some("s"), None), "p".to_string());
    assert_eq!(idx.threads.len(), 0);
    idx.add_email(&fields(Some("i"), Some("s"), Some(date(2020, 1, 1, 0))), "p".to_string());
    assert_eq!(idx.threads.len(), 1);
}

#[test]
fn recent_messages_newest_first() {
    let idx = idx_of(&[MAIL_B, MAIL_C, MAIL_A]);
    let r = idx.recent_msgs(100);
    let ids: Vec<&str> = r.iter().map(|m| m.id.as_str()).collect();
    assert_eq!(ids, vec!["c3/x@example.com", "b2@example.com", "a1@example.com"]);
    let two = idx.recent_msgs(2);
    assert_eq!(two.len(), 2);
    assert_eq!(two[1].id, "b2@example.com");
}

#[test]
fn lists_and_threads() {
    let config = Config::parse("base_url=https://lists.example.com\nemail_fmt=%s@lists.example.com\n[dev]\ntitle=Developers\n");
    let mut lists = Lists { lists: Vec::new(), out_dir: "site".to_string() };
    let idx = idx_of(&[MAIL_B, MAIL_C, MAIL_A]);
    lists.add(idx, "dev", &config);
    lists.add(ThreadIdx::new(), "other", &config);
    assert_eq!(lists.lists.len(), 2);
    let other = &lists.lists[1];
    assert_eq!(other.config.title, "other mailing list");
    assert_eq!(other.url, "https://lists.example.com/other");
    assert_eq!(other.out_dir, "site/other");

    let list = &mut lists.lists[0];
    assert_eq!(list.config.title, "Developers");
    assert_eq!(list.url, "https://lists.example.com/dev");
    let raw: Vec<Vec<Vec<u8>>> = vec![
        vec![MAIL_A.as_bytes().to_vec(), MAIL_B.as_bytes().to_vec()],
        vec![MAIL_C.as_bytes().to_vec()],
    ];
    let threads: Vec<_> = list.thread_idx.threads.iter().map(|t| t.iter().map(|m| m.copy()).collect::<Vec<_>>()).collect();
    let t0 = list.add_thread(&threads[0], &raw[0], "https://lists.example.com").unwrap();
    assert_eq!(t0.url, "https://lists.example.com/dev/a1@example.com");
    assert_eq!(t0.messages.len(), 2);
    assert_eq!(t0.messages[1].url, "https://lists.example.com/dev/a1@example.com#b2@example.com");
    assert!(t0.messages[1].mailto.starts_with("mailto:dev@lists.example.com?cc=bob%40example.com&"));
    let t1 = list.add_thread(&threads[1], &raw[1], "https://lists.example.com").unwrap();
    assert_eq!(t1.url, "https://lists.example.com/dev/c3;x@example.com");
    assert_eq!(list.thread_topics.len(), 2);
    assert_eq!(list.thread_topics[0].reply_count, 1);
    assert_eq!(list.thread_topics[0].message.id, "a1@example.com");
    assert_eq!(list.thread_topics[0].message.url, "");
    assert_eq!(list.thread_topics[0].last_reply.day, 23);
    list.sort_topics();
    assert_eq!(list.thread_topics[0].message.id, "c3/x@example.com");
    assert_eq!(list.thread_topics[1].message.id, "a1@example.com");
    // a file that yields no message
    assert!(list.add_thread(&threads[1], &vec![b"".to_vec()], "u").is_none());
    assert_eq!(list.thread_topics.len(), 2);
}

#[test]
fn thread_of_bytes() {
    let raw = vec![MAIL_A.as_bytes().to_vec()];
    let t = Thread::new(&raw, "dev", "dev@x", "https://u").unwrap();
    assert_eq!(t.url, "https://u/dev/a1@example.com");
    assert!(t.messages[0].mailto.starts_with("mailto:dev@x?"));
    assert!(Thread::new(&vec![b"".to_vec()], "dev", "dev@x", "u").is_none());
    let all = messages_from_bytes(&vec![MAIL_A.as_bytes().to_vec(), MAIL_C.as_bytes().to_vec()]).unwrap();
    assert_eq!(all.len(), 2);
    assert!(messages_from_bytes(&vec![b"".to_vec()]).is_none());
}

#[test]
fn export_as_mbox() {
    let m = message_from_bytes(MAIL_B.as_bytes()).unwrap();
    let out = m.export_mbox();
    let text = String::from_utf8(out.clone()).unwrap();
    assert!(text.starts_with("From mboxrd@z Thu Jan  1 00:00:00 1970\nMessage-ID: <b2@example.com>\r\n"));
    assert!(text.contains("\r\nIn-Reply-To: <a1@example.com>\r\n"));
    assert!(text.contains("\r\nSubject: Re: Hello\r\n"));
    assert!(text.contains("Hello Alice"));
    assert!(text.contains("\r\nDate: Thu, 23 Dec 2021 08:00:00 +0000\r\n"));
    assert_eq!(*out.last().unwrap(), b'\n');
    // the exported message parses back to the same fields
    let back = message_from_bytes(&out[out.iter().position(|b| *b == b'\n').unwrap() + 1..]).unwrap();
    assert_eq!(back.id, m.id);
    assert_eq!(back.subject, m.subject);
    assert_eq!(back.in_reply_to, m.in_reply_to);
    assert_eq!(back.from.address, m.from.address);
    assert_eq!(back.date.to_timestamp(), m.date.to_timestamp());
}

#[test]
fn export_keeps_format_flowed() {
    let mut m = message_from_bytes(MAIL_A.as_bytes()).unwrap();
    let plain = String::from_utf8(m.export_mbox()).unwrap();
    assert!(plain.contains("Content-Type: text/plain; charset="));
    assert!(!plain.contains("format="));
    m.flowed = true;
    let flowed = String::from_utf8(m.export_mbox()).unwrap();
    assert!(flowed.contains("Content-Type: text/plain; charset="));
    assert!(flowed.contains("format="));
    assert!(flowed.contains("flowed"));
    assert!(flowed.contains("Hi there"));
}

#[test]
fn message_ids_stay_distinct_across_threads() {
    let mut idx = ThreadIdx::new();
    let adds = [("i1", "alpha", 1), ("i2", "beta", 2), ("i1", "beta", 3), ("i3", "Re: alpha", 4), ("i2", "gamma", 5)];
    for (id, subject, hour) in adds {
        idx.add_email(&fields(Some(id), Some(subject), Some(date(2020, 1, 1, hour))), format!("p{}", hour));
    }
    idx.finalize();
    let mut ids: Vec<&str> = idx.threads.iter().flat_map(|t| t.iter().map(|m| m.id.as_str())).collect();
    assert_eq!(ids.len(), 3);
    ids.sort();
    ids.dedup();
    assert_eq!(ids, vec!["i1", "i2", "i3"]);
    assert_eq!(idx.threads.len(), 2);
    assert!(idx.threads.iter().all(|t| !t.is_empty()));
}
