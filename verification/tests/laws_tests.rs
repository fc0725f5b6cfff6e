use crabmail::config::Config;
use crabmail::models::{message_from_bytes, List, ThreadSummary};
use crabmail::templates::gmi::h;
use crabmail::templates::util::xml_safe;
use crabmail::threading::ThreadIdx;
use crabmail::time::{secs_to_date, timeago_at, MailDate};
use crabmail::util::{truncate_ellipsis, unformat_flowed};

#[test]
fn calendar_readings_round_trip() {
    // (days since 1970-01-01, y, m, d)
    let days: [(u64, u32, u32, u32); 5] = [
        (0, 1970, 1, 1),
        (11016, 2000, 2, 29),
        (19782, 2024, 2, 29),
        (19051, 2022, 2, 28),
        (2932896, 9999, 12, 31),
    ];
    for (n, y, m, d) in days {
        for s in [0u64, 1, 3599, 45296, 86399] {
            let date = secs_to_date(n * 86400 + s);
            assert_eq!((date.year, date.month, date.day_of_month), (y, m, d));
            assert_eq!(date.hour as u64, s / 3600);
            assert_eq!(date.minute as u64, (s / 60) % 60);
            assert_eq!(date.second as u64, s % 60);
        }
    }
}

#[test]
fn rfc3339_date_part_is_ymd() {
    let d = MailDate { year: 987, month: 3, day: 4, hour: 5, minute: 6, second: 7, tz_before_gmt: true, tz_hour: 2, tz_minute: 0 };
    let text = d.to_rfc3339();
    assert_eq!(text.split_once('T').unwrap().0, d.ymd());
    assert_eq!(d.ymd(), "0987-03-04");
}

#[test]
fn future_reads_as_future() {
    assert_eq!(timeago_at(11, 10), "in the future");
    assert!(timeago_at(10, 10).starts_with('0'));
}

#[test]
fn escaped_text_has_no_markup() {
    let s = xml_safe("<script>alert('x@y' & \"z\")</script>");
    assert!(!s.contains('<') && !s.contains('>') && !s.contains('"') && !s.contains('\'') && !s.contains('@'));
    assert_eq!(xml_safe("plain words, 1-2 (ok)"), "plain words, 1-2 (ok)");
}

#[test]
fn header_text_is_one_line() {
    let s = h("one\r\ntwo\nthree\r");
    assert!(!s.contains('\r') && !s.contains('\n'));
    assert_eq!(s.chars().count(), "one\r\ntwo\nthree\r".chars().count());
}

fn percent_decode(s: &str) -> Vec<u8> {
    let b = s.as_bytes();
    let mut out = Vec::new();
    let mut i = 0;
    while i < b.len() {
        if b[i] == b'%' {
            out.push(u8::from_str_radix(std::str::from_utf8(&b[i + 1..i + 3]).unwrap(), 16).unwrap());
            i += 3;
        } else {
            out.push(b[i]);
            i += 1;
        }
    }
    out
}

#[test]
fn reply_links_carry_the_exact_values() {
    let mail = "From: Zoë <zoe+list@example.com>\r\nSubject: Ça & va? #1 = 100%\r\nMessage-ID: <x/y@z>\r\nDate: Wed, 22 Dec 2021 10:30:15 +0100\r\n\r\nline & one\r\n";
    let m = message_from_bytes(mail.as_bytes()).unwrap();
    let link = m.mailto("dev", "dev@l", "https://l");
    let query = link.strip_prefix("mailto:dev@l?").unwrap();
    let parts: Vec<&str> = query.split('&').collect();
    assert_eq!(parts.len(), 5);
    let value = |k: &str| parts.iter().find(|p| p.starts_with(k)).unwrap()[k.len() + 1..].to_string();
    assert_eq!(percent_decode(&value("cc")), "zoe+list@example.com".as_bytes());
    assert_eq!(percent_decode(&value("in-reply-to")), "<x/y@z>".as_bytes());
    assert_eq!(percent_decode(&value("list-archive")), "https://l/dev".as_bytes());
    assert_eq!(percent_decode(&value("subject")), "Re: Ça & va? #1 = 100%".as_bytes());
    assert_eq!(percent_decode(&value("body")), "> line & one\n".as_bytes());
}

#[test]
fn fixed_text_survives_unformatting() {
    let t = "no flowed lines here\nnone at all\n\nend ";
    assert_eq!(unformat_flowed(t), t);
    assert_eq!(unformat_flowed("soft \nbreak"), "soft break");
    assert_eq!(unformat_flowed(" stuffed"), "stuffed");
}

#[test]
fn truncated_text_fits() {
    assert_eq!(truncate_ellipsis("short", 10), "short");
    assert_eq!(truncate_ellipsis("a longer text", 8), "a lon...");
    assert_eq!(truncate_ellipsis("a longer text", 8).chars().count(), 8);
    // multibyte: cut by characters once the bytes do not fit
    assert_eq!(truncate_ellipsis("ééé", 5), "éé...");
}

#[test]
fn one_section_per_header() {
    let c = Config::parse("x=1\n[a]\n[b]\nnot [c]\n[d]\n");
    let names: Vec<&str> = c.subsections.iter().map(|s| s.name.as_str()).collect();
    assert_eq!(names, vec!["a", "b", "d"]);
}

fn topic(i: u64, day: u8) -> ThreadSummary {
    let mail = format!("From: a@x\r\nSubject: topic {}\r\nMessage-ID: <t{}@x>\r\nDate: Wed, 22 Dec 2021 10:30:15 +0100\r\n\r\nb\r\n", i, i);
    let m = message_from_bytes(mail.as_bytes()).unwrap();
    ThreadSummary {
        message: m,
        reply_count: 0,
        last_reply: MailDate { year: 2021, month: 12, day, hour: 0, minute: 0, second: 0, tz_before_gmt: false, tz_hour: 0, tz_minute: 0 },
    }
}

fn list_with(n: u64) -> List {
    let config = Config::parse("base_url=u\nemail_fmt=%s@x\n");
    let mut lists = crabmail::models::Lists { lists: Vec::new(), out_dir: "site".to_string() };
    lists.add(ThreadIdx::new(), "dev", &config);
    let mut list = lists.lists.pop().unwrap();
    for i in 0..n {
        list.thread_topics.push(topic(i, (1 + i % 28) as u8));
    }
    list
}

#[test]
fn pages_hold_every_topic_once() {
    let list = list_with(205);
    let pages = list.to_gmi();
    assert_eq!(pages.len(), 3);
    let html = list.to_html().unwrap();
    assert_eq!(html.len(), 3);
    for i in 0..205u64 {
        let needle = format!("=>threads/t{}@x.gmi ", i);
        let count: usize = pages.iter().map(|p| p.matches(needle.as_str()).count()).sum();
        assert_eq!(count, 1, "topic {}", i);
        let page = (i / 100) as usize;
        assert!(pages[page].contains(needle.as_str()));
    }
    assert_eq!(list_with(200).to_gmi().len(), 2);
    assert_eq!(list_with(0).to_gmi().len(), 0);
}

#[test]
fn sorting_topics_has_one_outcome() {
    let mut a = list_with(40);
    let mut b = list_with(40);
    a.sort_topics();
    b.sort_topics();
    let ia: Vec<String> = a.thread_topics.iter().map(|t| t.message.id.clone()).collect();
    let ib: Vec<String> = b.thread_topics.iter().map(|t| t.message.id.clone()).collect();
    assert_eq!(ia, ib);
    // newest first; equal times in reverse order of arrival
    assert_eq!(ia[0], "t27@x");
    assert_eq!(ia[1], "t26@x");
    assert_eq!(a.thread_topics[0].last_reply.day, 28);
    let p39 = ia.iter().position(|s| s == "t39@x").unwrap();
    let p11 = ia.iter().position(|s| s == "t11@x").unwrap();
    assert_eq!(p11, p39 + 1);
}

fn unescape(t: &str) -> String {
    let mut out = String::new();
    let mut rest = t;
    while let Some(c) = rest.chars().next() {
        let found = [("&amp;", '&'), ("&lt;", '<'), ("&gt;", '>'), ("&quot;", '"'), ("&#39;", '\''), ("&#x40;", '@')]
            .iter()
            .find(|(e, _)| rest.starts_with(e));
        match found {
            Some((e, ch)) => {
                out.push(*ch);
                rest = &rest[e.len()..];
            }
            None => {
                out.push(c);
                rest = &rest[c.len_utf8()..];
            }
        }
    }
    out
}

#[test]
fn escaping_distributes_over_concatenation() {
    let pairs = [("a<b", "&c@d"), ("", "'\"x"), ("Zoë & co", ""), ("&amp;", "&lt;")];
    for (a, b) in pairs {
        let whole = format!("{}{}", a, b);
        assert_eq!(xml_safe(&whole), format!("{}{}", xml_safe(a), xml_safe(b)));
    }
}

#[test]
fn unescaping_gives_the_text_back() {
    for text in ["<p class=\"x\">it's a@b & c</p>", "&amp; already", "plain", "", "@@&&"] {
        let e = xml_safe(text);
        assert_eq!(unescape(&e), text);
        for (i, _) in e.match_indices('&') {
            let rest = &e[i..];
            assert!(["&amp;", "&lt;", "&gt;", "&quot;", "&#39;", "&#x40;"].iter().any(|x| rest.starts_with(x)));
        }
    }
}
