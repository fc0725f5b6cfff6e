use crabmail::config::Config;
use crabmail::models::{message_from_bytes, Lists, MailAddress, Thread};
use crabmail::templates::gmi::h;
use crabmail::templates::html::{build_page_idx, email_body};
use crabmail::templates::util::xml_safe;
use crabmail::templates::xml::{feed, message};
use crabmail::threading::ThreadIdx;

const MAIL_A: &str = "From: Alice <alice@example.com>\r\nTo: dev@lists.example.com\r\nSubject: Hello <world>\r\nMessage-ID: <a1@example.com>\r\nDate: Wed, 22 Dec 2021 10:30:15 +0100\r\n\r\nHi there, see https://example.com/x?a=1&b=2\r\n> quoted\r\nOn Monday Bob wrote:\r\nback\r\n";

#[test]
fn xml_safe_escapes_markup_and_at_signs() {
    assert_eq!(xml_safe("<a href=\"x\">&'@</a>"), "&lt;a href=&quot;x&quot;&gt;&amp;&#39;&#x40;&lt;/a&gt;");
    assert_eq!(xml_safe("plain text"), "plain text");
    assert_eq!(xml_safe(""), "");
}

#[test]
fn gemini_header_text_is_one_line() {
    assert_eq!(h("a\r\nb\nc"), "a  b c");
}

#[test]
fn page_index() {
    assert_eq!(build_page_idx(0, 1), "");
    assert_eq!(
        build_page_idx(1, 3),
        "<b>Pages</b>: <a href='index.html'>1</a> <b>2</b> <a href='index-3.html'>3</a> <hr>"
    );
}

#[test]
fn body_links_and_quotes() {
    let html = email_body("Hi https://example.com/x?a=1&b=2 there\n> quoted\nOn Monday Bob wrote:\nback", false);
    assert_eq!(
        html,
        "Hi <a href=\"https://example.com/x?a=1&amp;b=2\">https://example.com/x?a=1&amp;b=2</a> there\n<span class='light'>> quoted\nOn Monday Bob wrote:\n</span>back\n"
    );
    assert_eq!(email_body("mail me: bob@example.com", false), "mail me: <a href=\"mailto:bob&#x40;example.com\">bob&#x40;example.com</a>\n");
    assert_eq!(email_body("> last", false), "<span class='light'>> last\n</span>");
    assert_eq!(email_body("", false), "");
}

#[test]
fn body_flowed_lines_join() {
    assert_eq!(email_body("one \ntwo\n three", true), "one two\nthree\n");
}

#[test]
fn addresses_as_html() {
    let a = MailAddress { name: Some("A <b>".to_string()), address: "a@x".to_string() };
    assert_eq!(a.to_html(), "\"A &lt;b&gt;\" <<a href='mailto:a&#x40;x'>a&#x40;x</a>>");
    let b = MailAddress { name: None, address: "b@x".to_string() };
    assert_eq!(b.to_html(), "<<a href='mailto:b&#x40;x'>b&#x40;x</a>>");
}

#[test]
fn atom_pieces() {
    let f = feed("T", "L", "U", "N", "E", "X");
    assert!(f.starts_with("<?xml version=\"1.0\" encoding=\"utf-8\"?>"));
    assert!(f.contains("<title>T</title>"));
    assert!(f.contains("<link href=\"L\"/>"));
    assert!(f.contains("<id>L</id>"));
    let m = message("T", "L", "I", "U", "N", "E", "C");
    assert!(m.starts_with("<entry>"));
    assert!(m.contains("<content type=\"text/plain\">\n        C\n"));
}

fn site() -> Lists {
    let config = Config::parse("base_url=https://l.example.com\nemail_fmt=%s@l.example.com\n");
    let mut lists = Lists { lists: Vec::new(), out_dir: "site".to_string() };
    lists.add(ThreadIdx::new(), "dev", &config);
    lists.add(ThreadIdx::new(), "a<b", &config);
    lists
}

#[test]
fn index_of_lists() {
    let lists = site();
    assert_eq!(lists.to_gmi(), "# Mail Archives\r\n=> ./dev/ dev\r\n=> ./a<b/ a<b\r\n");
    let html = lists.to_html().unwrap();
    assert!(html.contains("<title>Mail Archives</title>"));
    assert!(html.contains("<a href='./dev'><h2>dev</h2></a>\n<a href='./a&lt;b'><h2>a&lt;b</h2></a>\n"));
    assert!(html.ends_with("</html>\n"));
}

#[test]
fn pages_of_a_list() {
    let mut lists = site();
    let list = &mut lists.lists[0];
    assert_eq!(list.to_gmi().len(), 0);
    assert_eq!(list.to_html().unwrap().len(), 0);
    let raw = vec![MAIL_A.as_bytes().to_vec()];
    let mut idx = ThreadIdx::new();
    let f = crabmail::message::parse_fields(MAIL_A.as_bytes()).unwrap();
    idx.add_email(&f, "p".to_string());
    let msgs: Vec<_> = idx.threads[0].iter().map(|m| m.copy()).collect();
    let thread = list.add_thread(&msgs, &raw, "https://l.example.com").unwrap();
    let gmi = list.to_gmi();
    assert_eq!(gmi.len(), 1);
    assert!(gmi[0].starts_with("## dev\r\n\r\n=>mailto:dev@l.example.com dev@l.example.com\r\n=>threads/a1@example.com.gmi Hello <world>\r\n"));
    assert!(gmi[0].ends_with(" | 0 replies | 2021-12-22\r\n\r\n=> index-1.gmi next"));
    let pages = list.to_html().unwrap();
    assert_eq!(pages.len(), 1);
    assert!(pages[0].contains("<a class=\"bigger\" href=\"threads/a1&#x40;example.com.html\">Hello &lt;world&gt;</a>"));
    assert!(pages[0].contains("<b>Alice</b> | 0 replies | 2021-12-22<hr>"));

    let tg = thread.to_gmi();
    assert!(tg.starts_with("# Hello <world>\r\n"));
    let th = thread.to_html().unwrap();
    assert!(th.contains("<title>Hello &lt;world&gt;</title>"));
    assert!(th.contains("<a href=\"https://example.com/x?a=1&amp;b=2\">"));
    assert!(th.ends_with("</div><hr></body></html>"));
    let tx = thread.to_xml();
    // the feed's own title is the subject as it is; the entry's is escaped
    assert!(tx.contains("<title>Hello <world></title>"));
    assert!(tx.contains("<title>Hello &lt;world&gt;</title>"));
    assert!(tx.contains("<link href=\"https://l.example.com/dev/a1@example.com\"/>"));

    list.recent_messages = vec![message_from_bytes(MAIL_A.as_bytes()).unwrap()];
    let lx = list.to_xml();
    assert!(lx.contains("<updated>2021-12-22T10:30:15+01:00</updated>"));
    let mx = list.recent_messages[0].to_xml();
    assert!(mx.starts_with("<entry>"));
}

#[test]
fn empty_feed_date() {
    let lists = site();
    let x = lists.lists[0].to_xml();
    assert!(x.contains("<updated>1970-01-01T00:00:01Z</updated>"));
}

#[test]
fn thread_gemini_lists_headers() {
    let raw = vec![MAIL_A.as_bytes().to_vec()];
    let t = Thread::new(&raw, "dev", "dev@x", "u").unwrap();
    let g = t.to_gmi();
    assert!(g.contains("\r\nFrom: alice@example.com\r\n"));
    assert!(g.contains("\r\nDate: 2021-12-22T10:30:15+01:00\r\n"));
}

#[test]
fn email_body_has_one_newline_per_line() {
    for body in [
        "Hi https://example.com/x?a=1&b=2 there\r\n> quoted\nOn Monday Bob wrote:\nback\n",
        "one line, a@b.example and http://x.example",
        "\n\n\n",
        "",
    ] {
        let html = email_body(body, false);
        assert_eq!(html.matches('\n').count(), body.lines().count());
    }
}
