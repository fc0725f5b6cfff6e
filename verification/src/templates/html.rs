//! HTML pages: the index of lists, the pages of a list and the page of a
//! thread.
use vstd::prelude::*;
use crate::models::{
    List, Lists, MailAddress, MailAddressView, StrMessage, StrMessageView, Thread, ThreadSummary,
    addresses_view, messages_view, path_escaped,
};
use crate::templates::PAGE_SIZE;
use crate::templates::gmi::{lemma_page_step, page_total, page_topics, sender_name};
use crate::templates::util::{lemma_escaping_adds_no_newline, push_xml_safe, xml_escaped, xml_safe};
use crate::text::{chars_of, decimal, decimal_digits, push_char, push_chars, push_decimal, push_str};
use crate::time::{rfc3339_text, ymd_text};
use crate::sort::{count_of, lemma_count_absent, lemma_count_concat};
use crate::util::{byte_count, lemma_text_lines_lack_newlines, lines_of, text_lines, truncate_ellipsis, truncated_text, unformat_flowed, unformat_flowed_text};

verus! {

// ----------------------------------------------------------------------
// Templates
// ----------------------------------------------------------------------

/// What `nanotemplate::template` renders from `template` and the
/// (placeholder, value) pairs `values`: `None` when it reports an error.
pub uninterp spec fn rendered(template: Seq<char>, values: Seq<(Seq<char>, Seq<char>)>) -> Option<
    Seq<char>,
>;

pub open spec fn pairs_view(v: Seq<(String, String)>) -> Seq<(Seq<char>, Seq<char>)> {
    v.map_values(|p: (String, String)| (p.0@, p.1@))
}

/// `nanotemplate::template`: every `{placeholder}` of `template` replaced
/// by its value; the result is the name `rendered` of the arguments, an
/// error becoming `None`.
#[verifier::external_body]
fn fill_template(template: &str, values: &Vec<(String, String)>) -> (r: Option<String>)
    ensures
        match r {
            Some(s) => rendered(template@, pairs_view(values@)) == Some(s@),
            None => rendered(template@, pairs_view(values@)) is None,
        },
{
    nanotemplate::template(template, values.iter().map(|p| (p.0.as_str(), p.1.as_str()))).ok()
}

fn pair(k: &str, v: &str) -> (r: (String, String))
    ensures
        r.0@ == k@,
        r.1@ == v@,
{
    let mut a = String::new();
    push_str(&mut a, k);
    let mut b = String::new();
    push_str(&mut b, v);
    assert(a@ =~= k@);
    assert(b@ =~= v@);
    (a, b)
}

pub const HEADER: &'static str = "<!DOCTYPE html>\n<html>\n<head>\n<title>{title}</title>\n<meta http-equiv='Permissions-Policy' content='interest-cohort=()'/>\n<link rel='stylesheet' type='text/css' href='{css_path}' />\n<meta name='viewport' content='width=device-width, initial-scale=1.0, maximum-scale=1.0,user-scalable=0' />\n<link rel='icon' href='data:image/svg+xml,<svg xmlns=%22http://www.w3.org/2000/svg%22 viewBox=%220 0 100 100%22><text y=%22.9em%22 font-size=%2290%22>📧</text></svg>'>\n<meta name=\"description\" content=\"{title}\"/>\n</head>\n<body>\n";

pub const FOOTER: &'static str = "\nArchive generated with  <a href='https://crabmail.flounder.online/'>crabmail</a>\n</body>\n</html>\n";

/// The feed icon shown next to feed links.
pub const RSS_SVG: &'static str = "data:image/svg+xml,%3Csvg xmlns='http://www.w3.org/2000/svg' viewBox='0 0 8 8'%3E%3Crect width='8' height='8' rx='1.5' fill='%23f78422'/%3E%3Ccircle cx='2' cy='6' r='1' fill='%23fff'/%3E%3Cpath d='M1 3.5a3.5 3.5 0 0 1 3.5 3.5M1 1a6 6 0 0 1 6 6' stroke='%23fff' fill='none'/%3E%3C/svg%3E";

// ----------------------------------------------------------------------
// The index of all lists
// ----------------------------------------------------------------------

pub const LISTS_BODY: &'static str = "<h1 class=\"page-title\">{title}</h1>\n            <hr>\n            {lists}\n            <hr>";

pub open spec fn list_links_html(lists: Seq<List>) -> Seq<char>
    decreases lists.len(),
{
    if lists.len() == 0 {
        Seq::empty()
    } else {
        let name = xml_escaped(lists.last().config.name@);
        list_links_html(lists.drop_last()) + "<a href='./"@ + name + "'><h2>"@ + name + "</h2></a>\n"@
    }
}

pub open spec fn lists_values(lists: Seq<List>) -> Seq<(Seq<char>, Seq<char>)> {
    seq![("title"@, "Mail Archives"@), ("css_path"@, "style.css"@), ("lists"@, list_links_html(lists))]
}

impl Lists {
    /// The HTML index of all lists; `None` when the template reports an error.
    pub fn to_html(&self) -> (r: Option<String>)
        ensures
            match r {
                Some(s) => rendered(HEADER@ + LISTS_BODY@ + FOOTER@, lists_values(self.lists@)) == Some(s@),
                None => rendered(HEADER@ + LISTS_BODY@ + FOOTER@, lists_values(self.lists@)) is None,
            },
    {
        let mut lists = String::new();
        let mut i: usize = 0;
        assert(self.lists@.take(0) =~= Seq::<List>::empty());
        while i < self.lists.len()
            invariant
                i <= self.lists@.len(),
                lists@ == list_links_html(self.lists@.take(i as int)),
            decreases self.lists@.len() - i,
        {
            let name = xml_safe(self.lists[i].config.name.as_str());
            let mut s = String::new();
            push_str(&mut s, "<a href='./");
            push_str(&mut s, name.as_str());
            push_str(&mut s, "'><h2>");
            push_str(&mut s, name.as_str());
            push_str(&mut s, "</h2></a>\n");
            push_str(&mut lists, s.as_str());
            i = i + 1;
            assert(self.lists@.take(i as int).drop_last() =~= self.lists@.take(i - 1));
            assert(lists@ =~= list_links_html(self.lists@.take(i as int)));
        }
        assert(self.lists@.take(self.lists@.len() as int) =~= self.lists@);
        let mut tpl = String::new();
        push_str(&mut tpl, HEADER);
        push_str(&mut tpl, LISTS_BODY);
        push_str(&mut tpl, FOOTER);
        assert(tpl@ =~= HEADER@ + LISTS_BODY@ + FOOTER@);
        let mut values: Vec<(String, String)> = Vec::new();
        values.push(pair("title", "Mail Archives"));
        values.push(pair("css_path", "style.css"));
        values.push(pair("lists", lists.as_str()));
        assert(pairs_view(values@) =~= lists_values(self.lists@));
        fill_template(tpl.as_str(), &values)
    }
}

// ----------------------------------------------------------------------
// Page indexes
// ----------------------------------------------------------------------

/// File name of page `n` (counted from 0) of a list.
pub open spec fn page_file(n: nat) -> Seq<char> {
    if n == 0 { "index.html"@ } else { "index-"@ + decimal_digits(n + 1) + ".html"@ }
}

/// The links to the pages `0 .. n`, page `current` in bold.
pub open spec fn page_links(current: nat, n: nat) -> Seq<char>
    decreases n,
{
    if n == 0 {
        Seq::empty()
    } else {
        let k = (n - 1) as nat;
        page_links(current, k) + if current == k {
            "<b>"@ + decimal_digits(k + 1) + "</b> "@
        } else {
            "<a href='"@ + page_file(k) + "'>"@ + decimal_digits(k + 1) + "</a> "@
        }
    }
}

/// Links to all `total` pages of a list, nothing when there is only one.
pub open spec fn page_index_html(current: nat, total: nat) -> Seq<char> {
    if total == 1 {
        Seq::empty()
    } else {
        "<b>Pages</b>: "@ + page_links(current, total) + "<hr>"@
    }
}

/// Links to all `total` pages of a list, `current` (from 0) in bold.
pub fn build_page_idx(current: usize, total: usize) -> (r: String)
    ensures
        r@ == page_index_html(current as nat, total as nat),
{
    if total == 1 {
        let r = String::new();
        return r;
    }
    let mut page_idx = String::new();
    push_str(&mut page_idx, "<b>Pages</b>: ");
    let ghost head = page_idx@;
    let mut n: usize = 0;
    while n < total
        invariant
            n <= total,
            page_idx@ == head + page_links(current as nat, n as nat),
        decreases total - n,
    {
        let mut s = String::new();
        if current == n {
            push_str(&mut s, "<b>");
            assert(s@ =~= "<b>"@);
            push_decimal(&mut s, (n + 1) as u64);
            push_str(&mut s, "</b> ");
        } else {
            let mut path = String::new();
            if n == 0 {
                push_str(&mut path, "index.html");
                assert(path@ =~= "index.html"@);
            } else {
                push_str(&mut path, "index-");
                assert(path@ =~= "index-"@);
                push_decimal(&mut path, (n + 1) as u64);
                push_str(&mut path, ".html");
            }
            push_str(&mut s, "<a href='");
            assert(s@ =~= "<a href='"@);
            push_str(&mut s, path.as_str());
            push_str(&mut s, "'>");
            push_decimal(&mut s, (n + 1) as u64);
            push_str(&mut s, "</a> ");
        }
        push_str(&mut page_idx, s.as_str());
        n = n + 1;
        assert(page_idx@ =~= head + page_links(current as nat, n as nat));
    }
    push_str(&mut page_idx, "<hr>");
    page_idx
}

// ----------------------------------------------------------------------
// The pages of one list
// ----------------------------------------------------------------------

pub const TOPIC_TEMPLATE: &'static str = "\n            <div class='message-sum'>\n            <a class=\"bigger\" href=\"threads/{path_id}.html\">{subject}</a>\n            <br>\n            <div class=\"monospace\">{preview}</div>\n            <b>{from}</b> | {replies} replies | {date}<hr>\n            ";

pub const LIST_PAGE_BODY: &'static str = "\n        <h1 class=\"page-title\">\n        {title} <a href=\"atom.xml\"><img alt=\"Atom feed\" src='{rss_svg}' /></a>\n        </h1>\n        {description}<br>\n        <a href=\"mailto:{list_email}\">{list_email}</a>\n        <hr>\n        {threads}\n        {page_idx}\n                 ";

pub open spec fn topic_values(t: ThreadSummary) -> Seq<(Seq<char>, Seq<char>)> {
    seq![
        ("path_id"@, xml_escaped(path_escaped(t.message.id@))),
        ("subject"@, xml_escaped(t.message.subject@)),
        ("replies"@, decimal_digits(t.reply_count as nat)),
        ("date"@, ymd_text(t.last_reply.year as nat, t.last_reply.month as nat, t.last_reply.day as nat)),
        ("from"@, xml_escaped(sender_name(t.message.from@))),
        ("preview"@, xml_escaped(t.message.preview@)),
    ]
}

/// The rendered topics, one after the other; `None` when one fails.
pub open spec fn topics_html(topics: Seq<ThreadSummary>) -> Option<Seq<char>>
    decreases topics.len(),
{
    if topics.len() == 0 {
        Some(Seq::empty())
    } else {
        match (topics_html(topics.drop_last()), rendered(TOPIC_TEMPLATE@, topic_values(topics.last()))) {
            (Some(a), Some(b)) => Some(a + b),
            _ => None,
        }
    }
}

pub open spec fn list_page_values(list: List, n: nat, threads: Seq<char>) -> Seq<(Seq<char>, Seq<char>)> {
    let page_count = list.thread_topics@.len() / (PAGE_SIZE as nat) + 1;
    seq![
        ("header"@, HEADER@),
        ("description"@, list.config.description@),
        ("title"@, list.config.title@),
        ("css_path"@, "../style.css"@),
        ("threads"@, threads),
        ("page_idx"@, page_index_html(n, page_count)),
        ("list_email"@, list.config.email@),
        ("rss_svg"@, RSS_SVG@),
        ("footer"@, FOOTER@),
    ]
}

/// Page `n` of a list; `None` when a template reports an error.
pub open spec fn list_page_html(list: List, n: nat) -> Option<Seq<char>> {
    match topics_html(page_topics(list.thread_topics@, n as int)) {
        Some(threads) => rendered(HEADER@ + LIST_PAGE_BODY@ + FOOTER@, list_page_values(list, n, threads)),
        None => None,
    }
}

fn topic_html(t: &ThreadSummary) -> (r: Option<String>)
    ensures
        match r {
            Some(s) => rendered(TOPIC_TEMPLATE@, topic_values(*t)) == Some(s@),
            None => rendered(TOPIC_TEMPLATE@, topic_values(*t)) is None,
        },
{
    let path = t.message.pathescape_msg_id();
    let from = match &t.message.from.name {
        Some(n) => xml_safe(n.as_str()),
        None => xml_safe(t.message.from.address.as_str()),
    };
    let mut values: Vec<(String, String)> = Vec::new();
    values.push(pair("path_id", xml_safe(path.as_str()).as_str()));
    values.push(pair("subject", xml_safe(t.message.subject.as_str()).as_str()));
    values.push(pair("replies", decimal(t.reply_count).as_str()));
    values.push(pair("date", t.last_reply.ymd().as_str()));
    values.push(pair("from", from.as_str()));
    values.push(pair("preview", xml_safe(t.message.preview.as_str()).as_str()));
    assert(pairs_view(values@) =~= topic_values(*t));
    fill_template(TOPIC_TEMPLATE, &values)
}

impl List {
    /// The HTML pages of the list, `PAGE_SIZE` threads each; `None` when a
    /// template reports an error.
    pub fn to_html(&self) -> (r: Option<Vec<String>>)
        ensures
            match r {
                Some(pages) => {
                    &&& pages@.len() == page_total(self.thread_topics@.len())
                    &&& forall|n: int| 0 <= n < pages@.len() ==> list_page_html(*self, n as nat) == Some((#[trigger] pages@[n])@)
                },
                None => exists|n: nat| n < page_total(self.thread_topics@.len()) && #[trigger] list_page_html(*self, n) is None,
            },
    {
        let total = self.thread_topics.len();
        let page_count = total / PAGE_SIZE + 1;
        let mut tpl = String::new();
        push_str(&mut tpl, HEADER);
        push_str(&mut tpl, LIST_PAGE_BODY);
        push_str(&mut tpl, FOOTER);
        assert(tpl@ =~= HEADER@ + LIST_PAGE_BODY@ + FOOTER@);
        let mut pages: Vec<String> = Vec::new();
        let mut n: usize = 0;
        let mut start: usize = 0;
        while start < total
            invariant
                total == self.thread_topics@.len(),
                page_count == total / PAGE_SIZE + 1,
                tpl@ == HEADER@ + LIST_PAGE_BODY@ + FOOTER@,
                start <= total,
                start < total ==> start == n * PAGE_SIZE,
                pages@.len() == n,
                start < total ==> n < page_total(total as nat),
                start == total ==> n == page_total(total as nat),
                forall|k: int| 0 <= k < n ==> list_page_html(*self, k as nat) == Some((#[trigger] pages@[k])@),
            decreases total - start,
        {
            let end = if total - start >= PAGE_SIZE { start + PAGE_SIZE } else { total };
            let ghost chunk = page_topics(self.thread_topics@, n as int);
            let mut threads = String::new();
            let mut j = start;
            assert(chunk.take(0) =~= Seq::<ThreadSummary>::empty());
            while j < end
                invariant
                    start <= j <= end <= total == self.thread_topics@.len(),
                    chunk == self.thread_topics@.subrange(start as int, end as int),
                    chunk == page_topics(self.thread_topics@, n as int),
                    n < page_total(total as nat),
                    topics_html(chunk.take(j - start)) == Some(threads@),
                decreases end - j,
            {
                assert(chunk.take(j + 1 - start).drop_last() =~= chunk.take(j - start));
                match topic_html(&self.thread_topics[j]) {
                    Some(t) => {
                        push_str(&mut threads, t.as_str());
                    },
                    None => {
                        proof {
                            lemma_topics_html_none(chunk, (j + 1 - start) as nat);
                            assert(chunk.take(end - start) =~= chunk);
                            assert(list_page_html(*self, n as nat) is None);
                        }
                        return None;
                    },
                }
                j = j + 1;
            }
            assert(chunk.take(end - start) =~= chunk);
            let page_idx = build_page_idx(n, page_count);
            let mut values: Vec<(String, String)> = Vec::new();
            values.push(pair("header", HEADER));
            values.push(pair("description", self.config.description.as_str()));
            values.push(pair("title", self.config.title.as_str()));
            values.push(pair("css_path", "../style.css"));
            values.push(pair("threads", threads.as_str()));
            values.push(pair("page_idx", page_idx.as_str()));
            values.push(pair("list_email", self.config.email.as_str()));
            values.push(pair("rss_svg", RSS_SVG));
            values.push(pair("footer", FOOTER));
            assert(pairs_view(values@) =~= list_page_values(*self, n as nat, threads@));
            match fill_template(tpl.as_str(), &values) {
                Some(page) => {
                    pages.push(page);
                },
                None => {
                    assert(list_page_html(*self, n as nat) is None);
                    return None;
                },
            }
            proof {
                lemma_page_step(total as nat, n as nat);
            }
            n = n + 1;
            start = end;
        }
        Some(pages)
    }
}

/// Once a topic fails to render, so does every longer run of topics.
proof fn lemma_topics_html_none(topics: Seq<ThreadSummary>, k: nat)
    requires
        0 < k <= topics.len(),
        topics_html(topics.take(k as int)) is None,
    ensures
        topics_html(topics) is None,
    decreases topics.len() - k,
{
    if k < topics.len() {
        assert(topics.take(k + 1 as int).drop_last() =~= topics.take(k as int));
        lemma_topics_html_none(topics, (k + 1) as nat);
    } else {
        assert(topics.take(k as int) =~= topics);
    }
}

// ----------------------------------------------------------------------
// The page of one thread
// ----------------------------------------------------------------------

/// An address as HTML: "\"name\" <<a href='mailto:address'>address</a>>".
pub open spec fn address_html(a: MailAddressView) -> Seq<char> {
    (match a.name {
        Some(n) => "\""@ + xml_escaped(n) + "\" "@,
        None => Seq::empty(),
    }) + "<<a href='mailto:"@ + xml_escaped(a.address) + "'>"@ + xml_escaped(a.address) + "</a>>"@
}

/// Addresses as HTML, separated by ",".
pub open spec fn joined_addresses_html(v: Seq<MailAddressView>) -> Seq<char>
    decreases v.len(),
{
    if v.len() == 0 {
        Seq::empty()
    } else if v.len() == 1 {
        address_html(v[0])
    } else {
        joined_addresses_html(v.drop_last()) + ","@ + address_html(v.last())
    }
}

impl MailAddress {
    /// The address as HTML, with a mailto: link.
    pub fn to_html(&self) -> (r: String)
        ensures
            r@ == address_html(self@),
    {
        let mut out = String::new();
        match &self.name {
            Some(n) => {
                push_char(&mut out, '"');
                push_xml_safe(&mut out, n.as_str());
                push_str(&mut out, "\" ");
            },
            None => {},
        }
        let addr = xml_safe(self.address.as_str());
        push_str(&mut out, "<<a href='mailto:");
        push_str(&mut out, addr.as_str());
        push_str(&mut out, "'>");
        push_str(&mut out, addr.as_str());
        push_str(&mut out, "</a>>");
        proof {
            reveal_strlit("\"");
        }
        assert(out@ =~= address_html(self@));
        out
    }
}

fn join_addresses_html(v: &Vec<MailAddress>) -> (r: String)
    ensures
        r@ == joined_addresses_html(addresses_view(v@)),
{
    let ghost av = addresses_view(v@);
    let mut out = String::new();
    let mut i: usize = 0;
    assert(av.take(0) =~= Seq::<MailAddressView>::empty());
    while i < v.len()
        invariant
            av == addresses_view(v@),
            i <= v@.len(),
            out@ == joined_addresses_html(av.take(i as int)),
        decreases v@.len() - i,
    {
        if i > 0 {
            push_str(&mut out, ",");
        }
        let t = v[i].to_html();
        push_str(&mut out, t.as_str());
        i = i + 1;
        assert(av.take(i as int).drop_last() =~= av.take(i - 1));
        assert(out@ =~= joined_addresses_html(av.take(i as int)));
    }
    assert(av.take(v@.len() as int) =~= av);
    out
}

pub const THREAD_BODY: &'static str = "\n        <h1 class=\"page-title\">{title} \n        <a href=\"{path_id}.xml\"><img alt=\"Atom Feed\" src='{rss_svg}'></a>\n        </h1>\n        <div>\n        <a href=\"../\">Back</a>\n        <hr>\n        <div>\n         ";

pub const MESSAGE_TEMPLATE: &'static str = "<div id=\"{msg_id}\" class=\"message\">\n            <div class=\"message-meta\">\n            <span class=\"bold\">\n                {subject}\n            </span>\n            <br>\n            From: {from}\n            <br>\n            Date: <span>{date}</span>\n            <br>\n            {in_reply_to}\n            <details>\n            <summary>More</summary>\n            {extra_headers}\n            </details>\n            <a class=\"bold\" href=\"{mailto}\">Reply</a>\n            [<a href=\"../messages/{msg_path}.mbox\">Export</a>]\n            </div>\n            <div class=\"email-body\">\n             {body}\n            </div>\n            </div>\n            ";

pub open spec fn thread_head_values(root: StrMessageView) -> Seq<(Seq<char>, Seq<char>)> {
    seq![
        ("title"@, xml_escaped(root.subject)),
        ("css_path"@, "../../style.css"@),
        ("rss_svg"@, RSS_SVG@),
        ("path_id"@, xml_escaped(path_escaped(root.id))),
    ]
}

/// The In-Reply-To line of a message, if it has one.
pub open spec fn in_reply_to_html(m: StrMessageView) -> Seq<char> {
    match m.in_reply_to {
        Some(irt) => "In-Reply-To: <a href='#"@ + xml_escaped(irt) + "'>"@ + xml_escaped(
            truncated_text(irt, byte_count(irt), 40),
        ) + "</a><br>\n"@,
        None => Seq::empty(),
    }
}

/// The headers shown under "More".
pub open spec fn extra_headers_html(m: StrMessageView) -> Seq<char> {
    "Message-Id: <a href='#"@ + xml_escaped(m.id) + "'>"@ + xml_escaped(m.id) + "</a><br>\n"@
        + "To: \n"@ + joined_addresses_html(m.to) + "<br>\n"@ + if m.cc.len() > 0 {
        "Cc: "@ + joined_addresses_html(m.cc) + "<br>\n"@
    } else {
        Seq::empty()
    }
}

pub open spec fn message_values(m: StrMessageView) -> Seq<(Seq<char>, Seq<char>)> {
    seq![
        ("msg_id"@, xml_escaped(m.id)),
        ("msg_path"@, xml_escaped(path_escaped(m.id))),
        ("subject"@, xml_escaped(m.subject)),
        ("mailto"@, xml_escaped(m.mailto)),
        ("from"@, address_html(m.from)),
        ("date"@, xml_escaped(rfc3339_text(m.date))),
        ("in_reply_to"@, in_reply_to_html(m)),
        ("extra_headers"@, extra_headers_html(m)),
        ("body"@, email_body_html(m.body, m.flowed)),
    ]
}

/// The rendered messages, one after the other; `None` when one fails.
pub open spec fn messages_html(ms: Seq<StrMessageView>) -> Option<Seq<char>>
    decreases ms.len(),
{
    if ms.len() == 0 {
        Some(Seq::empty())
    } else {
        match (messages_html(ms.drop_last()), rendered(MESSAGE_TEMPLATE@, message_values(ms.last()))) {
            (Some(a), Some(b)) => Some(a + b),
            _ => None,
        }
    }
}

/// The HTML page of a thread; `None` when a template reports an error.
pub open spec fn thread_html(ms: Seq<StrMessageView>) -> Option<Seq<char>> {
    match (rendered(HEADER@ + THREAD_BODY@, thread_head_values(ms[0])), messages_html(ms)) {
        (Some(head), Some(body)) => Some(head + body + "</div><hr></body></html>"@),
        _ => None,
    }
}

fn message_html(m: &StrMessage) -> (r: Option<String>)
    ensures
        match r {
            Some(s) => rendered(MESSAGE_TEMPLATE@, message_values(m@)) == Some(s@),
            None => rendered(MESSAGE_TEMPLATE@, message_values(m@)) is None,
        },
{
    let mut in_reply_to = String::new();
    match &m.in_reply_to {
        Some(irt) => {
            push_str(&mut in_reply_to, "In-Reply-To: <a href='#");
            assert(in_reply_to@ =~= "In-Reply-To: <a href='#"@);
            push_xml_safe(&mut in_reply_to, irt.as_str());
            push_str(&mut in_reply_to, "'>");
            let short = truncate_ellipsis(irt.as_str(), 40);
            push_xml_safe(&mut in_reply_to, short.as_str());
            push_str(&mut in_reply_to, "</a><br>\n");
        },
        None => {},
    }
    assert(in_reply_to@ =~= in_reply_to_html(m@));
    let mut extra = String::new();
    push_str(&mut extra, "Message-Id: <a href='#");
    assert(extra@ =~= "Message-Id: <a href='#"@);
    let id = xml_safe(m.id.as_str());
    push_str(&mut extra, id.as_str());
    push_str(&mut extra, "'>");
    push_str(&mut extra, id.as_str());
    push_str(&mut extra, "</a><br>\n");
    push_str(&mut extra, "To: \n");
    let to = join_addresses_html(&m.to);
    push_str(&mut extra, to.as_str());
    push_str(&mut extra, "<br>\n");
    let ghost before_cc = extra@;
    if m.cc.len() > 0 {
        let mut cc_part = String::new();
        push_str(&mut cc_part, "Cc: ");
        assert(cc_part@ =~= "Cc: "@);
        let cc = join_addresses_html(&m.cc);
        push_str(&mut cc_part, cc.as_str());
        push_str(&mut cc_part, "<br>\n");
        push_str(&mut extra, cc_part.as_str());
    }
    assert(extra@ =~= extra_headers_html(m@));
    let path = m.pathescape_msg_id();
    let date = m.date.to_rfc3339();
    let mut values: Vec<(String, String)> = Vec::new();
    values.push(pair("msg_id", id.as_str()));
    values.push(pair("msg_path", xml_safe(path.as_str()).as_str()));
    values.push(pair("subject", xml_safe(m.subject.as_str()).as_str()));
    values.push(pair("mailto", xml_safe(m.mailto.as_str()).as_str()));
    values.push(pair("from", m.from.to_html().as_str()));
    values.push(pair("date", xml_safe(date.as_str()).as_str()));
    values.push(pair("in_reply_to", in_reply_to.as_str()));
    values.push(pair("extra_headers", extra.as_str()));
    values.push(pair("body", email_body(m.body.as_str(), m.flowed).as_str()));
    assert(pairs_view(values@) =~= message_values(m@));
    fill_template(MESSAGE_TEMPLATE, &values)
}

impl Thread {
    /// The HTML page of the thread; `None` when a template reports an error.
    pub fn to_html(&self) -> (r: Option<String>)
        requires
            self.messages@.len() > 0,
        ensures
            match r {
                Some(s) => thread_html(messages_view(self.messages@)) == Some(s@),
                None => thread_html(messages_view(self.messages@)) is None,
            },
    {
        let ghost mv = messages_view(self.messages@);
        let root = &self.messages[0];
        let mut tpl = String::new();
        push_str(&mut tpl, HEADER);
        push_str(&mut tpl, THREAD_BODY);
        assert(tpl@ =~= HEADER@ + THREAD_BODY@);
        let path = root.pathescape_msg_id();
        let mut values: Vec<(String, String)> = Vec::new();
        values.push(pair("title", xml_safe(root.subject.as_str()).as_str()));
        values.push(pair("css_path", "../../style.css"));
        values.push(pair("rss_svg", RSS_SVG));
        values.push(pair("path_id", xml_safe(path.as_str()).as_str()));
        assert(pairs_view(values@) =~= thread_head_values(mv[0]));
        let mut out = match fill_template(tpl.as_str(), &values) {
            Some(s) => s,
            None => return None,
        };
        let ghost head = out@;
        let mut body = String::new();
        let mut i: usize = 0;
        assert(mv.take(0) =~= Seq::<StrMessageView>::empty());
        while i < self.messages.len()
            invariant
                mv == messages_view(self.messages@),
                i <= self.messages@.len(),
                messages_html(mv.take(i as int)) == Some(body@),
            decreases self.messages@.len() - i,
        {
            assert(mv.take(i + 1).drop_last() =~= mv.take(i as int));
            match message_html(&self.messages[i]) {
                Some(s) => push_str(&mut body, s.as_str()),
                None => {
                    proof {
                        lemma_messages_html_none(mv, (i + 1) as nat);
                    }
                    return None;
                },
            }
            i = i + 1;
        }
        assert(mv.take(self.messages@.len() as int) =~= mv);
        push_str(&mut out, body.as_str());
        push_str(&mut out, "</div><hr></body></html>");
        Some(out)
    }
}

/// Once a message fails to render, so does every longer run of messages.
proof fn lemma_messages_html_none(ms: Seq<StrMessageView>, k: nat)
    requires
        0 < k <= ms.len(),
        messages_html(ms.take(k as int)) is None,
    ensures
        messages_html(ms) is None,
    decreases ms.len() - k,
{
    if k < ms.len() {
        assert(ms.take(k + 1 as int).drop_last() =~= ms.take(k as int));
        lemma_messages_html_none(ms, (k + 1) as nat);
    } else {
        assert(ms.take(k as int) =~= ms);
    }
}

// ----------------------------------------------------------------------
// Message bodies
// ----------------------------------------------------------------------

/// The spans `linkify` finds in `text` (default `LinkFinder`): each a
/// kind (1 a URL, 2 an e-mail address, 0 plain text) and its text.
pub uninterp spec fn link_spans_of(text: Seq<char>) -> Seq<(u8, Seq<char>)>;

/// The texts of `spans`, one after the other.
pub open spec fn spans_text(spans: Seq<(u8, Seq<char>)>) -> Seq<char>
    decreases spans.len(),
{
    if spans.len() == 0 {
        Seq::empty()
    } else {
        spans_text(spans.drop_last()) + spans.last().1
    }
}

/// `linkify::LinkFinder::new().spans(text)`, each span's kind (1 for a
/// URL, 2 for an e-mail address, 0 for plain text) and text taken out;
/// the result is the name `link_spans_of` of the text, and the spans, one
/// after the other, make up the text (as linkify documents).
#[verifier::external_body]
fn link_spans(text: &str) -> (r: Vec<(u8, String)>)
    ensures
        r@.map_values(|s: (u8, String)| (s.0, s.1@)) == link_spans_of(text@),
        spans_text(r@.map_values(|s: (u8, String)| (s.0, s.1@))) == text@,
{
    linkify::LinkFinder::new()
        .spans(text)
        .map(|s| match s.kind() {
            Some(linkify::LinkKind::Url) => (1u8, s.as_str().to_string()),
            Some(linkify::LinkKind::Email) => (2u8, s.as_str().to_string()),
            _ => (0u8, s.as_str().to_string()),
        })
        .collect()
}

/// One span as HTML: links become anchors, plain text stays as it is.
pub open spec fn span_html(s: (u8, Seq<char>)) -> Seq<char> {
    if s.0 == 1 {
        "<a href=\""@ + xml_escaped(s.1) + "\">"@ + xml_escaped(s.1) + "</a>"@
    } else if s.0 == 2 {
        "<a href=\"mailto:"@ + xml_escaped(s.1) + "\">"@ + xml_escaped(s.1) + "</a>"@
    } else {
        s.1
    }
}

pub open spec fn spans_html(spans: Seq<(u8, Seq<char>)>) -> Seq<char>
    decreases spans.len(),
{
    if spans.len() == 0 {
        Seq::empty()
    } else {
        spans_html(spans.drop_last()) + span_html(spans.last())
    }
}

/// Whether a line belongs to a quotation: it starts with ">", or it is
/// an attribution "On ... wrote:".
pub open spec fn is_quote_line(l: Seq<char>) -> bool {
    (l.len() >= 1 && l[0] == '>') || (l.len() >= 3 && l.take(3) == "On "@ && l.len() >= 6
        && l.skip(l.len() - 6) == "wrote:"@)
}

/// The HTML of the given lines, quotations wrapped in a light span;
/// `in_reply` tells whether such a span is open.
pub open spec fn lines_html(lines: Seq<Seq<char>>, in_reply: bool) -> Seq<char>
    decreases lines.len(),
{
    if lines.len() == 0 {
        if in_reply { "</span>"@ } else { Seq::empty() }
    } else {
        let l = lines[0];
        let quote = is_quote_line(l);
        let mark = if quote && !in_reply {
            "<span class='light'>"@
        } else if !quote && in_reply {
            "</span>"@
        } else {
            Seq::empty()
        };
        mark + spans_html(link_spans_of(l)) + "\n"@ + lines_html(lines.drop_first(), quote)
    }
}

/// The text of a message body as it is shown: format=flowed undone when
/// `flowed`.
pub open spec fn shown_text(body: Seq<char>, flowed: bool) -> Seq<char> {
    if flowed { unformat_flowed_text(body) } else { body }
}

/// Every body line that starts with '>' is quoted: it opens the light span
/// when none is open, and stays inside the one that is.
pub proof fn law_lines_starting_with_gt_are_quoted(lines: Seq<Seq<char>>, in_reply: bool)
    requires
        lines.len() > 0,
        lines[0].len() > 0,
        lines[0][0] == '>',
    ensures
        is_quote_line(lines[0]),
        lines_html(lines, in_reply) == (if in_reply {
            Seq::<char>::empty()
        } else {
            "<span class='light'>"@
        }) + spans_html(link_spans_of(lines[0])) + "\n"@ + lines_html(lines.drop_first(), true),
{
}

/// The HTML of a message body.
pub open spec fn email_body_html(body: Seq<char>, flowed: bool) -> Seq<char> {
    lines_html(text_lines(shown_text(body, flowed)), false)
}

/// Whether `s` holds no '\n'.
pub open spec fn lacks_newline(s: Seq<char>) -> bool {
    forall|i: int| 0 <= i < s.len() ==> s[i] != '\n'
}

proof fn lemma_concat_lacks_newline(a: Seq<char>, b: Seq<char>)
    requires
        lacks_newline(a),
        lacks_newline(b),
    ensures
        lacks_newline(a + b),
{
    assert forall|i: int| 0 <= i < (a + b).len() implies (a + b)[i] != '\n' by {
        if i < a.len() {
            assert((a + b)[i] == a[i]);
        } else {
            assert((a + b)[i] == b[i - a.len()]);
        }
    }
}

proof fn lemma_markup_lacks_newline()
    ensures
        lacks_newline("<a href=\""@),
        lacks_newline("<a href=\"mailto:"@),
        lacks_newline("\">"@),
        lacks_newline("</a>"@),
        lacks_newline("<span class='light'>"@),
        lacks_newline("</span>"@),
        lacks_newline(Seq::<char>::empty()),
{
    reveal_strlit("<a href=\"");
    reveal_strlit("<a href=\"mailto:");
    reveal_strlit("\">");
    reveal_strlit("</a>");
    reveal_strlit("<span class='light'>");
    reveal_strlit("</span>");
}

/// The HTML of spans whose texts hold no '\n' holds none either.
proof fn lemma_spans_html_lacks_newline(spans: Seq<(u8, Seq<char>)>)
    requires
        lacks_newline(spans_text(spans)),
    ensures
        lacks_newline(spans_html(spans)),
    decreases spans.len(),
{
    if spans.len() > 0 {
        let prev = spans_text(spans.drop_last());
        let t = spans.last().1;
        assert forall|i: int| 0 <= i < prev.len() implies prev[i] != '\n' by {
            assert((prev + t)[i] == prev[i]);
        }
        assert forall|i: int| 0 <= i < t.len() implies t[i] != '\n' by {
            assert((prev + t)[prev.len() + i] == t[i]);
        }
        lemma_spans_html_lacks_newline(spans.drop_last());
        lemma_escaping_adds_no_newline(t);
        lemma_markup_lacks_newline();
        let e = xml_escaped(t);
        assert(lacks_newline(e));
        let sh = span_html(spans.last());
        if spans.last().0 == 1 {
            lemma_concat_lacks_newline("<a href=\""@, e);
            lemma_concat_lacks_newline("<a href=\""@ + e, "\">"@);
            lemma_concat_lacks_newline("<a href=\""@ + e + "\">"@, e);
            lemma_concat_lacks_newline("<a href=\""@ + e + "\">"@ + e, "</a>"@);
        } else if spans.last().0 == 2 {
            lemma_concat_lacks_newline("<a href=\"mailto:"@, e);
            lemma_concat_lacks_newline("<a href=\"mailto:"@ + e, "\">"@);
            lemma_concat_lacks_newline("<a href=\"mailto:"@ + e + "\">"@, e);
            lemma_concat_lacks_newline("<a href=\"mailto:"@ + e + "\">"@ + e, "</a>"@);
        }
        assert(lacks_newline(sh));
        lemma_concat_lacks_newline(spans_html(spans.drop_last()), sh);
    }
}

/// The HTML of body lines holds one '\n' per line, when each line holds
/// none and is made up of its link spans.
proof fn lemma_lines_html_newlines(lines: Seq<Seq<char>>, in_reply: bool)
    requires
        forall|j: int| 0 <= j < lines.len() ==> lacks_newline(#[trigger] lines[j]),
        forall|j: int| 0 <= j < lines.len() ==> spans_text(link_spans_of(#[trigger] lines[j])) == lines[j],
    ensures
        count_of(lines_html(lines, in_reply), '\n') == lines.len(),
    decreases lines.len(),
{
    lemma_markup_lacks_newline();
    if lines.len() == 0 {
        if in_reply {
            lemma_count_absent("</span>"@, '\n');
        } else {
            lemma_count_absent(Seq::<char>::empty(), '\n');
        }
    } else {
        let l = lines[0];
        let quote = is_quote_line(l);
        let mark = if quote && !in_reply {
            "<span class='light'>"@
        } else if !quote && in_reply {
            "</span>"@
        } else {
            Seq::empty()
        };
        let body = spans_html(link_spans_of(l));
        assert(lacks_newline(l));
        lemma_spans_html_lacks_newline(link_spans_of(l));
        lemma_concat_lacks_newline(mark, body);
        lemma_count_absent(mark + body, '\n');
        reveal_strlit("\n");
        assert(count_of("\n"@, '\n') == 1) by {
            reveal_strlit("\n");
            let e = Seq::<char>::empty();
            assert("\n"@.drop_last() =~= e);
            assert(count_of(e, '\n') == 0);
            assert("\n"@.last() == '\n');
        }
        let rest = lines.drop_first();
        assert forall|j: int| 0 <= j < rest.len() implies lacks_newline(#[trigger] rest[j]) by {
            assert(rest[j] == lines[j + 1]);
        }
        assert forall|j: int| 0 <= j < rest.len() implies spans_text(link_spans_of(#[trigger] rest[j]))
            == rest[j] by {
            assert(rest[j] == lines[j + 1]);
        }
        lemma_lines_html_newlines(rest, quote);
        lemma_count_concat(mark + body, "\n"@, '\n');
        lemma_count_concat(mark + body + "\n"@, lines_html(rest, quote), '\n');
    }
}

fn push_spans_html(out: &mut String, line: &str)
    ensures
        final(out)@ == old(out)@ + spans_html(link_spans_of(line@)),
        spans_text(link_spans_of(line@)) == line@,
{
    let spans = link_spans(line);
    let ghost sv = spans@.map_values(|s: (u8, String)| (s.0, s.1@));
    let ghost start = out@;
    let mut i: usize = 0;
    assert(sv.take(0) =~= Seq::<(u8, Seq<char>)>::empty());
    while i < spans.len()
        invariant
            sv == spans@.map_values(|s: (u8, String)| (s.0, s.1@)),
            i <= spans@.len(),
            out@ == start + spans_html(sv.take(i as int)),
        decreases spans@.len() - i,
    {
        let kind = spans[i].0;
        let text = spans[i].1.as_str();
        let mut s = String::new();
        if kind == 1 {
            push_str(&mut s, "<a href=\"");
            assert(s@ =~= "<a href=\""@);
            push_xml_safe(&mut s, text);
            push_str(&mut s, "\">");
            push_xml_safe(&mut s, text);
            push_str(&mut s, "</a>");
        } else if kind == 2 {
            push_str(&mut s, "<a href=\"mailto:");
            assert(s@ =~= "<a href=\"mailto:"@);
            push_xml_safe(&mut s, text);
            push_str(&mut s, "\">");
            push_xml_safe(&mut s, text);
            push_str(&mut s, "</a>");
        } else {
            push_str(&mut s, text);
            assert(s@ =~= text@);
        }
        push_str(out, s.as_str());
        i = i + 1;
        assert(sv.take(i as int).drop_last() =~= sv.take(i - 1));
        assert(out@ =~= start + spans_html(sv.take(i as int)));
    }
    assert(sv.take(spans@.len() as int) =~= sv);
}

fn quote_line(l: &Vec<char>) -> (r: bool)
    ensures
        r == is_quote_line(l@),
{
    proof {
        reveal_strlit("On ");
        reveal_strlit("wrote:");
    }
    let n = l.len();
    let starts_gt = n >= 1 && l[0] == '>';
    let starts_on = n >= 3 && l[0] == 'O' && l[1] == 'n' && l[2] == ' ';
    let ends_wrote = n >= 6 && l[n - 6] == 'w' && l[n - 5] == 'r' && l[n - 4] == 'o'
        && l[n - 3] == 't' && l[n - 2] == 'e' && l[n - 1] == ':';
    proof {
        assert("On "@ =~= seq!['O', 'n', ' ']);
        assert("wrote:"@ =~= seq!['w', 'r', 'o', 't', 'e', ':']);
        if n >= 3 {
            assert(starts_on == (l@.take(3) =~= seq!['O', 'n', ' ']));
        }
        if n >= 6 {
            assert(ends_wrote == (l@.skip(n - 6) =~= seq!['w', 'r', 'o', 't', 'e', ':']));
        }
    }
    starts_gt || (starts_on && ends_wrote)
}

/// A message body as HTML: links made clickable, quotations shown light.
pub fn email_body(body: &str, flowed: bool) -> (r: String)
    ensures
        r@ == email_body_html(body@, flowed),
        forall|j: int|
            0 <= j < text_lines(shown_text(body@, flowed)).len() ==> spans_text(
                link_spans_of(#[trigger] text_lines(shown_text(body@, flowed))[j]),
            ) == text_lines(shown_text(body@, flowed))[j],
        count_of(r@, '\n') == text_lines(shown_text(body@, flowed)).len(),
{
    let text = if flowed { unformat_flowed(body) } else {
        let mut t = String::new();
        push_str(&mut t, body);
        assert(t@ =~= body@);
        t
    };
    let chars = chars_of(text.as_str());
    let lines = lines_of(&chars);
    let ghost lv = lines@.map_values(|l: Vec<char>| l@);
    let mut html = String::new();
    let mut in_reply = false;
    let mut i: usize = 0;
    assert(lv.skip(0) =~= lv);
    while i < lines.len()
        invariant
            lv == lines@.map_values(|l: Vec<char>| l@),
            lv == text_lines(text@),
            i <= lv.len(),
            html@ + lines_html(lv.skip(i as int), in_reply) == email_body_html(body@, flowed),
            text@ == shown_text(body@, flowed),
            forall|j: int| 0 <= j < i ==> spans_text(link_spans_of(#[trigger] lv[j])) == lv[j],
        decreases lv.len() - i,
    {
        let line = &lines[i];
        let ghost rest = lv.skip(i as int);
        assert(rest[0] == line@);
        assert(rest.drop_first() =~= lv.skip(i + 1));
        let quote = quote_line(line);
        let ghost before = html@;
        if quote {
            if !in_reply {
                push_str(&mut html, "<span class='light'>");
            }
        } else if in_reply {
            push_str(&mut html, "</span>");
        }
        let line_text = crate::text::string_of(line, 0, line.len());
        assert(line@.subrange(0, line@.len() as int) =~= line@);
        push_spans_html(&mut html, line_text.as_str());
        push_char(&mut html, '\n');
        proof {
            reveal_strlit("\n");
            let mark = if quote && !in_reply {
                "<span class='light'>"@
            } else if !quote && in_reply {
                "</span>"@
            } else {
                Seq::empty()
            };
            assert(html@ =~= before + (mark + spans_html(link_spans_of(line@)) + "\n"@));
        }
        in_reply = quote;
        i = i + 1;
        proof {
            assert(html@ + lines_html(lv.skip(i as int), in_reply) =~= email_body_html(body@, flowed));
        }
    }
    let ghost before = html@;
    if in_reply {
        push_str(&mut html, "</span>");
    }
    assert(lv.skip(lv.len() as int) =~= Seq::<Seq<char>>::empty());
    assert(html@ =~= email_body_html(body@, flowed));
    proof {
        lemma_text_lines_lack_newlines(text@);
        assert forall|j: int| 0 <= j < lv.len() implies lacks_newline(#[trigger] lv[j]) by {
            assert forall|k: int| 0 <= k < lv[j].len() implies lv[j][k] != '\n' by {
                assert(lv[j][k] == text_lines(text@)[j][k]);
            }
        }
        lemma_lines_html_newlines(lv, false);
    }
    html
}

} // verus!
