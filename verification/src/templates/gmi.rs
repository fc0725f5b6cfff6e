//! Gemini pages: the list index, one page per slice of a list's threads,
//! and one page per thread.
use vstd::prelude::*;
use crate::models::{
    List, Lists, MailAddress, MailAddressView, StrMessage, StrMessageView, Thread, ThreadSummary,
    addresses_view, messages_view, path_escaped,
};
use crate::templates::PAGE_SIZE;
use crate::text::{chars_of, decimal_digits, push_char, push_decimal, push_str};
use crate::time::{rfc3339_text, ymd_text};
use crate::util::{unformat_flowed, unformat_flowed_text};

verus! {

/// `s` fit for a header line: carriage returns and line feeds become spaces.
pub open spec fn header_safe(s: Seq<char>) -> Seq<char> {
    s.map_values(|c: char| if c == '\r' || c == '\n' { ' ' } else { c })
}

/// Appends `s` with line breaks turned into spaces.
pub fn push_h(out: &mut String, s: &str)
    ensures
        final(out)@ == old(out)@ + header_safe(s@),
{
    let v = chars_of(s);
    let ghost start = out@;
    let mut i: usize = 0;
    while i < v.len()
        invariant
            v@ == s@,
            i <= v@.len(),
            out@ == start + header_safe(v@.take(i as int)),
        decreases v@.len() - i,
    {
        let c = v[i];
        if c == '\r' || c == '\n' {
            push_char(out, ' ');
        } else {
            push_char(out, c);
        }
        i = i + 1;
        assert(header_safe(v@.take(i as int)) =~= header_safe(v@.take(i - 1)).push(
            if c == '\r' || c == '\n' { ' ' } else { c },
        ));
    }
    assert(v@.take(v@.len() as int) =~= v@);
}

/// Header text stays on one line: it holds no '\r' and no '\n'.
pub proof fn law_header_text_is_one_line(s: Seq<char>)
    ensures
        forall|i: int|
            0 <= i < header_safe(s).len() ==> #[trigger] header_safe(s)[i] != '\r' && header_safe(
                s,
            )[i] != '\n',
        header_safe(s).len() == s.len(),
{
}

/// `s` fit for a header line.
pub fn h(s: &str) -> (r: String)
    ensures
        r@ == header_safe(s@),
{
    let mut out = String::new();
    push_h(&mut out, s);
    assert(out@ =~= header_safe(s@));
    out
}

/// An address as text: "\"name\" <address>", or "<address>" without name.
pub open spec fn address_text(a: MailAddressView) -> Seq<char> {
    (match a.name {
        Some(n) => "\""@ + n + "\" "@,
        None => Seq::empty(),
    }) + "<"@ + a.address + ">"@
}

/// Addresses as text, separated by ", ".
pub open spec fn joined_addresses(v: Seq<MailAddressView>) -> Seq<char>
    decreases v.len(),
{
    if v.len() == 0 {
        Seq::empty()
    } else if v.len() == 1 {
        address_text(v[0])
    } else {
        joined_addresses(v.drop_last()) + ", "@ + address_text(v.last())
    }
}

impl MailAddress {
    /// The address as text.
    pub fn to_string(&self) -> (r: String)
        ensures
            r@ == address_text(self@),
    {
        let mut out = String::new();
        match &self.name {
            Some(n) => {
                push_str(&mut out, "\"");
                push_str(&mut out, n.as_str());
                push_str(&mut out, "\" ");
            },
            None => {},
        }
        push_str(&mut out, "<");
        push_str(&mut out, self.address.as_str());
        push_str(&mut out, ">");
        assert(out@ =~= address_text(self@));
        out
    }
}

/// The addresses of `v` as text, separated by ", ".
pub fn join_addresses(v: &Vec<MailAddress>) -> (r: String)
    ensures
        r@ == joined_addresses(addresses_view(v@)),
{
    let ghost av = addresses_view(v@);
    let mut out = String::new();
    let mut i: usize = 0;
    assert(av.take(0) =~= Seq::<MailAddressView>::empty());
    while i < v.len()
        invariant
            av == addresses_view(v@),
            i <= v@.len(),
            out@ == joined_addresses(av.take(i as int)),
        decreases v@.len() - i,
    {
        if i > 0 {
            push_str(&mut out, ", ");
        }
        let t = v[i].to_string();
        push_str(&mut out, t.as_str());
        i = i + 1;
        assert(av.take(i as int).drop_last() =~= av.take(i - 1));
        assert(out@ =~= joined_addresses(av.take(i as int)));
    }
    assert(av.take(v@.len() as int) =~= av);
    out
}

/// The name shown for a sender: its display name, else its address.
pub open spec fn sender_name(a: MailAddressView) -> Seq<char> {
    match a.name {
        Some(n) => n,
        None => a.address,
    }
}

// ----------------------------------------------------------------------
// The index of all lists
// ----------------------------------------------------------------------

pub open spec fn list_entry_gmi(name: Seq<char>) -> Seq<char> {
    "=> ./"@ + header_safe(name) + "/ "@ + header_safe(name) + "\r\n"@
}

pub open spec fn list_entries_gmi(lists: Seq<List>) -> Seq<char>
    decreases lists.len(),
{
    if lists.len() == 0 {
        Seq::empty()
    } else {
        list_entries_gmi(lists.drop_last()) + list_entry_gmi(lists.last().config.name@)
    }
}

pub open spec fn lists_gmi(lists: Seq<List>) -> Seq<char> {
    "# Mail Archives\r\n"@ + list_entries_gmi(lists)
}

impl Lists {
    pub fn to_gmi(&self) -> (r: String)
        ensures
            r@ == lists_gmi(self.lists@),
    {
        let mut out = String::new();
        push_str(&mut out, "# Mail Archives\r\n");
        let mut i: usize = 0;
        assert(self.lists@.take(0) =~= Seq::<List>::empty());
        while i < self.lists.len()
            invariant
                i <= self.lists@.len(),
                out@ == "# Mail Archives\r\n"@ + list_entries_gmi(self.lists@.take(i as int)),
            decreases self.lists@.len() - i,
        {
            let name = self.lists[i].config.name.as_str();
            push_str(&mut out, "=> ./");
            push_h(&mut out, name);
            push_str(&mut out, "/ ");
            push_h(&mut out, name);
            push_str(&mut out, "\r\n");
            i = i + 1;
            assert(self.lists@.take(i as int).drop_last() =~= self.lists@.take(i - 1));
            assert(out@ =~= "# Mail Archives\r\n"@ + list_entries_gmi(self.lists@.take(i as int)));
        }
        assert(self.lists@.take(self.lists@.len() as int) =~= self.lists@);
        out
    }
}

// ----------------------------------------------------------------------
// The pages of one list
// ----------------------------------------------------------------------

/// Number of pages the topics fill: the slices of `chunks(PAGE_SIZE)`.
pub open spec fn page_total(n_topics: nat) -> nat {
    if n_topics % (PAGE_SIZE as nat) == 0 {
        n_topics / (PAGE_SIZE as nat)
    } else {
        n_topics / (PAGE_SIZE as nat) + 1
    }
}

/// The topics on page `n`.
pub open spec fn page_topics(topics: Seq<ThreadSummary>, n: int) -> Seq<ThreadSummary> {
    let start = n * PAGE_SIZE;
    let end = if start + PAGE_SIZE <= topics.len() { start + PAGE_SIZE } else { topics.len() as int };
    topics.subrange(start, end)
}

pub open spec fn topic_gmi(t: ThreadSummary) -> Seq<char> {
    "=>threads/"@ + header_safe(path_escaped(t.message.id@)) + ".gmi "@ + header_safe(
        t.message.subject@,
    ) + "\r\n"@ + header_safe(t.message.preview@) + "\r\n"@ + header_safe(
        sender_name(t.message.from@),
    ) + " | "@ + decimal_digits(t.reply_count as nat) + " replies | "@ + ymd_text(
        t.last_reply.year as nat,
        t.last_reply.month as nat,
        t.last_reply.day as nat,
    ) + "\r\n"@
}

pub open spec fn topics_gmi(topics: Seq<ThreadSummary>) -> Seq<char>
    decreases topics.len(),
{
    if topics.len() == 0 {
        Seq::empty()
    } else {
        topics_gmi(topics.drop_last()) + topic_gmi(topics.last())
    }
}

/// Page `n` of a list: its heading, its topics, and a link onwards.
pub open spec fn list_page_gmi(list: List, n: nat) -> Seq<char> {
    let page_count = list.thread_topics@.len() / (PAGE_SIZE as nat) + 1;
    "## "@ + list.config.name@ + "\r\n"@ + list.config.description@ + "\r\n=>mailto:"@
        + list.config.email@ + " "@ + list.config.email@ + "\r\n"@ + topics_gmi(
        page_topics(list.thread_topics@, n as int),
    ) + (if n < page_count {
        "\r\n=> index-"@ + decimal_digits(n + 1) + ".gmi next"@
    } else {
        Seq::empty()
    })
}

fn push_topic_gmi(out: &mut String, t: &ThreadSummary)
    ensures
        final(out)@ == old(out)@ + topic_gmi(*t),
{
    let path = t.message.pathescape_msg_id();
    push_str(out, "=>threads/");
    push_h(out, path.as_str());
    push_str(out, ".gmi ");
    push_h(out, t.message.subject.as_str());
    push_str(out, "\r\n");
    push_h(out, t.message.preview.as_str());
    push_str(out, "\r\n");
    match &t.message.from.name {
        Some(n) => push_h(out, n.as_str()),
        None => push_h(out, t.message.from.address.as_str()),
    }
    push_str(out, " | ");
    push_decimal(out, t.reply_count);
    push_str(out, " replies | ");
    let date = t.last_reply.ymd();
    push_str(out, date.as_str());
    push_str(out, "\r\n");
    assert(final(out)@ =~= old(out)@ + topic_gmi(*t));
}

/// The topics of the first `k` pages, one page after the other.
pub open spec fn pages_concat(topics: Seq<ThreadSummary>, k: nat) -> Seq<ThreadSummary>
    decreases k,
{
    if k == 0 {
        Seq::empty()
    } else {
        pages_concat(topics, (k - 1) as nat) + page_topics(topics, k - 1)
    }
}

proof fn lemma_pages_concat_prefix(topics: Seq<ThreadSummary>, k: nat)
    requires
        k <= page_total(topics.len()),
    ensures
        pages_concat(topics, k) == topics.take(
            if k * 100 <= topics.len() { (k * 100) as int } else { topics.len() as int },
        ),
    decreases k,
{
    if k == 0 {
        assert(topics.take(0) =~= Seq::<ThreadSummary>::empty());
    } else {
        lemma_pages_concat_prefix(topics, (k - 1) as nat);
        assert((k - 1) * 100 < topics.len());
        let end = if k * 100 <= topics.len() { (k * 100) as int } else { topics.len() as int };
        assert(topics.take((k - 1) * 100) + topics.subrange((k - 1) * 100, end) =~= topics.take(end));
    }
}

/// The pages of a list hold its topics exactly once each, in order: one
/// page after the other they give back all the topics; no page is empty,
/// and none holds more than `PAGE_SIZE` topics.
pub proof fn law_pages_partition_topics(topics: Seq<ThreadSummary>)
    ensures
        pages_concat(topics, page_total(topics.len())) == topics,
        forall|n: int|
            0 <= n < page_total(topics.len()) ==> 0 < (#[trigger] page_topics(topics, n)).len()
                <= PAGE_SIZE,
{
    lemma_pages_concat_prefix(topics, page_total(topics.len()));
    assert(topics.take(topics.len() as int) =~= topics);
}

proof fn lemma_page_start(total: nat)
    ensures
        0 < total ==> 0 < page_total(total),
        total == 0 ==> page_total(total) == 0,
{
}

/// A page that starts before the end of the topics is followed by another
/// exactly when the next one starts before the end too.
pub proof fn lemma_page_step(total: nat, n: nat)
    requires
        n * 100 < total,
        n < page_total(total),
    ensures
        (n + 1) * 100 < total ==> n + 1 < page_total(total),
        (n + 1) * 100 >= total ==> n + 1 == page_total(total),
{
}

impl List {
    /// The Gemini pages of the list, `PAGE_SIZE` threads each.
    pub fn to_gmi(&self) -> (r: Vec<String>)
        ensures
            r@.len() == page_total(self.thread_topics@.len()),
            forall|n: int| 0 <= n < r@.len() ==> (#[trigger] r@[n])@ == list_page_gmi(*self, n as nat),
    {
        let total = self.thread_topics.len();
        let page_count = total / PAGE_SIZE + 1;
        proof {
            lemma_page_start(total as nat);
        }
        let mut pages: Vec<String> = Vec::new();
        let mut n: usize = 0;
        let mut start: usize = 0;
        while start < total
            invariant
                total == self.thread_topics@.len(),
                page_count == total / PAGE_SIZE + 1,
                start <= total,
                start < total ==> start == n * PAGE_SIZE,
                pages@.len() == n,
                start < total ==> n < page_total(total as nat),
                start == total ==> n == page_total(total as nat),
                forall|k: int| 0 <= k < n ==> (#[trigger] pages@[k])@ == list_page_gmi(*self, k as nat),
            decreases total - start,
        {
            let end = if total - start >= PAGE_SIZE { start + PAGE_SIZE } else { total };
            let mut page = String::new();
            push_str(&mut page, "## ");
            push_str(&mut page, self.config.name.as_str());
            push_str(&mut page, "\r\n");
            push_str(&mut page, self.config.description.as_str());
            push_str(&mut page, "\r\n=>mailto:");
            push_str(&mut page, self.config.email.as_str());
            push_str(&mut page, " ");
            push_str(&mut page, self.config.email.as_str());
            push_str(&mut page, "\r\n");
            let ghost head = page@;
            let ghost chunk = page_topics(self.thread_topics@, n as int);
            let mut j = start;
            assert(chunk.take(0) =~= Seq::<ThreadSummary>::empty());
            while j < end
                invariant
                    start <= j <= end <= total == self.thread_topics@.len(),
                    chunk == self.thread_topics@.subrange(start as int, end as int),
                    page@ == head + topics_gmi(chunk.take(j - start)),
                decreases end - j,
            {
                push_topic_gmi(&mut page, &self.thread_topics[j]);
                j = j + 1;
                assert(chunk.take(j - start).drop_last() =~= chunk.take(j - 1 - start));
            }
            assert(chunk.take(end - start) =~= chunk);
            if n < page_count {
                push_str(&mut page, "\r\n=> index-");
                push_decimal(&mut page, (n + 1) as u64);
                push_str(&mut page, ".gmi next");
            }
            assert(page@ =~= list_page_gmi(*self, n as nat));
            pages.push(page);
            proof {
                lemma_page_step(total as nat, n as nat);
            }
            n = n + 1;
            start = end;
        }
        pages
    }
}

// ----------------------------------------------------------------------
// The page of one thread
// ----------------------------------------------------------------------

/// The body as shown: format=flowed undone when the message is flowed.
pub open spec fn shown_body(m: StrMessageView) -> Seq<char> {
    if m.flowed { unformat_flowed_text(m.body) } else { m.body }
}

pub open spec fn optional_headers_gmi(m: StrMessageView) -> Seq<char> {
    (match m.in_reply_to {
        Some(irt) => "\r\nIn-Reply-To: "@ + header_safe(irt),
        None => Seq::empty(),
    }) + (if m.cc.len() > 0 {
        "\r\nCc: "@ + header_safe(joined_addresses(m.cc))
    } else {
        Seq::empty()
    })
}

/// The header lines of a message on its thread's page.
pub open spec fn message_head_gmi(m: StrMessageView) -> Seq<char> {
    "## "@ + header_safe(m.subject) + "\r\n"@ + "From: "@ + header_safe(m.from.address) + "\r\n"@
        + "Date: "@ + rfc3339_text(m.date) + "\r\n"@ + "Message-Id: "@ + header_safe(m.id)
        + "\r\n"@ + "To: "@ + header_safe(joined_addresses(m.to)) + optional_headers_gmi(m)
        + "\r\n"@
}

/// The links and the body of a message on its thread's page.
pub open spec fn message_tail_gmi(m: StrMessageView) -> Seq<char> {
    "=> "@ + header_safe(m.mailto) + " Reply\r\n"@ + "=> ../messages/"@ + header_safe(
        path_escaped(m.id),
    ) + ".mbox Export\r\n"@ + "--------------------------------------\r\n"@ + shown_body(m)
        + "\r\n"@
}

pub open spec fn message_gmi(m: StrMessageView) -> Seq<char> {
    message_head_gmi(m) + message_tail_gmi(m)
}

pub open spec fn messages_gmi(ms: Seq<StrMessageView>) -> Seq<char>
    decreases ms.len(),
{
    if ms.len() == 0 {
        Seq::empty()
    } else {
        messages_gmi(ms.drop_last()) + message_gmi(ms.last())
    }
}

pub open spec fn thread_gmi(ms: Seq<StrMessageView>) -> Seq<char> {
    "# "@ + header_safe(ms[0].subject) + "\r\n"@ + messages_gmi(ms)
}

fn push_message_head_gmi(out: &mut String, m: &StrMessage)
    ensures
        final(out)@ == old(out)@ + message_head_gmi(m@),
{
    let mut optional = String::new();
    match &m.in_reply_to {
        Some(irt) => {
            push_str(&mut optional, "\r\nIn-Reply-To: ");
            push_h(&mut optional, irt.as_str());
        },
        None => {},
    }
    if m.cc.len() > 0 {
        push_str(&mut optional, "\r\nCc: ");
        let cc = join_addresses(&m.cc);
        push_h(&mut optional, cc.as_str());
    }
    assert(optional@ =~= optional_headers_gmi(m@));
    let to = join_addresses(&m.to);
    let date = m.date.to_rfc3339();
    let mut s = String::new();
    push_str(&mut s, "## ");
    assert(s@ =~= "## "@);
    push_h(&mut s, m.subject.as_str());
    push_str(&mut s, "\r\n");
    push_str(&mut s, "From: ");
    push_h(&mut s, m.from.address.as_str());
    push_str(&mut s, "\r\n");
    push_str(&mut s, "Date: ");
    push_str(&mut s, date.as_str());
    push_str(&mut s, "\r\n");
    push_str(&mut s, "Message-Id: ");
    push_h(&mut s, m.id.as_str());
    push_str(&mut s, "\r\n");
    push_str(&mut s, "To: ");
    push_h(&mut s, to.as_str());
    push_str(&mut s, optional.as_str());
    push_str(&mut s, "\r\n");
    assert(s@ == message_head_gmi(m@));
    push_str(out, s.as_str());
}

fn push_message_tail_gmi(out: &mut String, m: &StrMessage)
    ensures
        final(out)@ == old(out)@ + message_tail_gmi(m@),
{
    let body = if m.flowed {
        unformat_flowed(m.body.as_str())
    } else {
        m.body.clone()
    };
    let path = m.pathescape_msg_id();
    push_str(out, "=> ");
    push_h(out, m.mailto.as_str());
    push_str(out, " Reply\r\n");
    push_str(out, "=> ../messages/");
    push_h(out, path.as_str());
    push_str(out, ".mbox Export\r\n");
    push_str(out, "--------------------------------------\r\n");
    push_str(out, body.as_str());
    push_str(out, "\r\n");
    assert(final(out)@ =~= old(out)@ + message_tail_gmi(m@));
}

fn push_message_gmi(out: &mut String, m: &StrMessage)
    ensures
        final(out)@ == old(out)@ + message_gmi(m@),
{
    push_message_head_gmi(out, m);
    push_message_tail_gmi(out, m);
    assert(final(out)@ =~= old(out)@ + message_gmi(m@));
}

impl Thread {
    /// The Gemini page of the thread.
    pub fn to_gmi(&self) -> (r: String)
        requires
            self.messages@.len() > 0,
        ensures
            r@ == thread_gmi(messages_view(self.messages@)),
    {
        let ghost mv = messages_view(self.messages@);
        let mut out = String::new();
        push_str(&mut out, "# ");
        push_h(&mut out, self.messages[0].subject.as_str());
        push_str(&mut out, "\r\n");
        let ghost head = out@;
        let mut i: usize = 0;
        assert(mv.take(0) =~= Seq::<StrMessageView>::empty());
        while i < self.messages.len()
            invariant
                mv == messages_view(self.messages@),
                i <= self.messages@.len(),
                out@ == head + messages_gmi(mv.take(i as int)),
            decreases self.messages@.len() - i,
        {
            push_message_gmi(&mut out, &self.messages[i]);
            i = i + 1;
            assert(mv.take(i as int).drop_last() =~= mv.take(i - 1));
        }
        assert(mv.take(self.messages@.len() as int) =~= mv);
        out
    }
}

} // verus!
