//! Atom feeds: one per list (its latest messages) and one per thread.
use vstd::prelude::*;
use crate::models::{List, StrMessage, StrMessageView, Thread, messages_view};
use crate::templates::gmi::{sender_name, shown_body};
use crate::templates::util::{xml_escaped, xml_safe};
use crate::text::push_str;
use crate::time::{MailDate, mail_timestamp, rfc3339_text};
use crate::util::unformat_flowed;

verus! {

pub open spec fn feed_text(feed_title: Seq<char>, feed_link: Seq<char>, updated: Seq<char>, author_name: Seq<char>, author_email: Seq<char>, entry_list: Seq<char>) -> Seq<char> {
    "<?xml version=\"1.0\" encoding=\"utf-8\"?>\n        <feed xmlns=\"http://www.w3.org/2005/Atom\">\n        <title>"@
        + feed_title
        + "</title>\n        <link href=\""@
        + feed_link
        + "\"/>\n        <updated>"@
        + updated
        + "</updated>\n        <author>\n        <name>"@
        + author_name
        + "</name>\n        <email>"@
        + author_email
        + "</email>\n        </author>\n        <id>"@
        + feed_link
        + "</id>\n        "@
        + entry_list
        + "\n        </feed>"@
}

/// An Atom feed holding the given entries.
pub fn feed(feed_title: &str, feed_link: &str, updated: &str, author_name: &str, author_email: &str, entry_list: &str) -> (r: String)
    ensures
        r@ == feed_text(feed_title@, feed_link@, updated@, author_name@, author_email@, entry_list@),
{
    let mut out = String::new();
    push_str(&mut out, "<?xml version=\"1.0\" encoding=\"utf-8\"?>\n        <feed xmlns=\"http://www.w3.org/2005/Atom\">\n        <title>");
    assert(out@ =~= "<?xml version=\"1.0\" encoding=\"utf-8\"?>\n        <feed xmlns=\"http://www.w3.org/2005/Atom\">\n        <title>"@);
    push_str(&mut out, feed_title);
    push_str(&mut out, "</title>\n        <link href=\"");
    push_str(&mut out, feed_link);
    push_str(&mut out, "\"/>\n        <updated>");
    push_str(&mut out, updated);
    push_str(&mut out, "</updated>\n        <author>\n        <name>");
    push_str(&mut out, author_name);
    push_str(&mut out, "</name>\n        <email>");
    push_str(&mut out, author_email);
    push_str(&mut out, "</email>\n        </author>\n        <id>");
    push_str(&mut out, feed_link);
    push_str(&mut out, "</id>\n        ");
    push_str(&mut out, entry_list);
    push_str(&mut out, "\n        </feed>");
    out
}

pub open spec fn message_text(title: Seq<char>, item_link: Seq<char>, entry_id: Seq<char>, updated: Seq<char>, author_name: Seq<char>, author_email: Seq<char>, content: Seq<char>) -> Seq<char> {
    "<entry>\n        <title>"@
        + title
        + "</title>\n        <link href=\""@
        + item_link
        + "\"/>\n        <id>"@
        + entry_id
        + "</id>\n        <updated>"@
        + updated
        + "</updated>\n        <author>\n        <name>"@
        + author_name
        + "</name>\n        <email>"@
        + author_email
        + "</email>\n        </author>\n        <content type=\"text/plain\">\n        "@
        + content
        + "\n        </content>\n        </entry>\n        "@
}

/// One Atom entry.
pub fn message(title: &str, item_link: &str, entry_id: &str, updated: &str, author_name: &str, author_email: &str, content: &str) -> (r: String)
    ensures
        r@ == message_text(title@, item_link@, entry_id@, updated@, author_name@, author_email@, content@),
{
    let mut out = String::new();
    push_str(&mut out, "<entry>\n        <title>");
    assert(out@ =~= "<entry>\n        <title>"@);
    push_str(&mut out, title);
    push_str(&mut out, "</title>\n        <link href=\"");
    push_str(&mut out, item_link);
    push_str(&mut out, "\"/>\n        <id>");
    push_str(&mut out, entry_id);
    push_str(&mut out, "</id>\n        <updated>");
    push_str(&mut out, updated);
    push_str(&mut out, "</updated>\n        <author>\n        <name>");
    push_str(&mut out, author_name);
    push_str(&mut out, "</name>\n        <email>");
    push_str(&mut out, author_email);
    push_str(&mut out, "</email>\n        </author>\n        <content type=\"text/plain\">\n        ");
    push_str(&mut out, content);
    push_str(&mut out, "\n        </content>\n        </entry>\n        ");
    out
}

/// The Atom entry of one message.
pub open spec fn message_xml(m: StrMessageView) -> Seq<char> {
    message_text(
        xml_escaped(m.subject),
        xml_escaped(m.url),
        xml_escaped(m.id),
        rfc3339_text(m.received),
        xml_escaped(sender_name(m.from)),
        xml_escaped(m.from.address),
        xml_escaped(shown_body(m)),
    )
}

pub open spec fn entries_xml(ms: Seq<StrMessageView>) -> Seq<char>
    decreases ms.len(),
{
    if ms.len() == 0 {
        Seq::empty()
    } else {
        entries_xml(ms.drop_last()) + message_xml(ms.last())
    }
}

impl StrMessage {
    /// The Atom entry of this message.
    pub fn to_xml(&self) -> (r: String)
        ensures
            r@ == message_xml(self@),
    {
        let body = if self.flowed {
            unformat_flowed(self.body.as_str())
        } else {
            self.body.clone()
        };
        let author = match &self.from.name {
            Some(n) => xml_safe(n.as_str()),
            None => xml_safe(self.from.address.as_str()),
        };
        let updated = self.received.to_rfc3339();
        message(
            xml_safe(self.subject.as_str()).as_str(),
            xml_safe(self.url.as_str()).as_str(),
            xml_safe(self.id.as_str()).as_str(),
            updated.as_str(),
            author.as_str(),
            xml_safe(self.from.address.as_str()).as_str(),
            xml_safe(body.as_str()).as_str(),
        )
    }
}

fn entries(messages: &Vec<StrMessage>) -> (r: String)
    ensures
        r@ == entries_xml(messages_view(messages@)),
{
    let ghost mv = messages_view(messages@);
    let mut out = String::new();
    let mut i: usize = 0;
    assert(mv.take(0) =~= Seq::<StrMessageView>::empty());
    while i < messages.len()
        invariant
            mv == messages_view(messages@),
            i <= messages@.len(),
            out@ == entries_xml(mv.take(i as int)),
        decreases messages@.len() - i,
    {
        let e = messages[i].to_xml();
        push_str(&mut out, e.as_str());
        i = i + 1;
        assert(mv.take(i as int).drop_last() =~= mv.take(i - 1));
    }
    assert(mv.take(messages@.len() as int) =~= mv);
    out
}

/// One second after the unix epoch: the update time of a feed without
/// messages.
pub open spec fn first_second() -> MailDate {
    MailDate {
        year: 1970,
        month: 1,
        day: 1,
        hour: 0,
        minute: 0,
        second: 1,
        tz_before_gmt: false,
        tz_hour: 0,
        tz_minute: 0,
    }
}

/// The update time of a list's feed: when its latest message arrived.
pub open spec fn list_updated(recent: Seq<StrMessageView>) -> MailDate {
    if recent.len() > 0 { recent[0].received } else { first_second() }
}

/// A list's feed is updated when its newest message arrived: the first of
/// the recent messages, which are newest first, so no recent message
/// arrived later.
pub proof fn law_list_feed_updated_by_newest(recent: Seq<StrMessageView>)
    requires
        recent.len() > 0,
        forall|i: int, j: int|
            0 <= i <= j < recent.len() ==> mail_timestamp(recent[j].received) <= mail_timestamp(
                recent[i].received,
            ),
    ensures
        list_updated(recent) == recent[0].received,
        forall|i: int|
            0 <= i < recent.len() ==> mail_timestamp(#[trigger] recent[i].received) <= mail_timestamp(
                list_updated(recent),
            ),
{
    assert forall|i: int| 0 <= i < recent.len() implies mail_timestamp(#[trigger] recent[i].received)
        <= mail_timestamp(list_updated(recent)) by {
        assert(mail_timestamp(recent[i].received) <= mail_timestamp(recent[0].received));
    }
}

impl List {
    /// The Atom feed of the list's recent messages.
    pub fn to_xml(&self) -> (r: String)
        ensures
            r@ == feed_text(
                self.config.name@,
                self.url@,
                rfc3339_text(list_updated(messages_view(self.recent_messages@))),
                self.config.email@,
                self.config.email@,
                entries_xml(messages_view(self.recent_messages@)),
            ),
            self.recent_messages@.len() > 0 ==> r@ == feed_text(
                self.config.name@,
                self.url@,
                rfc3339_text(self.recent_messages@[0].received),
                self.config.email@,
                self.config.email@,
                entries_xml(messages_view(self.recent_messages@)),
            ),
    {
        let entry_list = entries(&self.recent_messages);
        let last_updated = if self.recent_messages.len() > 0 {
            self.recent_messages[0].received
        } else {
            MailDate {
                year: 1970,
                month: 1,
                day: 1,
                hour: 0,
                minute: 0,
                second: 1,
                tz_before_gmt: false,
                tz_hour: 0,
                tz_minute: 0,
            }
        };
        let updated = last_updated.to_rfc3339();
        feed(
            self.config.name.as_str(),
            self.url.as_str(),
            updated.as_str(),
            self.config.email.as_str(),
            self.config.email.as_str(),
            entry_list.as_str(),
        )
    }
}

impl Thread {
    /// The Atom feed of the thread.
    pub fn to_xml(&self) -> (r: String)
        requires
            self.messages@.len() > 0,
        ensures
            r@ == ({
                let ms = messages_view(self.messages@);
                feed_text(
                    ms[0].subject,
                    self.url@,
                    rfc3339_text(ms[0].received),
                    sender_name(ms[0].from),
                    ms[0].from.address,
                    entries_xml(ms),
                )
            }),
    {
        let entry_list = entries(&self.messages);
        let root = &self.messages[0];
        let updated = root.received.to_rfc3339();
        let author = match &root.from.name {
            Some(n) => n.as_str(),
            None => root.from.address.as_str(),
        };
        feed(
            root.subject.as_str(),
            self.url.as_str(),
            updated.as_str(),
            author,
            root.from.address.as_str(),
            entry_list.as_str(),
        )
    }
}

} // verus!
