//! The archive's data: addresses, messages made ready for rendering,
//! threads and lists.
use vstd::prelude::*;
use crate::builder::{Builder, BuilderModel, HeaderInput, built_message, pairs_view};
use crate::config::{Config, Subsection, SubsectionView, list_settings};
use crate::paths::{joined_path, path_join};
use crate::text::{chars_of, push_char, push_str, str_eq, string_of};
use crate::util::{lines_of, text_lines};
use crate::message::{fields_in, parse_fields, parses};
use crate::sort::{is_stable_sort_of, lemma_with_key_contains, stable_sort_by_key};
use crate::threading::{Msg, MsgView, ThreadIdx, all_messages, keyed_by_time, newest_first, thread_view};
use crate::time::{MailDate, mail_timestamp, spec_epoch};

verus! {

/// A mail address with its optional display name.
pub struct MailAddress {
    pub name: Option<String>,
    pub address: String,
}

pub struct MailAddressView {
    pub name: Option<Seq<char>>,
    pub address: Seq<char>,
}

pub open spec fn opt_view(o: Option<String>) -> Option<Seq<char>> {
    match o {
        Some(s) => Some(s@),
        None => None,
    }
}

impl View for MailAddress {
    type V = MailAddressView;

    open spec fn view(&self) -> MailAddressView {
        MailAddressView { name: opt_view(self.name), address: self.address@ }
    }
}

pub fn copy_opt_string(s: &Option<String>) -> (r: Option<String>)
    ensures
        opt_view(r) == opt_view(*s),
{
    match s {
        Some(x) => Some(x.clone()),
        None => None,
    }
}

impl MailAddress {
    pub fn copy(&self) -> (r: MailAddress)
        ensures
            r@ == self@,
    {
        MailAddress { name: copy_opt_string(&self.name), address: self.address.clone() }
    }
}

/// An address as a message header gives it; either part may be missing.
pub struct RawAddress {
    pub name: Option<String>,
    pub address: Option<String>,
}

pub struct RawAddressView {
    pub name: Option<Seq<char>>,
    pub address: Option<Seq<char>>,
}

impl View for RawAddress {
    type V = RawAddressView;

    open spec fn view(&self) -> RawAddressView {
        RawAddressView { name: opt_view(self.name), address: opt_view(self.address) }
    }
}

/// What an address header of a message holds.
pub enum AddressField {
    Single(RawAddress),
    List(Vec<RawAddress>),
    Other,
}

pub enum AddressFieldView {
    Single(RawAddressView),
    List(Seq<RawAddressView>),
    Other,
}

impl View for AddressField {
    type V = AddressFieldView;

    open spec fn view(&self) -> AddressFieldView {
        match self {
            AddressField::Single(a) => AddressFieldView::Single(a@),
            AddressField::List(v) => AddressFieldView::List(v@.map_values(|a: RawAddress| a@)),
            AddressField::Other => AddressFieldView::Other,
        }
    }
}

/// The header and body fields of a parsed message that the archive reads.
pub struct MessageFields {
    pub message_id: Option<String>,
    /// The date of the first Received header.
    pub received: Option<MailDate>,
    pub date: Option<MailDate>,
    pub subject: Option<String>,
    /// The subject without reply and forward prefixes.
    pub thread_name: Option<String>,
    /// The start of the text body.
    pub preview: Option<String>,
    pub from: AddressField,
    pub to: AddressField,
    pub cc: AddressField,
    pub in_reply_to: Option<String>,
    pub body_text: Option<String>,
    /// The main type of the Content-Type header.
    pub content_type: Option<String>,
}

pub struct MessageFieldsView {
    pub message_id: Option<Seq<char>>,
    pub received: Option<MailDate>,
    pub date: Option<MailDate>,
    pub subject: Option<Seq<char>>,
    pub thread_name: Option<Seq<char>>,
    pub preview: Option<Seq<char>>,
    pub from: AddressFieldView,
    pub to: AddressFieldView,
    pub cc: AddressFieldView,
    pub in_reply_to: Option<Seq<char>>,
    pub body_text: Option<Seq<char>>,
    pub content_type: Option<Seq<char>>,
}

impl View for MessageFields {
    type V = MessageFieldsView;

    open spec fn view(&self) -> MessageFieldsView {
        MessageFieldsView {
            message_id: opt_view(self.message_id),
            received: self.received,
            date: self.date,
            subject: opt_view(self.subject),
            thread_name: opt_view(self.thread_name),
            preview: opt_view(self.preview),
            from: self.from@,
            to: self.to@,
            cc: self.cc@,
            in_reply_to: opt_view(self.in_reply_to),
            body_text: opt_view(self.body_text),
            content_type: opt_view(self.content_type),
        }
    }
}

/// A message made ready for rendering: every field plain text.
pub struct StrMessage {
    pub id: String,
    pub subject: String,
    pub thread_subject: String,
    pub received: MailDate,
    pub preview: String,
    pub from: MailAddress,
    pub date: MailDate,
    pub body: String,
    pub flowed: bool,
    /// The mailto: link that answers this message.
    pub mailto: String,
    pub in_reply_to: Option<String>,
    pub to: Vec<MailAddress>,
    pub cc: Vec<MailAddress>,
    pub url: String,
}

pub struct StrMessageView {
    pub id: Seq<char>,
    pub subject: Seq<char>,
    pub thread_subject: Seq<char>,
    pub received: MailDate,
    pub preview: Seq<char>,
    pub from: MailAddressView,
    pub date: MailDate,
    pub body: Seq<char>,
    pub flowed: bool,
    pub mailto: Seq<char>,
    pub in_reply_to: Option<Seq<char>>,
    pub to: Seq<MailAddressView>,
    pub cc: Seq<MailAddressView>,
    pub url: Seq<char>,
}

pub open spec fn addresses_view(v: Seq<MailAddress>) -> Seq<MailAddressView> {
    v.map_values(|a: MailAddress| a@)
}

impl View for StrMessage {
    type V = StrMessageView;

    open spec fn view(&self) -> StrMessageView {
        StrMessageView {
            id: self.id@,
            subject: self.subject@,
            thread_subject: self.thread_subject@,
            received: self.received,
            preview: self.preview@,
            from: self.from@,
            date: self.date,
            body: self.body@,
            flowed: self.flowed,
            mailto: self.mailto@,
            in_reply_to: opt_view(self.in_reply_to),
            to: addresses_view(self.to@),
            cc: addresses_view(self.cc@),
            url: self.url@,
        }
    }
}

/// The address a raw address stands for; `None` when it has no address part.
pub open spec fn address_of(a: RawAddressView) -> Option<MailAddressView> {
    match a.address {
        Some(addr) => Some(MailAddressView { name: a.name, address: addr }),
        None => None,
    }
}

/// The addresses a header lists: one, several, or none for other values;
/// `None` when one of them has no address part.
pub open spec fn address_list_of(f: AddressFieldView) -> Option<Seq<MailAddressView>> {
    match f {
        AddressFieldView::Single(a) => match address_of(a) {
            Some(v) => Some(seq![v]),
            None => None,
        },
        AddressFieldView::List(v) => if forall|i: int| 0 <= i < v.len() ==> (#[trigger] v[i]).address is Some {
            Some(v.map_values(|a: RawAddressView| address_of(a)->0))
        } else {
            None
        },
        AddressFieldView::Other => Some(Seq::empty()),
    }
}

/// The sender: the From address, or "invalid-email" when From is not a
/// single address; `None` when that address has no address part.
pub open spec fn sender_of(f: AddressFieldView) -> Option<MailAddressView> {
    match f {
        AddressFieldView::Single(a) => address_of(a),
        _ => Some(MailAddressView { name: None, address: "invalid-email"@ }),
    }
}

pub open spec fn text_or(o: Option<Seq<char>>, default: Seq<char>) -> Seq<char> {
    match o {
        Some(s) => s,
        None => default,
    }
}

/// The message that `f` describes, or `None` when it has neither a
/// Received nor a Date header, or an address without its address part.
pub open spec fn str_message_of(f: MessageFieldsView) -> Option<StrMessageView> {
    let received = match f.received {
        Some(d) => Some(d),
        None => f.date,
    };
    match (received, sender_of(f.from), address_list_of(f.to), address_list_of(f.cc)) {
        (Some(received), Some(from), Some(to), Some(cc)) => Some(StrMessageView {
            id: text_or(f.message_id, Seq::empty()),
            subject: text_or(f.subject, "(No Subject)"@),
            thread_subject: text_or(f.thread_name, "(No Subject)"@),
            received: received,
            preview: text_or(f.preview, Seq::empty()),
            from: from,
            date: match f.date {
                Some(d) => d,
                None => spec_epoch(),
            },
            body: text_or(f.body_text, "[No message body]"@),
            flowed: match f.content_type {
                Some(t) => t == "flowed"@,
                None => false,
            },
            mailto: Seq::empty(),
            in_reply_to: f.in_reply_to,
            to: to,
            cc: cc,
            url: Seq::empty(),
        }),
        _ => None,
    }
}

fn string_or(o: &Option<String>, default: &str) -> (r: String)
    ensures
        r@ == text_or(opt_view(*o), default@),
{
    match o {
        Some(s) => s.clone(),
        None => {
            let mut out = String::new();
            push_str(&mut out, default);
            assert(out@ =~= default@);
            out
        },
    }
}

impl MailAddress {
    fn from_raw(a: &RawAddress) -> (r: Option<MailAddress>)
        ensures
            match r {
                Some(m) => address_of(a@) == Some(m@),
                None => address_of(a@) is None,
            },
    {
        match &a.address {
            Some(addr) => Some(MailAddress { name: copy_opt_string(&a.name), address: addr.clone() }),
            None => None,
        }
    }
}

/// The addresses a header lists.
fn address_list(f: &AddressField) -> (r: Option<Vec<MailAddress>>)
    ensures
        match r {
            Some(v) => address_list_of(f@) == Some(addresses_view(v@)),
            None => address_list_of(f@) is None,
        },
{
    match f {
        AddressField::Single(a) => match MailAddress::from_raw(a) {
            Some(m) => {
                let mut v = Vec::new();
                v.push(m);
                assert(addresses_view(v@) =~= seq![v@[0]@]);
                Some(v)
            },
            None => None,
        },
        AddressField::List(raw) => {
            let mut out: Vec<MailAddress> = Vec::new();
            let mut i: usize = 0;
            while i < raw.len()
                invariant
                    *f == AddressField::List(*raw),
                    i <= raw@.len(),
                    forall|j: int| 0 <= j < i ==> (#[trigger] raw@[j]).address is Some,
                    addresses_view(out@) =~= raw@.take(i as int).map_values(|a: RawAddress| address_of(a@)->0),
                decreases raw@.len() - i,
            {
                let ghost prev = addresses_view(out@);
                match MailAddress::from_raw(&raw[i]) {
                    Some(m) => {
                        let ghost mv = m@;
                        out.push(m);
                        assert(addresses_view(out@) =~= prev.push(mv));
                    },
                    None => {
                        let ghost rv = raw@.map_values(|a: RawAddress| a@);
                        assert(rv[i as int].address is None);
                        assert(!(forall|j: int| 0 <= j < rv.len() ==> (#[trigger] rv[j]).address is Some));
                        assert(address_list_of(f@) is None);
                        return None;
                    },
                }
                assert(raw@.take(i + 1) =~= raw@.take(i as int).push(raw@[i as int]));
                i = i + 1;
                assert(addresses_view(out@) =~= raw@.take(i as int).map_values(|a: RawAddress| address_of(a@)->0));
            }
            assert(raw@.take(i as int) =~= raw@);
            proof {
                let rv = raw@.map_values(|a: RawAddress| a@);
                assert forall|j: int| 0 <= j < rv.len() implies (#[trigger] rv[j]).address is Some by {
                    assert(raw@[j].address is Some);
                }
                assert(addresses_view(out@) =~= rv.map_values(|a: RawAddressView| address_of(a)->0));
            }
            Some(out)
        },
        AddressField::Other => {
            let v: Vec<MailAddress> = Vec::new();
            assert(addresses_view(v@) =~= Seq::<MailAddressView>::empty());
            Some(v)
        },
    }
}

impl StrMessage {
    /// The message that `msg` describes, with defaults for missing fields:
    /// no id is "", no subject is "(No Subject)", no body is
    /// "[No message body]", no date is the unix epoch. `None` when the
    /// message has neither a Received nor a Date header, or names an
    /// address without its address part.
    pub fn new(msg: &MessageFields) -> (r: Option<StrMessage>)
        ensures
            match r {
                Some(m) => str_message_of(msg@) == Some(m@),
                None => str_message_of(msg@) is None,
            },
    {
        let received = match msg.received {
            Some(d) => d,
            None => match msg.date {
                Some(d) => d,
                None => return None,
            },
        };
        let from = match &msg.from {
            AddressField::Single(a) => match MailAddress::from_raw(a) {
                Some(m) => m,
                None => return None,
            },
            _ => {
                let mut addr = String::new();
                push_str(&mut addr, "invalid-email");
                assert(addr@ =~= "invalid-email"@);
                MailAddress { name: None, address: addr }
            },
        };
        let to = match address_list(&msg.to) {
            Some(v) => v,
            None => return None,
        };
        let cc = match address_list(&msg.cc) {
            Some(v) => v,
            None => return None,
        };
        let date = match msg.date {
            Some(d) => d,
            None => MailDate::epoch(),
        };
        let flowed = match &msg.content_type {
            Some(t) => str_eq(t.as_str(), "flowed"),
            None => false,
        };
        let m = StrMessage {
            id: string_or(&msg.message_id, ""),
            subject: string_or(&msg.subject, "(No Subject)"),
            thread_subject: string_or(&msg.thread_name, "(No Subject)"),
            received,
            preview: string_or(&msg.preview, ""),
            from,
            date,
            body: string_or(&msg.body_text, "[No message body]"),
            flowed,
            mailto: String::new(),
            in_reply_to: copy_opt_string(&msg.in_reply_to),
            to,
            cc,
            url: String::new(),
        };
        proof {
            reveal_strlit("");
            let expected = str_message_of(msg@)->0;
            assert(m@.id == expected.id);
            assert(m@.subject == expected.subject);
            assert(m@.thread_subject == expected.thread_subject);
            assert(m@.received == expected.received);
            assert(m@.preview == expected.preview);
            assert(m@.from == expected.from);
            assert(m@.date == expected.date);
            assert(m@.body == expected.body);
            assert(m@.flowed == expected.flowed);
            assert(m@.mailto == expected.mailto);
            assert(m@.in_reply_to == expected.in_reply_to);
            assert(m@.to == expected.to);
            assert(m@.cc == expected.cc);
            assert(m@.url == expected.url);
        }
        Some(m)
    }
}

/// A message id made safe as a file name: '/' becomes ';'.
pub open spec fn path_escaped(id: Seq<char>) -> Seq<char> {
    id.map_values(|c: char| if c == '/' { ';' } else { c })
}

/// An escaped message id holds no '/', so it names a file in the
/// directory it is put in; ids without '/' are kept as they are.
pub proof fn law_escaped_ids_have_no_slash(id: Seq<char>)
    ensures
        forall|i: int| 0 <= i < path_escaped(id).len() ==> #[trigger] path_escaped(id)[i] != '/',
        (forall|i: int| 0 <= i < id.len() ==> #[trigger] id[i] != '/') ==> path_escaped(id) == id,
{
    if forall|i: int| 0 <= i < id.len() ==> #[trigger] id[i] != '/' {
        assert(path_escaped(id) =~= id);
    }
}

impl StrMessage {
    /// The message id made safe as a file name.
    pub fn pathescape_msg_id(&self) -> (r: String)
        ensures
            r@ == path_escaped(self.id@),
    {
        let v = chars_of(self.id.as_str());
        let mut out = String::new();
        let mut i: usize = 0;
        while i < v.len()
            invariant
                v@ == self.id@,
                i <= v@.len(),
                out@ == path_escaped(v@.take(i as int)),
            decreases v@.len() - i,
        {
            let c = v[i];
            if c == '/' {
                push_char(&mut out, ';');
            } else {
                push_char(&mut out, c);
            }
            i = i + 1;
            assert(out@ =~= path_escaped(v@.take(i as int)));
        }
        assert(v@.take(v@.len() as int) =~= v@);
        out
    }
}

// ----------------------------------------------------------------------
// Reply links
// ----------------------------------------------------------------------

/// Bytes that URL encoding keeps: ASCII letters and digits, `-`, `.`,
/// `_` and `~`.
pub open spec fn is_unreserved(b: u8) -> bool {
    (48 <= b <= 57) || (65 <= b <= 90) || (97 <= b <= 122) || b == 45 || b == 46 || b == 95
        || b == 126
}

/// The upper-case hex digit for `d` (`d < 16`).
pub open spec fn hex_digit(d: u8) -> char {
    if d < 10 {
        (48 + d) as char
    } else {
        (55 + d) as char
    }
}

/// One byte, URL encoded.
pub open spec fn byte_encoded(b: u8) -> Seq<char> {
    if is_unreserved(b) {
        seq![b as char]
    } else {
        seq!['%', hex_digit(b / 16), hex_digit(b % 16)]
    }
}

/// Bytes, URL encoded one after the other.
pub open spec fn percent_encoded(bytes: Seq<u8>) -> Seq<char>
    decreases bytes.len(),
{
    if bytes.len() == 0 {
        Seq::empty()
    } else {
        percent_encoded(bytes.drop_last()) + byte_encoded(bytes.last())
    }
}

/// The URL encoding of the UTF-8 bytes of `s`.
pub open spec fn url_encoded(s: Seq<char>) -> Seq<char> {
    percent_encoded(vstd::utf8::encode_utf8(s))
}

/// The characters URL encoding writes: ASCII letters and digits, `-`,
/// `.`, `_`, `~` and `%`.
pub open spec fn is_url_char(c: char) -> bool {
    ('0' <= c <= '9') || ('A' <= c <= 'Z') || ('a' <= c <= 'z') || c == '-' || c == '.' || c == '_'
        || c == '~' || c == '%'
}

/// URL encoded text holds only letters, digits, `-`, `.`, `_`, `~` and
/// `%`: never a separator of the query it is put in ('&', '=', '?', '#')
/// nor a space or line break.
pub proof fn law_url_encoding_is_query_safe(bytes: Seq<u8>)
    ensures
        forall|i: int|
            0 <= i < percent_encoded(bytes).len() ==> is_url_char(#[trigger] percent_encoded(bytes)[i]),
    decreases bytes.len(),
{
    if bytes.len() > 0 {
        law_url_encoding_is_query_safe(bytes.drop_last());
        let prev = percent_encoded(bytes.drop_last());
        let b = bytes.last();
        let tail = byte_encoded(b);
        assert(b / 16 < 16 && b % 16 < 16);
        assert forall|i: int| 0 <= i < percent_encoded(bytes).len() implies is_url_char(
            #[trigger] percent_encoded(bytes)[i],
        ) by {
            if i >= prev.len() {
                assert(percent_encoded(bytes)[i] == tail[i - prev.len()]);
            } else {
                assert(percent_encoded(bytes)[i] == prev[i]);
            }
        }
    }
}

/// The value of a hex digit (upper-case letters).
pub open spec fn hex_value(c: char) -> int {
    if '0' <= c <= '9' {
        c as int - 48
    } else {
        c as int - 55
    }
}

/// Percent-decoding, read from the end: a '%' two characters from the end
/// opens an escape of one byte; any other character stands for itself.
pub open spec fn percent_decoded(s: Seq<char>) -> Seq<u8>
    decreases s.len(),
{
    if s.len() == 0 {
        Seq::empty()
    } else if s.len() >= 3 && s[s.len() - 3] == '%' {
        percent_decoded(s.take(s.len() - 3)).push(
            (hex_value(s[s.len() - 2]) * 16 + hex_value(s[s.len() - 1])) as u8,
        )
    } else {
        percent_decoded(s.drop_last()).push(s.last() as u8)
    }
}

proof fn lemma_percent_only_opens_escapes(bytes: Seq<u8>)
    ensures
        forall|i: int|
            0 <= i < percent_encoded(bytes).len() && #[trigger] percent_encoded(bytes)[i] == '%'
                ==> i + 2 < percent_encoded(bytes).len(),
    decreases bytes.len(),
{
    if bytes.len() > 0 {
        lemma_percent_only_opens_escapes(bytes.drop_last());
        let prev = percent_encoded(bytes.drop_last());
        let tail = byte_encoded(bytes.last());
        assert forall|i: int|
            0 <= i < percent_encoded(bytes).len() && #[trigger] percent_encoded(bytes)[i] == '%'
                implies i + 2 < percent_encoded(bytes).len() by {
            if i < prev.len() {
                assert(percent_encoded(bytes)[i] == prev[i]);
            } else {
                assert(percent_encoded(bytes)[i] == tail[i - prev.len()]);
            }
        }
    }
}

/// URL encoding loses nothing: percent-decoding the encoded text gives
/// back the bytes.
pub proof fn law_url_decoding_undoes_encoding(bytes: Seq<u8>)
    ensures
        percent_decoded(percent_encoded(bytes)) == bytes,
    decreases bytes.len(),
{
    if bytes.len() > 0 {
        let b0 = bytes.drop_last();
        let x = bytes.last();
        law_url_decoding_undoes_encoding(b0);
        lemma_percent_only_opens_escapes(b0);
        let prev = percent_encoded(b0);
        let t = byte_encoded(x);
        let s = percent_encoded(bytes);
        assert(s == prev + t);
        if is_unreserved(x) {
            assert(s.drop_last() =~= prev);
            assert(s.last() == x as char);
            assert((x as char) as u8 == x);
            if s.len() >= 3 {
                assert(s[s.len() - 3] == prev[prev.len() - 2]);
            }
        } else {
            assert(s.take(s.len() - 3) =~= prev);
            assert(s[s.len() - 3] == '%');
            let hi = x / 16;
            let lo = x % 16;
            assert(hex_value(hex_digit(hi)) == hi);
            assert(hex_value(hex_digit(lo)) == lo);
            assert(hi * 16 + lo == x);
        }
        assert(bytes =~= b0.push(x));
    } else {
        assert(percent_encoded(bytes) =~= Seq::<char>::empty());
    }
}

/// `urlencoding::encode`: each UTF-8 byte of `s` kept when it is an ASCII
/// letter, digit, `-`, `.`, `_` or `~`, and written `%XY` with upper-case
/// hex digits otherwise.
#[verifier::external_body]
fn url_encode(s: &str) -> (r: String)
    ensures
        r@ == url_encoded(s@),
{
    urlencoding::encode(s).into_owned()
}

/// "key=value&", the value URL encoded.
pub open spec fn query_pair(key: Seq<char>, value: Seq<char>) -> Seq<char> {
    key + "="@ + url_encoded(value) + "&"@
}

/// The lines of a body quoted for a reply: each one URL encoded, after an
/// encoded "> " and before an encoded line break.
pub open spec fn quoted_body(lines: Seq<Seq<char>>) -> Seq<char>
    decreases lines.len(),
{
    if lines.len() == 0 {
        Seq::empty()
    } else {
        quoted_body(lines.drop_last()) + "%3E%20"@ + url_encoded(lines.last()) + "%0A"@
    }
}

/// The mailto: link that answers `m` on the list `list_name`, whose
/// address is `list_email`, archived under `base_url`: the sender in Cc,
/// In-Reply-To, List-Archive and "Re: " subject set, the body quoted.
pub open spec fn mailto_text(
    m: StrMessageView,
    list_name: Seq<char>,
    list_email: Seq<char>,
    base_url: Seq<char>,
) -> Seq<char> {
    "mailto:"@ + list_email + "?"@ + query_pair("cc"@, m.from.address) + query_pair(
        "in-reply-to"@,
        "<"@ + m.id + ">"@,
    ) + query_pair("list-archive"@, base_url + "/"@ + list_name) + query_pair(
        "subject"@,
        "Re: "@ + m.thread_subject,
    ) + "body="@ + quoted_body(text_lines(m.body))
}

fn push_query_pair(out: &mut String, key: &str, value: &str)
    ensures
        final(out)@ == old(out)@ + query_pair(key@, value@),
{
    push_str(out, key);
    push_str(out, "=");
    let enc = url_encode(value);
    push_str(out, enc.as_str());
    push_str(out, "&");
    proof {
        reveal_strlit("=");
        reveal_strlit("&");
    }
}

impl StrMessage {
    /// The mailto: link that answers this message on the list
    /// `list_name`, whose address is `list_email`; `base_url` is where the
    /// archive is served.
    pub fn mailto(&self, list_name: &str, list_email: &str, base_url: &str) -> (r: String)
        ensures
            r@ == mailto_text(self@, list_name@, list_email@, base_url@),
    {
        let mut url = String::new();
        push_str(&mut url, "mailto:");
        push_str(&mut url, list_email);
        push_str(&mut url, "?");
        push_query_pair(&mut url, "cc", self.from.address.as_str());
        let mut fixed_id = String::new();
        push_str(&mut fixed_id, "<");
        push_str(&mut fixed_id, self.id.as_str());
        push_str(&mut fixed_id, ">");
        push_query_pair(&mut url, "in-reply-to", fixed_id.as_str());
        let mut list_url = String::new();
        push_str(&mut list_url, base_url);
        push_str(&mut list_url, "/");
        push_str(&mut list_url, list_name);
        push_query_pair(&mut url, "list-archive", list_url.as_str());
        let mut subject = String::new();
        push_str(&mut subject, "Re: ");
        push_str(&mut subject, self.thread_subject.as_str());
        push_query_pair(&mut url, "subject", subject.as_str());
        push_str(&mut url, "body=");
        let ghost head = url@;
        let chars = chars_of(self.body.as_str());
        let lines = lines_of(&chars);
        let ghost lv = lines@.map_values(|l: Vec<char>| l@);
        let mut i: usize = 0;
        assert(lv.take(0) =~= Seq::<Seq<char>>::empty());
        while i < lines.len()
            invariant
                lv == lines@.map_values(|l: Vec<char>| l@),
                i <= lv.len(),
                url@ == head + quoted_body(lv.take(i as int)),
            decreases lv.len() - i,
        {
            let line = string_of(&lines[i], 0, lines[i].len());
            assert(line@ =~= lv[i as int]);
            push_str(&mut url, "%3E%20");
            let enc = url_encode(line.as_str());
            push_str(&mut url, enc.as_str());
            push_str(&mut url, "%0A");
            assert(lv.take(i + 1 as int).drop_last() =~= lv.take(i as int));
            i = i + 1;
        }
        assert(lv.take(lv.len() as int) =~= lv);
        proof {
            reveal_strlit("mailto:");
            reveal_strlit("?");
            reveal_strlit("<");
            reveal_strlit(">");
            reveal_strlit("/");
            reveal_strlit("Re: ");
            reveal_strlit("body=");
            reveal_strlit("cc");
            reveal_strlit("in-reply-to");
            reveal_strlit("list-archive");
            reveal_strlit("subject");
            assert(fixed_id@ =~= "<"@ + self.id@ + ">"@);
            assert(list_url@ =~= base_url@ + "/"@ + list_name@);
            assert(subject@ =~= "Re: "@ + self.thread_subject@);
            assert(url@ =~= mailto_text(self@, list_name@, list_email@, base_url@));
        }
        url
    }
}

/// The first message of a thread, with the size and date of the thread.
pub struct ThreadSummary {
    pub message: StrMessage,
    pub reply_count: u64,
    pub last_reply: MailDate,
}

pub struct ThreadSummaryView {
    pub message: StrMessageView,
    pub reply_count: u64,
    pub last_reply: MailDate,
}

impl View for ThreadSummary {
    type V = ThreadSummaryView;

    open spec fn view(&self) -> ThreadSummaryView {
        ThreadSummaryView {
            message: self.message@,
            reply_count: self.reply_count,
            last_reply: self.last_reply,
        }
    }
}

pub open spec fn summaries_view(v: Seq<ThreadSummary>) -> Seq<ThreadSummaryView> {
    v.map_values(|t: ThreadSummary| t@)
}

/// The messages of one thread, oldest first.
pub struct Thread {
    pub messages: Vec<StrMessage>,
    pub url: String,
}

pub open spec fn messages_view(v: Seq<StrMessage>) -> Seq<StrMessageView> {
    v.map_values(|m: StrMessage| m@)
}

/// One mailing list of the archive.
pub struct List {
    pub thread_idx: ThreadIdx,
    pub thread_topics: Vec<ThreadSummary>,
    pub recent_messages: Vec<StrMessage>,
    pub config: Subsection,
    pub out_dir: String,
    pub url: String,
}

/// All lists of the archive.
pub struct Lists {
    pub lists: Vec<List>,
    pub out_dir: String,
}

// ----------------------------------------------------------------------
// Building threads and lists
// ----------------------------------------------------------------------

pub fn copy_addresses(v: &Vec<MailAddress>) -> (r: Vec<MailAddress>)
    ensures
        addresses_view(r@) == addresses_view(v@),
{
    let mut out: Vec<MailAddress> = Vec::new();
    let mut i: usize = 0;
    while i < v.len()
        invariant
            i <= v@.len(),
            addresses_view(out@) =~= addresses_view(v@).take(i as int),
        decreases v@.len() - i,
    {
        let ghost prev = addresses_view(out@);
        let a = v[i].copy();
        out.push(a);
        assert(addresses_view(out@) =~= prev.push(v@[i as int]@));
        i = i + 1;
        assert(addresses_view(v@).take(i as int) =~= addresses_view(v@).take(i - 1).push(
            v@[i - 1]@,
        ));
    }
    assert(addresses_view(v@).take(v@.len() as int) =~= addresses_view(v@));
    out
}

impl StrMessage {
    /// A copy of the message.
    pub fn copy(&self) -> (r: StrMessage)
        ensures
            r@ == self@,
    {
        StrMessage {
            id: self.id.clone(),
            subject: self.subject.clone(),
            thread_subject: self.thread_subject.clone(),
            received: self.received,
            preview: self.preview.clone(),
            from: self.from.copy(),
            date: self.date,
            body: self.body.clone(),
            flowed: self.flowed,
            mailto: self.mailto.clone(),
            in_reply_to: copy_opt_string(&self.in_reply_to),
            to: copy_addresses(&self.to),
            cc: copy_addresses(&self.cc),
            url: self.url.clone(),
        }
    }
}

/// Where a message is shown: in the thread page of `thread_id` of the list
/// `list_name`, at its own id.
pub open spec fn message_url(
    base_url: Seq<char>,
    list_name: Seq<char>,
    thread_id: Seq<char>,
    id: Seq<char>,
) -> Seq<char> {
    base_url + "/"@ + list_name + "/"@ + path_escaped(thread_id) + "#"@ + id
}

impl StrMessage {
    /// Sets the address of the message in the archive: in the thread that
    /// `thread` sums up, of the list `list`; `base_url` is where the
    /// archive is served.
    pub fn set_url(&mut self, list: &List, thread: &ThreadSummary, base_url: &str)
        ensures
            final(self)@ == (StrMessageView {
                url: message_url(base_url@, list.config.name@, thread.message.id@, old(self).id@),
                ..old(self)@
            }),
    {
        let mut url = String::new();
        push_str(&mut url, base_url);
        push_str(&mut url, "/");
        push_str(&mut url, list.config.name.as_str());
        push_str(&mut url, "/");
        let p = thread.message.pathescape_msg_id();
        push_str(&mut url, p.as_str());
        push_str(&mut url, "#");
        push_str(&mut url, self.id.as_str());
        proof {
            reveal_strlit("/");
            reveal_strlit("#");
            assert(url@ =~= message_url(base_url@, list.config.name@, thread.message.id@, self.id@));
        }
        self.url = url;
    }
}

/// The message that `data` holds, made ready for rendering; `None` when it
/// does not parse or lacks what `str_message_of` needs.
pub open spec fn message_of_bytes(data: Seq<u8>) -> Option<StrMessageView> {
    if parses(data) {
        str_message_of(fields_in(data))
    } else {
        None
    }
}

/// The message that `data` holds, made ready for rendering.
pub fn message_from_bytes(data: &[u8]) -> (r: Option<StrMessage>)
    ensures
        match r {
            Some(m) => message_of_bytes(data@) == Some(m@),
            None => message_of_bytes(data@) is None,
        },
{
    match parse_fields(data) {
        Some(f) => StrMessage::new(&f),
        None => None,
    }
}

/// The messages that the files `raw` hold, in order; `None` when one of
/// them yields none.
pub fn messages_from_bytes(raw: &Vec<Vec<u8>>) -> (r: Option<Vec<StrMessage>>)
    ensures
        match r {
            Some(ms) => {
                &&& ms@.len() == raw@.len()
                &&& forall|i: int|
                    0 <= i < raw@.len() ==> message_of_bytes(#[trigger] raw@[i]@) == Some(ms@[i]@)
            },
            None => exists|i: int| 0 <= i < raw@.len() && message_of_bytes(#[trigger] raw@[i]@) is None,
        },
{
    let mut out: Vec<StrMessage> = Vec::new();
    let mut i: usize = 0;
    while i < raw.len()
        invariant
            i <= raw@.len(),
            out@.len() == i,
            forall|j: int| 0 <= j < i ==> message_of_bytes(#[trigger] raw@[j]@) == Some(out@[j]@),
        decreases raw@.len() - i,
    {
        match message_from_bytes(raw[i].as_slice()) {
            Some(m) => out.push(m),
            None => {
                assert(message_of_bytes(raw@[i as int]@) is None);
                return None;
            },
        }
        i = i + 1;
    }
    Some(out)
}

/// A message as its thread page shows it: with the link that answers it.
pub open spec fn with_mailto(
    m: StrMessageView,
    list_name: Seq<char>,
    list_email: Seq<char>,
    base_url: Seq<char>,
) -> StrMessageView {
    StrMessageView { mailto: mailto_text(m, list_name, list_email, base_url), ..m }
}

/// Where a thread is served: under the list, named after its first
/// message.
pub open spec fn thread_url(base_url: Seq<char>, list_name: Seq<char>, first_id: Seq<char>) -> Seq<
    char,
> {
    base_url + "/"@ + list_name + "/"@ + path_escaped(first_id)
}

impl Thread {
    /// The thread whose messages the files `raw` hold, oldest first, each
    /// with its reply link for the list `list_name` at `list_email`;
    /// `None` when one of the files yields no message.
    pub fn new(raw: &Vec<Vec<u8>>, list_name: &str, list_email: &str, base_url: &str) -> (r:
        Option<Thread>)
        requires
            raw@.len() > 0,
        ensures
            match r {
                Some(t) => {
                    &&& t.messages@.len() == raw@.len()
                    &&& forall|i: int|
                        0 <= i < raw@.len() ==> {
                            &&& message_of_bytes(#[trigger] raw@[i]@) is Some
                            &&& t.messages@[i]@ == with_mailto(
                                message_of_bytes(raw@[i]@)->0,
                                list_name@,
                                list_email@,
                                base_url@,
                            )
                        }
                    &&& t.url@ == thread_url(base_url@, list_name@, t.messages@[0]@.id)
                },
                None => exists|i: int|
                    0 <= i < raw@.len() && message_of_bytes(#[trigger] raw@[i]@) is None,
            },
    {
        let mut messages: Vec<StrMessage> = Vec::new();
        let mut i: usize = 0;
        while i < raw.len()
            invariant
                i <= raw@.len(),
                messages@.len() == i,
                forall|j: int|
                    0 <= j < i ==> {
                        &&& message_of_bytes(#[trigger] raw@[j]@) is Some
                        &&& messages@[j]@ == with_mailto(
                            message_of_bytes(raw@[j]@)->0,
                            list_name@,
                            list_email@,
                            base_url@,
                        )
                    },
            decreases raw@.len() - i,
        {
            match message_from_bytes(raw[i].as_slice()) {
                Some(m) => {
                    let mut msg = m;
                    msg.mailto = msg.mailto(list_name, list_email, base_url);
                    messages.push(msg);
                },
                None => {
                    assert(message_of_bytes(raw@[i as int]@) is None);
                    return None;
                },
            }
            i = i + 1;
        }
        let mut url = String::new();
        push_str(&mut url, base_url);
        push_str(&mut url, "/");
        push_str(&mut url, list_name);
        push_str(&mut url, "/");
        let p = messages[0].pathescape_msg_id();
        push_str(&mut url, p.as_str());
        proof {
            reveal_strlit("/");
            assert(url@ =~= thread_url(base_url@, list_name@, messages@[0]@.id));
        }
        Some(Thread { messages, url })
    }
}

/// The summary of a thread: its first message, how many replies follow
/// it, and the time of the last one.
pub open spec fn summary_of(first: StrMessageView, count: nat, last_time: MailDate) -> ThreadSummaryView {
    ThreadSummaryView { message: first, reply_count: (count - 1) as u64, last_reply: last_time }
}

impl List {
    /// Loads one thread of the list: its messages are those the files
    /// `raw` hold (those of the messages `msgs` of the thread index), each
    /// given its reply link and its address in the archive; the thread's
    /// summary joins the list's topics. `None`, with the list unchanged,
    /// when one of the files yields no message.
    pub fn add_thread(&mut self, msgs: &Vec<Msg>, raw: &Vec<Vec<u8>>, base_url: &str) -> (r:
        Option<Thread>)
        requires
            msgs@.len() > 0,
            raw@.len() > 0,
        ensures
            final(self).thread_idx@ == old(self).thread_idx@,
            final(self).config@ == old(self).config@,
            final(self).url@ == old(self).url@,
            final(self).out_dir@ == old(self).out_dir@,
            messages_view(final(self).recent_messages@) == messages_view(old(self).recent_messages@),
            match r {
                Some(t) => {
                    let name = old(self).config.name@;
                    let email = old(self).config.email@;
                    let first = with_mailto(message_of_bytes(raw@[0]@)->0, name, email, base_url@);
                    &&& t.messages@.len() == raw@.len()
                    &&& forall|i: int|
                        0 <= i < raw@.len() ==> {
                            let m = with_mailto(message_of_bytes(#[trigger] raw@[i]@)->0, name, email, base_url@);
                            &&& message_of_bytes(raw@[i]@) is Some
                            &&& t.messages@[i]@ == (StrMessageView {
                                url: message_url(base_url@, name, first.id, m.id),
                                ..m
                            })
                        }
                    &&& t.url@ == thread_url(base_url@, name, first.id)
                    &&& summaries_view(final(self).thread_topics@) == summaries_view(
                        old(self).thread_topics@,
                    ).push(summary_of(first, raw@.len(), msgs@.last().time))
                },
                None => {
                    &&& exists|i: int|
                        0 <= i < raw@.len() && message_of_bytes(#[trigger] raw@[i]@) is None
                    &&& summaries_view(final(self).thread_topics@) == summaries_view(
                        old(self).thread_topics@,
                    )
                },
            },
    {
        let thread = match Thread::new(raw, self.config.name.as_str(), self.config.email.as_str(), base_url) {
            Some(t) => t,
            None => return None,
        };
        let n = thread.messages.len();
        let summary = ThreadSummary {
            message: thread.messages[0].copy(),
            reply_count: (n - 1) as u64,
            last_reply: msgs[msgs.len() - 1].time,
        };
        let mut messages: Vec<StrMessage> = Vec::new();
        let mut i: usize = 0;
        while i < n
            invariant
                n == thread.messages@.len(),
                i <= n,
                messages@.len() == i,
                forall|j: int|
                    0 <= j < i ==> (#[trigger] messages@[j])@ == (StrMessageView {
                        url: message_url(
                            base_url@,
                            self.config.name@,
                            summary.message.id@,
                            thread.messages@[j]@.id,
                        ),
                        ..thread.messages@[j]@
                    }),
            decreases n - i,
        {
            let mut m = thread.messages[i].copy();
            m.set_url(self, &summary, base_url);
            messages.push(m);
            i = i + 1;
        }
        let ghost sv = summary@;
        let ghost old_topics = summaries_view(self.thread_topics@);
        self.thread_topics.push(summary);
        assert(summaries_view(self.thread_topics@) =~= old_topics.push(sv));
        Some(Thread { messages, url: thread.url })
    }
}

/// How many messages the Atom feed of a list holds.
pub const ATOM_ENTRY_LIMIT: usize = 100;

impl List {
    /// The messages of the list's Atom feed: its `ATOM_ENTRY_LIMIT` newest
    /// messages, newest first.
    pub fn recent_msgs(&self) -> (r: Vec<Msg>)
        ensures
            exists|s: Seq<MsgView>|
                #![trigger newest_first(s, ATOM_ENTRY_LIMIT as nat)]
                is_stable_sort_of(keyed_by_time(s), keyed_by_time(all_messages(self.thread_idx@.threads)))
                    && thread_view(r@) == newest_first(s, ATOM_ENTRY_LIMIT as nat),
    {
        self.thread_idx.recent_msgs(ATOM_ENTRY_LIMIT)
    }
}

/// Topics keyed by the time of their last reply.
pub open spec fn keyed_by_reply(ts: Seq<ThreadSummary>) -> Seq<(i64, ThreadSummary)> {
    ts.map_values(|t: ThreadSummary| (mail_timestamp(t.last_reply) as i64, t))
}

impl List {
    /// Orders the topics by the time of their last reply, newest first:
    /// a stable sort from oldest to newest, then reversed.
    pub fn sort_topics(&mut self)
        ensures
            final(self).thread_idx@ == old(self).thread_idx@,
            final(self).config@ == old(self).config@,
            final(self).url@ == old(self).url@,
            final(self).out_dir@ == old(self).out_dir@,
            messages_view(final(self).recent_messages@) == messages_view(old(self).recent_messages@),
            final(self).thread_topics@.len() == old(self).thread_topics@.len(),
            is_stable_sort_of(
                keyed_by_reply(final(self).thread_topics@.reverse()),
                keyed_by_reply(old(self).thread_topics@),
            ),
    {
        let mut rest: Vec<ThreadSummary> = Vec::new();
        std::mem::swap(&mut rest, &mut self.thread_topics);
        let ghost orig = rest@;
        let mut keyed: Vec<(i64, ThreadSummary)> = Vec::new();
        let ghost mut done: Seq<ThreadSummary> = Seq::empty();
        while rest.len() > 0
            invariant
                done + rest@ == orig,
                keyed@ == keyed_by_reply(done),
            decreases rest@.len(),
        {
            let ghost rb = rest@;
            let t = rest.remove(0);
            let k = t.last_reply.to_timestamp();
            let ghost tt = t;
            let ghost kp = keyed@;
            keyed.push((k, t));
            proof {
                assert(rb =~= seq![tt] + rest@);
                assert(done.push(tt) + rest@ =~= orig);
                assert(keyed@ =~= keyed_by_reply(done.push(tt)));
                done = done.push(tt);
            }
        }
        assert(done =~= orig);
        let ghost kv = keyed@;
        let mut sorted = stable_sort_by_key(keyed);
        let ghost sv = sorted@;
        let mut out: Vec<ThreadSummary> = Vec::new();
        while sorted.len() > 0
            invariant
                sorted@.len() + out@.len() == sv.len(),
                sorted@ == sv.take(sorted@.len() as int),
                forall|j: int| 0 <= j < out@.len() ==> out@[j] == sv[sv.len() - 1 - j].1,
            decreases sorted@.len(),
        {
            let ghost before = sorted@;
            match sorted.pop() {
                Some(p) => {
                    let (_, t) = p;
                    out.push(t);
                    assert(sorted@ =~= sv.take(sorted@.len() as int));
                },
                None => {},
            }
        }
        proof {
            assert forall|j: int| 0 <= j < sv.len() implies #[trigger] sv[j].0 == mail_timestamp(
                sv[j].1.last_reply,
            ) as i64 by {
                lemma_with_key_contains(sv, sv[j]);
                lemma_with_key_contains(kv, sv[j]);
                assert(sv.contains(sv[j]));
                let q = choose|q: int| 0 <= q < kv.len() && kv[q] == sv[j];
            }
            assert(keyed_by_reply(out@.reverse()) =~= sv);
        }
        self.thread_topics = out;
    }
}

impl Lists {
    /// Adds the list `name`, threaded as `thread_idx`: its settings are its
    /// section of `config`, else the defaults; it is served under
    /// `config`'s base URL and written under the archive's directory.
    pub fn add(&mut self, thread_idx: ThreadIdx, name: &str, config: &Config)
        ensures
            final(self).out_dir@ == old(self).out_dir@,
            final(self).lists@.len() == old(self).lists@.len() + 1,
            final(self).lists@.drop_last() == old(self).lists@,
            ({
                let l = final(self).lists@.last();
                &&& l.thread_idx == thread_idx
                &&& l.config@ == list_settings(config@, name@)
                &&& l.url@ == config@.base_url + "/"@ + l.config@.name
                &&& l.thread_topics@.len() == 0
                &&& l.recent_messages@.len() == 0
                &&& l.out_dir@ == joined_path(old(self).out_dir@, name@)
            }),
    {
        let settings = match config.get_subsection(name) {
            Some(sub) => sub,
            None => config.default_subsection(name),
        };
        let mut url = String::new();
        push_str(&mut url, config.base_url.as_str());
        push_str(&mut url, "/");
        push_str(&mut url, settings.name.as_str());
        proof {
            reveal_strlit("/");
            assert(url@ =~= config@.base_url + "/"@ + settings@.name);
        }
        let out_dir = path_join(self.out_dir.as_str(), name);
        let ghost before = self.lists@;
        self.lists.push(List {
            thread_idx,
            thread_topics: Vec::new(),
            recent_messages: Vec::new(),
            config: settings,
            out_dir,
            url,
        });
        assert(self.lists@.drop_last() =~= before);
    }
}

// ----------------------------------------------------------------------
// Exporting a message
// ----------------------------------------------------------------------

/// A display name as the exported message gives it: empty when absent.
pub open spec fn name_or_empty(a: MailAddressView) -> Seq<char> {
    match a.name {
        Some(n) => n,
        None => Seq::empty(),
    }
}

pub open spec fn mailbox_pairs(v: Seq<MailAddressView>) -> Seq<(Seq<char>, Seq<char>)> {
    v.map_values(|a: MailAddressView| (name_or_empty(a), a.address))
}

/// What the exported message is built from: Message-ID, From, To, Cc and
/// Date headers, In-Reply-To when there is one, Subject, and the body: a
/// format=flowed text part when the message is flowed, the plain text body
/// otherwise.
pub open spec fn export_model(m: StrMessageView) -> BuilderModel {
    BuilderModel {
        headers: seq![
            ("Message-ID"@, HeaderInput::Id(m.id)),
            ("From"@, HeaderInput::Mailbox(name_or_empty(m.from), m.from.address)),
            ("To"@, HeaderInput::Mailboxes(mailbox_pairs(m.to))),
            ("Cc"@, HeaderInput::Mailboxes(mailbox_pairs(m.cc))),
            ("Date"@, HeaderInput::Date(mail_timestamp(m.date))),
        ] + (match m.in_reply_to {
            Some(i) => seq![("In-Reply-To"@, HeaderInput::Id(i))],
            None => Seq::empty(),
        }) + seq![("Subject"@, HeaderInput::Text(m.subject))],
        text_body: if m.flowed { None } else { Some(m.body) },
        flowed_body: if m.flowed { Some(m.body) } else { None },
    }
}

/// The line that opens a message in an mbox file.
pub open spec fn mbox_from_line() -> Seq<u8> {
    vstd::utf8::encode_utf8("From mboxrd@z Thu Jan  1 00:00:00 1970\n"@)
}

fn mailbox_list(v: &Vec<MailAddress>) -> (r: Vec<(&str, &str)>)
    ensures
        pairs_view(r@) == mailbox_pairs(addresses_view(v@)),
{
    let mut out: Vec<(&str, &str)> = Vec::new();
    let mut i: usize = 0;
    while i < v.len()
        invariant
            i <= v@.len(),
            pairs_view(out@) =~= mailbox_pairs(addresses_view(v@)).take(i as int),
        decreases v@.len() - i,
    {
        let a = &v[i];
        let name: &str = match &a.name {
            Some(n) => n.as_str(),
            None => {
                proof {
                    reveal_strlit("");
                }
                ""
            },
        };
        assert(name@ == name_or_empty(a@));
        assert(addresses_view(v@)[i as int] == a@);
        let ghost prev = pairs_view(out@);
        out.push((name, a.address.as_str()));
        assert(pairs_view(out@) =~= prev.push((name@, a.address@)));
        i = i + 1;
        assert(mailbox_pairs(addresses_view(v@)).take(i as int) =~= mailbox_pairs(
            addresses_view(v@),
        ).take(i - 1).push((name@, a.address@)));
    }
    assert(mailbox_pairs(addresses_view(v@)).take(v@.len() as int) =~= mailbox_pairs(
        addresses_view(v@),
    ));
    out
}

impl StrMessage {
    /// The message as an mbox file: a "From " line, the message as
    /// `mail_builder` writes it from the headers and body of
    /// `export_model`, and a closing line break.
    pub fn export_mbox(&self) -> (r: Vec<u8>)
        ensures
            r@ == mbox_from_line() + built_message(export_model(self@)) + seq![10u8],
    {
        let from_name: &str = match &self.from.name {
            Some(n) => n.as_str(),
            None => {
                proof {
                    reveal_strlit("");
                }
                ""
            },
        };
        let mut message = Builder::new();
        message = message.message_id(self.id.as_str());
        message = message.from(from_name, self.from.address.as_str());
        message = message.to(mailbox_list(&self.to));
        message = message.cc(mailbox_list(&self.cc));
        message = message.date_header(self.date.to_timestamp());
        let ghost expected = export_model(self@);
        let ghost first = seq![
            ("Message-ID"@, HeaderInput::Id(self@.id)),
            ("From"@, HeaderInput::Mailbox(name_or_empty(self@.from), self@.from.address)),
            ("To"@, HeaderInput::Mailboxes(mailbox_pairs(self@.to))),
            ("Cc"@, HeaderInput::Mailboxes(mailbox_pairs(self@.cc))),
            ("Date"@, HeaderInput::Date(mail_timestamp(self@.date))),
        ];
        assert(from_name@ == name_or_empty(self@.from));
        assert(message@.headers =~= first);
        match &self.in_reply_to {
            Some(irt) => {
                message = message.in_reply_to(irt.as_str());
                assert(message@.headers =~= first + seq![("In-Reply-To"@, HeaderInput::Id(irt@))]);
            },
            None => {
                assert(message@.headers =~= first + Seq::empty());
            },
        }
        message = message.subject(self.subject.as_str());
        if self.flowed {
            message = message.flowed_text_body(self.body.as_str());
        } else {
            message = message.text_body(self.body.as_str());
        }
        proof {
            assert(message@.headers =~= expected.headers);
            assert(message@ == expected);
            assert(message@.headers[0].0 == "Message-ID"@);
            assert(message@.headers[4].0 == "Date"@);
        }
        let line = "From mboxrd@z Thu Jan  1 00:00:00 1970\n".as_bytes();
        let mut output: Vec<u8> = Vec::new();
        let mut i: usize = 0;
        while i < line.len()
            invariant
                i <= line@.len(),
                output@ =~= line@.take(i as int),
            decreases line@.len() - i,
        {
            output.push(line[i]);
            i = i + 1;
        }
        assert(line@.take(line@.len() as int) =~= line@);
        message.write_to(&mut output);
        output.push(10u8);
        output
    }
}

} // verus!
