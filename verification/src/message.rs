//! Reading messages with `mail_parser`: the fields the archive uses,
//! taken out of a parsed message as plain values.
//!
//! What `mail_parser` finds in a message is a function of the message's
//! bytes; each field it reports gets a name below, applied to those bytes.
use vstd::prelude::*;
use mail_parser::{HeaderValue, Message, MimeHeaders};
use crate::models::{AddressField, AddressFieldView, MessageFields, MessageFieldsView, RawAddress};
use crate::time::MailDate;

verus! {

#[verifier::external_type_specification]
#[verifier::external_body]
pub struct ExMessage<'x>(Message<'x>);

/// A message parsed by `mail_parser`, with the bytes it was parsed from.
pub struct ParsedMessage<'x> {
    bytes: &'x [u8],
    message: Message<'x>,
}

impl<'x> View for ParsedMessage<'x> {
    type V = Seq<u8>;

    /// The bytes the message was parsed from.
    closed spec fn view(&self) -> Seq<u8> {
        self.bytes@
    }
}

/// Whether `Message::parse` finds a message (some header) in `data`.
pub uninterp spec fn parses(data: Seq<u8>) -> bool;

/// `Message::message_id` of the message in `data`.
pub uninterp spec fn message_id_in(data: Seq<u8>) -> Option<Seq<char>>;

/// The Received header of the message in `data`, read as a date.
pub uninterp spec fn received_in(data: Seq<u8>) -> Option<MailDate>;

/// `Message::date` of the message in `data`.
pub uninterp spec fn date_in(data: Seq<u8>) -> Option<MailDate>;

/// `Message::subject` of the message in `data`.
pub uninterp spec fn subject_in(data: Seq<u8>) -> Option<Seq<char>>;

/// `Message::body_preview` of the message in `data`, at most about `len`
/// bytes.
pub uninterp spec fn preview_in(data: Seq<u8>, len: nat) -> Option<Seq<char>>;

/// The From header of the message in `data`.
pub uninterp spec fn from_in(data: Seq<u8>) -> AddressFieldView;

/// The To header of the message in `data`.
pub uninterp spec fn to_in(data: Seq<u8>) -> AddressFieldView;

/// The Cc header of the message in `data`.
pub uninterp spec fn cc_in(data: Seq<u8>) -> AddressFieldView;

/// The In-Reply-To header of the message in `data`, read as text.
pub uninterp spec fn in_reply_to_in(data: Seq<u8>) -> Option<Seq<char>>;

/// `Message::body_text(0)` of the message in `data`.
pub uninterp spec fn body_text_in(data: Seq<u8>) -> Option<Seq<char>>;

/// The main type of the Content-Type header of the message in `data`.
pub uninterp spec fn content_type_in(data: Seq<u8>) -> Option<Seq<char>>;

/// The base subject `mail_parser` finds in a subject line: reply and
/// forward prefixes, list tags and trailers removed (RFC 5256, 2.1).
pub uninterp spec fn thread_name_of(subject: Seq<char>) -> Seq<char>;

pub open spec fn opt_chars(o: Option<String>) -> Option<Seq<char>> {
    match o {
        Some(s) => Some(s@),
        None => None,
    }
}

/// `mail_parser::parsers::fields::thread::thread_name`: its result is
/// the name `thread_name_of` applied to the subject.
#[verifier::external_body]
pub(crate) fn thread_name(subject: &str) -> (r: String)
    ensures
        r@ == thread_name_of(subject@),
{
    mail_parser::parsers::fields::thread::thread_name(subject).to_string()
}

/// `Message::parse`, which never panics: `Some` exactly when `parses`
/// holds of the bytes, the message then keeping the bytes it came from.
#[verifier::external_body]
pub(crate) fn parse_message<'x>(data: &'x [u8]) -> (r: Option<ParsedMessage<'x>>)
    ensures
        r is Some <==> parses(data@),
        r matches Some(m) ==> m@ == data@,
{
    Message::parse(data).map(|message| ParsedMessage { bytes: data, message })
}

/// `Message::message_id`, as an owned string.
#[verifier::external_body]
fn message_id(m: &ParsedMessage) -> (r: Option<String>)
    ensures
        opt_chars(r) == message_id_in(m@),
{
    m.message.message_id().map(|s| s.to_string())
}

/// `Message::received` read as a date (`HeaderValue::as_datetime_ref`).
#[verifier::external_body]
fn received_date(m: &ParsedMessage) -> (r: Option<MailDate>)
    ensures
        r == received_in(m@),
{
    m.message.received().as_datetime_ref().map(|d| MailDate {
        year: d.year, month: d.month, day: d.day, hour: d.hour, minute: d.minute,
        second: d.second, tz_before_gmt: d.tz_before_gmt, tz_hour: d.tz_hour,
        tz_minute: d.tz_minute,
    })
}

/// `Message::date`, as a plain date.
#[verifier::external_body]
fn date(m: &ParsedMessage) -> (r: Option<MailDate>)
    ensures
        r == date_in(m@),
{
    m.message.date().map(|d| MailDate {
        year: d.year, month: d.month, day: d.day, hour: d.hour, minute: d.minute,
        second: d.second, tz_before_gmt: d.tz_before_gmt, tz_hour: d.tz_hour,
        tz_minute: d.tz_minute,
    })
}

/// `Message::subject`, as an owned string.
#[verifier::external_body]
fn subject(m: &ParsedMessage) -> (r: Option<String>)
    ensures
        opt_chars(r) == subject_in(m@),
{
    m.message.subject().map(|s| s.to_string())
}

/// `Message::body_preview`, as an owned string.
#[verifier::external_body]
fn body_preview(m: &ParsedMessage, len: usize) -> (r: Option<String>)
    ensures
        opt_chars(r) == preview_in(m@, len as nat),
{
    m.message.body_preview(len).map(|s| s.to_string())
}

/// `Message::from`, each address as plain strings; one arm per variant of
/// the header value.
#[verifier::external_body]
fn from(m: &ParsedMessage) -> (r: AddressField)
    ensures
        r@ == from_in(m@),
{
    let raw = |a: &mail_parser::Addr| RawAddress {
        name: a.name.as_ref().map(|n| n.to_string()),
        address: a.address.as_ref().map(|s| s.to_string()),
    };
    match m.message.from() {
        HeaderValue::Address(a) => AddressField::Single(raw(a)),
        HeaderValue::AddressList(v) => AddressField::List(v.iter().map(raw).collect()),
        _ => AddressField::Other,
    }
}

/// `Message::to`, each address as plain strings; one arm per variant of
/// the header value.
#[verifier::external_body]
fn to(m: &ParsedMessage) -> (r: AddressField)
    ensures
        r@ == to_in(m@),
{
    let raw = |a: &mail_parser::Addr| RawAddress {
        name: a.name.as_ref().map(|n| n.to_string()),
        address: a.address.as_ref().map(|s| s.to_string()),
    };
    match m.message.to() {
        HeaderValue::Address(a) => AddressField::Single(raw(a)),
        HeaderValue::AddressList(v) => AddressField::List(v.iter().map(raw).collect()),
        _ => AddressField::Other,
    }
}

/// `Message::cc`, each address as plain strings; one arm per variant of
/// the header value.
#[verifier::external_body]
fn cc(m: &ParsedMessage) -> (r: AddressField)
    ensures
        r@ == cc_in(m@),
{
    let raw = |a: &mail_parser::Addr| RawAddress {
        name: a.name.as_ref().map(|n| n.to_string()),
        address: a.address.as_ref().map(|s| s.to_string()),
    };
    match m.message.cc() {
        HeaderValue::Address(a) => AddressField::Single(raw(a)),
        HeaderValue::AddressList(v) => AddressField::List(v.iter().map(raw).collect()),
        _ => AddressField::Other,
    }
}

/// `Message::in_reply_to` read as text (`HeaderValue::as_text_ref`).
#[verifier::external_body]
fn in_reply_to(m: &ParsedMessage) -> (r: Option<String>)
    ensures
        opt_chars(r) == in_reply_to_in(m@),
{
    m.message.in_reply_to().as_text_ref().map(|s| s.to_string())
}

/// `Message::body_text` of the first text part, as an owned string.
#[verifier::external_body]
fn body_text(m: &ParsedMessage) -> (r: Option<String>)
    ensures
        opt_chars(r) == body_text_in(m@),
{
    m.message.body_text(0).map(|s| s.to_string())
}

/// The main type of `MimeHeaders::content_type`.
#[verifier::external_body]
fn content_type(m: &ParsedMessage) -> (r: Option<String>)
    ensures
        opt_chars(r) == content_type_in(m@),
{
    m.message.content_type().map(|c| c.c_type.to_string())
}

/// Length of the body preview.
pub const PREVIEW_LEN: usize = 80;

/// The fields of the message in `data`; the thread name is the thread
/// name of the subject, when there is one (as `Message::thread_name`
/// computes it).
pub open spec fn fields_in(data: Seq<u8>) -> MessageFieldsView {
    MessageFieldsView {
        message_id: message_id_in(data),
        received: received_in(data),
        date: date_in(data),
        subject: subject_in(data),
        thread_name: match subject_in(data) {
            Some(s) => Some(thread_name_of(s)),
            None => None,
        },
        preview: preview_in(data, PREVIEW_LEN as nat),
        from: from_in(data),
        to: to_in(data),
        cc: cc_in(data),
        in_reply_to: in_reply_to_in(data),
        body_text: body_text_in(data),
        content_type: content_type_in(data),
    }
}

/// The fields of a parsed message.
pub fn message_fields(m: &ParsedMessage) -> (r: MessageFields)
    ensures
        r@ == fields_in(m@),
{
    let subject = subject(m);
    let thread_name = match &subject {
        Some(s) => Some(thread_name(s.as_str())),
        None => None,
    };
    MessageFields {
        message_id: message_id(m),
        received: received_date(m),
        date: date(m),
        subject,
        thread_name,
        preview: body_preview(m, PREVIEW_LEN),
        from: from(m),
        to: to(m),
        cc: cc(m),
        in_reply_to: in_reply_to(m),
        body_text: body_text(m),
        content_type: content_type(m),
    }
}

/// The fields of the message in `data`, or `None` when it does not parse.
pub fn parse_fields(data: &[u8]) -> (r: Option<MessageFields>)
    ensures
        r is Some <==> parses(data@),
        r matches Some(f) ==> f@ == fields_in(data@),
{
    match parse_message(data) {
        Some(m) => Some(message_fields(&m)),
        None => None,
    }
}

} // verus!
