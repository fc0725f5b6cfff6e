//! Writing messages with `mail_builder`: a builder paired with a record of
//! what it was given, and the bytes it writes named as a function of that
//! record.
use vstd::prelude::*;
use mail_builder::headers::date::Date;
use mail_builder::headers::content_type::ContentType;
use mail_builder::mime::{BodyPart, MimePart};
use mail_builder::MessageBuilder;

verus! {

#[verifier::external_type_specification]
#[verifier::external_body]
pub struct ExMessageBuilder<'x>(MessageBuilder<'x>);

/// The value of a header as the builder is given it.
pub enum HeaderInput {
    /// A message id (`MessageId::from(&str)`).
    Id(Seq<char>),
    /// One address with its display name (`Address::from((&str, &str))`).
    Mailbox(Seq<char>, Seq<char>),
    /// A list of (display name, address) pairs (`Address::from(Vec<_>)`).
    Mailboxes(Seq<(Seq<char>, Seq<char>)>),
    /// A date, in seconds since the unix epoch (`Date::new`).
    Date(int),
    /// Free text (`Text::from(&str)`).
    Text(Seq<char>),
}

/// What a builder was given: its headers, in order, its text body, and
/// the text of a format=flowed body part.
pub struct BuilderModel {
    pub headers: Seq<(Seq<char>, HeaderInput)>,
    pub text_body: Option<Seq<char>>,
    /// A text/plain part with charset=utf-8 and format=flowed, given to
    /// `MessageBuilder::body`; when present it is the message's body.
    pub flowed_body: Option<Seq<char>>,
}

/// A `mail_builder::MessageBuilder` with a record of its headers and body.
pub struct Builder<'x> {
    builder: MessageBuilder<'x>,
    model: Ghost<BuilderModel>,
}

impl<'x> View for Builder<'x> {
    type V = BuilderModel;

    closed spec fn view(&self) -> BuilderModel {
        self.model@
    }
}

/// Whether the builder has a header called `name`.
pub open spec fn has_header(m: BuilderModel, name: Seq<char>) -> bool {
    exists|i: int| 0 <= i < m.headers.len() && (#[trigger] m.headers[i]).0 == name
}

/// The bytes `MessageBuilder::write_to` writes for a builder given `m`,
/// when `m` holds a Message-ID and a Date header (without them it would
/// make some up from the host name, a random number and the clock).
pub uninterp spec fn built_message(m: BuilderModel) -> Seq<u8>;

pub open spec fn pairs_view(v: Seq<(&str, &str)>) -> Seq<(Seq<char>, Seq<char>)> {
    v.map_values(|p: (&str, &str)| (p.0@, p.1@))
}

impl<'x> Builder<'x> {
    /// `MessageBuilder::new`: no header, no body.
    #[verifier::external_body]
    pub(crate) fn new() -> (r: Builder<'x>)
        ensures
            r@ == (BuilderModel { headers: Seq::empty(), text_body: None, flowed_body: None }),
    {
        Builder {
            builder: MessageBuilder::new(),
            model: Ghost(BuilderModel { headers: Seq::empty(), text_body: None, flowed_body: None }),
        }
    }

    /// `MessageBuilder::message_id`: a Message-ID header is added.
    #[verifier::external_body]
    pub(crate) fn message_id(self, id: &'x str) -> (r: Builder<'x>)
        ensures
            r@ == (BuilderModel { headers: self@.headers.push(("Message-ID"@, HeaderInput::Id(id@))), ..self@ }),
    {
        Builder {
            builder: self.builder.message_id(id),
            model: Ghost(BuilderModel { headers: self.model@.headers.push(("Message-ID"@, HeaderInput::Id(id@))), ..self.model@ }),
        }
    }

    /// `MessageBuilder::in_reply_to`: an In-Reply-To header is added.
    #[verifier::external_body]
    pub(crate) fn in_reply_to(self, id: &'x str) -> (r: Builder<'x>)
        ensures
            r@ == (BuilderModel { headers: self@.headers.push(("In-Reply-To"@, HeaderInput::Id(id@))), ..self@ }),
    {
        Builder {
            builder: self.builder.in_reply_to(id),
            model: Ghost(BuilderModel { headers: self.model@.headers.push(("In-Reply-To"@, HeaderInput::Id(id@))), ..self.model@ }),
        }
    }

    /// `MessageBuilder::from` with a (name, address) pair: a From header is
    /// added.
    #[verifier::external_body]
    pub(crate) fn from(self, name: &'x str, address: &'x str) -> (r: Builder<'x>)
        ensures
            r@ == (BuilderModel {
                headers: self@.headers.push(("From"@, HeaderInput::Mailbox(name@, address@))),
                ..self@
            }),
    {
        Builder {
            builder: self.builder.from((name, address)),
            model: Ghost(BuilderModel { headers: self.model@.headers.push(("From"@, HeaderInput::Mailbox(name@, address@))), ..self.model@ }),
        }
    }

    /// `MessageBuilder::to` with a list of (name, address) pairs: a To
    /// header is added.
    #[verifier::external_body]
    pub(crate) fn to(self, addrs: Vec<(&'x str, &'x str)>) -> (r: Builder<'x>)
        ensures
            r@ == (BuilderModel {
                headers: self@.headers.push(("To"@, HeaderInput::Mailboxes(pairs_view(addrs@)))),
                ..self@
            }),
    {
        Builder {
            builder: self.builder.to(addrs),
            model: Ghost(BuilderModel { headers: self.model@.headers.push(("To"@, HeaderInput::Mailboxes(pairs_view(addrs@)))), ..self.model@ }),
        }
    }

    /// `MessageBuilder::cc` with a list of (name, address) pairs: a Cc
    /// header is added.
    #[verifier::external_body]
    pub(crate) fn cc(self, addrs: Vec<(&'x str, &'x str)>) -> (r: Builder<'x>)
        ensures
            r@ == (BuilderModel {
                headers: self@.headers.push(("Cc"@, HeaderInput::Mailboxes(pairs_view(addrs@)))),
                ..self@
            }),
    {
        Builder {
            builder: self.builder.cc(addrs),
            model: Ghost(BuilderModel { headers: self.model@.headers.push(("Cc"@, HeaderInput::Mailboxes(pairs_view(addrs@)))), ..self.model@ }),
        }
    }

    /// `MessageBuilder::header("Date", Date::new(timestamp))`: a Date
    /// header is added.
    #[verifier::external_body]
    pub(crate) fn date_header(self, timestamp: i64) -> (r: Builder<'x>)
        ensures
            r@ == (BuilderModel {
                headers: self@.headers.push(("Date"@, HeaderInput::Date(timestamp as int))),
                ..self@
            }),
    {
        Builder {
            builder: self.builder.header("Date", Date::new(timestamp)),
            model: Ghost(BuilderModel { headers: self.model@.headers.push(("Date"@, HeaderInput::Date(timestamp as int))), ..self.model@ }),
        }
    }

    /// `MessageBuilder::subject`: a Subject header is added.
    #[verifier::external_body]
    pub(crate) fn subject(self, text: &'x str) -> (r: Builder<'x>)
        ensures
            r@ == (BuilderModel { headers: self@.headers.push(("Subject"@, HeaderInput::Text(text@))), ..self@ }),
    {
        Builder {
            builder: self.builder.subject(text),
            model: Ghost(BuilderModel { headers: self.model@.headers.push(("Subject"@, HeaderInput::Text(text@))), ..self.model@ }),
        }
    }

    /// `MessageBuilder::text_body`: the text body is set.
    #[verifier::external_body]
    pub(crate) fn text_body(self, text: &'x str) -> (r: Builder<'x>)
        ensures
            r@ == (BuilderModel { text_body: Some(text@), ..self@ }),
    {
        Builder {
            builder: self.builder.text_body(text),
            model: Ghost(BuilderModel { text_body: Some(text@), ..self.model@ }),
        }
    }

    /// `MessageBuilder::body` with a text/plain part whose Content-Type
    /// has the attributes charset=utf-8 and format=flowed
    /// (`MimePart::new`, `ContentType::attribute`): the flowed body is set.
    /// mail-builder 0.2.5 has no `format_flowed` method, so the content
    /// type is put together here from its public pieces.
    #[verifier::external_body]
    pub(crate) fn flowed_text_body(self, text: &'x str) -> (r: Builder<'x>)
        ensures
            r@ == (BuilderModel { flowed_body: Some(text@), ..self@ }),
    {
        let content_type = ContentType::new("text/plain")
            .attribute("charset", "utf-8")
            .attribute("format", "flowed");
        Builder {
            builder: self.builder.body(MimePart::new(content_type, BodyPart::Text(text.into()))),
            model: Ghost(BuilderModel { flowed_body: Some(text@), ..self.model@ }),
        }
    }

    /// `MessageBuilder::write_to` into `out`: the bytes `built_message` of
    /// the builder's record follow what `out` held. It reports an error
    /// only when writing to `out` fails, and writing to a `Vec` appends to
    /// it, growing it as needed; so it succeeds.
    #[verifier::external_body]
    pub(crate) fn write_to(self, out: &mut Vec<u8>) -> (ok: bool)
        requires
            has_header(self@, "Message-ID"@),
            has_header(self@, "Date"@),
        ensures
            ok,
            final(out)@ == old(out)@ + built_message(self@),
    {
        self.builder.write_to(&mut *out).is_ok()
    }
}

} // verus!
