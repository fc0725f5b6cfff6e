//! One message of an mbox, read with `mailparse`: the fields the archive
//! tool renders.
use vstd::prelude::*;
use mailparse::{MailHeaderMap, MailParseError, ParsedMail};
use crate::mbox_tool::dates::{zone_overflows_in, zone_would_overflow};
use crate::text::{chars_of, push_str};

verus! {

#[verifier::external_type_specification]
#[verifier::external_body]
pub struct ExParsedMail<'a>(ParsedMail<'a>);

#[verifier::external_type_specification]
#[verifier::external_body]
pub struct ExMailParseError(MailParseError);

/// A message parsed by `mailparse`, with the bytes it was parsed from.
pub struct ParsedEmail<'a> {
    bytes: &'a [u8],
    mail: ParsedMail<'a>,
}

impl<'a> View for ParsedEmail<'a> {
    type V = Seq<u8>;

    /// The bytes the message was parsed from.
    closed spec fn view(&self) -> Seq<u8> {
        self.bytes@
    }
}

/// Whether `mailparse::parse_mail` reads a message from `data`.
pub uninterp spec fn mail_parses(data: Seq<u8>) -> bool;

/// The value of the first header of the message in `data` whose name is
/// `key` (case aside), as `MailHeaderMap::get_first_value` decodes it.
pub uninterp spec fn first_header_in(data: Seq<u8>, key: Seq<char>) -> Option<Seq<char>>;

/// The unix time `mailparse::dateparse` reads from the date text `date`;
/// `None` when it reports an error.
pub uninterp spec fn parsed_date(date: Seq<char>) -> Option<int>;

/// `mailparse::parse_mail`: `Ok` exactly when `mail_parses` holds of the
/// bytes, the message then keeping the bytes it came from.
#[verifier::external_body]
fn parse_mail<'a>(data: &'a [u8]) -> (r: Result<ParsedEmail<'a>, MailParseError>)
    ensures
        r is Ok <==> mail_parses(data@),
        r matches Ok(m) ==> m@ == data@,
{
    mailparse::parse_mail(data).map(|mail| ParsedEmail { bytes: data, mail })
}

/// `MailHeaderMap::get_first_value` on the message's headers.
#[verifier::external_body]
fn first_header_value(m: &ParsedEmail, key: &str) -> (r: Option<String>)
    ensures
        match r {
            Some(v) => first_header_in(m@, key@) == Some(v@),
            None => first_header_in(m@, key@) is None,
        },
{
    m.mail.headers.get_first_value(key)
}

/// `mailparse::dateparse`: the unix time that `date` states. It panics
/// only where its `i32` arithmetic on a numeric time zone overflows
/// (`zone_overflows_in`); such dates are not passed to it.
#[verifier::external_body]
fn dateparse(date: &str) -> (r: Result<i64, MailParseError>)
    requires
        !zone_overflows_in(date@),
    ensures
        match r {
            Ok(t) => parsed_date(date@) == Some(t as int),
            Err(_) => parsed_date(date@) is None,
        },
{
    mailparse::dateparse(date)
}

/// A message as the archive tool renders it.
pub struct Email {
    pub id: String,
    pub from: String,
    pub subject: String,
    pub in_reply_to: Option<String>,
    /// Seconds since the unix epoch.
    pub date: i64,
    pub body: String,
}

pub struct EmailView {
    pub id: Seq<char>,
    pub from: Seq<char>,
    pub subject: Seq<char>,
    pub in_reply_to: Option<Seq<char>>,
    pub date: int,
    pub body: Seq<char>,
}

impl View for Email {
    type V = EmailView;

    open spec fn view(&self) -> EmailView {
        EmailView {
            id: self.id@,
            from: self.from@,
            subject: self.subject@,
            in_reply_to: match self.in_reply_to {
                Some(s) => Some(s@),
                None => None,
            },
            date: self.date as int,
            body: self.body@,
        }
    }
}

/// Why a message cannot be read.
pub enum EmailError {
    /// `mailparse` could not parse it.
    Parse,
    MissingMessageId,
    /// The message id holds "..", which could climb out of a directory.
    BadMessageId,
    MissingDate,
    /// The Date header does not parse.
    BadDate,
    MissingFrom,
}

/// Whether `s` holds "..".
pub open spec fn has_double_dot(s: Seq<char>) -> bool {
    exists|i: int| 0 <= i < s.len() - 1 && #[trigger] s[i] == '.' && s[i + 1] == '.'
}

/// The message that `data` holds, or why it cannot be read: the checks go
/// in this order — it parses; it has a Message-ID without ".."; it has a
/// Date that `dateparse` reads (a Date whose numeric time zone would
/// overflow its arithmetic, where it panics, counts as bad); it has a
/// From. The subject defaults to
/// "(no subject)"; the body is a stand-in text.
pub open spec fn email_of(data: Seq<u8>) -> Result<EmailView, EmailError> {
    if !mail_parses(data) {
        Err(EmailError::Parse)
    } else {
        match first_header_in(data, "message-id"@) {
            None => Err(EmailError::MissingMessageId),
            Some(id) => if has_double_dot(id) {
                Err(EmailError::BadMessageId)
            } else {
                match first_header_in(data, "date"@) {
                    None => Err(EmailError::MissingDate),
                    Some(d) => match (if zone_overflows_in(d) { None } else { parsed_date(d) }) {
                        None => Err(EmailError::BadDate),
                        Some(date) => match first_header_in(data, "from"@) {
                            None => Err(EmailError::MissingFrom),
                            Some(from) => Ok(
                                EmailView {
                                    id: id,
                                    from: from,
                                    subject: match first_header_in(data, "subject"@) {
                                        Some(s) => s,
                                        None => "(no subject)"@,
                                    },
                                    in_reply_to: first_header_in(data, "in-reply-to"@),
                                    date: date,
                                    body: "lorem ipsum"@,
                                },
                            ),
                        },
                    },
                }
            },
        }
    }
}

fn contains_double_dot(s: &str) -> (r: bool)
    ensures
        r == has_double_dot(s@),
{
    let v = chars_of(s);
    let mut i: usize = 0;
    while v.len() - i > 1
        invariant
            v@ == s@,
            i <= v@.len(),
            forall|j: int| 0 <= j < i && j < v@.len() - 1 ==> !(#[trigger] v@[j] == '.' && v@[j + 1] == '.'),
        decreases v@.len() - i,
    {
        if v[i] == '.' && v[i + 1] == '.' {
            return true;
        }
        i = i + 1;
    }
    assert(forall|j: int| 0 <= j < v@.len() - 1 ==> !(#[trigger] v@[j] == '.' && v@[j + 1] == '.'));
    false
}

fn text(s: &str) -> (r: String)
    ensures
        r@ == s@,
{
    let mut out = String::new();
    push_str(&mut out, s);
    assert(out@ =~= s@);
    out
}

/// Reads the message in `data`.
pub fn local_parse_email(data: &[u8]) -> (r: Result<Email, EmailError>)
    ensures
        match r {
            Ok(e) => email_of(data@) == Ok::<EmailView, EmailError>(e@),
            Err(err) => email_of(data@) == Err::<EmailView, EmailError>(err),
        },
{
    proof {
        reveal_strlit("message-id");
        reveal_strlit("date");
        reveal_strlit("from");
        reveal_strlit("subject");
        reveal_strlit("in-reply-to");
        reveal_strlit("(no subject)");
        reveal_strlit("lorem ipsum");
    }
    let parsed_mail = match parse_mail(data) {
        Ok(m) => m,
        Err(_) => return Err(EmailError::Parse),
    };
    let id = match first_header_value(&parsed_mail, "message-id") {
        Some(i) => i,
        None => return Err(EmailError::MissingMessageId),
    };
    if contains_double_dot(id.as_str()) {
        return Err(EmailError::BadMessageId);
    }
    let in_reply_to = first_header_value(&parsed_mail, "in-reply-to");
    let subject = match first_header_value(&parsed_mail, "subject") {
        Some(s) => s,
        None => text("(no subject)"),
    };
    let date_text = match first_header_value(&parsed_mail, "date") {
        Some(d) => d,
        None => return Err(EmailError::MissingDate),
    };
    if zone_would_overflow(date_text.as_str()) {
        return Err(EmailError::BadDate);
    }
    let date = match dateparse(date_text.as_str()) {
        Ok(t) => t,
        Err(_) => return Err(EmailError::BadDate),
    };
    let from = match first_header_value(&parsed_mail, "from") {
        Some(f) => f,
        None => return Err(EmailError::MissingFrom),
    };
    let body = text("lorem ipsum");
    Ok(Email { id, from, subject, in_reply_to, date, body })
}

} // verus!
