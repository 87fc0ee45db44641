//! Messages, read by `mail_parser`.
use crate::filename::{opt_params, Param, ParamView};
use crate::text::opt_view;
use mail_parser::MimeHeaders;
use vstd::prelude::*;

verus! {

/// A mail address.
pub struct MailAddr {
    /// The name of its owner.
    pub name: Option<String>,
    /// The address itself.
    pub address: Option<String>,
}

/// The name and the address.
pub type AddrView = (Option<Seq<char>>, Option<Seq<char>>);

/// The names and the addresses.
pub open spec fn addr_views(list: Seq<MailAddr>) -> Seq<AddrView> {
    list.map_values(|a: MailAddr| (opt_view(a.name), opt_view(a.address)))
}

/// The names and the addresses, if there are any.
pub open spec fn opt_addrs(list: Option<Vec<MailAddr>>) -> Option<Seq<AddrView>> {
    match list {
        Some(l) => Some(addr_views(l@)),
        None => None,
    }
}

#[verifier::external_type_specification]
#[verifier::external_body]
pub struct ExMessage<'x>(mail_parser::Message<'x>);

/// The bytes that a message was read from, if it was read by the default parser.
pub uninterp spec fn message_source(m: mail_parser::Message) -> Option<Seq<u8>>;

/// Whether bytes can be read as a message.
pub uninterp spec fn is_message(raw: Seq<u8>) -> bool;

/// The senders of a message.
pub uninterp spec fn mail_from(raw: Seq<u8>) -> Option<Seq<AddrView>>;

/// The recipients of a message.
pub uninterp spec fn mail_to(raw: Seq<u8>) -> Option<Seq<AddrView>>;

/// The subject of a message.
pub uninterp spec fn mail_subject(raw: Seq<u8>) -> Option<Seq<char>>;

/// How many parts a message has.
pub uninterp spec fn part_count(raw: Seq<u8>) -> nat;

/// Whether a part of a message is a text.
pub uninterp spec fn part_is_text(raw: Seq<u8>, i: int) -> bool;

/// The parameters of the disposition of a part.
pub uninterp spec fn part_disposition(raw: Seq<u8>, i: int) -> Option<Seq<ParamView>>;

/// The parameters of the content type of a part.
pub uninterp spec fn part_type(raw: Seq<u8>, i: int) -> Option<Seq<ParamView>>;

/// The contents of a part that is neither a text nor made of other parts.
pub uninterp spec fn part_bytes(raw: Seq<u8>, i: int) -> Option<Seq<u8>>;

/// Calls `mail_parser::MessageParser::parse` of the default parser. It does not panic.
#[verifier::external_body]
fn parse_message(raw: &[u8]) -> (r: Option<mail_parser::Message<'_>>)
    ensures
        r is Some <==> is_message(raw@),
        r matches Some(m) ==> message_source(m) == Some(raw@),
{
    mail_parser::MessageParser::default().parse(raw)
}

/// Calls `mail_parser::Message::from` and takes the name and the address of each sender.
#[verifier::external_body]
fn read_from(m: &mail_parser::Message<'_>) -> (r: Option<Vec<MailAddr>>)
    requires
        message_source(*m) is Some,
    ensures
        opt_addrs(r) == mail_from(message_source(*m)->Some_0),
{
    let list = m.from()?.iter();
    Some(
        list.map(
            |a| MailAddr {
                name: a.name().map(str::to_string),
                address: a.address().map(str::to_string),
            },
        ).collect(),
    )
}

/// Calls `mail_parser::Message::to` and takes the name and the address of each recipient.
#[verifier::external_body]
fn read_to(m: &mail_parser::Message<'_>) -> (r: Option<Vec<MailAddr>>)
    requires
        message_source(*m) is Some,
    ensures
        opt_addrs(r) == mail_to(message_source(*m)->Some_0),
{
    let list = m.to()?.iter();
    Some(
        list.map(
            |a| MailAddr {
                name: a.name().map(str::to_string),
                address: a.address().map(str::to_string),
            },
        ).collect(),
    )
}

/// Calls `mail_parser::Message::subject`.
#[verifier::external_body]
fn read_subject(m: &mail_parser::Message<'_>) -> (r: Option<String>)
    requires
        message_source(*m) is Some,
    ensures
        opt_view(r) == mail_subject(message_source(*m)->Some_0),
{
    m.subject().map(str::to_string)
}

/// Counts the `parts` of a `mail_parser::Message`.
#[verifier::external_body]
fn count_parts(m: &mail_parser::Message<'_>) -> (r: usize)
    requires
        message_source(*m) is Some,
    ensures
        r == part_count(message_source(*m)->Some_0),
{
    m.parts.len()
}

/// Calls `mail_parser::MessagePart::is_text` of a part.
#[verifier::external_body]
fn read_is_text(m: &mail_parser::Message<'_>, i: usize) -> (r: bool)
    requires
        message_source(*m) is Some,
        i < part_count(message_source(*m)->Some_0),
    ensures
        r == part_is_text(message_source(*m)->Some_0, i as int),
{
    m.parts[i].is_text()
}

/// Calls `mail_parser::MimeHeaders::content_disposition` of a part and takes the name and
/// the value of each of its `attributes`.
#[verifier::external_body]
fn read_disposition(m: &mail_parser::Message<'_>, i: usize) -> (r: Option<Vec<Param>>)
    requires
        message_source(*m) is Some,
        i < part_count(message_source(*m)->Some_0),
    ensures
        opt_params(r) == part_disposition(message_source(*m)->Some_0, i as int),
{
    let list = m.parts[i].content_disposition()?.attributes()?.iter();
    Some(
        list.map(
            |a| Param { name: a.name.to_string(), value: a.value.to_string() },
        ).collect(),
    )
}

/// Calls `mail_parser::MimeHeaders::content_type` of a part and takes the name and the
/// value of each of its `attributes`.
#[verifier::external_body]
fn read_type(m: &mail_parser::Message<'_>, i: usize) -> (r: Option<Vec<Param>>)
    requires
        message_source(*m) is Some,
        i < part_count(message_source(*m)->Some_0),
    ensures
        opt_params(r) == part_type(message_source(*m)->Some_0, i as int),
{
    let list = m.parts[i].content_type()?.attributes()?.iter();
    Some(
        list.map(
            |a| Param { name: a.name.to_string(), value: a.value.to_string() },
        ).collect(),
    )
}

/// Takes the bytes of the `body` of a part, if it is binary or inline binary.
#[verifier::external_body]
fn read_bytes(m: &mail_parser::Message<'_>, i: usize) -> (r: Option<Vec<u8>>)
    requires
        message_source(*m) is Some,
        i < part_count(message_source(*m)->Some_0),
    ensures
        opt_bytes(r) == part_bytes(message_source(*m)->Some_0, i as int),
{
    match &m.parts[i].body {
        mail_parser::PartType::Binary(b) => Some(b.to_vec()),
        mail_parser::PartType::InlineBinary(b) => Some(b.to_vec()),
        _ => None,
    }
}

/// Bytes, if there are any.
pub open spec fn opt_bytes(b: Option<Vec<u8>>) -> Option<Seq<u8>> {
    match b {
        Some(b) => Some(b@),
        None => None,
    }
}

/// A part of a message.
pub struct MailPart {
    /// Whether it is a text.
    pub is_text: bool,
    /// The parameters of its disposition.
    pub disposition: Option<Vec<Param>>,
    /// The parameters of its content type.
    pub content_type: Option<Vec<Param>>,
    /// Its contents, if it is neither a text nor made of other parts.
    pub bytes: Option<Vec<u8>>,
}

/// A part of a message.
#[verifier::ext_equal]
pub struct PartView {
    pub is_text: bool,
    pub disposition: Option<Seq<ParamView>>,
    pub content_type: Option<Seq<ParamView>>,
    pub bytes: Option<Seq<u8>>,
}

impl View for MailPart {
    type V = PartView;

    open spec fn view(&self) -> PartView {
        PartView {
            is_text: self.is_text,
            disposition: opt_params(self.disposition),
            content_type: opt_params(self.content_type),
            bytes: opt_bytes(self.bytes),
        }
    }
}

/// The parts of a message.
pub open spec fn part_views(parts: Seq<MailPart>) -> Seq<PartView> {
    parts.map_values(|p: MailPart| p@)
}

/// A message.
pub struct MailMessage {
    /// Its senders.
    pub from: Option<Vec<MailAddr>>,
    /// Its recipients.
    pub to: Option<Vec<MailAddr>>,
    /// Its subject.
    pub subject: Option<String>,
    /// Its parts.
    pub parts: Vec<MailPart>,
}

/// A message.
#[verifier::ext_equal]
pub struct MessageView {
    pub from: Option<Seq<AddrView>>,
    pub to: Option<Seq<AddrView>>,
    pub subject: Option<Seq<char>>,
    pub parts: Seq<PartView>,
}

impl View for MailMessage {
    type V = MessageView;

    open spec fn view(&self) -> MessageView {
        MessageView {
            from: opt_addrs(self.from),
            to: opt_addrs(self.to),
            subject: opt_view(self.subject),
            parts: part_views(self.parts@),
        }
    }
}

/// A part of the message that bytes are read as.
pub open spec fn part_of(raw: Seq<u8>, i: int) -> PartView {
    PartView {
        is_text: part_is_text(raw, i),
        disposition: part_disposition(raw, i),
        content_type: part_type(raw, i),
        bytes: part_bytes(raw, i),
    }
}

/// The message that bytes are read as.
pub open spec fn message_of(raw: Seq<u8>) -> MessageView {
    MessageView {
        from: mail_from(raw),
        to: mail_to(raw),
        subject: mail_subject(raw),
        parts: Seq::new(part_count(raw), |i: int| part_of(raw, i)),
    }
}

/// The message that bytes are read as, if they are one.
pub fn read_message(raw: &[u8]) -> (r: Option<MailMessage>)
    ensures
        match r {
            Some(m) => is_message(raw@) && m@ == message_of(raw@),
            None => !is_message(raw@),
        },
{
    let m = match parse_message(raw) {
        Some(m) => m,
        None => {
            return None;
        },
    };
    let n = count_parts(&m);
    let mut parts: Vec<MailPart> = Vec::new();
    let ghost wanted = message_of(raw@).parts;
    let mut i: usize = 0;
    while i < n
        invariant
            i <= n,
            n == part_count(raw@),
            message_source(m) == Some(raw@),
            wanted == message_of(raw@).parts,
            part_views(parts@) == wanted.take(i as int),
        decreases n - i,
    {
        let part = MailPart {
            is_text: read_is_text(&m, i),
            disposition: read_disposition(&m, i),
            content_type: read_type(&m, i),
            bytes: read_bytes(&m, i),
        };
        let ghost before = parts@;
        parts.push(part);
        proof {
            assert(part@ =~= part_of(raw@, i as int));
            assert(part_views(parts@) =~= part_views(before).push(wanted[i as int]));
            assert(wanted.take(i + 1) =~= wanted.take(i as int).push(wanted[i as int]));
        }
        i += 1;
    }
    proof {
        assert(wanted.take(i as int) =~= wanted);
    }
    Some(
        MailMessage {
            from: read_from(&m),
            to: read_to(&m),
            subject: read_subject(&m),
            parts,
        },
    )
}

} // verus!
