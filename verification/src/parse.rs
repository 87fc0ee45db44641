//! The reading of a message: who sent it, whether it is handled, and what is attached.
use crate::fields::{FieldView, HeaderFields, MacroFields};
use crate::filename::{attachment_name, name_of};
use crate::mail::{
    addr_views, is_message, message_of, opt_addrs, part_views, read_message, AddrView, MailAddr,
    MailMessage, MailPart, MessageView, PartView,
};
use crate::text::{
    find_char, from_chars, opt_view, position, replace, replace_text, same_text, starts_with,
    str_views, to_chars, trim, trim_chars,
};
use vstd::prelude::*;
use vstd::slice::slice_subrange;
use vstd::utf8::encode_utf8;

verus! {

/// Whether a character cannot be seen or changes the direction of the text: a control
/// character other than a line end or a tab, a space of no or of special width, a
/// combining mark, or a sign that only steers how others are shown.
pub open spec fn is_hidden(c: char) -> bool {
    let u = c as u32;
    ||| (u <= 0x1F || 0x7F <= u <= 0x9F) && u != 0x09 && u != 0x0A && u != 0x0D
    ||| u == 0xFEFF
    ||| 0x200B <= u <= 0x200F
    ||| 0x202A <= u <= 0x202E
    ||| 0x2060 <= u <= 0x206F
    ||| 0x0300 <= u <= 0x036F
    ||| 0x2000 <= u <= 0x200A
    ||| u == 0x202F
    ||| u == 0x00A0
    ||| 0xFE00 <= u <= 0xFE0F
    ||| u == 0x180E
    ||| u == 0x00AD
    ||| u == 0x034F
}

/// Whether a character cannot be seen or changes the direction of the text.
pub fn is_invisible_or_bidi(c: char) -> (r: bool)
    ensures
        r == is_hidden(c),
{
    let u = c as u32;
    (u <= 0x1F || 0x7F <= u && u <= 0x9F) && u != 0x09 && u != 0x0A && u != 0x0D
        || u == 0xFEFF
        || 0x200B <= u && u <= 0x200F
        || 0x202A <= u && u <= 0x202E
        || 0x2060 <= u && u <= 0x206F
        || 0x0300 <= u && u <= 0x036F
        || 0x2000 <= u && u <= 0x200A
        || u == 0x202F
        || u == 0x00A0
        || 0xFE00 <= u && u <= 0xFE0F
        || u == 0x180E
        || u == 0x00AD
        || u == 0x034F
}

/// A text without its hidden characters.
pub open spec fn visible(s: Seq<char>) -> Seq<char> {
    s.filter(|c: char| !is_hidden(c))
}

/// A text without its hidden characters.
pub fn remove_invisible_and_bidi_chars(s: &str) -> (r: String)
    ensures
        r@ == visible(s@),
{
    let mut out = String::new();
    let ghost seen = |c: char| !is_hidden(c);
    proof {
        assert(s@.take(0) =~= Seq::<char>::empty());
        reveal(Seq::filter);
        assert(out@ =~= s@.take(0).filter(seen));
    }
    for c in it: s.chars()
        invariant
            it.seq() == s@,
            seen == (|c: char| !is_hidden(c)),
            out@ == s@.take(it.index() as int).filter(seen),
    {
        proof {
            let head = s@.take(it.index() as int);
            assert(s@.take(it.index() + 1) =~= head.push(c));
            head.lemma_filter_push(c, seen);
        }
        if !is_invisible_or_bidi(c) {
            out.push(c);
        }
    }
    proof {
        assert(s@.take(s@.len() as int) =~= s@);
    }
    out
}

/// Nothing hidden is left in a text once its hidden characters are gone, and to remove
/// them once more changes nothing.
pub proof fn law_nothing_hidden_is_left(s: Seq<char>)
    ensures
        forall|i: int| 0 <= i < visible(s).len() ==> !is_hidden(#[trigger] visible(s)[i]),
        visible(visible(s)) == visible(s),
    decreases s.len(),
{
    let seen = |c: char| !is_hidden(c);
    reveal(Seq::filter);
    if s.len() > 0 {
        let head = s.drop_last();
        law_nothing_hidden_is_left(head);
        assert(s =~= head.push(s.last()));
        head.lemma_filter_push(s.last(), seen);
        if seen(s.last()) {
            visible(head).lemma_filter_push(s.last(), seen);
        }
    }
}

/// A text with every line ended by a carriage return and a line feed.
pub open spec fn with_crlf(s: Seq<char>) -> Seq<char> {
    replace(replace(s, "\r\n"@, "\n"@), "\n"@, "\r\n"@)
}

/// The fields of a header with one name.
pub open spec fn field_lines(name: Seq<char>, values: Seq<Seq<char>>) -> Seq<char>
    decreases values.len(),
{
    if values.len() == 0 {
        seq![]
    } else {
        field_lines(name, values.drop_last()) + (name + ": "@ + values.last() + "\r\n"@)
    }
}

/// The fields of a header.
pub open spec fn header_lines(fields: Seq<FieldView>) -> Seq<char>
    decreases fields.len(),
{
    if fields.len() == 0 {
        seq![]
    } else {
        header_lines(fields.drop_last()) + field_lines(fields.last().0, fields.last().1)
    }
}

/// The text of a message: its header, an empty line and its body.
pub open spec fn mail_text(fields: Seq<FieldView>, body: Seq<char>) -> Seq<char> {
    header_lines(fields) + "\r\n"@ + with_crlf(body)
}

/// The text of a message.
pub fn compose_mail(fields: &HeaderFields, body: &str) -> (r: String)
    ensures
        r@ == mail_text(fields@, body@),
{
    let mut out = String::new();
    let ghost all = fields@;
    let n = fields.len();
    let mut i: usize = 0;
    proof {
        assert(all.take(0) =~= Seq::<FieldView>::empty());
        assert(out@ =~= header_lines(all.take(0)));
    }
    while i < n
        invariant
            i <= n,
            n == fields@.len(),
            all == fields@,
            out@ == header_lines(all.take(i as int)),
        decreases n - i,
    {
        let name = fields.name(i);
        let values = fields.values(i);
        let ghost before = out@;
        let ghost vs = str_views(values@);
        let mut j: usize = 0;
        proof {
            assert(vs.take(0) =~= Seq::<Seq<char>>::empty());
            assert(out@ =~= before + field_lines(name@, vs.take(0)));
        }
        while j < values.len()
            invariant
                j <= values@.len(),
                vs == str_views(values@),
                out@ == before + field_lines(name@, vs.take(j as int)),
            decreases values@.len() - j,
        {
            out.push_str(name.as_str());
            out.push_str(": ");
            out.push_str(values[j].as_str());
            out.push_str("\r\n");
            proof {
                assert(vs.take(j + 1).drop_last() =~= vs.take(j as int));
                assert(vs.take(j + 1).last() == values@[j as int]@);
                assert(out@ =~= before + field_lines(name@, vs.take(j + 1)));
            }
            j += 1;
        }
        proof {
            assert(vs.take(j as int) =~= vs);
            assert(all.take(i + 1).drop_last() =~= all.take(i as int));
            assert(all.take(i + 1).last() == (name@, vs));
        }
        i += 1;
    }
    proof {
        assert(all.take(i as int) =~= all);
    }
    out.push_str("\r\n");
    let lf = replace_text(body, "\r\n", "\n");
    let crlf = replace_text(lf.as_str(), "\n", "\r\n");
    out.push_str(crlf.as_str());
    out
}

proof fn lemma_crlf_undone(s: Seq<char>)
    ensures
        replace(replace(s, "\n"@, "\r\n"@), "\r\n"@, "\n"@) == s,
        s.len() > 0 && s[0] != '\n' ==> replace(s, "\n"@, "\r\n"@)[0] == s[0],
        replace(s, "\n"@, "\r\n"@).len() > 0 ==> replace(s, "\n"@, "\r\n"@)[0] != '\n',
        replace(s, "\n"@, "\r\n"@).len() >= s.len(),
    decreases s.len(),
{
    reveal_strlit("\n");
    reveal_strlit("\r\n");
    let lf = "\n"@;
    let crlf = "\r\n"@;
    assert(lf.len() == 1 && lf[0] == '\n');
    assert(crlf.len() == 2 && crlf[0] == '\r' && crlf[1] == '\n');
    let t = replace(s, lf, crlf);
    if s.len() > 0 {
        let rest = s.skip(1);
        lemma_crlf_undone(rest);
        let u = replace(rest, lf, crlf);
        assert(s.take(1) =~= seq![s[0]]);
        if s[0] == '\n' {
            assert(s.take(1) =~= lf);
            assert(t =~= crlf + u);
            assert(t.take(2) =~= crlf);
            assert(t.skip(2) =~= u);
            assert(replace(t, crlf, lf) =~= lf + rest);
            assert(lf + rest =~= s);
        } else {
            assert(s.take(1) != lf);
            assert(t =~= seq![s[0]] + u);
            assert(t.skip(1) =~= u);
            if t.len() >= 2 {
                assert(t.take(2) != crlf) by {
                    assert(t.take(2)[1] == u[0]);
                }
                assert(replace(t, crlf, lf) =~= seq![s[0]] + rest);
            } else {
                assert(u.len() == 0 && rest.len() == 0);
                assert(t =~= s);
            }
            assert(seq![s[0]] + rest =~= s);
        }
    }
}

/// A text whose lines end by a carriage return and a line feed stays as it is.
pub proof fn law_line_ends_are_stable(s: Seq<char>)
    ensures
        with_crlf(with_crlf(s)) == with_crlf(s),
{
    lemma_crlf_undone(replace(s, "\r\n"@, "\n"@));
}

/// Whether what is said of the mail client can be read: no bracket closes before one
/// opens.
pub open spec fn is_client_readable(client: Seq<char>) -> bool {
    let start = position(client, '[');
    let end = position(client, ']');
    !(start < client.len() && end < start)
}

/// The host and the address of the mail client: what stands before the brackets, and
/// what stands in them.
pub open spec fn client_parts(client: Option<Seq<char>>) -> (Seq<char>, Seq<char>) {
    match client {
        Some(client) => {
            let start = position(client, '[') as int;
            let end = position(client, ']') as int;
            let host = if start < client.len() {
                trim(client.take(start))
            } else {
                "unknown"@
            };
            let ip = if start < client.len() && end < client.len() {
                client.subrange(start + 1, end)
            } else {
                "unknown"@
            };
            (host, ip)
        },
        None => ("unknown"@, "unknown"@),
    }
}

/// The host and the address of the mail client, or nothing if they cannot be read.
pub fn remote_client(client: Option<&String>) -> (r: Option<(String, String)>)
    ensures
        match r {
            Some((host, ip)) => (host@, ip@) == client_parts(
                match client {
                    Some(c) => Some(c@),
                    None => None,
                },
            ) && (client matches Some(c) ==> is_client_readable(c@)),
            None => client is Some && !is_client_readable(client->Some_0@),
        },
{
    let chars = match client {
        Some(c) => to_chars(c.as_str()),
        None => {
            return Some(("unknown".to_owned(), "unknown".to_owned()));
        },
    };
    let start = match find_char(chars.as_slice(), '[') {
        Some(start) => start,
        None => {
            return Some(("unknown".to_owned(), "unknown".to_owned()));
        },
    };
    let head = slice_subrange(chars.as_slice(), 0, start);
    proof {
        assert(head@ =~= chars@.take(start as int));
    }
    let host = from_chars(trim_chars(head));
    let ip = match find_char(chars.as_slice(), ']') {
        Some(end) => {
            if end < start {
                return None;
            }
            proof {
                crate::text::lemma_position(chars@, '[');
                crate::text::lemma_position(chars@, ']');
            }
            from_chars(slice_subrange(chars.as_slice(), start + 1, end))
        },
        None => {
            proof {
                crate::text::lemma_position(chars@, ']');
            }
            "unknown".to_owned()
        },
    };
    Some((host, ip))
}

/// Whether an address is that of this host itself.
pub open spec fn is_loopback(ip: Seq<char>) -> bool {
    ip == "127.0.0.1"@ || ip == "::1"@ || starts_with(ip, "::ffff:127."@)
}

/// Whether messages from an address are handled: those of other hosts, those of this
/// host where the target is one, and all of them where it is two.
pub open spec fn is_target(remote_ip_target: u8, ip: Seq<char>) -> bool {
    if remote_ip_target == 1 {
        is_loopback(ip)
    } else if remote_ip_target == 2 {
        true
    } else {
        !is_loopback(ip)
    }
}

/// Whether messages from an address are handled.
pub fn accepts_client(remote_ip_target: u8, ip: &str) -> (r: bool)
    ensures
        r == is_target(remote_ip_target, ip@),
{
    let chars = to_chars(ip);
    let loopback = same_text(ip, "127.0.0.1") || same_text(ip, "::1")
        || crate::text::chars_start_with(chars.as_slice(), "::ffff:127.");
    if remote_ip_target == 1 {
        loopback
    } else if remote_ip_target == 2 {
        true
    } else {
        !loopback
    }
}

/// Every message is handled under exactly one of the targets for other hosts and for this
/// host, and under the target for all.
pub proof fn law_targets_divide_the_clients(ip: Seq<char>)
    ensures
        is_target(0, ip) != is_target(1, ip),
        is_target(2, ip),
{
}

/// An address as it is shown: with the name of its owner, if there is one.
pub open spec fn address_text(a: AddrView) -> Seq<char> {
    let name = match a.0 {
        Some(name) => name,
        None => seq![],
    };
    let address = match a.1 {
        Some(address) => address,
        None => seq![],
    };
    if name.len() > 0 {
        name + " <"@ + address + ">"@
    } else {
        address
    }
}

/// Addresses as they are shown, with commas between them.
pub open spec fn addresses_text(list: Seq<AddrView>) -> Seq<char>
    decreases list.len(),
{
    if list.len() == 0 {
        seq![]
    } else if list.len() == 1 {
        address_text(list[0])
    } else {
        addresses_text(list.drop_last()) + ", "@ + address_text(list.last())
    }
}

/// Addresses as they are shown, or that there are none.
pub open spec fn shown_addresses(list: Option<Seq<AddrView>>) -> Seq<char> {
    match list {
        Some(list) => addresses_text(list),
        None => "(なし)"@,
    }
}

/// An address as it is shown.
fn show_address(a: &MailAddr) -> (r: String)
    ensures
        r@ == address_text((opt_view(a.name), opt_view(a.address))),
{
    let address = match &a.address {
        Some(address) => address.as_str(),
        None => "",
    };
    proof {
        reveal_strlit("");
        assert(""@ =~= Seq::<char>::empty());
    }
    if let Some(name) = &a.name {
        if to_chars(name.as_str()).len() > 0 {
            let mut out = name.as_str().to_owned();
            out.push_str(" <");
            out.push_str(address);
            out.push_str(">");
            return out;
        }
    }
    address.to_owned()
}

/// Addresses as they are shown, or that there are none.
pub fn show_addresses(list: &Option<Vec<MailAddr>>) -> (r: String)
    ensures
        r@ == shown_addresses(opt_addrs(*list)),
{
    let list = match list {
        Some(list) => list,
        None => {
            return "(なし)".to_owned();
        },
    };
    let ghost all = addr_views(list@);
    let mut out = String::new();
    let mut i: usize = 0;
    proof {
        assert(all.take(0) =~= Seq::<AddrView>::empty());
        assert(out@ =~= addresses_text(all.take(0)));
    }
    while i < list.len()
        invariant
            i <= list@.len(),
            all == addr_views(list@),
            out@ == addresses_text(all.take(i as int)),
        decreases list@.len() - i,
    {
        let ghost before = out@;
        if i > 0 {
            out.push_str(", ");
        }
        let shown = show_address(&list[i]);
        out.push_str(shown.as_str());
        proof {
            let next = all.take(i + 1);
            assert(next.drop_last() =~= all.take(i as int));
            assert(next.last() == all[i as int]);
            if i == 0 {
                assert(next[0] == all[0]);
                assert(out@ =~= address_text(all[0]));
            }
        }
        i += 1;
    }
    proof {
        assert(all.take(i as int) =~= all);
    }
    out
}

/// A file that is attached to a message.
pub struct Attachment {
    /// Its name.
    pub name: String,
    /// Its contents.
    pub data: Vec<u8>,
}

/// The name and the contents of an attachment.
pub type AttachmentView = (Seq<char>, Seq<u8>);

/// The names and the contents of attachments.
pub open spec fn attachment_views(list: Seq<Attachment>) -> Seq<AttachmentView> {
    list.map_values(|a: Attachment| (a.name@, a.data@))
}

/// What is attached to a message: the parts that are neither texts nor made of other
/// parts, in order, or nothing if the name of a part that is no text is too long to be read.
pub open spec fn attached(parts: Seq<PartView>) -> Option<Seq<AttachmentView>>
    decreases parts.len(),
{
    if parts.len() == 0 {
        Some(seq![])
    } else {
        let part = parts.last();
        match attached(parts.drop_last()) {
            Some(earlier) => if part.is_text {
                Some(earlier)
            } else {
                match (name_of(part.disposition, part.content_type), part.bytes) {
                    (Some(name), Some(bytes)) => Some(earlier.push((name, bytes))),
                    (Some(_), None) => Some(earlier),
                    (None, _) => None,
                }
            },
            None => None,
        }
    }
}

/// If the names of the first parts cannot all be read, those of all parts cannot.
proof fn lemma_unreadable_stays(parts: Seq<PartView>, n: int)
    requires
        0 <= n <= parts.len(),
        attached(parts.take(n)) is None,
    ensures
        attached(parts) is None,
    decreases parts.len() - n,
{
    if n < parts.len() {
        assert(parts.take(n + 1).drop_last() =~= parts.take(n));
        lemma_unreadable_stays(parts, n + 1);
    } else {
        assert(parts.take(n) =~= parts);
    }
}

/// The parts of a message that hold a file: those that are no text and have contents.
pub open spec fn file_parts(parts: Seq<PartView>) -> Seq<PartView> {
    parts.filter(|p: PartView| !p.is_text && p.bytes is Some)
}

/// The contents of attachments.
pub open spec fn contents_of(list: Seq<AttachmentView>) -> Seq<Seq<u8>> {
    list.map_values(|a: AttachmentView| a.1)
}

/// The contents of parts.
pub open spec fn part_contents(parts: Seq<PartView>) -> Seq<Seq<u8>> {
    parts.map_values(|p: PartView| p.bytes->Some_0)
}

/// Nothing of an attached file is lost, added or taken from another part: the attachments
/// are the parts that are no text and have contents, one for each, in their order, each with
/// all the bytes of its part and under the name that the header of its part gives. All of
/// them are found, if the names of all parts that are no text can be read.
pub proof fn law_attachments_are_whole(parts: Seq<PartView>)
    ensures
        attached(parts) is None <==> exists|i: int|
            0 <= i < parts.len() && !(#[trigger] parts[i]).is_text && name_of(
                parts[i].disposition,
                parts[i].content_type,
            ) is None,
        attached(parts) matches Some(list) ==> {
            &&& contents_of(list) == part_contents(file_parts(parts))
            &&& list.len() == file_parts(parts).len()
            &&& forall|i: int|
                0 <= i < list.len() ==> Some((#[trigger] list[i]).0) == name_of(
                    file_parts(parts)[i].disposition,
                    file_parts(parts)[i].content_type,
                )
        },
    decreases parts.len(),
{
    let is_file = |p: PartView| !p.is_text && p.bytes is Some;
    reveal(Seq::filter);
    if parts.len() == 0 {
        assert(contents_of(seq![]) =~= part_contents(file_parts(parts)));
    } else {
        let head = parts.drop_last();
        let part = parts.last();
        law_attachments_are_whole(head);
        assert(parts =~= head.push(part));
        head.lemma_filter_push(part, is_file);
        if attached(head) is None {
            let i = choose|i: int|
                0 <= i < head.len() && !(#[trigger] head[i]).is_text && name_of(
                    head[i].disposition,
                    head[i].content_type,
                ) is None;
            assert(parts[i] == head[i]);
        } else if !part.is_text && name_of(part.disposition, part.content_type) is None {
            assert(parts[parts.len() - 1] == part);
        } else {
            assert forall|i: int| 0 <= i < parts.len() && !(#[trigger] parts[i]).is_text implies name_of(
                parts[i].disposition,
                parts[i].content_type,
            ) is Some by {
                if i < head.len() {
                    assert(parts[i] == head[i]);
                }
            }
            let list = attached(parts)->Some_0;
            let earlier = attached(head)->Some_0;
            let files = file_parts(parts);
            if is_file(part) {
                assert(files == file_parts(head).push(part));
                assert(contents_of(list) =~= contents_of(earlier).push(part.bytes->Some_0));
                assert(part_contents(files) =~= part_contents(file_parts(head)).push(
                    part.bytes->Some_0,
                ));
                assert forall|i: int| 0 <= i < list.len() implies Some((#[trigger] list[i]).0)
                    == name_of(files[i].disposition, files[i].content_type) by {
                    if i < earlier.len() {
                        assert(list[i] == earlier[i]);
                        assert(files[i] == file_parts(head)[i]);
                    }
                }
            }
        }
    }
}

/// What is attached to a message, or nothing if a name cannot be read.
pub fn list_attachments(parts: &Vec<MailPart>) -> (r: Option<Vec<Attachment>>)
    ensures
        match r {
            Some(list) => attached(part_views(parts@)) == Some(attachment_views(list@)),
            None => attached(part_views(parts@)) is None,
        },
        r matches Some(list) ==> contents_of(attachment_views(list@)) == part_contents(
            file_parts(part_views(parts@)),
        ),
{
    let ghost all = part_views(parts@);
    let mut out: Vec<Attachment> = Vec::new();
    let mut i: usize = 0;
    proof {
        assert(all.take(0) =~= Seq::<PartView>::empty());
        assert(attachment_views(out@) =~= Seq::<AttachmentView>::empty());
    }
    while i < parts.len()
        invariant
            i <= parts@.len(),
            all == part_views(parts@),
            attached(all.take(i as int)) == Some(attachment_views(out@)),
        decreases parts@.len() - i,
    {
        let part = &parts[i];
        let ghost before = out@;
        proof {
            assert(all[i as int] == part@);
            assert(all.take(i + 1).drop_last() =~= all.take(i as int));
            assert(all.take(i + 1).last() == part@);
        }
        if !part.is_text {
            match attachment_name(&part.disposition, &part.content_type) {
                None => {
                    proof {
                        lemma_unreadable_stays(all, i + 1);
                    }
                    return None;
                },
                Some(name) => {
                    if let Some(bytes) = &part.bytes {
                        let data = vstd::slice::slice_to_vec(bytes.as_slice());
                        out.push(Attachment { name, data });
                        proof {
                            assert(attachment_views(out@) =~= attachment_views(before).push(
                                (name@, bytes@),
                            ));
                        }
                    }
                },
            }
        }
        i += 1;
    }
    proof {
        assert(all.take(i as int) =~= all);
        law_attachments_are_whole(all);
    }
    Some(out)
}

/// A message that is handled.
pub struct HandledMail {
    /// The host of the mail client.
    pub remote_host: String,
    /// The address of the mail client.
    pub remote_ip: String,
    /// The senders, as they are shown, without hidden characters.
    pub from: String,
    /// The recipients, as they are shown.
    pub to: String,
    /// The subject, without hidden characters.
    pub subject: String,
    /// The queue id of the message, if it is known.
    pub original_queue_id: Option<String>,
    /// What is attached.
    pub attachments: Vec<Attachment>,
}

/// A message that is handled.
#[verifier::ext_equal]
pub struct HandledView {
    pub remote_host: Seq<char>,
    pub remote_ip: Seq<char>,
    pub from: Seq<char>,
    pub to: Seq<char>,
    pub subject: Seq<char>,
    pub original_queue_id: Option<Seq<char>>,
    pub attachments: Seq<AttachmentView>,
}

impl View for HandledMail {
    type V = HandledView;

    open spec fn view(&self) -> HandledView {
        HandledView {
            remote_host: self.remote_host@,
            remote_ip: self.remote_ip@,
            from: self.from@,
            to: self.to@,
            subject: self.subject@,
            original_queue_id: opt_view(self.original_queue_id),
            attachments: attachment_views(self.attachments@),
        }
    }
}

/// What becomes of a message.
pub enum Outcome {
    /// It is no message, or comes from a client whose messages are not handled.
    Ignored,
    /// What is said of its client cannot be read, or a name is too long for this machine.
    Unreadable,
    /// It is handled.
    Handled(HandledMail),
}

/// What becomes of a message.
#[verifier::ext_equal]
pub enum OutcomeView {
    Ignored,
    Unreadable,
    Handled(HandledView),
}

impl View for Outcome {
    type V = OutcomeView;

    open spec fn view(&self) -> OutcomeView {
        match self {
            Outcome::Ignored => OutcomeView::Ignored,
            Outcome::Unreadable => OutcomeView::Unreadable,
            Outcome::Handled(mail) => OutcomeView::Handled(mail@),
        }
    }
}

/// A macro of a session, if it is known.
pub open spec fn macro_value(macros: Map<Seq<char>, Seq<char>>, name: Seq<char>) -> Option<
    Seq<char>,
> {
    if macros.contains_key(name) {
        Some(macros[name])
    } else {
        None
    }
}

/// The queue id of a message, if it is known.
pub open spec fn queue_id_of(macros: Map<Seq<char>, Seq<char>>) -> Option<Seq<char>> {
    match macro_value(macros, "i"@) {
        Some(id) => Some(id),
        None => macro_value(macros, "I"@),
    }
}

/// What becomes of a message that has been read.
pub open spec fn outcome_of(
    message: MessageView,
    macros: Map<Seq<char>, Seq<char>>,
    remote_ip_target: u8,
) -> OutcomeView {
    let client = macro_value(macros, "MACRO_Space"@);
    let (host, ip) = client_parts(client);
    if client is Some && !is_client_readable(client->Some_0) {
        OutcomeView::Unreadable
    } else if !is_target(remote_ip_target, ip) {
        OutcomeView::Ignored
    } else {
        match attached(message.parts) {
            Some(attachments) => OutcomeView::Handled(
                HandledView {
                    remote_host: host,
                    remote_ip: ip,
                    from: visible(shown_addresses(message.from)),
                    to: shown_addresses(message.to),
                    subject: visible(
                        match message.subject {
                            Some(subject) => subject,
                            None => "(なし)"@,
                        },
                    ),
                    original_queue_id: queue_id_of(macros),
                    attachments: attachments,
                },
            ),
            None => OutcomeView::Unreadable,
        }
    }
}

/// A text of its own, if there is one.
fn own_text(s: Option<&String>) -> (r: Option<String>)
    ensures
        opt_view(r) == (match s {
            Some(s) => Some(s@),
            None => None,
        }),
{
    match s {
        Some(s) => Some(s.as_str().to_owned()),
        None => None,
    }
}

/// What becomes of a message that has been read.
pub fn handle_message(
    message: &MailMessage,
    macro_fields: &MacroFields,
    remote_ip_target: u8,
) -> (r: Outcome)
    ensures
        r@ == outcome_of(message@, macro_fields@, remote_ip_target),
{
    let (remote_host, remote_ip) = match remote_client(macro_fields.get("MACRO_Space")) {
        Some((host, ip)) => (host, ip),
        None => {
            return Outcome::Unreadable;
        },
    };
    if !accepts_client(remote_ip_target, remote_ip.as_str()) {
        return Outcome::Ignored;
    }
    let from = show_addresses(&message.from);
    let from = remove_invisible_and_bidi_chars(from.as_str());
    let to = show_addresses(&message.to);
    let subject = match &message.subject {
        Some(subject) => remove_invisible_and_bidi_chars(subject.as_str()),
        None => remove_invisible_and_bidi_chars("(なし)"),
    };
    let original_queue_id = match macro_fields.get("i") {
        Some(id) => own_text(Some(id)),
        None => own_text(macro_fields.get("I")),
    };
    match list_attachments(&message.parts) {
        Some(attachments) => {
            let mail = HandledMail {
                remote_host,
                remote_ip,
                from,
                to,
                subject,
                original_queue_id,
                attachments,
            };
            Outcome::Handled(mail)
        },
        None => Outcome::Unreadable,
    }
}

/// What becomes of a message, by its header fields, its body and the macros of its
/// session.
pub fn parse_mail(
    header_fields: &HeaderFields,
    body_field: &str,
    macro_fields: &MacroFields,
    remote_ip_target: u8,
) -> (r: Outcome)
    ensures
        r@ == (if is_message(encode_utf8(mail_text(header_fields@, body_field@))) {
            outcome_of(
                message_of(encode_utf8(mail_text(header_fields@, body_field@))),
                macro_fields@,
                remote_ip_target,
            )
        } else {
            OutcomeView::Ignored
        }),
{
    let text = compose_mail(header_fields, body_field);
    match read_message(text.as_str().as_bytes()) {
        Some(message) => handle_message(&message, macro_fields, remote_ip_target),
        None => Outcome::Ignored,
    }
}

/// Steering characters, spaces of no width, combining marks and control characters are
/// hidden; letters, digits, signs and spaces as they are typed, tabs and line ends are not.
pub proof fn law_what_is_hidden(c: char)
    ensures
        ' ' <= c <= '~' ==> !is_hidden(c),
        c == '\t' || c == '\n' || c == '\r' ==> !is_hidden(c),
        0x3040 <= c as u32 <= 0x30FF || 0x4E00 <= c as u32 <= 0x9FFF ==> !is_hidden(c),
        c as u32 == 0x200B || c as u32 == 0x200C || c as u32 == 0x200D || c as u32 == 0xFEFF
            || c as u32 == 0x2060 ==> is_hidden(c),
        c as u32 == 0x200E || c as u32 == 0x200F || 0x202A <= c as u32 <= 0x202E || 0x2066
            <= c as u32 <= 0x2069 ==> is_hidden(c),
        0x0300 <= c as u32 <= 0x036F || 0xFE00 <= c as u32 <= 0xFE0F ==> is_hidden(c),
        c as u32 == 0xA0 || c as u32 == 0xAD || c as u32 == 0x180E || 0x2000 <= c as u32 <= 0x200A
            || c as u32 == 0x202F ==> is_hidden(c),
        c as u32 == 0 || c as u32 == 0x1B || c as u32 == 0x7F || 0x80 <= c as u32 <= 0x9F
            ==> is_hidden(c),
{
}

/// A text without hidden characters is kept as it is, and of two texts one behind the other
/// each loses its own hidden characters.
pub proof fn law_visible_text_is_kept(a: Seq<char>, b: Seq<char>)
    ensures
        visible(a + b) == visible(a) + visible(b),
        (forall|i: int| 0 <= i < a.len() ==> !is_hidden(#[trigger] a[i])) ==> visible(a) == a,
    decreases a.len(),
{
    let seen = |c: char| !is_hidden(c);
    Seq::filter_distributes_over_add(a, b, seen);
    reveal(Seq::filter);
    if a.len() > 0 {
        let head = a.drop_last();
        law_visible_text_is_kept(head, b);
        assert(a =~= head.push(a.last()));
        head.lemma_filter_push(a.last(), seen);
        if forall|i: int| 0 <= i < a.len() ==> !is_hidden(#[trigger] a[i]) {
            assert forall|i: int| 0 <= i < head.len() implies !is_hidden(#[trigger] head[i]) by {
                assert(head[i] == a[i]);
            }
            assert(seen(a[a.len() - 1]));
        }
    }
}

proof fn lemma_lf_after_cr(s: Seq<char>)
    ensures
        forall|i: int|
            0 <= i < replace(s, "\n"@, "\r\n"@).len() && #[trigger] replace(
                s,
                "\n"@,
                "\r\n"@,
            )[i] == '\n' ==> i > 0 && replace(s, "\n"@, "\r\n"@)[i - 1] == '\r',
    decreases s.len(),
{
    reveal_strlit("\n");
    reveal_strlit("\r\n");
    let lf = "\n"@;
    let crlf = "\r\n"@;
    let t = replace(s, lf, crlf);
    if s.len() > 0 {
        let rest = s.skip(1);
        let u = replace(rest, lf, crlf);
        lemma_lf_after_cr(rest);
        let head = if s[0] == '\n' {
            crlf
        } else {
            seq![s[0]]
        };
        assert(lf.len() == 1 && lf[0] == '\n');
        if s[0] == '\n' {
            assert(s.take(1) =~= lf);
        } else {
            assert(s.take(1)[0] != lf[0]);
        }
        assert(t == head + u);
        assert forall|i: int| 0 <= i < t.len() && #[trigger] t[i] == '\n' implies i > 0 && t[i - 1]
            == '\r' by {
            if i >= head.len() {
                assert(t[i] == u[i - head.len()]);
                assert(t[i - 1] == u[i - head.len() - 1]);
            }
        }
    }
}

/// No line of a message that is read ends by a line feed alone, and apart from how its lines
/// end the body is the one that was received.
pub proof fn law_body_is_kept(s: Seq<char>)
    ensures
        forall|i: int|
            0 <= i < with_crlf(s).len() && #[trigger] with_crlf(s)[i] == '\n' ==> i > 0
                && with_crlf(s)[i - 1] == '\r',
        replace(with_crlf(s), "\r\n"@, "\n"@) == replace(s, "\r\n"@, "\n"@),
{
    lemma_lf_after_cr(replace(s, "\r\n"@, "\n"@));
    lemma_crlf_undone(replace(s, "\r\n"@, "\n"@));
}

/// The header of a message that is read has a line for each value of each field, in order:
/// fields with other fields behind them give their own lines and then those of the others,
/// and a value behind others gives one more line with the name of its field.
pub proof fn law_header_has_a_line_for_each_value(
    a: Seq<FieldView>,
    b: Seq<FieldView>,
    name: Seq<char>,
    values: Seq<Seq<char>>,
    value: Seq<char>,
    body: Seq<char>,
)
    ensures
        header_lines(a + b) == header_lines(a) + header_lines(b),
        header_lines(seq![(name, values.push(value))]) == header_lines(seq![(name, values)]) + (name
            + ": "@ + value + "\r\n"@),
        header_lines(seq![(name, seq![])]) == Seq::<char>::empty(),
        mail_text(a, body) == header_lines(a) + ("\r\n"@ + with_crlf(body)),
    decreases b.len(),
{
    let one = seq![(name, values.push(value))];
    assert(one.drop_last() =~= Seq::<FieldView>::empty());
    assert(values.push(value).drop_last() =~= values);
    assert(header_lines(one.drop_last()) == Seq::<char>::empty());
    assert(header_lines(one) =~= field_lines(name, values) + (name + ": "@ + value + "\r\n"@));
    let other = seq![(name, values)];
    assert(other.drop_last() =~= Seq::<FieldView>::empty());
    assert(header_lines(other.drop_last()) == Seq::<char>::empty());
    assert(header_lines(other) =~= field_lines(name, values));
    let none: Seq<FieldView> = seq![(name, seq![])];
    assert(none.drop_last() =~= Seq::<FieldView>::empty());
    assert(header_lines(none.drop_last()) == Seq::<char>::empty());
    assert(header_lines(none) =~= Seq::<char>::empty());
    assert(mail_text(a, body) =~= header_lines(a) + ("\r\n"@ + with_crlf(body)));
    if b.len() == 0 {
        assert(a + b =~= a);
        assert(header_lines(a) + header_lines(b) =~= header_lines(a));
    } else {
        law_header_has_a_line_for_each_value(a, b.drop_last(), name, values, value, body);
        assert((a + b).drop_last() =~= a + b.drop_last());
        assert((a + b).last() == b.last());
        assert(header_lines(a + b) =~= header_lines(a) + header_lines(b));
    }
}

/// The host of a client is what stands before the brackets, without the white space around
/// it, and its address what stands in them.
pub proof fn law_client_is_read(host: Seq<char>, ip: Seq<char>, rest: Seq<char>)
    requires
        !host.contains('[') && !host.contains(']'),
        !ip.contains(']'),
    ensures
        is_client_readable(host + seq!['['] + ip + seq![']'] + rest),
        client_parts(Some(host + seq!['['] + ip + seq![']'] + rest)) == (trim(host), ip),
        !rest.contains('[') ==> is_client_readable(rest) && client_parts(Some(rest)) == (
            "unknown"@,
            "unknown"@,
        ),
        client_parts(None) == ("unknown"@, "unknown"@),
{
    let s = host + seq!['['] + ip + seq![']'] + rest;
    let n = host.len() as int;
    let e = n + 1 + ip.len();
    assert forall|j: int| 0 <= j < n implies s[j] != '[' && s[j] != ']' by {
        assert(s[j] == host[j]);
        assert(host.contains(host[j]));
    }
    assert forall|j: int| 0 <= j < e implies s[j] != ']' by {
        if j > n {
            assert(s[j] == ip[j - n - 1]);
            assert(ip.contains(ip[j - n - 1]));
        }
    }
    crate::text::lemma_position_is(s, '[', n);
    crate::text::lemma_position_is(s, ']', e);
    assert(s.take(n) =~= host);
    assert(s.subrange(n + 1, e) =~= ip);
    crate::text::lemma_position(rest, '[');
}

/// Addresses are shown one behind the other with a comma and a space between them, each with
/// the name of its owner before it where there is one.
pub proof fn law_addresses_are_shown(
    list: Seq<AddrView>,
    a: AddrView,
    name: Seq<char>,
    address: Seq<char>,
)
    ensures
        addresses_text(seq![a]) == address_text(a),
        list.len() > 0 ==> addresses_text(list.push(a)) == addresses_text(list) + ", "@
            + address_text(a),
        address_text((None, Some(address))) == address,
        name.len() > 0 ==> address_text((Some(name), Some(address))) == name + " <"@ + address
            + ">"@,
        name.len() == 0 ==> address_text((Some(name), Some(address))) == address,
        shown_addresses(Some(list)) == addresses_text(list),
        shown_addresses(None) == "(なし)"@,
{
    assert(list.push(a).drop_last() =~= list);
}

/// What becomes of a message is what the message says: its senders and its subject without
/// hidden characters, its recipients, its files, the client that sent it and its queue id. It
/// is handled if and only if its client is one whose messages are handled, can be read, and
/// the names of its files can be read.
pub proof fn law_handled_mail_is_the_message(
    message: MessageView,
    macros: Map<Seq<char>, Seq<char>>,
    remote_ip_target: u8,
)
    ensures
        ({
            let client = macro_value(macros, "MACRO_Space"@);
            let ip = client_parts(client).1;
            let outcome = outcome_of(message, macros, remote_ip_target);
            let readable = client is None || is_client_readable(client->Some_0);
            &&& outcome is Handled <==> readable && is_target(remote_ip_target, ip) && attached(
                message.parts,
            ) is Some
            &&& outcome is Ignored <==> readable && !is_target(remote_ip_target, ip)
            &&& outcome matches OutcomeView::Handled(mail) ==> {
                &&& mail.from == visible(shown_addresses(message.from))
                &&& mail.to == shown_addresses(message.to)
                &&& message.subject matches Some(subject) ==> mail.subject == visible(subject)
                &&& message.subject is None ==> mail.subject == visible("(なし)"@)
                &&& contents_of(mail.attachments) == part_contents(file_parts(message.parts))
                &&& mail.remote_ip == ip
                &&& mail.remote_host == client_parts(client).0
                &&& macros.contains_key("i"@) ==> mail.original_queue_id == Some(macros["i"@])
                &&& !macros.contains_key("i"@) && macros.contains_key("I"@)
                    ==> mail.original_queue_id == Some(macros["I"@])
                &&& !macros.contains_key("i"@) && !macros.contains_key("I"@)
                    ==> mail.original_queue_id is None
            }
        }),
{
    law_attachments_are_whole(message.parts);
}

/// Messages of this host are those from the address of the machine itself, in either version
/// of the protocol.
pub proof fn law_this_host_is_known(rest: Seq<char>)
    ensures
        is_target(1, "127.0.0.1"@) && !is_target(0, "127.0.0.1"@),
        is_target(1, "::1"@) && !is_target(0, "::1"@),
        is_target(1, "::ffff:127."@ + rest) && !is_target(0, "::ffff:127."@ + rest),
        rest.len() > 0 && rest[0] != '1' && rest[0] != ':' ==> is_target(0, rest) && !is_target(
            1,
            rest,
        ),
{
    reveal_strlit("127.0.0.1");
    reveal_strlit("::1");
    reveal_strlit("::ffff:127.");
    let p = "::ffff:127."@;
    assert((p + rest).take(p.len() as int) =~= p);
    if rest.len() >= p.len() {
        assert(rest.take(p.len() as int)[0] == rest[0]);
    }
}

} // verus!
