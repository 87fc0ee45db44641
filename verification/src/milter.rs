//! The milter protocol: what the commands of a client mean, and how it is answered.
use crate::bytes::{
    be32, byte_views, bytes_text, find_byte, from_be32, law_be32_read_back, lossy_text, push_be32,
    read_be32,
};
use crate::fields::{added, HeaderFields, MacroFields};
use crate::milter_command::{macro_label, macro_of, MilterMacro};
use crate::text::{
    find_char, from_chars, is_blank, is_space, is_space_char, law_trimmed_text_is_kept, position,
    same_text, split, to_chars, trim, trim_chars, trim_start, trim_start_chars,
};
use vstd::arithmetic::div_mod::lemma_add_mod_noop;
use vstd::prelude::*;
use vstd::slice::slice_subrange;
use vstd::utf8::encode_utf8;

verus! {

/// Code that goes on with the session.
pub const CONTINUE: u8 = 0x06;

/// Code of the options that the filter agrees to.
pub const OPTNEG: u8 = 0x4F;

/// A packet of the protocol: the length of what follows, in 32 bits, a code, and a
/// payload.
pub open spec fn packet(code: u8, payload: Seq<u8>) -> Seq<u8> {
    be32(((payload.len() + 1) % 0x1_0000_0000) as u32) + seq![code] + payload
}

/// A packet of the protocol.
pub fn make_packet(code: u8, payload: &[u8]) -> (r: Vec<u8>)
    ensures
        r@ == packet(code, payload@),
{
    let mut out: Vec<u8> = Vec::new();
    let size: u32 = ((payload.len() as u64 % 0x1_0000_0000 + 1) % 0x1_0000_0000) as u32;
    proof {
        lemma_add_mod_noop(payload@.len() as int, 1, 0x1_0000_0000);
        assert(size == ((payload@.len() + 1) % 0x1_0000_0000) as u32);
    }
    push_be32(&mut out, size);
    out.push(code);
    out.extend_from_slice(payload);
    proof {
        assert(out@ =~= packet(code, payload@));
    }
    out
}

/// A packet says how many bytes follow its length: the code and the payload, as long as
/// 32 bits can hold that number.
pub proof fn law_packet_tells_its_length(code: u8, payload: Seq<u8>)
    requires
        payload.len() < u32::MAX,
    ensures
        packet(code, payload).len() == 4 + 1 + payload.len(),
        from_be32(packet(code, payload).take(4)) == packet(code, payload).len() - 4,
        packet(code, payload)[4] == code,
        packet(code, payload).skip(5) == payload,
{
    let n = (payload.len() + 1) as u32;
    law_be32_read_back(n, be32(n));
    assert(packet(code, payload).take(4) =~= be32(n));
    assert(packet(code, payload).skip(5) =~= payload);
}

/// The protocol options that the filter agrees to: those that the client offers, but
/// for the two that would keep the body and the header fields from it.
pub open spec fn agreed_flags(offered: u32) -> u32 {
    offered & !0x30u32
}

/// The answer to the options that a client offers, if it offers them all: the same
/// version and actions, and the protocol options that the filter agrees to.
pub open spec fn optneg_answer(payload: Seq<u8>) -> Option<Seq<u8>> {
    if payload.len() >= 12 {
        Some(
            packet(
                OPTNEG,
                payload.take(8) + be32(agreed_flags(from_be32(payload.subrange(8, 12)))),
            ),
        )
    } else {
        None
    }
}

/// Answers the options that a client offers. A payload that is too short gets no
/// answer.
pub fn decode_optneg(payload: &[u8]) -> (r: Option<Vec<u8>>)
    ensures
        match r {
            Some(p) => optneg_answer(payload@) == Some(p@),
            None => optneg_answer(payload@) is None,
        },
{
    if payload.len() < 12 {
        return None;
    }
    let version = read_be32(payload, 0);
    let actions = read_be32(payload, 4);
    let flags = read_be32(payload, 8);
    let mut answer: Vec<u8> = Vec::new();
    push_be32(&mut answer, version);
    push_be32(&mut answer, actions);
    push_be32(&mut answer, flags & !0x30u32);
    proof {
        law_be32_read_back(0, payload@.subrange(0, 4));
        law_be32_read_back(0, payload@.subrange(4, 8));
        assert(answer@ =~= payload@.take(8) + be32(
            agreed_flags(from_be32(payload@.subrange(8, 12))),
        ));
    }
    Some(make_packet(OPTNEG, answer.as_slice()))
}

/// The filter never agrees to go without the body or the header fields, and agrees to
/// every other option that is offered and to none that is not.
pub proof fn law_body_and_header_are_never_given_up(offered: u32, bit: u32)
    requires
        bit < 32,
    ensures
        agreed_flags(offered) & 0x10 == 0,
        agreed_flags(offered) & 0x20 == 0,
        bit != 4 && bit != 5 ==> agreed_flags(offered) & (1u32 << bit) == offered & (1u32 << bit),
{
    assert((offered & !0x30u32) & 0x10 == 0) by (bit_vector);
    assert((offered & !0x30u32) & 0x20 == 0) by (bit_vector);
    assert(bit < 32 && bit != 4 && bit != 5 ==> (offered & !0x30u32) & (1u32 << bit) == offered & (
    1u32 << bit)) by (bit_vector);
}

/// Answers the announcement of a connection, whatever it says: the session goes on.
pub fn decode_connect(payload: &[u8]) -> (r: Vec<u8>)
    ensures
        r@ == packet(CONTINUE, seq![]),
{
    let nothing: Vec<u8> = Vec::new();
    make_packet(CONTINUE, nothing.as_slice())
}

/// Answers the name of the mail client, whatever it is: the session goes on.
pub fn decode_helo(payload: &[u8]) -> (r: Vec<u8>)
    ensures
        r@ == packet(CONTINUE, seq![]),
{
    let nothing: Vec<u8> = Vec::new();
    make_packet(CONTINUE, nothing.as_slice())
}

/// The pieces of a macro payload: what stands between its NUL bytes, but for empty
/// pieces.
pub open spec fn macro_parts(payload: Seq<u8>) -> Seq<Seq<u8>> {
    split(payload, 0u8).filter(|p: Seq<u8>| p.len() > 0)
}

/// The name under which a macro is kept: that of its byte or, for a name in braces,
/// the name with a mark that it is one.
pub open spec fn macro_name(bytes: Seq<u8>) -> Seq<char> {
    if bytes.len() > 0 && bytes[0] == 0x7Bu8 {
        let inner = bytes.skip(1);
        let end = position(inner, 0x7Du8) as int;
        let name = if end < inner.len() {
            bytes_text(inner.take(end))
        } else {
            "Unknown"@
        };
        macro_label(MilterMacro::Vender) + "("@ + name + ")"@
    } else if bytes.len() > 0 {
        macro_label(macro_of(bytes[0]))
    } else {
        macro_label(MilterMacro::Unknown(0))
    }
}

/// The macros that the pieces of a payload give, from piece `i` on: a name and its
/// value in turn.
pub open spec fn macros_from(
    parts: Seq<Seq<u8>>,
    i: int,
    known: Map<Seq<char>, Seq<char>>,
) -> Map<Seq<char>, Seq<char>>
    decreases parts.len() - i,
{
    if i + 1 < parts.len() {
        macros_from(parts, i + 2, known.insert(macro_name(parts[i]), bytes_text(parts[i + 1])))
    } else {
        known
    }
}

/// The macros after a payload. Its first byte names the command that the macros
/// belong to; the first macro has its name behind that byte.
pub open spec fn macros_after(
    payload: Seq<u8>,
    known: Map<Seq<char>, Seq<char>>,
) -> Map<Seq<char>, Seq<char>> {
    let parts = macro_parts(payload);
    if parts.len() > 1 && parts[0].len() > 1 {
        macros_from(
            parts,
            2,
            known.insert(macro_name(parts[0].skip(1)), bytes_text(parts[1])),
        )
    } else {
        macros_from(parts, 2, known)
    }
}

/// Whether a payload holds the macros of the start of a header.
pub open spec fn starts_header(payload: Seq<u8>) -> bool {
    let parts = macro_parts(payload);
    parts.len() > 0 && macro_of(parts[0][0]) == MilterMacro::Soh
}

/// The pieces of a macro payload.
fn split_macros(payload: &[u8]) -> (r: Vec<Vec<u8>>)
    ensures
        byte_views(r@) == macro_parts(payload@),
{
    let ghost named = |p: Seq<u8>| p.len() > 0;
    let mut out: Vec<Vec<u8>> = Vec::new();
    let mut a: usize = 0;
    let mut i: usize = 0;
    proof {
        assert(payload@.skip(0) =~= payload@);
        assert(byte_views(out@) + split(payload@, 0u8).filter(named) =~= macro_parts(payload@));
    }
    while i < payload.len()
        invariant
            a <= i <= payload@.len(),
            named == (|p: Seq<u8>| p.len() > 0),
            forall|j: int| a <= j < i ==> payload@[j] != 0,
            byte_views(out@) + split(payload@.skip(a as int), 0u8).filter(named) == macro_parts(
                payload@,
            ),
        decreases payload@.len() - i,
    {
        if payload[i] == 0 {
            let ghost before = out@;
            let ghost t = payload@.skip(a as int);
            let ghost piece = payload@.subrange(a as int, i as int);
            let ghost rest = split(payload@.skip(i + 1), 0u8);
            proof {
                crate::text::lemma_position_is(t, 0u8, i - a);
                assert(t.take(i - a) =~= piece);
                assert(t.skip(i - a + 1) =~= payload@.skip(i + 1));
                Seq::filter_distributes_over_add(seq![piece], rest, named);
                assert(seq![piece] =~= Seq::<Seq<u8>>::empty().push(piece));
                Seq::<Seq<u8>>::empty().lemma_filter_push(piece, named);
                reveal(Seq::filter);
                assert(Seq::<Seq<u8>>::empty().filter(named) =~= Seq::<Seq<u8>>::empty());
            }
            if i > a {
                out.push(vstd::slice::slice_to_vec(slice_subrange(payload, a, i)));
                proof {
                    assert(byte_views(out@) =~= byte_views(before).push(piece));
                    assert(byte_views(before) + (seq![piece] + rest.filter(named)) =~= byte_views(
                        out@,
                    ) + rest.filter(named));
                }
            } else {
                proof {
                    assert(Seq::<Seq<u8>>::empty() + rest.filter(named) =~= rest.filter(named));
                }
            }
            a = i + 1;
        }
        i += 1;
    }
    let ghost before = out@;
    let ghost t = payload@.skip(a as int);
    proof {
        crate::text::lemma_position_is(t, 0u8, t.len() as int);
        assert(t =~= payload@.subrange(a as int, payload@.len() as int));
        assert(seq![t] =~= Seq::<Seq<u8>>::empty().push(t));
        Seq::<Seq<u8>>::empty().lemma_filter_push(t, named);
        reveal(Seq::filter);
        assert(Seq::<Seq<u8>>::empty().filter(named) =~= Seq::<Seq<u8>>::empty());
    }
    if a < payload.len() {
        out.push(vstd::slice::slice_to_vec(slice_subrange(payload, a, payload.len())));
        proof {
            assert(byte_views(out@) =~= byte_views(before) + seq![t]);
        }
    } else {
        proof {
            assert(byte_views(out@) + Seq::<Seq<u8>>::empty() =~= byte_views(out@));
        }
    }
    out
}

/// The name under which a macro is kept.
fn name_macro(bytes: &[u8]) -> (r: String)
    ensures
        r@ == macro_name(bytes@),
{
    if bytes.len() > 0 && bytes[0] == 0x7Bu8 {
        let inner = slice_subrange(bytes, 1, bytes.len());
        proof {
            assert(inner@ =~= bytes@.skip(1));
        }
        let name = match find_byte(inner, 0x7Du8) {
            Some(end) => {
                proof {
                    assert(inner@.subrange(0, end as int) =~= inner@.take(end as int));
                }
                lossy_text(slice_subrange(inner, 0, end))
            },
            None => "Unknown".to_owned(),
        };
        let mut out = MilterMacro::Vender.as_str().to_owned();
        out.push_str("(");
        out.push_str(name.as_str());
        out.push_str(")");
        out
    } else if bytes.len() > 0 {
        MilterMacro::from_u8(bytes[0]).as_str().to_owned()
    } else {
        MilterMacro::Unknown(0).as_str().to_owned()
    }
}

/// Takes the macros of a payload over. Those of the start of a header also note that a
/// header is about to come.
pub fn decode_data_macros(
    payload: &[u8],
    is_header_block: &mut bool,
    macro_fields: &mut MacroFields,
)
    ensures
        *final(is_header_block) == (*old(is_header_block) || starts_header(payload@)),
        final(macro_fields)@ == macros_after(payload@, old(macro_fields)@),
{
    let parts = split_macros(payload);
    let ghost all = macro_parts(payload@);
    proof {
        assert(forall|i: int| 0 <= i < parts@.len() ==> #[trigger] all[i] == parts@[i]@) by {
            assert(forall|i: int|
                0 <= i < parts@.len() ==> byte_views(parts@)[i] == #[trigger] parts@[i]@);
        }
    }
    if parts.len() == 0 {
        return;
    }
    proof {
        split(payload@, 0u8).lemma_filter_pred(|p: Seq<u8>| p.len() > 0, 0);
        assert(all[0].len() > 0);
    }
    match MilterMacro::from_u8(parts[0][0]) {
        MilterMacro::Soh => {
            *is_header_block = true;
        },
        _ => {},
    }
    if parts[0].len() > 1 && parts.len() > 1 {
        let name = slice_subrange(parts[0].as_slice(), 1, parts[0].len());
        proof {
            assert(name@ =~= all[0].skip(1));
        }
        macro_fields.insert(name_macro(name), lossy_text(parts[1].as_slice()));
    }
    let n = parts.len();
    let mut i: usize = if n < 2 {
        n
    } else {
        2
    };
    while n - i >= 2
        invariant
            i <= n == parts@.len(),
            all == macro_parts(payload@),
            all.len() == parts@.len(),
            forall|k: int| 0 <= k < parts@.len() ==> #[trigger] all[k] == parts@[k]@,
            macros_from(all, i as int, macro_fields@) == macros_after(
                payload@,
                old(macro_fields)@,
            ),
        decreases parts@.len() - i,
    {
        macro_fields.insert(
            name_macro(parts[i].as_slice()),
            lossy_text(parts[i + 1].as_slice()),
        );
        i += 2;
    }
}

/// A text without the white space and the NUL characters at its end.
pub open spec fn trim_end_nul(s: Seq<char>) -> Seq<char>
    decreases s.len(),
{
    if s.len() > 0 && (is_space(s.last()) || s.last() == '\0') {
        trim_end_nul(s.drop_last())
    } else {
        s
    }
}

/// A value without the white space around it and the NUL characters at its end.
fn trim_value(s: &[char]) -> (r: &[char])
    ensures
        r@ == trim_start(trim_end_nul(s@)),
{
    let mut b: usize = s.len();
    proof {
        assert(s@.take(b as int) =~= s@);
    }
    while b > 0 && (is_space_char(s[b - 1]) || s[b - 1] == '\0')
        invariant
            b <= s@.len(),
            trim_end_nul(s@.take(b as int)) == trim_end_nul(s@),
        decreases b,
    {
        proof {
            assert(s@.take(b as int).drop_last() =~= s@.take(b - 1));
        }
        b -= 1;
    }
    proof {
        assert(s@.subrange(0, b as int) =~= s@.take(b as int));
    }
    trim_start_chars(slice_subrange(s, 0, b))
}

/// The name and the value that a header payload holds: what stands before its first
/// NUL byte and what stands behind it, without the white space around them and the
/// NUL bytes at the end of the value, in whatever order these stand there.
pub open spec fn header_pair(payload: Seq<u8>) -> (Seq<char>, Seq<char>) {
    let s = bytes_text(payload);
    let p = position(s, '\0') as int;
    let value = if p < s.len() {
        s.skip(p + 1)
    } else {
        seq![]
    };
    (trim(s.take(p)), trim_start(trim_end_nul(value)))
}

/// Takes a header field over, behind the values that its name already has.
pub fn decode_header(payload: &[u8], header_fields: &mut HeaderFields)
    ensures
        final(header_fields)@ == added(
            old(header_fields)@,
            header_pair(payload@).0,
            header_pair(payload@).1,
        ),
{
    let text = lossy_text(payload);
    let s = to_chars(text.as_str());
    let n = s.len();
    let (p, q): (usize, usize) = match find_char(s.as_slice(), '\0') {
        Some(p) => (p, p + 1),
        None => (n, n),
    };
    let key = slice_subrange(s.as_slice(), 0, p);
    let value = slice_subrange(s.as_slice(), q, n);
    proof {
        assert(key@ =~= s@.take(p as int));
        assert(p < s@.len() ==> value@ =~= s@.skip(p + 1));
        assert(p == s@.len() ==> value@ =~= Seq::<char>::empty());
    }
    header_fields.add(
        from_chars(trim_chars(key)),
        from_chars(trim_value(value)),
    );
}

/// Appends a piece of the message body.
pub fn decode_body(payload: &[u8], body_field: &mut String)
    ensures
        final(body_field)@ == old(body_field)@ + bytes_text(payload@),
{
    let text = lossy_text(payload);
    body_field.push_str(text.as_str());
}

/// A packet with a message in it, which ends with a NUL byte.
pub open spec fn message_packet(code: u8, message: Seq<char>) -> Seq<u8> {
    packet(code, encode_utf8(message).push(0))
}

/// A packet with a message in it.
pub fn build_response_packet(response_code: u8, response_message: &str) -> (r: Vec<u8>)
    ensures
        r@ == message_packet(response_code, response_message@),
{
    let mut payload = vstd::slice::slice_to_vec(response_message.as_bytes());
    payload.push(0);
    make_packet(response_code, payload.as_slice())
}

/// The header field that a warning adds: its name, a NUL character and its value.
pub open spec fn warning_field(logname: Seq<char>) -> Seq<char> {
    "X-MilterSeparator\0 Warning: '"@ + logname + "' by MilterSeparator"@
}

/// The reply that goes with a rejection.
pub open spec fn rejection(logname: Seq<char>) -> Seq<char> {
    "550 5.7.1 Rejected: '"@ + logname + "' by MilterSeparator"@
}

/// The packets that carry out an action. A warning and a rejection have a message of
/// their own before the code of the action; any other action goes on.
pub open spec fn response_packets(action: Seq<char>, logname: Seq<char>) -> Seq<Seq<u8>> {
    if action == "NONE"@ || action == "ACCEPT"@ {
        seq![packet(0x61, seq![])]
    } else if action == "WARN"@ {
        seq![message_packet(0x68, warning_field(logname)), packet(0x61, seq![])]
    } else if action == "REJECT"@ {
        seq![message_packet(0x79, rejection(logname)), packet(0x72, seq![])]
    } else if action == "DROP"@ {
        seq![packet(0x64, seq![])]
    } else {
        seq![packet(CONTINUE, seq![])]
    }
}

/// The packets that carry out an action, in the order in which they are sent.
pub fn send_milter_response(response: &Option<(String, String)>) -> (r: Vec<Vec<u8>>)
    requires
        response is Some,
    ensures
        byte_views(r@) == response_packets((response->Some_0).0@, (response->Some_0).1@),
{
    let mut out: Vec<Vec<u8>> = Vec::new();
    let nothing: Vec<u8> = Vec::new();
    let code: u8 = match response {
        Some((action, logname)) => {
            if same_text(action.as_str(), "NONE") || same_text(action.as_str(), "ACCEPT") {
                0x61
            } else if same_text(action.as_str(), "WARN") {
                let mut field = "X-MilterSeparator\0 Warning: '".to_owned();
                field.push_str(logname.as_str());
                field.push_str("' by MilterSeparator");
                out.push(build_response_packet(0x68, field.as_str()));
                0x61
            } else if same_text(action.as_str(), "REJECT") {
                let mut reply = "550 5.7.1 Rejected: '".to_owned();
                reply.push_str(logname.as_str());
                reply.push_str("' by MilterSeparator");
                out.push(build_response_packet(0x79, reply.as_str()));
                0x72
            } else if same_text(action.as_str(), "DROP") {
                0x64
            } else {
                CONTINUE
            }
        },
        None => CONTINUE,
    };
    out.push(make_packet(code, nothing.as_slice()));
    proof {
        assert(nothing@ =~= Seq::<u8>::empty());
        assert(byte_views(out@) =~= response_packets((response->Some_0).0@, (response->Some_0).1@));
    }
    out
}

/// The packet that puts another body in place of that of the message.
pub fn replace_body_packet(body: &[u8]) -> (r: Vec<u8>)
    ensures
        r@ == packet(0x62, body@),
{
    make_packet(0x62, body)
}

/// A packet without a payload is the number one in four bytes and its code.
pub proof fn law_bare_packet(code: u8)
    ensures
        packet(code, seq![]) == seq![0u8, 0, 0, 1, code],
        CONTINUE == 0x06,
        OPTNEG as char == 'O',
{
    assert(packet(code, seq![]) =~= seq![0u8, 0, 0, 1, code]);
}

/// A client that offers options is answered with its own version and actions and with the
/// protocol options that the filter agrees to, each where it was offered.
pub proof fn law_offer_is_answered(version: u32, actions: u32, flags: u32, more: Seq<u8>)
    ensures
        optneg_answer(be32(version) + be32(actions) + be32(flags) + more) == Some(
            packet(OPTNEG, be32(version) + be32(actions) + be32(agreed_flags(flags))),
        ),
        more.len() < 12 ==> optneg_answer(more) is None,
{
    let p = be32(version) + be32(actions) + be32(flags) + more;
    law_be32_read_back(flags, be32(flags));
    assert(p.take(8) =~= be32(version) + be32(actions));
    assert(p.subrange(8, 12) =~= be32(flags));
    assert(p.take(8) + be32(agreed_flags(flags)) =~= be32(version) + be32(actions) + be32(
        agreed_flags(flags),
    ));
}

/// An action is carried out as it is named: to accept and to do nothing accept the message, a
/// warning adds a field with the name in it and accepts, a rejection tells the name and
/// rejects, to drop drops, and anything else goes on. A message in a packet ends with a NUL
/// byte.
pub proof fn law_actions_are_carried_out(action: Seq<char>, name: Seq<char>)
    ensures
        action == "NONE"@ || action == "ACCEPT"@ ==> response_packets(action, name) == seq![
            packet('a' as u8, seq![]),
        ],
        action == "WARN"@ ==> response_packets(action, name) == seq![
            packet(
                'h' as u8,
                encode_utf8(
                    "X-MilterSeparator\0 Warning: '"@ + name + "' by MilterSeparator"@,
                ).push(0),
            ),
            packet('a' as u8, seq![]),
        ],
        action == "REJECT"@ ==> response_packets(action, name) == seq![
            packet(
                'y' as u8,
                encode_utf8("550 5.7.1 Rejected: '"@ + name + "' by MilterSeparator"@).push(0),
            ),
            packet('r' as u8, seq![]),
        ],
        action == "DROP"@ ==> response_packets(action, name) == seq![packet('d' as u8, seq![])],
        action != "NONE"@ && action != "ACCEPT"@ && action != "WARN"@ && action != "REJECT"@
            && action != "DROP"@ ==> response_packets(action, name) == seq![
            packet(0x06, seq![]),
        ],
{
    reveal_strlit("NONE");
    reveal_strlit("ACCEPT");
    reveal_strlit("WARN");
    reveal_strlit("REJECT");
    reveal_strlit("DROP");
    assert("NONE"@[0] == 'N' && "ACCEPT"@[0] == 'A' && "WARN"@[0] == 'W' && "REJECT"@[0] == 'R'
        && "DROP"@[0] == 'D');
}

/// A text that was written in UTF-8 is read as it was.
pub proof fn law_utf8_is_read_as_it_is(s: Seq<char>)
    ensures
        bytes_text(encode_utf8(s)) == s,
{
    vstd::utf8::encode_utf8_valid_utf8(s);
    vstd::utf8::encode_utf8_decode_utf8(s);
}

proof fn lemma_trim_end_nul(s: Seq<char>, tail: Seq<char>)
    requires
        s.len() > 0 ==> !is_space(s.last()) && s.last() != '\0',
        forall|i: int| 0 <= i < tail.len() ==> is_space(#[trigger] tail[i]) || tail[i] == '\0',
    ensures
        trim_end_nul(s + tail) == s,
    decreases tail.len(),
{
    if tail.len() > 0 {
        let t = tail.drop_last();
        assert forall|i: int| 0 <= i < t.len() implies is_space(#[trigger] t[i]) || t[i] == '\0' by {
            assert(t[i] == tail[i]);
        }
        lemma_trim_end_nul(s, t);
        assert((s + tail).last() == tail[tail.len() - 1]);
        assert((s + tail).drop_last() =~= s + t);
    } else {
        assert(s + tail =~= s);
    }
}

/// A header field is read with its name and its value as they were sent: whatever white space
/// stands around them, and whatever NUL bytes and white space end the value.
pub proof fn law_header_field_is_read(
    name: Seq<char>,
    before: Seq<char>,
    value: Seq<char>,
    tail: Seq<char>,
)
    requires
        !name.contains('\0'),
        name.len() > 0 ==> !is_space(name[0]) && !is_space(name.last()),
        is_blank(before),
        value.len() > 0 ==> !is_space(value[0]) && !is_space(value.last()) && value.last() != '\0',
        forall|i: int| 0 <= i < tail.len() ==> is_space(#[trigger] tail[i]) || tail[i] == '\0',
    ensures
        header_pair(encode_utf8(name + seq!['\0'] + before + value + tail)) == (name, value),
{
    let s = name + seq!['\0'] + before + value + tail;
    law_utf8_is_read_as_it_is(s);
    let n = name.len() as int;
    assert forall|j: int| 0 <= j < n implies s[j] != '\0' by {
        assert(s[j] == name[j]);
        assert(name.contains(name[j]));
    }
    crate::text::lemma_position_is(s, '\0', n);
    assert(s.take(n) =~= name);
    let none = Seq::<char>::empty();
    law_trimmed_text_is_kept(none, name, none);
    assert(none + name + none =~= name);
    assert(s.skip(n + 1) =~= before + value + tail);
    if value.len() > 0 {
        lemma_trim_end_nul(before + value, tail);
        assert(before + value + tail =~= (before + value) + tail);
        lemma_trim_start_blank(before, value);
    } else {
        let all = before + value + tail;
        assert forall|i: int| 0 <= i < all.len() implies is_space(#[trigger] all[i]) || all[i]
            == '\0' by {
            if i < before.len() {
                assert(all[i] == before[i]);
            } else {
                assert(all[i] == tail[i - before.len()]);
            }
        }
        lemma_trim_end_nul(none, all);
        assert(none + all =~= all);
        assert(trim_start(none) =~= none);
        assert(value =~= none);
    }
}

proof fn lemma_trim_start_blank(blank: Seq<char>, s: Seq<char>)
    requires
        is_blank(blank),
        s.len() > 0,
        !is_space(s[0]),
    ensures
        trim_start(blank + s) == s,
    decreases blank.len(),
{
    if blank.len() > 0 {
        let b = blank.skip(1);
        assert((blank + s)[0] == blank[0]);
        assert((blank + s).skip(1) =~= b + s);
        assert forall|i: int| 0 <= i < b.len() implies is_space(#[trigger] b[i]) by {
            assert(b[i] == blank[i + 1]);
        }
        lemma_trim_start_blank(b, s);
    } else {
        assert(blank + s =~= s);
    }
}

/// A payload of two pieces with a NUL byte between them.
proof fn lemma_two_parts(first: Seq<u8>, value: Seq<u8>)
    requires
        first.len() > 0 && !first.contains(0u8),
        value.len() > 0 && !value.contains(0u8),
    ensures
        macro_parts(first + seq![0u8] + value) == seq![first, value],
{
    let named = |p: Seq<u8>| p.len() > 0;
    let payload = first + seq![0u8] + value;
    let n = first.len() as int;
    assert forall|j: int| 0 <= j < n implies payload[j] != 0 by {
        assert(payload[j] == first[j]);
        assert(first.contains(first[j]));
    }
    crate::text::lemma_position_is(payload, 0u8, n);
    assert(payload.take(n) =~= first);
    assert(payload.skip(n + 1) =~= value);
    assert forall|j: int| 0 <= j < value.len() implies value[j] != 0 by {
        assert(value.contains(value[j]));
    }
    crate::text::lemma_position_is(value, 0u8, value.len() as int);
    assert(split(value, 0u8) == seq![value]);
    let none = Seq::<Seq<u8>>::empty();
    let one = none.push(first);
    assert(split(payload, 0u8) =~= one.push(value));
    none.lemma_filter_push(first, named);
    one.lemma_filter_push(value, named);
    assert(none.filter(named) == none) by {
        reveal(Seq::filter);
    }
    let both = one.push(value);
    assert(both.len() == 2 && both[0] == first && both[1] == value);
    assert(both =~= seq![first, value]);
    assert(one.filter(named) == one);
    assert(both.filter(named) == both);
}

/// A macro is kept under its name with the value that stands behind it: a payload with one
/// macro gives that macro its value and leaves all others.
pub proof fn law_macro_is_kept(
    command: u8,
    name: Seq<u8>,
    value: Seq<u8>,
    known: Map<Seq<char>, Seq<char>>,
)
    requires
        command != 0,
        name.len() > 0 && !name.contains(0u8),
        value.len() > 0 && !value.contains(0u8),
    ensures
        macros_after(seq![command] + name + seq![0u8] + value, known) == known.insert(
            macro_name(name),
            bytes_text(value),
        ),
        starts_header(seq![command] + name + seq![0u8] + value) <==> command as char == 'L',
{
    let first = seq![command] + name;
    assert forall|j: int| 0 <= j < first.len() implies first[j] != 0 by {
        if j > 0 {
            assert(first[j] == name[j - 1]);
            assert(name.contains(name[j - 1]));
        }
    }
    lemma_two_parts(first, value);
    let parts = seq![first, value];
    assert(first.skip(1) =~= name);
    assert(first[0] == command);
    let kept = known.insert(macro_name(name), bytes_text(value));
    assert(macros_from(parts, 2, kept) == kept);
}

/// A macro whose name stands in braces is kept under that name, with a mark that it is one,
/// and one of a single letter under the name of that letter.
pub proof fn law_names_in_braces(name: Seq<char>, rest: Seq<u8>, letter: u8)
    requires
        !encode_utf8(name).contains(0x7Du8),
        letter != 0x7B,
    ensures
        macro_name(seq![0x7Bu8] + encode_utf8(name) + seq![0x7Du8] + rest) == "MACRO_Vender"@ + "("@
            + name + ")"@,
        macro_name(seq![letter] + rest) == macro_label(macro_of(letter)),
        !rest.contains(0x7Du8) ==> macro_name(seq![0x7Bu8] + rest) == "MACRO_Vender"@ + "("@
            + "Unknown"@ + ")"@,
{
    let open = seq![0x7Bu8] + rest;
    assert(open.skip(1) =~= rest);
    assert(open[0] == 0x7B);
    crate::text::lemma_position(rest, 0x7Du8);
    if position(rest, 0x7Du8) < rest.len() {
        assert(rest.contains(rest[position(rest, 0x7Du8) as int]));
    }
    let e = encode_utf8(name);
    let b = seq![0x7Bu8] + e + seq![0x7Du8] + rest;
    let inner = b.skip(1);
    assert(inner =~= e + seq![0x7Du8] + rest);
    assert forall|j: int| 0 <= j < e.len() implies inner[j] != 0x7D by {
        assert(inner[j] == e[j]);
        assert(e.contains(e[j]));
    }
    crate::text::lemma_position_is(inner, 0x7Du8, e.len() as int);
    assert(inner.take(e.len() as int) =~= e);
    law_utf8_is_read_as_it_is(name);
    assert((seq![letter] + rest)[0] == letter);
}

/// A piece before a NUL byte is the first of the pieces.
proof fn lemma_first_part(first: Seq<u8>, rest: Seq<u8>)
    requires
        first.len() > 0 && !first.contains(0u8),
    ensures
        macro_parts(first + seq![0u8] + rest) == seq![first] + macro_parts(rest),
{
    let named = |p: Seq<u8>| p.len() > 0;
    let payload = first + seq![0u8] + rest;
    let n = first.len() as int;
    assert forall|j: int| 0 <= j < n implies payload[j] != 0 by {
        assert(payload[j] == first[j]);
        assert(first.contains(first[j]));
    }
    crate::text::lemma_position_is(payload, 0u8, n);
    assert(payload.take(n) =~= first);
    assert(payload.skip(n + 1) =~= rest);
    assert(split(payload, 0u8) == seq![first] + split(rest, 0u8));
    Seq::filter_distributes_over_add(seq![first], split(rest, 0u8), named);
    let none = Seq::<Seq<u8>>::empty();
    none.lemma_filter_push(first, named);
    assert(none.filter(named) == none) by {
        reveal(Seq::filter);
    }
    assert(seq![first] =~= none.push(first));
    assert(seq![first].filter(named) =~= seq![first]);
}

/// Of several macros in a payload each is kept with its own value, and the last value of a
/// name counts.
pub proof fn law_macros_are_kept_in_turn(
    command: u8,
    name: Seq<u8>,
    value: Seq<u8>,
    name2: Seq<u8>,
    value2: Seq<u8>,
    known: Map<Seq<char>, Seq<char>>,
)
    requires
        command != 0,
        name.len() > 0 && !name.contains(0u8),
        value.len() > 0 && !value.contains(0u8),
        name2.len() > 0 && !name2.contains(0u8),
        value2.len() > 0 && !value2.contains(0u8),
    ensures
        macros_after(
            (seq![command] + name) + seq![0u8] + (value + seq![0u8] + (name2 + seq![0u8] + value2)),
            known,
        ) == known.insert(macro_name(name), bytes_text(value)).insert(
            macro_name(name2),
            bytes_text(value2),
        ),
{
    let first = seq![command] + name;
    assert forall|j: int| 0 <= j < first.len() implies first[j] != 0 by {
        if j > 0 {
            assert(first[j] == name[j - 1]);
            assert(name.contains(name[j - 1]));
        }
    }
    let tail = name2 + seq![0u8] + value2;
    lemma_two_parts(name2, value2);
    lemma_first_part(value, tail);
    lemma_first_part(first, value + seq![0u8] + tail);
    let parts = macro_parts(first + seq![0u8] + (value + seq![0u8] + tail));
    assert(parts =~= seq![first, value, name2, value2]);
    assert(first.skip(1) =~= name);
    let one = known.insert(macro_name(name), bytes_text(value));
    let both = one.insert(macro_name(name2), bytes_text(value2));
    assert(macros_from(parts, 4, both) == both);
    assert(macros_from(parts, 2, one) == both);
}

} // verus!
