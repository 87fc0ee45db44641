//! A milter session: what each byte of a client leads to.
//!
//! A session takes the bytes of one connection as they come and says what is to be done
//! about them. It does no input or output of its own.
use crate::bytes::{byte_views, bytes_text, from_be32, read_be32};
use crate::fields::{added, FieldView, HeaderFields, MacroFields};
use crate::milter::{
    decode_body, decode_connect, decode_data_macros, decode_header, decode_helo,
    decode_optneg, header_pair, macros_after, optneg_answer, packet, replace_body_packet,
    response_packets, send_milter_response, starts_header, CONTINUE,
};
use crate::milter_command::{command_of, MilterCommand};
use vstd::prelude::*;

verus! {

/// The most bytes of a payload that are read at once.
pub const CHUNK: usize = 4096;

/// A message that has come whole.
pub struct Mail {
    /// The header fields.
    pub header_fields: HeaderFields,
    /// The body.
    pub body_field: String,
    /// The macros of the session.
    pub macro_fields: MacroFields,
}

/// What a message holds.
#[verifier::ext_equal]
pub struct MailView {
    pub headers: Seq<FieldView>,
    pub body: Seq<char>,
    pub macros: Map<Seq<char>, Seq<char>>,
}

impl View for Mail {
    type V = MailView;

    open spec fn view(&self) -> MailView {
        MailView {
            headers: self.header_fields@,
            body: self.body_field@,
            macros: self.macro_fields@,
        }
    }
}

/// What is to be done about a command.
pub enum Reaction {
    /// Nothing, or not yet.
    Nothing,
    /// The connection is closed.
    Close,
    /// The packets are sent.
    Send(Vec<Vec<u8>>),
    /// The message is handled, and the client is answered by what came of it.
    Parse(Mail),
}

/// What is to be done about a command.
#[verifier::ext_equal]
pub enum ReactionView {
    Nothing,
    Close,
    Send(Seq<Seq<u8>>),
    Parse(MailView),
}

impl View for Reaction {
    type V = ReactionView;

    open spec fn view(&self) -> ReactionView {
        match self {
            Reaction::Nothing => ReactionView::Nothing,
            Reaction::Close => ReactionView::Close,
            Reaction::Send(packets) => ReactionView::Send(byte_views(packets@)),
            Reaction::Parse(mail) => ReactionView::Parse(mail@),
        }
    }
}

/// What a session knows.
#[verifier::ext_equal]
pub struct SessionView {
    /// The part of a command that has come: its length, its code and its payload.
    pub pending: Seq<u8>,
    /// Whether the connection is closed.
    pub closed: bool,
    /// Whether a piece of the body has come.
    pub is_body_eob: bool,
    /// Whether the header is coming.
    pub is_header_block: bool,
    /// The macros of the session.
    pub macros: Map<Seq<char>, Seq<char>>,
    /// The header fields of the message.
    pub headers: Seq<FieldView>,
    /// The body of the message.
    pub body: Seq<char>,
}

/// A session before its first byte.
pub open spec fn fresh_session() -> SessionView {
    SessionView {
        pending: seq![],
        closed: false,
        is_body_eob: false,
        is_header_block: false,
        macros: Map::empty(),
        headers: seq![],
        body: seq![],
    }
}

/// How many bytes the payload of a command has, by the length that the command gives.
/// The length counts the code; a length of zero has no payload either.
pub open spec fn payload_len(pending: Seq<u8>) -> int {
    let size = from_be32(pending.take(4)) as int;
    if size == 0 {
        0
    } else {
        size - 1
    }
}

/// Whether a command has come whole.
pub open spec fn is_whole(pending: Seq<u8>) -> bool {
    pending.len() >= 5 && pending.len() == 5 + payload_len(pending)
}

/// The answer to the end of a header.
pub open spec fn go_on() -> Seq<Seq<u8>> {
    response_packets("CONTINUE"@, "continue"@)
}

/// The answer to the end of a body.
pub open spec fn accepted() -> Seq<Seq<u8>> {
    response_packets("ACCEPT"@, "accept"@)
}

/// What a command changes in a session.
pub open spec fn after_command(
    s: SessionView,
    command: MilterCommand,
    payload: Seq<u8>,
) -> SessionView {
    match command {
        MilterCommand::Data => SessionView {
            is_header_block: s.is_header_block || starts_header(payload),
            macros: macros_after(payload, s.macros),
            ..s
        },
        MilterCommand::Header => SessionView {
            headers: added(s.headers, header_pair(payload).0, header_pair(payload).1),
            ..s
        },
        MilterCommand::Body => SessionView {
            is_body_eob: true,
            is_header_block: false,
            body: s.body + bytes_text(payload),
            ..s
        },
        MilterCommand::Eoh => if s.is_body_eob {
            SessionView {
                is_body_eob: false,
                macros: Map::empty(),
                headers: seq![],
                body: seq![],
                ..s
            }
        } else {
            s
        },
        _ => s,
    }
}

/// What is to be done about a command.
pub open spec fn reaction_to(
    s: SessionView,
    command: MilterCommand,
    payload: Seq<u8>,
) -> ReactionView {
    match command {
        MilterCommand::OptNeg => match optneg_answer(payload) {
            Some(answer) => ReactionView::Send(seq![answer]),
            None => ReactionView::Nothing,
        },
        MilterCommand::Connect => ReactionView::Send(seq![packet(CONTINUE, seq![])]),
        MilterCommand::HeLO => ReactionView::Send(seq![packet(CONTINUE, seq![])]),
        MilterCommand::Eoh => if s.is_body_eob {
            ReactionView::Parse(
                MailView { headers: s.headers, body: s.body, macros: s.macros },
            )
        } else {
            ReactionView::Send(go_on())
        },
        _ => ReactionView::Nothing,
    }
}

/// What one byte changes in a session, and what is to be done about it. A byte that is
/// not the last of a command only joins those before it, but for the code of an
/// unknown command, which closes the connection. A closed session takes no more.
pub open spec fn take_byte(s: SessionView, b: u8) -> (SessionView, ReactionView) {
    let pending = s.pending.push(b);
    if s.closed {
        (s, ReactionView::Nothing)
    } else if pending.len() == 5 && command_of(b) is None {
        (SessionView { pending: pending, closed: true, ..s }, ReactionView::Close)
    } else if is_whole(pending) {
        let command = command_of(pending[4])->Some_0;
        let payload = pending.skip(5);
        (
            after_command(SessionView { pending: seq![], ..s }, command, payload),
            reaction_to(s, command, payload),
        )
    } else {
        (SessionView { pending: pending, ..s }, ReactionView::Nothing)
    }
}

/// A session after some bytes.
pub open spec fn after_bytes(s: SessionView, bytes: Seq<u8>) -> SessionView
    decreases bytes.len(),
{
    if bytes.len() == 0 {
        s
    } else {
        take_byte(after_bytes(s, bytes.drop_last()), bytes.last()).0
    }
}

/// All that is to be done about some bytes, in order.
pub open spec fn reactions(s: SessionView, bytes: Seq<u8>) -> Seq<ReactionView>
    decreases bytes.len(),
{
    if bytes.len() == 0 {
        seq![]
    } else {
        let earlier = reactions(s, bytes.drop_last());
        match take_byte(after_bytes(s, bytes.drop_last()), bytes.last()).1 {
            ReactionView::Nothing => earlier,
            r => earlier.push(r),
        }
    }
}

/// How many bytes the session can take next: the rest of the length and the code, or of
/// the payload, in pieces of a bounded size.
pub open spec fn wanted(s: SessionView) -> int {
    if s.pending.len() < 5 {
        5 - s.pending.len()
    } else if 5 + payload_len(s.pending) - s.pending.len() < CHUNK {
        5 + payload_len(s.pending) - s.pending.len()
    } else {
        CHUNK as int
    }
}

/// The packets that answer a message: none if it was not handled, and else those that
/// put another body in its place, if there is one, and accept it.
pub open spec fn mail_answer(handled: bool, modified_body: Option<Seq<u8>>) -> Seq<Seq<u8>> {
    if !handled {
        seq![]
    } else {
        match modified_body {
            Some(body) => seq![packet(0x62, body)] + accepted(),
            None => accepted(),
        }
    }
}

/// It does not matter how the bytes of a connection are cut into pieces: what a session
/// knows and does is the same.
pub proof fn law_pieces_do_not_matter(s: SessionView, a: Seq<u8>, b: Seq<u8>)
    ensures
        after_bytes(s, a + b) == after_bytes(after_bytes(s, a), b),
        reactions(s, a + b) == reactions(s, a) + reactions(after_bytes(s, a), b),
    decreases b.len(),
{
    if b.len() == 0 {
        assert(a + b =~= a);
        assert(reactions(s, a) + Seq::<ReactionView>::empty() =~= reactions(s, a));
    } else {
        law_pieces_do_not_matter(s, a, b.drop_last());
        assert((a + b).drop_last() =~= a + b.drop_last());
        assert((a + b).last() == b.last());
        let last = take_byte(after_bytes(after_bytes(s, a), b.drop_last()), b.last()).1;
        let x = reactions(s, a);
        let y = reactions(after_bytes(s, a), b.drop_last());
        assert((x + y).push(last) =~= x + y.push(last));
    }
}

/// A closed session stays as it is and does nothing more.
pub proof fn law_closed_is_closed(s: SessionView, bytes: Seq<u8>)
    requires
        s.closed,
    ensures
        after_bytes(s, bytes) == s,
        reactions(s, bytes) == Seq::<ReactionView>::empty(),
    decreases bytes.len(),
{
    if bytes.len() > 0 {
        law_closed_is_closed(s, bytes.drop_last());
    }
}

/// Bytes that stay within a command only join those that have come.
proof fn lemma_within_a_command(s: SessionView, bytes: Seq<u8>)
    requires
        !s.closed,
        forall|k: int|
            1 <= k <= bytes.len() ==> {
                let pending = #[trigger] (s.pending + bytes.take(k));
                &&& !is_whole(pending)
                &&& pending.len() == 5 ==> command_of(pending[4]) is Some
            },
    ensures
        after_bytes(s, bytes) == (SessionView { pending: s.pending + bytes, ..s }),
        reactions(s, bytes) == Seq::<ReactionView>::empty(),
    decreases bytes.len(),
{
    if bytes.len() == 0 {
        assert(s.pending + bytes =~= s.pending);
    } else {
        let init = bytes.drop_last();
        assert forall|k: int| 1 <= k <= init.len() implies {
            let pending = #[trigger] (s.pending + init.take(k));
            &&& !is_whole(pending)
            &&& pending.len() == 5 ==> command_of(pending[4]) is Some
        } by {
            assert(init.take(k) =~= bytes.take(k));
            let pending = s.pending + bytes.take(k);
            assert(!is_whole(pending));
        }
        lemma_within_a_command(s, init);
        assert(bytes.take(bytes.len() as int) =~= bytes);
        assert((s.pending + init).push(bytes.last()) =~= s.pending + bytes);
        let pending = s.pending + bytes.take(bytes.len() as int);
        assert(!is_whole(pending));
        assert(pending.len() == 5 ==> pending[4] == bytes.last());
    }
}

/// A packet of the protocol, from the first byte to the last, is one command.
pub proof fn law_packet_is_one_command(s: SessionView, code: u8, payload: Seq<u8>)
    requires
        !s.closed,
        s.pending == Seq::<u8>::empty(),
        command_of(code) is Some,
        payload.len() < u32::MAX,
    ensures
        after_bytes(s, packet(code, payload)) == after_command(
            s,
            command_of(code)->Some_0,
            payload,
        ),
        reactions(s, packet(code, payload)) == match reaction_to(
            s,
            command_of(code)->Some_0,
            payload,
        ) {
            ReactionView::Nothing => Seq::<ReactionView>::empty(),
            r => seq![r],
        },
{
    let p = packet(code, payload);
    crate::milter::law_packet_tells_its_length(code, payload);
    let init = p.drop_last();
    assert forall|k: int| 1 <= k <= init.len() implies {
        let pending = #[trigger] (s.pending + init.take(k));
        &&& !is_whole(pending)
        &&& pending.len() == 5 ==> command_of(pending[4]) is Some
    } by {
        let pending = s.pending + init.take(k);
        assert(pending =~= p.take(k));
        if k >= 5 {
            assert(pending.take(4) =~= p.take(4));
            assert(pending[4] == code);
        }
    }
    lemma_within_a_command(s, init);
    assert((s.pending + init).push(p.last()) =~= p);
    assert(s == (SessionView { pending: seq![], ..s }));
    if p.len() == 5 {
        assert(p.last() == code);
    }
    let last = take_byte(after_bytes(s, init), p.last()).1;
    assert(Seq::<ReactionView>::empty().push(last) =~= seq![last]);
}

/// After a message has been handed out, nothing of it is left for the next.
pub proof fn law_messages_are_kept_apart(s: SessionView, payload: Seq<u8>)
    requires
        s.is_body_eob,
    ensures
        reaction_to(s, MilterCommand::Eoh, payload) == ReactionView::Parse(
            MailView { headers: s.headers, body: s.body, macros: s.macros },
        ),
        after_command(s, MilterCommand::Eoh, payload) == (SessionView {
            pending: s.pending,
            closed: s.closed,
            is_header_block: s.is_header_block,
            ..fresh_session()
        }),
{
}

/// A session with one client.
pub struct Session {
    header: Vec<u8>,
    payload: Vec<u8>,
    closed: bool,
    is_body_eob: bool,
    is_header_block: bool,
    macro_fields: MacroFields,
    header_fields: HeaderFields,
    body_field: String,
}

impl View for Session {
    type V = SessionView;

    closed spec fn view(&self) -> SessionView {
        SessionView {
            pending: self.header@ + self.payload@,
            closed: self.closed,
            is_body_eob: self.is_body_eob,
            is_header_block: self.is_header_block,
            macros: self.macro_fields@,
            headers: self.header_fields@,
            body: self.body_field@,
        }
    }
}

impl Session {
    /// Whether what has come is the beginning of a known command and no more.
    pub closed spec fn wf(&self) -> bool {
        &&& self.header@.len() <= 5
        &&& self.header@.len() < 5 ==> self.payload@.len() == 0
        &&& self.header@.len() == 5 && !self.closed ==> {
            &&& command_of(self.header@[4]) is Some
            &&& self.payload@.len() < payload_len(self.header@)
        }
    }

    /// A session before its first byte.
    pub fn new() -> (r: Session)
        ensures
            r.wf(),
            r@ == fresh_session(),
    {
        let r = Session {
            header: Vec::new(),
            payload: Vec::new(),
            closed: false,
            is_body_eob: false,
            is_header_block: false,
            macro_fields: MacroFields::new(),
            header_fields: HeaderFields::new(),
            body_field: String::new(),
        };
        proof {
            assert(r@ =~= fresh_session());
        }
        r
    }

    /// Whether the connection is closed.
    pub fn is_closed(&self) -> (r: bool)
        ensures
            r == self@.closed,
    {
        self.closed
    }

    /// How many bytes the session can take next.
    pub fn want(&self) -> (r: usize)
        requires
            self.wf(),
            !self@.closed,
        ensures
            r == wanted(self@),
            1 <= r <= CHUNK,
    {
        if self.header.len() < 5 {
            5 - self.header.len()
        } else {
            proof {
                assert(self@.pending.take(4) =~= self.header@.take(4));
            }
            let rest = self.rest();
            if rest < CHUNK {
                rest
            } else {
                CHUNK
            }
        }
    }

    /// How many bytes of the payload are still to come.
    fn rest(&self) -> (r: usize)
        requires
            self.header@.len() == 5,
            self.payload@.len() <= payload_len(self.header@),
        ensures
            r == payload_len(self.header@) - self.payload@.len(),
    {
        proof {
            assert(self.header@.subrange(0, 4) =~= self.header@.take(4));
        }
        let size = read_be32(self.header.as_slice(), 0);
        let all: usize = if size == 0 {
            0
        } else {
            (size - 1) as usize
        };
        all - self.payload.len()
    }

    /// Takes the next bytes of the client and says what is to be done about them. No
    /// bytes at all mean that the client has gone.
    pub fn receive(&mut self, data: &[u8]) -> (r: Reaction)
        requires
            old(self).wf(),
            !old(self)@.closed,
            data@.len() <= wanted(old(self)@),
        ensures
            final(self).wf(),
            data@.len() == 0 ==> r is Close && final(self)@ == (SessionView {
                closed: true,
                ..old(self)@
            }),
            data@.len() > 0 ==> final(self)@ == after_bytes(old(self)@, data@),
            data@.len() > 0 ==> reactions(old(self)@, data@) == match r@ {
                ReactionView::Nothing => Seq::<ReactionView>::empty(),
                x => seq![x],
            },
    {
        let ghost before = self@;
        if data.len() == 0 {
            self.closed = true;
            return Reaction::Close;
        }
        let ghost init = data@.drop_last();
        proof {
            assert(before.pending.len() >= 5 ==> before.pending.take(4) =~= self.header@.take(4));
            assert forall|k: int| 1 <= k <= init.len() implies {
                let pending = #[trigger] (before.pending + init.take(k));
                &&& !is_whole(pending)
                &&& pending.len() == 5 ==> command_of(pending[4]) is Some
            } by {
                let pending = before.pending + init.take(k);
                if pending.len() >= 5 {
                    assert(pending.take(4) =~= self.header@.take(4));
                }
            }
            lemma_within_a_command(before, init);
            assert((before.pending + init).push(data@.last()) =~= before.pending + data@);
        }
        if self.header.len() < 5 {
            self.header.extend_from_slice(data);
            proof {
                assert(self@.pending =~= before.pending + data@);
            }
            if self.header.len() < 5 {
                proof {
                    assert(self@ =~= after_bytes(before, data@));
                }
                return Reaction::Nothing;
            }
            proof {
                assert(self.header@[4] == data@.last());
                assert(self.header@ =~= before.pending + data@);
            }
        } else {
            self.payload.extend_from_slice(data);
            proof {
                assert(self@.pending =~= before.pending + data@);
                assert(self@.pending.take(4) =~= self.header@.take(4));
            }
        }
        let ghost joined = before.pending + data@;
        proof {
            assert(self@.pending == joined);
            assert(joined.take(4) =~= self.header@.take(4));
            assert(joined[4] == self.header@[4]);
        }
        match MilterCommand::from_u8(self.header[4]) {
            None => {
                self.closed = true;
                proof {
                    assert(self@ =~= after_bytes(before, data@));
                    assert(Seq::<ReactionView>::empty().push(ReactionView::Close) =~= seq![
                        ReactionView::Close,
                    ]);
                }
                Reaction::Close
            },
            Some(command) => {
                if self.rest() > 0 {
                    proof {
                        assert(self@ =~= after_bytes(before, data@));
                    }
                    return Reaction::Nothing;
                }
                proof {
                    assert(joined.skip(5) =~= self.payload@);
                    assert(is_whole(joined));
                }
                let ghost last = take_byte(SessionView { pending: before.pending + init, ..before }, data@.last());
                let r = self.carry_out(command);
                proof {
                    assert(r@ == last.1);
                    assert(Seq::<ReactionView>::empty().push(last.1) =~= seq![last.1]);
                }
                r
            },
        }
    }

    /// Carries out a command that has come whole.
    fn carry_out(&mut self, command: MilterCommand) -> (r: Reaction)
        requires
            !old(self)@.closed,
        ensures
            final(self).wf(),
            final(self)@ == after_command(
                (SessionView { pending: seq![], ..old(self)@ }),
                command,
                old(self).payload@,
            ),
            r@ == reaction_to(old(self)@, command, old(self).payload@),
    {
        let ghost before = *self;
        let mut payload: Vec<u8> = Vec::new();
        std::mem::swap(&mut payload, &mut self.payload);
        self.header.clear();
        proof {
            assert(self@.pending =~= Seq::<u8>::empty());
        }
        match command {
            MilterCommand::OptNeg => match decode_optneg(payload.as_slice()) {
                Some(answer) => send_one(answer),
                None => Reaction::Nothing,
            },
            MilterCommand::Connect => send_one(decode_connect(payload.as_slice())),
            MilterCommand::HeLO => send_one(decode_helo(payload.as_slice())),
            MilterCommand::Data => {
                decode_data_macros(
                    payload.as_slice(),
                    &mut self.is_header_block,
                    &mut self.macro_fields,
                );
                Reaction::Nothing
            },
            MilterCommand::Header => {
                decode_header(payload.as_slice(), &mut self.header_fields);
                Reaction::Nothing
            },
            MilterCommand::Body => {
                self.is_body_eob = true;
                self.is_header_block = false;
                decode_body(payload.as_slice(), &mut self.body_field);
                Reaction::Nothing
            },
            MilterCommand::Eoh => {
                if self.is_body_eob {
                    let mut mail = Mail {
                        header_fields: HeaderFields::new(),
                        body_field: String::new(),
                        macro_fields: MacroFields::new(),
                    };
                    std::mem::swap(&mut mail.header_fields, &mut self.header_fields);
                    std::mem::swap(&mut mail.body_field, &mut self.body_field);
                    std::mem::swap(&mut mail.macro_fields, &mut self.macro_fields);
                    self.is_body_eob = false;
                    Reaction::Parse(mail)
                } else {
                    Reaction::Send(continue_packets())
                }
            },
            _ => Reaction::Nothing,
        }
    }
}

/// A reaction that sends one packet.
fn send_one(packet: Vec<u8>) -> (r: Reaction)
    ensures
        r@ == ReactionView::Send(seq![packet@]),
{
    let mut packets: Vec<Vec<u8>> = Vec::new();
    packets.push(packet);
    proof {
        assert(byte_views(packets@) =~= seq![packet@]);
    }
    Reaction::Send(packets)
}

/// The answer to the end of a header.
fn continue_packets() -> (r: Vec<Vec<u8>>)
    ensures
        byte_views(r@) == go_on(),
{
    send_milter_response(&Some(("CONTINUE".to_owned(), "continue".to_owned())))
}

/// The answer to the end of a body.
fn accept_packets() -> (r: Vec<Vec<u8>>)
    ensures
        byte_views(r@) == accepted(),
{
    send_milter_response(&Some(("ACCEPT".to_owned(), "accept".to_owned())))
}

/// The packets that answer a message.
pub fn mail_reply(handled: bool, modified_body: &Option<Vec<u8>>) -> (r: Vec<Vec<u8>>)
    ensures
        byte_views(r@) == mail_answer(
            handled,
            match modified_body {
                Some(body) => Some(body@),
                None => None,
            },
        ),
{
    let mut packets: Vec<Vec<u8>> = Vec::new();
    if !handled {
        proof {
            assert(byte_views(packets@) =~= Seq::<Seq<u8>>::empty());
        }
        return packets;
    }
    let mut rest = accept_packets();
    if let Some(body) = modified_body {
        packets.push(replace_body_packet(body.as_slice()));
    }
    let ghost first = packets@;
    packets.append(&mut rest);
    proof {
        assert(byte_views(packets@) =~= byte_views(first) + accepted());
        if let Some(body) = modified_body {
            assert(byte_views(first) =~= seq![packet(0x62, body@)]);
        } else {
            assert(byte_views(first) =~= Seq::<Seq<u8>>::empty());
            assert(Seq::<Seq<u8>>::empty() + accepted() =~= accepted());
        }
    }
    packets
}

/// A message is handed out as it came: with the fields of its header, the pieces of its body
/// one behind the other and the macros of its session, and not before a piece of its body has
/// come.
pub proof fn law_message_is_handed_out_as_it_came(
    s: SessionView,
    macros: Seq<u8>,
    field: Seq<u8>,
    one: Seq<u8>,
    two: Seq<u8>,
    payload: Seq<u8>,
)
    ensures
        ({
            let s1 = after_command(s, MilterCommand::Data, macros);
            let s2 = after_command(s1, MilterCommand::Header, field);
            let s3 = after_command(s2, MilterCommand::Body, one);
            let s4 = after_command(s3, MilterCommand::Body, two);
            &&& reaction_to(s4, MilterCommand::Eoh, payload) == ReactionView::Parse(
                MailView {
                    headers: added(s.headers, header_pair(field).0, header_pair(field).1),
                    body: s.body + bytes_text(one) + bytes_text(two),
                    macros: macros_after(macros, s.macros),
                },
            )
            &&& !s.is_body_eob ==> reaction_to(s2, MilterCommand::Eoh, payload)
                == ReactionView::Send(seq![packet(0x06, seq![])]) && after_command(
                s2,
                MilterCommand::Eoh,
                payload,
            ) == s2
        }),
{
    crate::milter::law_actions_are_carried_out("CONTINUE"@, "continue"@);
    lemma_continue_is_no_action();
}

/// To continue is none of the other actions.
proof fn lemma_continue_is_no_action()
    ensures
        "CONTINUE"@ != "NONE"@,
        "CONTINUE"@ != "ACCEPT"@,
        "CONTINUE"@ != "WARN"@,
        "CONTINUE"@ != "REJECT"@,
        "CONTINUE"@ != "DROP"@,
{
    reveal_strlit("CONTINUE");
    reveal_strlit("NONE");
    reveal_strlit("ACCEPT");
    reveal_strlit("WARN");
    reveal_strlit("REJECT");
    reveal_strlit("DROP");
    assert("CONTINUE"@.len() == 8 && "NONE"@.len() == 4 && "ACCEPT"@.len() == 6 && "WARN"@.len()
        == 4 && "REJECT"@.len() == 6 && "DROP"@.len() == 4);
}

/// A connection and a greeting are answered with the code that goes on, options with what the
/// filter agrees to, and every other command but the end of the header or of the body with
/// nothing; none of these changes what is known of the message but those that bring parts of
/// it.
pub proof fn law_commands_are_answered(s: SessionView, command: MilterCommand, payload: Seq<u8>)
    ensures
        command == MilterCommand::Connect || command == MilterCommand::HeLO ==> reaction_to(
            s,
            command,
            payload,
        ) == ReactionView::Send(seq![packet(0x06, seq![])]),
        command == MilterCommand::OptNeg ==> (optneg_answer(payload) matches Some(answer)
            ==> reaction_to(s, command, payload) == ReactionView::Send(seq![answer])),
        command != MilterCommand::Connect && command != MilterCommand::HeLO && command
            != MilterCommand::OptNeg && command != MilterCommand::Eoh ==> reaction_to(
            s,
            command,
            payload,
        ) is Nothing,
        command != MilterCommand::Data && command != MilterCommand::Header && command
            != MilterCommand::Body && command != MilterCommand::Eoh ==> after_command(
            s,
            command,
            payload,
        ) == s,
        after_command(s, command, payload).closed == s.closed,
        after_command(s, command, payload).pending == s.pending,
{
}

/// A message that was handled is accepted, after the other body if there is one, and a message
/// that was not handled is not answered.
pub proof fn law_handled_messages_are_accepted(body: Seq<u8>)
    ensures
        mail_answer(true, None) == seq![packet('a' as u8, seq![])],
        mail_answer(true, Some(body)) == seq![packet('b' as u8, body), packet('a' as u8, seq![])],
        mail_answer(false, Some(body)) == Seq::<Seq<u8>>::empty(),
        mail_answer(false, None) == Seq::<Seq<u8>>::empty(),
{
    crate::milter::law_actions_are_carried_out("ACCEPT"@, "accept"@);
    assert(mail_answer(true, Some(body)) =~= seq![
        packet('b' as u8, body),
        packet('a' as u8, seq![]),
    ]);
}

/// A code that is no command closes the connection, whatever length came before it, and a
/// session never asks for bytes beyond the command that is coming.
pub proof fn law_unknown_codes_close(s: SessionView, code: u8)
    requires
        !s.closed,
        s.pending.len() == 4,
        command_of(code) is None,
    ensures
        take_byte(s, code).1 is Close,
        take_byte(s, code).0.closed,
        wanted(s) == 1,
{
}

/// A session asks for no more than the command that is coming still has, and for no more than
/// a bounded number of bytes at once, but always for some while a command is coming.
pub proof fn law_session_asks_for_what_is_missing(s: SessionView)
    ensures
        s.pending.len() < 5 ==> wanted(s) == 5 - s.pending.len(),
        5 <= s.pending.len() ==> wanted(s) <= 5 + payload_len(s.pending) - s.pending.len(),
        5 <= s.pending.len() < 5 + payload_len(s.pending) ==> 0 < wanted(s) <= 4096,
        5 <= s.pending.len() && 5 + payload_len(s.pending) - s.pending.len() <= 4096 ==> wanted(s)
            == 5 + payload_len(s.pending) - s.pending.len(),
        5 <= s.pending.len() && 5 + payload_len(s.pending) - s.pending.len() > 4096 ==> wanted(s)
            == 4096,
{
}

} // verus!
