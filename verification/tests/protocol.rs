use milter_separator::bytes::{push_be32, read_be32};
use milter_separator::client::{mail_reply, Reaction, Session, CHUNK};
use milter_separator::fields::{HeaderFields, MacroFields};
use milter_separator::milter::{
    build_response_packet, decode_body, decode_connect, decode_data_macros, decode_header,
    decode_helo, decode_optneg, make_packet, replace_body_packet, send_milter_response,
};
use milter_separator::milter_command::{MilterCommand, MilterMacro};

fn pair(action: &str, name: &str) -> Option<(String, String)> {
    Some((action.to_string(), name.to_string()))
}

#[test]
fn commands_have_codes_and_names() {
    assert_eq!(MilterCommand::from_u8(0x4F), Some(MilterCommand::OptNeg));
    assert_eq!(MilterCommand::from_u8(0x44), Some(MilterCommand::Data));
    assert_eq!(MilterCommand::from_u8(0x4C), Some(MilterCommand::Header));
    assert_eq!(MilterCommand::from_u8(0x00), None);
    assert_eq!(MilterCommand::OptNeg.as_str(), "SMFIC_OPTNEG");
    assert_eq!(MilterCommand::Eoh.as_str_eoh(true), "SMFIC_BODYEOB");
    assert_eq!(MilterCommand::Eoh.as_str_eoh(false), "SMFIC_EOH");
    assert_eq!(MilterCommand::Body.as_str_eoh(true), "SMFIC_BODY");
    assert_eq!(MilterMacro::from_u8(b'i'), MilterMacro::QueueId);
    assert_eq!(MilterMacro::from_u8(b'_').as_str(), "MACRO_Space");
    assert_eq!(MilterMacro::from_u8(1), MilterMacro::Unknown(1));
    assert_eq!(MilterMacro::from_u8(1).as_str(), "Unknown");
}

#[test]
fn numbers_are_written_in_network_order() {
    let mut out = Vec::new();
    push_be32(&mut out, 0x0102_0304);
    assert_eq!(out, vec![1, 2, 3, 4]);
    assert_eq!(read_be32(&out, 0), 0x0102_0304);
}

#[test]
fn packets_tell_their_length() {
    assert_eq!(make_packet(0x61, &[]), vec![0, 0, 0, 1, 0x61]);
    assert_eq!(make_packet(0x62, b"ab"), vec![0, 0, 0, 3, 0x62, b'a', b'b']);
    assert_eq!(replace_body_packet(b"x"), vec![0, 0, 0, 2, 0x62, b'x']);
    assert_eq!(build_response_packet(0x79, "hi"), vec![0, 0, 0, 4, 0x79, b'h', b'i', 0]);
}

#[test]
fn options_are_agreed_without_giving_up_body_and_header() {
    let offer = [0, 0, 0, 6, 0, 0, 1, 0xFF, 0, 0, 0, 0xFF];
    assert_eq!(
        decode_optneg(&offer),
        Some(vec![0, 0, 0, 13, 0x4F, 0, 0, 0, 6, 0, 0, 1, 0xFF, 0, 0, 0, 0xCF])
    );
    assert_eq!(decode_optneg(&offer[..11]), None);
    let mut longer = offer.to_vec();
    longer.push(9);
    assert_eq!(decode_optneg(&longer), decode_optneg(&offer));
}

#[test]
fn greetings_go_on() {
    assert_eq!(decode_connect(b"host"), vec![0, 0, 0, 1, 0x06]);
    assert_eq!(decode_helo(b"host"), vec![0, 0, 0, 1, 0x06]);
}

#[test]
fn macros_are_taken_over() {
    let mut flag = false;
    let mut macros = MacroFields::new();
    decode_data_macros(b"Ci\0AB12\0{daemon_name}\0mx\0_\0host [192.0.2.1]\0{broken\0v\0left", &mut flag, &mut macros);
    assert!(!flag);
    assert_eq!(macros.get("i").map(String::as_str), Some("AB12"));
    assert_eq!(macros.get("MACRO_Vender(daemon_name)").map(String::as_str), Some("mx"));
    assert_eq!(macros.get("MACRO_Space").map(String::as_str), Some("host [192.0.2.1]"));
    assert_eq!(macros.get("MACRO_Vender(Unknown)").map(String::as_str), Some("v"));
    assert_eq!(macros.get("left"), None);
    decode_data_macros(b"Lj\0mx.example", &mut flag, &mut macros);
    assert!(flag);
    assert_eq!(macros.get("j").map(String::as_str), Some("mx.example"));
    decode_data_macros(b"Ci\0CD34", &mut flag, &mut macros);
    assert!(flag);
    assert_eq!(macros.get("i").map(String::as_str), Some("CD34"));
    decode_data_macros(b"", &mut flag, &mut macros);
    decode_data_macros(b"C\0i\0x", &mut flag, &mut macros);
    assert_eq!(macros.get("i").map(String::as_str), Some("CD34"));
    macros.clear();
    assert_eq!(macros.get("i"), None);
    decode_data_macros("C{名}\0値\0i\0é".as_bytes(), &mut flag, &mut macros);
    assert_eq!(macros.get("MACRO_Vender(名)").map(String::as_str), Some("値"));
    assert_eq!(macros.get("i").map(String::as_str), Some("é"));
}

#[test]
fn header_fields_are_taken_over() {
    let mut fields = HeaderFields::new();
    decode_header(b"Received\0 one \0", &mut fields);
    decode_header(b"Subject\0hello", &mut fields);
    decode_header(b"Received\0two\0\0", &mut fields);
    decode_header(b"Odd", &mut fields);
    assert_eq!(fields.len(), 3);
    assert_eq!(fields.name(0), "Received");
    assert_eq!(fields.values(0), &vec!["one".to_string(), "two".to_string()]);
    assert_eq!(fields.name(1), "Subject");
    assert_eq!(fields.values(1), &vec!["hello".to_string()]);
    assert_eq!(fields.values(2), &vec![String::new()]);
    fields.clear();
    assert_eq!(fields.len(), 0);
    decode_header(b"Subject\0 Hello \0", &mut fields);
    decode_header(b"Subject\0Hello\0 ", &mut fields);
    decode_header(b"Subject\0Hello \0 \0", &mut fields);
    decode_header(b"Subject\0\0 Hello", &mut fields);
    assert_eq!(fields.values(0), &vec!["Hello", "Hello", "Hello", "\0 Hello"]);
    decode_header("件名\0 日本 \0".as_bytes(), &mut fields);
    assert_eq!(fields.name(1), "件名");
    assert_eq!(fields.values(1), &vec!["日本"]);
}

#[test]
fn bodies_are_joined() {
    let mut body = "a".to_string();
    decode_body("é".as_bytes(), &mut body);
    decode_body(&[0xFF], &mut body);
    assert_eq!(body, "aé\u{FFFD}");
}

#[test]
fn actions_have_packets() {
    assert_eq!(send_milter_response(&pair("NONE", "")), vec![vec![0, 0, 0, 1, 0x61]]);
    assert_eq!(send_milter_response(&pair("ACCEPT", "")), vec![vec![0, 0, 0, 1, 0x61]]);
    assert_eq!(send_milter_response(&pair("DROP", "")), vec![vec![0, 0, 0, 1, 0x64]]);
    assert_eq!(send_milter_response(&pair("CONTINUE", "")), vec![vec![0, 0, 0, 1, 0x06]]);
    assert_eq!(send_milter_response(&pair("other", "")), vec![vec![0, 0, 0, 1, 0x06]]);
    let warn = send_milter_response(&pair("WARN", "rule"));
    assert_eq!(warn.len(), 2);
    assert_eq!(&warn[0][5..], b"X-MilterSeparator\0 Warning: 'rule' by MilterSeparator\0");
    assert_eq!(warn[0][4], 0x68);
    assert_eq!(warn[1], vec![0, 0, 0, 1, 0x61]);
    let reject = send_milter_response(&pair("REJECT", "rule"));
    assert_eq!(&reject[0][5..], b"550 5.7.1 Rejected: 'rule' by MilterSeparator\0");
    assert_eq!(reject[0][4], 0x79);
    assert_eq!(reject[1], vec![0, 0, 0, 1, 0x72]);
}

fn feed(session: &mut Session, bytes: &[u8], piece: usize) -> Vec<Reaction> {
    let mut out = Vec::new();
    let mut at = 0;
    while at < bytes.len() {
        let n = session.want().min(piece).min(bytes.len() - at);
        match session.receive(&bytes[at..at + n]) {
            Reaction::Nothing => {}
            r => out.push(r),
        }
        at += n;
        if session.is_closed() {
            break;
        }
    }
    out
}

fn message() -> Vec<u8> {
    let mut bytes = make_packet(0x4F, &[0, 0, 0, 6, 0, 0, 0, 1, 0, 0, 0, 0x30]);
    bytes.extend(make_packet(0x43, b"host"));
    bytes.extend(make_packet(0x44, b"Ci\0ID1"));
    bytes.extend(make_packet(0x48, b"helo"));
    bytes.extend(make_packet(0x4C, b"Subject\0hi\0"));
    bytes.extend(make_packet(0x45, b""));
    bytes.extend(make_packet(0x42, b"part one "));
    bytes.extend(make_packet(0x42, b"part two"));
    bytes.extend(make_packet(0x45, b""));
    bytes
}

#[test]
fn a_session_hands_out_its_message() {
    for piece in [1, 3, 7, 10000] {
        let mut session = Session::new();
        let reactions = feed(&mut session, &message(), piece);
        assert_eq!(reactions.len(), 5);
        match &reactions[0] {
            Reaction::Send(p) => assert_eq!(p[0][16], 0),
            _ => panic!(),
        }
        match &reactions[3] {
            Reaction::Send(p) => assert_eq!(p, &vec![vec![0, 0, 0, 1, 0x06]]),
            _ => panic!(),
        }
        match &reactions[4] {
            Reaction::Parse(mail) => {
                assert_eq!(mail.body_field, "part one part two");
                assert_eq!(mail.header_fields.len(), 1);
                assert_eq!(mail.macro_fields.get("i").map(String::as_str), Some("ID1"));
            }
            _ => panic!(),
        }
        let again = feed(&mut session, &make_packet(0x45, b""), piece);
        assert_eq!(again.len(), 1);
        match &again[0] {
            Reaction::Send(_) => {}
            _ => panic!(),
        }
    }
}

#[test]
fn an_unknown_command_closes_the_session() {
    let mut session = Session::new();
    let reactions = feed(&mut session, &[0, 0, 0, 9, 0x00, 1, 2], 10);
    assert_eq!(reactions.len(), 1);
    assert!(matches!(reactions[0], Reaction::Close));
    assert!(session.is_closed());
}

#[test]
fn no_bytes_close_the_session() {
    let mut session = Session::new();
    assert!(matches!(session.receive(&[]), Reaction::Close));
    assert!(session.is_closed());
}

#[test]
fn a_length_of_zero_has_no_payload() {
    let mut session = Session::new();
    let reactions = feed(&mut session, &[0, 0, 0, 0, 0x43], 10);
    assert_eq!(reactions.len(), 1);
    assert_eq!(session.want(), 5);
}

#[test]
fn payloads_are_wanted_in_pieces() {
    let mut session = Session::new();
    assert_eq!(session.want(), 5);
    session.receive(&[0, 0]);
    assert_eq!(session.want(), 3);
    session.receive(&[0x20, 0, 0x42]);
    assert_eq!(session.want(), CHUNK);
    session.receive(&vec![b'a'; CHUNK]);
    assert_eq!(session.want(), 0x1FFF - CHUNK);
}

#[test]
fn messages_are_answered() {
    assert_eq!(mail_reply(false, &None), Vec::<Vec<u8>>::new());
    assert_eq!(mail_reply(true, &None), vec![vec![0, 0, 0, 1, 0x61]]);
    assert_eq!(
        mail_reply(true, &Some(b"new".to_vec())),
        vec![vec![0, 0, 0, 4, 0x62, b'n', b'e', b'w'], vec![0, 0, 0, 1, 0x61]]
    );
}
