use milter_separator::codec::base64_decode;
use milter_separator::fields::{HeaderFields, MacroFields};
use milter_separator::filename::{
    attachment_name, decode_rfc2047_word, decode_rfc2231, percent_decode_to_bytes, Param,
};
use milter_separator::mail::{read_message, MailAddr};
use milter_separator::parse::{
    accepts_client, compose_mail, is_invisible_or_bidi, parse_mail,
    remove_invisible_and_bidi_chars, remote_client, show_addresses, Outcome,
};

fn param(name: &str, value: &str) -> Param {
    Param { name: name.to_string(), value: value.to_string() }
}

fn text(s: &str) -> Option<String> {
    Some(s.to_string())
}

#[test]
fn hidden_characters_are_known() {
    for c in [
        '\0', '\u{1F}', '\u{7F}', '\u{85}', '\u{9F}', '\u{A0}', '\u{AD}', '\u{300}', '\u{34F}', '\u{36F}',
        '\u{180E}', '\u{2000}', '\u{200A}', '\u{200B}', '\u{200F}', '\u{202A}', '\u{202E}', '\u{202F}',
        '\u{2060}', '\u{206F}', '\u{FE00}', '\u{FE0F}', '\u{FEFF}',
    ] {
        assert!(is_invisible_or_bidi(c), "{:?}", c);
    }
    for c in ['\n', '\r', '\t', ' ', 'a', '~', '¡', '\u{2FF}', '\u{370}', '\u{2010}', '\u{2070}', '日', '😀'] {
        assert!(!is_invisible_or_bidi(c), "{:?}", c);
    }
}

#[test]
fn hidden_characters_are_removed() {
    let s = "in\u{200B}voice\u{202E}gpj.exe\u{0}\tok";
    let seen = remove_invisible_and_bidi_chars(s);
    assert_eq!(seen, "invoicegpj.exe\tok");
    assert_eq!(remove_invisible_and_bidi_chars(&seen), seen);
}

#[test]
fn messages_are_composed() {
    let mut fields = HeaderFields::new();
    fields.add("Received".to_string(), "a".to_string());
    fields.add("Subject".to_string(), "s".to_string());
    fields.add("Received".to_string(), "b".to_string());
    assert_eq!(
        compose_mail(&fields, "one\r\ntwo\nthree\r\r\n"),
        "Received: a\r\nReceived: b\r\nSubject: s\r\n\r\none\r\ntwo\r\nthree\r\r\n"
    );
    assert_eq!(compose_mail(&HeaderFields::new(), "x\r\ny"), "\r\nx\r\ny");
}

#[test]
fn clients_are_read() {
    let read = |s: &str| remote_client(Some(&s.to_string()));
    assert_eq!(
        read("mx.example [192.0.2.7]"),
        Some(("mx.example".to_string(), "192.0.2.7".to_string()))
    );
    assert_eq!(read("[]"), Some((String::new(), String::new())));
    assert_eq!(read("plain"), Some(("unknown".to_string(), "unknown".to_string())));
    assert_eq!(read("host [open"), Some(("host".to_string(), "unknown".to_string())));
    assert_eq!(read("a]b"), Some(("unknown".to_string(), "unknown".to_string())));
    assert_eq!(read("a]b[c"), None);
    assert_eq!(remote_client(None), Some(("unknown".to_string(), "unknown".to_string())));
}

#[test]
fn targets_choose_the_clients() {
    for ip in ["127.0.0.1", "::1", "::ffff:127.0.0.9"] {
        assert!(!accepts_client(0, ip));
        assert!(accepts_client(1, ip));
        assert!(accepts_client(2, ip));
        assert!(!accepts_client(9, ip));
    }
    for ip in ["192.0.2.7", "unknown", "127.0.0.2", "::ffff:192.0.2.1"] {
        assert!(accepts_client(0, ip));
        assert!(!accepts_client(1, ip));
        assert!(accepts_client(2, ip));
        assert!(accepts_client(9, ip));
    }
}

#[test]
fn addresses_are_shown() {
    let list = Some(vec![
        MailAddr { name: text("Ann"), address: text("ann@example.com") },
        MailAddr { name: text(""), address: text("bob@example.com") },
        MailAddr { name: None, address: text("eve@example.com") },
        MailAddr { name: text("Nobody"), address: None },
    ]);
    assert_eq!(
        show_addresses(&list),
        "Ann <ann@example.com>, bob@example.com, eve@example.com, Nobody <>"
    );
    assert_eq!(show_addresses(&None), "(なし)");
    assert_eq!(show_addresses(&Some(vec![])), "");
}

#[test]
fn base64_is_read() {
    assert_eq!(base64_decode(b"aGVsbG8="), Some(b"hello".to_vec()));
    assert_eq!(base64_decode(b""), Some(vec![]));
    assert_eq!(base64_decode(b"+/+/"), Some(vec![0xFB, 0xFF, 0xBF]));
    assert_eq!(base64_decode(b"aGVsbG8"), None);
    assert_eq!(base64_decode(b"aGVsbG9="), None);
    assert_eq!(base64_decode(b"a b="), None);
}

#[test]
fn percent_escapes_are_resolved() {
    assert_eq!(percent_decode_to_bytes("a%41%e3b"), vec![b'a', 0x41, 0xE3, b'b']);
    assert_eq!(percent_decode_to_bytes("%zz!%4"), vec![b'!', 0x40]);
    assert_eq!(percent_decode_to_bytes("%+f%"), vec![0x0F, 0x00]);
}

#[test]
fn extended_names_are_read() {
    assert_eq!(decode_rfc2231("UTF-8''%E6%97%A5.txt"), text("日.txt"));
    assert_eq!(decode_rfc2231("shift_jis'ja'%93%FA"), text("日"));
    assert_eq!(decode_rfc2231("nosuch''abc"), text("abc"));
    assert_eq!(decode_rfc2231("nosuch''%FF"), None);
    assert_eq!(decode_rfc2231("plain"), None);
    assert_eq!(decode_rfc2231("one'quote"), None);
}

#[test]
fn encoded_words_are_read() {
    assert_eq!(decode_rfc2047_word("=?UTF-8?B?5pel?=.txt"), "日.txt");
    assert_eq!(decode_rfc2047_word("=?iso-8859-1?q?caf=E9_au?= x"), "café au x");
    assert_eq!(decode_rfc2047_word("=?utf-8?b?!!?=x"), "x");
    assert_eq!(decode_rfc2047_word("=?utf-8?q?a"), "=?utf-8?q?a");
    assert_eq!(decode_rfc2047_word("=?a?b?="), "=?a?b?=");
    assert_eq!(decode_rfc2047_word("=?nosuch?q?=FF?="), "=?nosuch?q?=FF?=");
    assert_eq!(decode_rfc2047_word("=?nosuch?q?a=FF?=b"), "b");
    assert_eq!(decode_rfc2047_word("plain name.pdf"), "plain name.pdf");
}

#[test]
fn text_outside_of_encoded_words_is_kept() {
    assert_eq!(decode_rfc2047_word("日本.txt"), "日本.txt");
    assert_eq!(decode_rfc2047_word("é"), "é");
    assert_eq!(decode_rfc2047_word("né =?UTF-8?B?5pel?= 本"), "né 日 本");
    assert_eq!(decode_rfc2047_word("=?"), "=?");
    assert_eq!(decode_rfc2047_word(""), "");
}

#[test]
fn names_are_chosen() {
    let both = Some(vec![param("filename", "plain.txt"), param("FileName*", "utf-8''star.txt")]);
    let typed = Some(vec![param("charset", "x"), param("Name", "typed.txt")]);
    assert_eq!(attachment_name(&both, &typed), text("star.txt"));
    let plain = Some(vec![param("filename", "=?utf-8?q?a_b?=")]);
    assert_eq!(attachment_name(&plain, &typed), text("a b"));
    assert_eq!(attachment_name(&None, &typed), text("typed.txt"));
    assert_eq!(attachment_name(&Some(vec![]), &None), text("(ファイル名なし)"));
    let bad_star = Some(vec![param("filename*", "%FF"), param("filename", "x")]);
    assert_eq!(attachment_name(&bad_star, &None), text("x"));
    let percent = Some(vec![param("name*", "%FF"), param("name*", "a%20b"), param("name", "n")]);
    assert_eq!(attachment_name(&None, &percent), text("a b"));
    assert_eq!(attachment_name(&Some(vec![param("filename", "日本.pdf")]), &None), text("日本.pdf"));
    let jis = Some(vec![param("filename", "\u{1B}$BF|\u{1B}(B.txt")]);
    assert_eq!(attachment_name(&jis, &None), text("日.txt"));
}

const MIXED: &str = "--b\r\nContent-Type: text/plain\r\n\r\nhello\r\n--b\r\nContent-Type: application/pdf; name=\"t.pdf\"\r\nContent-Disposition: attachment; filename=\"doc.pdf\"\r\nContent-Transfer-Encoding: base64\r\n\r\naGVsbG8=\r\n--b\r\nContent-Type: image/png; name=\"pic.png\"\r\nContent-Transfer-Encoding: base64\r\n\r\nAAEC\r\n--b--\r\n";

fn header() -> HeaderFields {
    let mut fields = HeaderFields::new();
    fields.add("From".to_string(), "Ann <ann@example.com>, bob@example.com".to_string());
    fields.add("To".to_string(), "eve@example.com".to_string());
    fields.add("Subject".to_string(), "in\u{200B}voice".to_string());
    fields.add("Content-Type".to_string(), "multipart/mixed; boundary=\"b\"".to_string());
    fields
}

fn macros(client: &str) -> MacroFields {
    let mut m = MacroFields::new();
    m.insert("MACRO_Space".to_string(), client.to_string());
    m.insert("i".to_string(), "Q1".to_string());
    m
}

#[test]
fn messages_are_read() {
    let raw = compose_mail(&header(), MIXED);
    let m = read_message(raw.as_bytes()).unwrap();
    assert_eq!(m.from.as_ref().unwrap().len(), 2);
    assert_eq!(m.from.as_ref().unwrap()[0].name.as_deref(), Some("Ann"));
    assert_eq!(m.from.as_ref().unwrap()[0].address.as_deref(), Some("ann@example.com"));
    assert_eq!(m.to.as_ref().unwrap()[0].address.as_deref(), Some("eve@example.com"));
    assert_eq!(m.subject.as_deref(), Some("in\u{200B}voice"));
    assert_eq!(m.parts.len(), 4);
    assert!(m.parts[1].is_text);
    assert!(!m.parts[2].is_text);
    assert_eq!(m.parts[2].bytes.as_deref(), Some(&b"hello"[..]));
    let d = m.parts[2].disposition.as_ref().unwrap();
    assert_eq!((d[0].name.as_str(), d[0].value.as_str()), ("filename", "doc.pdf"));
    let t = m.parts[3].content_type.as_ref().unwrap();
    assert_eq!((t[0].name.as_str(), t[0].value.as_str()), ("name", "pic.png"));
    assert!(read_message(b"").is_none());
}

#[test]
fn mails_are_handled() {
    match parse_mail(&header(), MIXED, &macros("mx [192.0.2.7]"), 0) {
        Outcome::Handled(mail) => {
            assert_eq!(mail.remote_host, "mx");
            assert_eq!(mail.remote_ip, "192.0.2.7");
            assert_eq!(mail.from, "Ann <ann@example.com>, bob@example.com");
            assert_eq!(mail.to, "eve@example.com");
            assert_eq!(mail.subject, "invoice");
            assert_eq!(mail.original_queue_id.as_deref(), Some("Q1"));
            assert_eq!(mail.attachments.len(), 2);
            assert_eq!(mail.attachments[0].name, "doc.pdf");
            assert_eq!(mail.attachments[0].data, b"hello");
            assert_eq!(mail.attachments[1].name, "pic.png");
            assert_eq!(mail.attachments[1].data, vec![0, 1, 2]);
        }
        _ => panic!(),
    }
}

#[test]
fn mails_are_ignored_or_unreadable() {
    assert!(matches!(parse_mail(&header(), MIXED, &macros("mx [127.0.0.1]"), 0), Outcome::Ignored));
    assert!(matches!(parse_mail(&header(), MIXED, &macros("mx [127.0.0.1]"), 1), Outcome::Handled(_)));
    assert!(matches!(parse_mail(&header(), MIXED, &macros("mx [192.0.2.7]"), 1), Outcome::Ignored));
    assert!(matches!(parse_mail(&header(), MIXED, &macros("a]b["), 2), Outcome::Unreadable));
    let named = MIXED.replace("doc.pdf", "日本語.pdf");
    match parse_mail(&header(), &named, &macros("mx [192.0.2.7]"), 0) {
        Outcome::Handled(mail) => assert_eq!(mail.attachments[0].name, "日本語.pdf"),
        _ => panic!(),
    }
}

#[test]
fn queue_ids_have_a_second_name() {
    let mut m = MacroFields::new();
    m.insert("I".to_string(), "Q2".to_string());
    match parse_mail(&header(), MIXED, &m, 2) {
        Outcome::Handled(mail) => {
            assert_eq!(mail.original_queue_id.as_deref(), Some("Q2"));
            assert_eq!(mail.remote_host, "unknown");
        }
        _ => panic!(),
    }
}
