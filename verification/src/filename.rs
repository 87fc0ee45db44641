//! The names of attachments, as mail headers write them.
use crate::bytes::{find_byte, utf8_chars, utf8_text};
use crate::codec::{
    base64_bytes, base64_decode, base64_padded, charset_text, decode_charset, fits,
    has_utf8_mark, is_utf8_label,
};
use crate::text::{
    from_chars, lower, lower_text, opt_view, position, same_text, split, split_chars, to_chars,
    views,
};
use vstd::prelude::*;
use vstd::slice::slice_subrange;
use vstd::utf8::{decode_utf8, encode_scalar, encode_utf8, valid_utf8};

verus! {

/// The value of a hexadecimal digit.
pub open spec fn hex_value(b: u8) -> Option<int> {
    if 0x30 <= b <= 0x39 {
        Some(b - 0x30)
    } else if 0x41 <= b <= 0x46 {
        Some(b - 0x41 + 10)
    } else if 0x61 <= b <= 0x66 {
        Some(b - 0x61 + 10)
    } else {
        None
    }
}

/// The byte that two characters stand for: two hexadecimal digits, or a plus sign and
/// one.
pub open spec fn hex_pair(hi: u8, lo: u8) -> Option<u8> {
    match (hex_value(hi), hex_value(lo)) {
        (Some(h), Some(l)) => Some((h * 16 + l) as u8),
        (None, Some(l)) if hi == 0x2B => Some(l as u8),
        _ => None,
    }
}

/// The value of a hexadecimal digit.
fn hex_digit(b: u8) -> (r: Option<u8>)
    ensures
        match r {
            Some(v) => hex_value(b) == Some(v as int) && v < 16,
            None => hex_value(b) is None,
        },
{
    if 0x30 <= b && b <= 0x39 {
        Some(b - 0x30)
    } else if 0x41 <= b && b <= 0x46 {
        Some(b - 0x41 + 10)
    } else if 0x61 <= b && b <= 0x66 {
        Some(b - 0x61 + 10)
    } else {
        None
    }
}

/// The byte that two characters stand for.
fn hex_byte(hi: u8, lo: u8) -> (r: Option<u8>)
    ensures
        r == hex_pair(hi, lo),
{
    match (hex_digit(hi), hex_digit(lo)) {
        (Some(h), Some(l)) => Some(h * 16 + l),
        (None, Some(l)) => if hi == 0x2B {
            Some(l)
        } else {
            None
        },
        _ => None,
    }
}

/// Bytes without their escapes. An escape is a mark and two characters that give a byte
/// in hexadecimal; a character that is missing at the end counts as a zero, and an
/// escape that gives no byte is dropped. Where `spaces` holds, an underscore is a space.
pub open spec fn unescaped(s: Seq<u8>, mark: u8, spaces: bool) -> Seq<u8>
    decreases s.len(),
{
    if s.len() == 0 {
        seq![]
    } else if s[0] == mark {
        let hi = if s.len() > 1 {
            s[1]
        } else {
            0x30
        };
        let lo = if s.len() > 2 {
            s[2]
        } else {
            0x30
        };
        let rest = if s.len() > 3 {
            unescaped(s.skip(3), mark, spaces)
        } else {
            seq![]
        };
        match hex_pair(hi, lo) {
            Some(b) => seq![b] + rest,
            None => rest,
        }
    } else if spaces && s[0] == 0x5F {
        seq![0x20u8] + unescaped(s.skip(1), mark, spaces)
    } else {
        seq![s[0]] + unescaped(s.skip(1), mark, spaces)
    }
}

/// Bytes without their escapes.
fn unescape(s: &[u8], mark: u8, spaces: bool) -> (r: Vec<u8>)
    ensures
        r@ == unescaped(s@, mark, spaces),
        r@.len() <= s@.len(),
{
    let mut out: Vec<u8> = Vec::new();
    let mut i: usize = 0;
    proof {
        assert(s@.skip(0) =~= s@);
        assert(out@ + unescaped(s@, mark, spaces) =~= unescaped(s@, mark, spaces));
    }
    while i < s.len()
        invariant
            i <= s@.len(),
            out@.len() <= i,
            out@ + unescaped(s@.skip(i as int), mark, spaces) == unescaped(s@, mark, spaces),
        decreases s@.len() - i,
    {
        let ghost before = out@;
        let ghost t = s@.skip(i as int);
        let b = s[i];
        let n = s.len() - i;
        if b == mark {
            let hi: u8 = if n > 1 {
                s[i + 1]
            } else {
                0x30
            };
            let lo: u8 = if n > 2 {
                s[i + 2]
            } else {
                0x30
            };
            if let Some(v) = hex_byte(hi, lo) {
                out.push(v);
            }
            if n > 3 {
                i += 3;
                proof {
                    assert(t.skip(3) =~= s@.skip(i as int));
                }
            } else {
                i = s.len();
                proof {
                    assert(s@.skip(i as int) =~= Seq::<u8>::empty());
                }
            }
        } else {
            out.push(
                if spaces && b == 0x5F {
                    0x20
                } else {
                    b
                },
            );
            i += 1;
            proof {
                assert(t.skip(1) =~= s@.skip(i as int));
            }
        }
        proof {
            assert(out@ + unescaped(s@.skip(i as int), mark, spaces) =~= before + unescaped(
                t,
                mark,
                spaces,
            ));
        }
    }
    proof {
        assert(s@.skip(i as int) =~= Seq::<u8>::empty());
        assert(out@ + Seq::<u8>::empty() =~= out@);
    }
    out
}

/// The bytes of a text with its percent escapes resolved.
pub fn percent_decode_to_bytes(s: &str) -> (r: Vec<u8>)
    ensures
        r@ == unescaped(encode_utf8(s@), 0x25, false),
{
    unescape(s.as_bytes(), 0x25, false)
}

/// The text that bytes stand for: in the character set with a label, or as UTF-8 where
/// there is no such character set.
pub open spec fn labelled_text(label: Seq<u8>, bytes: Seq<u8>) -> Option<Seq<char>> {
    match charset_text(label, bytes) {
        Some(t) => Some(t),
        None => utf8_chars(bytes),
    }
}

/// The text that bytes stand for.
fn decode_labelled(label: &[u8], bytes: Vec<u8>) -> (r: Option<String>)
    requires
        fits(bytes@.len()),
    ensures
        opt_view(r) == labelled_text(label@, bytes@),
        is_utf8_label(label@) && valid_utf8(bytes@) && !has_utf8_mark(bytes@) ==> opt_view(r)
            == Some(decode_utf8(bytes@)),
{
    match decode_charset(label, bytes.as_slice()) {
        Some(t) => Some(t),
        None => utf8_text(bytes),
    }
}

/// The two things that an extended parameter holds: the label of a character set and
/// bytes. It has the label, a language and the bytes with percent escapes, with a quote
/// between each two.
pub open spec fn extended_parts(v: Seq<u8>) -> Option<(Seq<u8>, Seq<u8>)> {
    let p = position(v, 0x27u8) as int;
    let tail = v.skip(p + 1);
    let q = position(tail, 0x27u8) as int;
    if p < v.len() && q < tail.len() {
        Some((v.take(p), unescaped(tail.skip(q + 1), 0x25, false)))
    } else {
        None
    }
}

/// The text of an extended parameter.
pub open spec fn extended_text(v: Seq<u8>) -> Option<Seq<char>> {
    match extended_parts(v) {
        Some((label, bytes)) => labelled_text(label, bytes),
        None => None,
    }
}

/// The text of an extended parameter. One in UTF-8 gives the text that its bytes encode.
pub fn decode_rfc2231(v: &str) -> (r: Option<String>)
    requires
        fits(encode_utf8(v@).len()),
    ensures
        opt_view(r) == extended_text(encode_utf8(v@)),
        extended_parts(encode_utf8(v@)) matches Some((label, bytes)) ==> is_utf8_label(label)
            && valid_utf8(bytes) && !has_utf8_mark(bytes) ==> opt_view(r) == Some(
            decode_utf8(bytes),
        ),
{
    let b = v.as_bytes();
    let p = match find_byte(b, 0x27) {
        Some(p) => p,
        None => {
            return None;
        },
    };
    let tail = slice_subrange(b, p + 1, b.len());
    proof {
        assert(tail@ =~= b@.skip(p + 1));
    }
    let q = match find_byte(tail, 0x27) {
        Some(q) => q,
        None => {
            return None;
        },
    };
    let label = slice_subrange(b, 0, p);
    let rest = slice_subrange(tail, q + 1, tail.len());
    proof {
        assert(label@ =~= b@.take(p as int));
        assert(rest@ =~= tail@.skip(q + 1));
    }
    decode_labelled(label, unescape(rest, 0x25, false))
}

/// The text of a parameter whose name ends with a star: an extended text, or one with
/// percent escapes alone.
pub open spec fn star_text(v: Seq<u8>) -> Option<Seq<char>> {
    match extended_text(v) {
        Some(t) => Some(t),
        None => utf8_chars(unescaped(v, 0x25, false)),
    }
}

/// The text of a parameter whose name ends with a star.
fn decode_star(v: &str) -> (r: Option<String>)
    requires
        fits(encode_utf8(v@).len()),
    ensures
        opt_view(r) == star_text(encode_utf8(v@)),
{
    match decode_rfc2231(v) {
        Some(t) => Some(t),
        None => utf8_text(percent_decode_to_bytes(v)),
    }
}

/// Where `?=` first stands, or the length if it stands nowhere.
pub open spec fn word_end(s: Seq<char>) -> nat
    decreases s.len(),
{
    if s.len() < 2 {
        s.len()
    } else if s[0] == '?' && s[1] == '=' {
        0
    } else {
        1 + word_end(s.skip(1))
    }
}

/// The three parts of an encoded word at the start of a text, and how many characters it
/// takes, if there is one.
pub open spec fn encoded_word(s: Seq<char>) -> Option<(Seq<Seq<char>>, int)> {
    let rest = s.skip(2);
    let end = word_end(rest) as int;
    let parts = split(rest.take(end), '?');
    if s.len() > 2 && s[0] == '=' && s[1] == '?' && end < rest.len() && parts.len() == 3 {
        Some((parts, end + 4))
    } else {
        None
    }
}

/// The text of an encoded word: of bytes in base64 or with escapes, in the character
/// set that the word names. Bytes that are no text give nothing.
pub open spec fn encoded_text(label: Seq<char>, how: Seq<char>, text: Seq<char>) -> Seq<char> {
    let bytes = if lower(how) == "b"@ {
        match base64_bytes(encode_utf8(text)) {
            Some(b) => b,
            None => seq![],
        }
    } else {
        unescaped(encode_utf8(text), 0x3D, true)
    };
    match labelled_text(encode_utf8(label), bytes) {
        Some(t) => t,
        None => seq![],
    }
}

/// What stands at the start of a text, and how many characters it takes: an encoded word,
/// or one character as it is.
pub open spec fn first_piece(s: Seq<char>) -> (Seq<char>, int) {
    match encoded_word(s) {
        Some((parts, n)) => (encoded_text(parts[0], parts[1], parts[2]), n),
        None => (seq![s[0]], 1),
    }
}

/// The text of a parameter with its encoded words resolved.
pub open spec fn words_text(s: Seq<char>) -> Seq<char>
    decreases s.len(),
{
    if s.len() == 0 {
        seq![]
    } else {
        proof {
            lemma_first_piece(s);
        }
        first_piece(s).0 + words_text(s.skip(first_piece(s).1))
    }
}

pub proof fn lemma_word_end(s: Seq<char>)
    ensures
        word_end(s) <= s.len(),
        word_end(s) < s.len() ==> word_end(s) + 1 < s.len(),
    decreases s.len(),
{
    if s.len() >= 2 && !(s[0] == '?' && s[1] == '=') {
        lemma_word_end(s.skip(1));
    }
}

pub proof fn lemma_first_piece(s: Seq<char>)
    requires
        s.len() > 0,
    ensures
        1 <= first_piece(s).1 <= s.len(),
{
    if encoded_word(s) is Some {
        lemma_word_end(s.skip(2));
    }
}

/// Where `?=` first stands, or the length if it stands nowhere.
fn find_word_end(s: &[char]) -> (r: usize)
    ensures
        r == word_end(s@),
{
    let mut i: usize = 0;
    proof {
        assert(s@.skip(0) =~= s@);
    }
    while s.len() - i >= 2
        invariant
            i <= s@.len(),
            word_end(s@) == i + word_end(s@.skip(i as int)),
        decreases s@.len() - i,
    {
        if s[i] == '?' && s[i + 1] == '=' {
            return i;
        }
        proof {
            assert(s@.skip(i as int).skip(1) =~= s@.skip(i + 1));
        }
        i += 1;
    }
    s.len()
}

/// The encoded word at the start of a text, if there is one.
fn find_encoded_word(s: &[char]) -> (r: Option<(Vec<Vec<char>>, usize)>)
    ensures
        match r {
            Some((parts, n)) => encoded_word(s@) == Some((views(parts@), n as int)) && n <= s@.len()
                && parts@.len() == 3,
            None => encoded_word(s@) is None,
        },
{
    if s.len() <= 2 || s[0] != '=' || s[1] != '?' {
        return None;
    }
    let rest = slice_subrange(s, 2, s.len());
    proof {
        assert(rest@ =~= s@.skip(2));
        lemma_word_end(rest@);
    }
    let end = find_word_end(rest);
    if end >= rest.len() {
        return None;
    }
    let token = slice_subrange(rest, 0, end);
    proof {
        assert(token@ =~= rest@.take(end as int));
    }
    let parts = split_chars(token, '?');
    if parts.len() != 3 {
        return None;
    }
    Some((parts, end + 4))
}

/// The text of an encoded word.
fn decode_word(label: &str, how: &str, text: &str) -> (r: String)
    requires
        fits(encode_utf8(text@).len()),
    ensures
        r@ == encoded_text(label@, how@, text@),
{
    let bytes: Vec<u8> = if same_text(lower_text(how).as_str(), "b") {
        match base64_decode(text.as_bytes()) {
            Some(b) => {
                proof {
                    lemma_base64_len(b@);
                }
                b
            },
            None => Vec::new(),
        }
    } else {
        unescape(text.as_bytes(), 0x3D, true)
    };
    match decode_labelled(label.as_bytes(), bytes) {
        Some(t) => t,
        None => String::new(),
    }
}

proof fn lemma_base64_len(b: Seq<u8>)
    ensures
        b.len() <= base64_padded(b).len(),
    decreases b.len(),
{
    if b.len() > 2 {
        lemma_base64_len(b.skip(3));
    }
}

/// The text of a parameter with its encoded words resolved.
pub fn decode_rfc2047_word(s: &str) -> (r: String)
    requires
        fits(encode_utf8(s@).len()),
    ensures
        r@ == words_text(s@),
{
    let b = to_chars(s);
    let mut out = String::new();
    let mut i: usize = 0;
    proof {
        assert(b@.skip(0) =~= b@);
        assert(out@ + words_text(b@) =~= words_text(b@));
    }
    while i < b.len()
        invariant
            i <= b@.len(),
            fits(encode_utf8(b@).len()),
            out@ + words_text(b@.skip(i as int)) == words_text(b@),
        decreases b@.len() - i,
    {
        let ghost t = b@.skip(i as int);
        let ghost before = out@;
        let rest = slice_subrange(b.as_slice(), i, b.len());
        proof {
            assert(rest@ =~= t);
        }
        match find_encoded_word(rest) {
            Some((parts, n)) => {
                proof {
                    lemma_word_end(t.skip(2));
                    let end = word_end(t.skip(2)) as int;
                    let token = t.skip(2).take(end);
                    assert(token =~= b@.subrange(i + 2, i + 2 + end));
                    lemma_part_len(b@, i + 2, i + 2 + end);
                    lemma_pieces_len(token, '?');
                    assert(views(parts@)[0] == parts@[0]@);
                    assert(views(parts@)[1] == parts@[1]@);
                    assert(views(parts@)[2] == parts@[2]@);
                }
                let word = decode_word(
                    from_chars(parts[0].as_slice()).as_str(),
                    from_chars(parts[1].as_slice()).as_str(),
                    from_chars(parts[2].as_slice()).as_str(),
                );
                out.push_str(word.as_str());
                proof {
                    assert(t.skip(n as int) =~= b@.skip(i + n));
                    assert(out@ + words_text(b@.skip(i + n)) =~= before + words_text(t));
                }
                i += n;
            },
            None => {
                out.push(b[i]);
                proof {
                    assert(t.skip(1) =~= b@.skip(i + 1));
                    assert(out@ + words_text(b@.skip(i + 1)) =~= before + words_text(t));
                }
                i += 1;
            },
        }
    }
    proof {
        assert(b@.skip(i as int) =~= Seq::<char>::empty());
        assert(out@ + Seq::<char>::empty() =~= out@);
    }
    out
}

/// The UTF-8 form of a text is that of its parts.
proof fn lemma_encode_concat(a: Seq<char>, b: Seq<char>)
    ensures
        encode_utf8(a + b) == encode_utf8(a) + encode_utf8(b),
    decreases a.len(),
{
    if a.len() == 0 {
        assert(a + b =~= b);
        assert(encode_utf8(a) + encode_utf8(b) =~= encode_utf8(b));
    } else {
        lemma_encode_concat(a.drop_first(), b);
        assert((a + b).drop_first() =~= a.drop_first() + b);
        assert(encode_utf8(a + b) =~= encode_scalar(a[0] as u32) + (encode_utf8(a.drop_first())
            + encode_utf8(b)));
        assert(encode_utf8(a) + encode_utf8(b) =~= encode_scalar(a[0] as u32) + (encode_utf8(
            a.drop_first(),
        ) + encode_utf8(b)));
    }
}

/// A part of a text takes no more bytes than the text.
proof fn lemma_part_len(s: Seq<char>, a: int, b: int)
    requires
        0 <= a <= b <= s.len(),
    ensures
        encode_utf8(s.subrange(a, b)).len() <= encode_utf8(s).len(),
{
    assert(s =~= s.take(a) + (s.subrange(a, b) + s.skip(b)));
    lemma_encode_concat(s.take(a), s.subrange(a, b) + s.skip(b));
    lemma_encode_concat(s.subrange(a, b), s.skip(b));
}

/// The pieces of a text take no more bytes than the text.
proof fn lemma_pieces_len(s: Seq<char>, sep: char)
    ensures
        forall|i: int|
            0 <= i < split(s, sep).len() ==> encode_utf8(#[trigger] split(s, sep)[i]).len()
                <= encode_utf8(s).len(),
    decreases s.len(),
{
    crate::text::lemma_position(s, sep);
    let p = position(s, sep) as int;
    if p < s.len() {
        lemma_pieces_len(s.skip(p + 1), sep);
        lemma_part_len(s, 0, p);
        lemma_part_len(s, p + 1, s.len() as int);
        assert(s.subrange(0, p) =~= s.take(p));
        assert(s.subrange(p + 1, s.len() as int) =~= s.skip(p + 1));
        assert forall|i: int| 0 <= i < split(s, sep).len() implies encode_utf8(
            #[trigger] split(s, sep)[i],
        ).len() <= encode_utf8(s).len() by {
            if i > 0 {
                assert(split(s, sep)[i] == split(s.skip(p + 1), sep)[i - 1]);
            }
        }
    }
}

/// A plain text, in which no encoded word starts, is kept as it is.
pub proof fn law_plain_text_is_kept(s: Seq<char>)
    requires
        forall|i: int| 0 <= i < s.len() - 1 ==> !(#[trigger] s[i] == '=' && s[i + 1] == '?'),
    ensures
        words_text(s) == s,
    decreases s.len(),
{
    if s.len() > 0 {
        let t = s.skip(1);
        assert forall|i: int| 0 <= i < t.len() - 1 implies !(#[trigger] t[i] == '=' && t[i + 1]
            == '?') by {
            assert(t[i] == s[i + 1] && t[i + 1] == s[i + 2]);
        }
        law_plain_text_is_kept(t);
        assert(encoded_word(s) is None);
        assert(s =~= seq![s[0]] + t);
    }
}

/// An encoded word at the start of a text is resolved, and what follows it is read as if it
/// stood alone, whatever it is: no word is resolved in place of another, and none is left as
/// it was.
pub proof fn law_every_word_is_resolved(w: Seq<char>, s: Seq<char>, parts: Seq<Seq<char>>)
    requires
        encoded_word(w + s) == Some((parts, w.len() as int)),
    ensures
        words_text(w + s) == encoded_text(parts[0], parts[1], parts[2]) + words_text(s),
{
    assert((w + s).skip(w.len() as int) =~= s);
    assert(w.len() > 0) by {
        lemma_word_end((w + s).skip(2));
    }
}

/// A character that starts no encoded word stays as it is, and what follows it is read as if
/// it stood alone.
pub proof fn law_other_characters_are_kept(c: char, s: Seq<char>)
    requires
        encoded_word(seq![c] + s) is None,
    ensures
        words_text(seq![c] + s) == seq![c] + words_text(s),
{
    assert((seq![c] + s).skip(1) =~= s);
}

/// A text in which no equals sign stands is kept before any other text.
pub proof fn law_text_before_words_is_kept(a: Seq<char>, s: Seq<char>)
    requires
        !a.contains('='),
    ensures
        words_text(a + s) == a + words_text(s),
    decreases a.len(),
{
    if a.len() == 0 {
        assert(a + s =~= s);
        assert(a + words_text(s) =~= words_text(s));
    } else {
        let t = a.skip(1);
        assert forall|i: int| 0 <= i < t.len() implies t[i] != '=' by {
            assert(t[i] == a[i + 1]);
            assert(a.contains(a[i + 1]));
        }
        law_text_before_words_is_kept(t, s);
        assert(a.contains(a[0]));
        assert((a + s)[0] == a[0]);
        law_other_characters_are_kept(a[0], t + s);
        assert(a + s =~= seq![a[0]] + (t + s));
        assert(a + words_text(s) =~= seq![a[0]] + (t + words_text(s)));
    }
}

/// An encoded word with a label, a way of encoding and a text.
pub open spec fn word_of(label: Seq<char>, how: Seq<char>, text: Seq<char>) -> Seq<char> {
    seq!['=', '?'] + label + seq!['?'] + how + seq!['?'] + text + seq!['?', '=']
}

/// Whether a text can be a part of an encoded word: no question mark stands in it, and it
/// does not start with an equals sign.
pub open spec fn is_word_part(s: Seq<char>) -> bool {
    !s.contains('?') && (s.len() > 0 ==> s[0] != '=')
}

/// Where a word ends whose parts hold no question marks.
proof fn lemma_word_end_is(s: Seq<char>, n: int)
    requires
        0 <= n,
        n + 2 <= s.len(),
        s[n] == '?' && s[n + 1] == '=',
        forall|i: int| 0 <= i < n ==> !(#[trigger] s[i] == '?' && s[i + 1] == '='),
    ensures
        word_end(s) == n,
    decreases n,
{
    if n > 0 {
        let t = s.skip(1);
        assert(!(s[0int] == '?' && s[0int + 1] == '='));
        assert forall|i: int| 0 <= i < n - 1 implies !(#[trigger] t[i] == '?' && t[i + 1] == '=') by {
            assert(t[i] == s[i + 1] && t[i + 1] == s[i + 1 + 1]);
        }
        lemma_word_end_is(t, n - 1);
    }
}

/// A text before the first separator is the first piece.
proof fn lemma_split_first(a: Seq<char>, b: Seq<char>, sep: char)
    requires
        !a.contains(sep),
    ensures
        split(a + seq![sep] + b, sep) == seq![a] + split(b, sep),
{
    let s = a + seq![sep] + b;
    assert forall|j: int| 0 <= j < a.len() implies s[j] != sep by {
        assert(a.contains(a[j]));
    }
    crate::text::lemma_position_is(s, sep, a.len() as int);
    assert(s.take(a.len() as int) =~= a);
    assert(s.skip(a.len() as int + 1) =~= b);
}

/// A word that is written with a label, a way of encoding and a text is read with these.
proof fn lemma_word_is_found(label: Seq<char>, how: Seq<char>, text: Seq<char>, s: Seq<char>)
    requires
        !label.contains('?'),
        is_word_part(how),
        is_word_part(text),
    ensures
        encoded_word(word_of(label, how, text) + s) == Some(
            (seq![label, how, text], word_of(label, how, text).len() as int),
        ),
{
    let w = word_of(label, how, text);
    let token = label + seq!['?'] + how + seq!['?'] + text;
    let rest = (w + s).skip(2);
    let n = token.len() as int;
    assert(rest =~= token + seq!['?', '='] + s);
    let p = label.len() as int;
    let q = p + 1 + how.len();
    assert forall|i: int| 0 <= i < n implies !(#[trigger] rest[i] == '?' && rest[i + 1] == '=') by {
        assert(rest[i] == token[i]);
        if i < p {
            assert(label.contains(label[i]));
            assert(token[i] == label[i]);
        } else if i == p {
            if how.len() > 0 {
                assert(rest[i + 1] == how[0]);
            } else {
                assert(rest[i + 1] == '?');
            }
        } else if i < q {
            assert(how.contains(how[i - p - 1]));
            assert(token[i] == how[i - p - 1]);
        } else if i == q {
            if text.len() > 0 {
                assert(rest[i + 1] == text[0]);
            } else {
                assert(rest[i + 1] == '?');
            }
        } else {
            assert(text.contains(text[i - q - 1]));
            assert(token[i] == text[i - q - 1]);
        }
    }
    lemma_word_end_is(rest, n);
    assert(rest.take(n) =~= token);
    let tail = how + seq!['?'] + text;
    assert(token =~= label + seq!['?'] + tail);
    lemma_split_first(label, tail, '?');
    lemma_split_first(how, text, '?');
    assert forall|j: int| 0 <= j < text.len() implies text[j] != '?' by {
        assert(text.contains(text[j]));
    }
    crate::text::lemma_position_is(text, '?', text.len() as int);
    assert(split(text, '?') =~= seq![text]);
    assert(split(token, '?') =~= seq![label, how, text]);
    assert((w + s)[0] == '=' && (w + s)[1] == '?');
}

/// A name that starts with an encoded word gives the text of that word and then the rest of
/// the name, with the words in it resolved too: so a name of two words with something between
/// them gives the texts of both, with that between them.
pub proof fn law_words_are_resolved_one_after_the_other(
    label: Seq<char>,
    how: Seq<char>,
    text: Seq<char>,
    between: Seq<char>,
    label2: Seq<char>,
    how2: Seq<char>,
    text2: Seq<char>,
    s: Seq<char>,
)
    requires
        !label.contains('?'),
        is_word_part(how),
        is_word_part(text),
        !between.contains('='),
        !label2.contains('?'),
        is_word_part(how2),
        is_word_part(text2),
    ensures
        words_text(word_of(label, how, text) + s) == encoded_text(label, how, text) + words_text(s),
        words_text(word_of(label, how, text) + (between + (word_of(label2, how2, text2) + s)))
            == encoded_text(label, how, text) + (between + (encoded_text(label2, how2, text2)
            + words_text(s))),
{
    lemma_word_is_found(label, how, text, s);
    law_every_word_is_resolved(word_of(label, how, text), s, seq![label, how, text]);
    let later = word_of(label2, how2, text2) + s;
    lemma_word_is_found(label, how, text, between + later);
    law_every_word_is_resolved(
        word_of(label, how, text),
        between + later,
        seq![label, how, text],
    );
    law_text_before_words_is_kept(between, later);
    lemma_word_is_found(label2, how2, text2, s);
    law_every_word_is_resolved(word_of(label2, how2, text2), s, seq![label2, how2, text2]);
}

/// A word says the text of the bytes that are written in it, in the character set that it
/// names: in base64 where it says so by the letter b, and else with an equals sign before the
/// two digits of each byte. Bytes that are no text in that character set say nothing.
pub proof fn law_words_say_their_bytes(
    label: Seq<char>,
    how: Seq<char>,
    text: Seq<char>,
    bytes: Seq<u8>,
)
    requires
        how == seq!['b'] || how == seq!['B'] ==> base64_bytes(encode_utf8(text)) == Some(bytes),
        how == seq!['q'] || how == seq!['Q'] ==> encode_utf8(text) == escaped(bytes, 0x3D),
        how == seq!['b'] || how == seq!['B'] || how == seq!['q'] || how == seq!['Q'],
    ensures
        encoded_text(label, how, text) == (match labelled_text(encode_utf8(label), bytes) {
            Some(t) => t,
            None => seq![],
        }),
{
    reveal_strlit("b");
    assert("b"@ =~= seq!['b']);
    assert(lower(how).len() == 1);
    if how == seq!['b'] || how == seq!['B'] {
        assert(lower(how) =~= "b"@);
    } else {
        assert(lower(how)[0] == 'q');
        law_escaped_bytes_come_back(bytes, 0x3D, true);
    }
}

/// Bytes with every one of them written as an escape come back as they were.
pub proof fn law_escaped_bytes_come_back(bytes: Seq<u8>, mark: u8, spaces: bool)
    ensures
        unescaped(escaped(bytes, mark), mark, spaces) == bytes,
    decreases bytes.len(),
{
    if bytes.len() > 0 {
        let s = escaped(bytes, mark);
        let b = bytes[0];
        let t = bytes.skip(1);
        law_escaped_bytes_come_back(t, mark, spaces);
        assert(s[0] == mark && s[1] == hex_char(b as int / 16) && s[2] == hex_char(b as int % 16));
        assert(s.skip(3) =~= escaped(t, mark));
        assert(hex_value(hex_char(b as int / 16)) == Some(b as int / 16));
        assert(hex_value(hex_char(b as int % 16)) == Some(b as int % 16));
        assert(hex_pair(s[1], s[2]) == Some(b));
        if t.len() == 0 {
            assert(unescaped(s, mark, spaces) =~= seq![b]);
        }
        assert(bytes =~= seq![b] + t);
    }
}

/// The hexadecimal digit with a value below 16.
pub open spec fn hex_char(n: int) -> u8 {
    if n < 10 {
        (0x30 + n) as u8
    } else {
        (0x41 + n - 10) as u8
    }
}

/// Bytes with every one of them written as an escape.
pub open spec fn escaped(bytes: Seq<u8>, mark: u8) -> Seq<u8>
    decreases bytes.len(),
{
    if bytes.len() == 0 {
        seq![]
    } else {
        seq![mark, hex_char(bytes[0] as int / 16), hex_char(bytes[0] as int % 16)] + escaped(
            bytes.skip(1),
            mark,
        )
    }
}

/// A parameter of a header field.
pub struct Param {
    /// Its name.
    pub name: String,
    /// Its value.
    pub value: String,
}

/// The name and the value of a parameter.
pub type ParamView = (Seq<char>, Seq<char>);

impl View for Param {
    type V = ParamView;

    open spec fn view(&self) -> ParamView {
        (self.name@, self.value@)
    }
}

/// The names and the values of parameters.
pub open spec fn param_views(params: Seq<Param>) -> Seq<ParamView> {
    params.map_values(|p: Param| p@)
}

/// The names and the values of parameters, if there are any.
pub open spec fn opt_params(params: Option<Vec<Param>>) -> Option<Seq<ParamView>> {
    match params {
        Some(p) => Some(param_views(p@)),
        None => None,
    }
}

/// What a search for a name has found.
pub enum Found {
    /// No name.
    Missing,
    /// A name that is too long to be read on this machine.
    Unreadable,
    /// A name.
    Name(String),
}

/// What a search for a name has found.
#[verifier::ext_equal]
pub enum FoundView {
    Missing,
    Unreadable,
    Name(Seq<char>),
}

impl View for Found {
    type V = FoundView;

    open spec fn view(&self) -> FoundView {
        match self {
            Found::Missing => FoundView::Missing,
            Found::Unreadable => FoundView::Unreadable,
            Found::Name(s) => FoundView::Name(s@),
        }
    }
}

/// The first name among parameters: an extended one, under the key with a star, that
/// is a text, or a plain one, under the key itself.
pub open spec fn search(
    params: Seq<ParamView>,
    key: Seq<char>,
    stars: bool,
    plains: bool,
) -> FoundView
    decreases params.len(),
{
    if params.len() == 0 {
        FoundView::Missing
    } else {
        let name = lower(params[0].0);
        let value = encode_utf8(params[0].1);
        let rest = search(params.skip(1), key, stars, plains);
        if stars && name == key + "*"@ {
            if !fits(value.len()) {
                FoundView::Unreadable
            } else {
                match star_text(value) {
                    Some(t) => FoundView::Name(t),
                    None => rest,
                }
            }
        } else if plains && name == key {
            if fits(value.len()) {
                FoundView::Name(words_text(params[0].1))
            } else {
                FoundView::Unreadable
            }
        } else {
            rest
        }
    }
}

/// Whether the size of a text for a string can be computed on this machine.
fn string_fits(s: &str) -> (r: bool)
    ensures
        r == fits(encode_utf8(s@).len()),
{
    s.as_bytes().len() <= usize::MAX / 8
}

/// The first name among parameters.
fn search_params(params: &Vec<Param>, key: &str, stars: bool, plains: bool) -> (r: Found)
    ensures
        r@ == search(param_views(params@), key@, stars, plains),
{
    let mut starred = key.to_owned();
    starred.push_str("*");
    let ghost all = param_views(params@);
    let mut i: usize = 0;
    proof {
        assert(all.skip(0) =~= all);
    }
    while i < params.len()
        invariant
            i <= params@.len(),
            all == param_views(params@),
            starred@ == key@ + "*"@,
            search(all, key@, stars, plains) == search(all.skip(i as int), key@, stars, plains),
        decreases params@.len() - i,
    {
        let param = &params[i];
        proof {
            let t = all.skip(i as int);
            assert(t[0] == param@);
            assert(t.skip(1) =~= all.skip(i + 1));
        }
        let name = lower_text(param.name.as_str());
        if stars && same_text(name.as_str(), starred.as_str()) {
            if !string_fits(param.value.as_str()) {
                return Found::Unreadable;
            }
            if let Some(t) = decode_star(param.value.as_str()) {
                return Found::Name(t);
            }
        } else if plains && same_text(name.as_str(), key) {
            if string_fits(param.value.as_str()) {
                return Found::Name(decode_rfc2047_word(param.value.as_str()));
            }
            return Found::Unreadable;
        }
        i += 1;
    }
    proof {
        assert(all.skip(i as int) =~= Seq::<ParamView>::empty());
    }
    Found::Missing
}

/// The name that the parameters of a part give: that of its disposition, an extended
/// one before a plain one, or else that of its content type.
pub open spec fn given_name(
    disposition: Option<Seq<ParamView>>,
    content_type: Option<Seq<ParamView>>,
) -> FoundView {
    let by_star = match disposition {
        Some(params) => search(params, "filename"@, true, false),
        None => FoundView::Missing,
    };
    let by_disposition = match (by_star, disposition) {
        (FoundView::Missing, Some(params)) => search(params, "filename"@, false, true),
        (f, _) => f,
    };
    match (by_disposition, content_type) {
        (FoundView::Missing, Some(params)) => search(params, "name"@, true, true),
        (f, _) => f,
    }
}

/// A name whose bytes still switch character sets, as ISO-2022-JP does with an escape
/// character, is read once more in that character set.
pub open spec fn settled(name: Seq<char>) -> Option<Seq<char>> {
    let bytes = encode_utf8(name);
    if !bytes.contains(0x1B) {
        Some(name)
    } else if !fits(bytes.len()) {
        None
    } else {
        match charset_text(encode_utf8("ISO-2022-JP"@), bytes) {
            Some(t) => Some(t),
            None => Some(name),
        }
    }
}

/// The name of an attachment, or nothing if it is too long to be read on this machine. One
/// without a name is called so.
pub open spec fn name_of(
    disposition: Option<Seq<ParamView>>,
    content_type: Option<Seq<ParamView>>,
) -> Option<Seq<char>> {
    match given_name(disposition, content_type) {
        FoundView::Missing => settled("(ファイル名なし)"@),
        FoundView::Unreadable => None,
        FoundView::Name(name) => settled(name),
    }
}

/// The name of an attachment, or nothing if it is too long to be read on this machine.
pub fn attachment_name(
    disposition: &Option<Vec<Param>>,
    content_type: &Option<Vec<Param>>,
) -> (r: Option<String>)
    ensures
        opt_view(r) == name_of(opt_params(*disposition), opt_params(*content_type)),
{
    let mut found = Found::Missing;
    if let Some(params) = disposition {
        found = search_params(params, "filename", true, false);
        if matches!(found, Found::Missing) {
            found = search_params(params, "filename", false, true);
        }
    }
    if let Some(params) = content_type {
        if matches!(found, Found::Missing) {
            found = search_params(params, "name", true, true);
        }
    }
    let name = match found {
        Found::Missing => "(ファイル名なし)".to_owned(),
        Found::Unreadable => {
            return None;
        },
        Found::Name(name) => name,
    };
    proof {
        crate::text::lemma_position(encode_utf8(name@), 0x1Bu8);
    }
    match find_byte(name.as_str().as_bytes(), 0x1B) {
        None => Some(name),
        Some(_) => {
            if !string_fits(name.as_str()) {
                return None;
            }
            match decode_charset("ISO-2022-JP".as_bytes(), name.as_str().as_bytes()) {
                Some(t) => Some(t),
                None => Some(name),
            }
        },
    }
}

/// Bytes without marks are kept as they are; an underscore is a space only where spaces are
/// written so.
pub proof fn law_plain_bytes_are_kept(s: Seq<u8>, mark: u8)
    requires
        !s.contains(mark),
        mark != 0x5F,
    ensures
        unescaped(s, mark, false) == s,
        unescaped(s, mark, true) == s.map_values(
            |b: u8|
                if b == 0x5F {
                    0x20u8
                } else {
                    b
                },
        ),
    decreases s.len(),
{
    let spaced = |b: u8|
        if b == 0x5F {
            0x20u8
        } else {
            b
        };
    if s.len() > 0 {
        let t = s.skip(1);
        assert(s.contains(s[0]));
        assert forall|i: int| 0 <= i < t.len() implies t[i] != mark by {
            assert(s.contains(s[i + 1]));
        }
        law_plain_bytes_are_kept(t, mark);
        assert(s =~= seq![s[0]] + t);
        assert(s.map_values(spaced) =~= seq![spaced(s[0])] + t.map_values(spaced));
    } else {
        assert(s.map_values(spaced) =~= Seq::<u8>::empty());
    }
}

/// An extended parameter is read with the label and the bytes that it was written with,
/// whatever its language.
pub proof fn law_extended_parameter_is_read(label: Seq<u8>, language: Seq<u8>, bytes: Seq<u8>)
    requires
        !label.contains(0x27),
        !language.contains(0x27),
    ensures
        extended_parts(label + seq![0x27u8] + language + seq![0x27u8] + escaped(bytes, 0x25))
            == Some((label, bytes)),
        star_text(label + seq![0x27u8] + language + seq![0x27u8] + escaped(bytes, 0x25)) == (
        match labelled_text(label, bytes) {
            Some(t) => Some(t),
            None => utf8_chars(
                unescaped(
                    label + seq![0x27u8] + language + seq![0x27u8] + escaped(bytes, 0x25),
                    0x25,
                    false,
                ),
            ),
        }),
{
    let e = escaped(bytes, 0x25);
    let v = label + seq![0x27u8] + language + seq![0x27u8] + e;
    let tail = language + seq![0x27u8] + e;
    assert forall|j: int| 0 <= j < label.len() implies v[j] != 0x27 by {
        assert(v[j] == label[j]);
        assert(label.contains(label[j]));
    }
    crate::text::lemma_position_is(v, 0x27u8, label.len() as int);
    assert(v.take(label.len() as int) =~= label);
    assert(v.skip(label.len() as int + 1) =~= tail);
    assert forall|j: int| 0 <= j < language.len() implies tail[j] != 0x27 by {
        assert(tail[j] == language[j]);
        assert(language.contains(language[j]));
    }
    crate::text::lemma_position_is(tail, 0x27u8, language.len() as int);
    assert(tail.skip(language.len() as int + 1) =~= e);
    law_escaped_bytes_come_back(bytes, 0x25, false);
}

/// Bytes are read in the character set that is named, and as UTF-8 where there is no such
/// character set.
pub proof fn law_named_character_set_counts(label: Seq<u8>, bytes: Seq<u8>)
    ensures
        charset_text(label, bytes) is Some ==> labelled_text(label, bytes) == charset_text(
            label,
            bytes,
        ),
        charset_text(label, bytes) is None && valid_utf8(bytes) ==> labelled_text(label, bytes)
            == Some(decode_utf8(bytes)),
{
}

/// Parameters under other names do not matter to the search for a name, wherever they stand.
pub proof fn law_other_parameters_do_not_matter(
    before: Seq<ParamView>,
    params: Seq<ParamView>,
    key: Seq<char>,
    stars: bool,
    plains: bool,
)
    requires
        forall|i: int|
            0 <= i < before.len() ==> lower((#[trigger] before[i]).0) != key && lower(before[i].0)
                != key + "*"@,
    ensures
        search(before + params, key, stars, plains) == search(params, key, stars, plains),
    decreases before.len(),
{
    if before.len() == 0 {
        assert(before + params =~= params);
    } else {
        let all = before + params;
        assert(all[0] == before[0]);
        assert(lower(before[0].0) != key);
        assert(all.skip(1) =~= before.skip(1) + params);
        assert forall|i: int| 0 <= i < before.skip(1).len() implies lower(
            (#[trigger] before.skip(1)[i]).0,
        ) != key && lower(before.skip(1)[i].0) != key + "*"@ by {
            assert(before.skip(1)[i] == before[i + 1]);
        }
        law_other_parameters_do_not_matter(before.skip(1), params, key, stars, plains);
    }
}

/// A plain parameter under the key, in capitals or small letters, gives its value with its
/// encoded words resolved, and one under the key with a star gives its extended text.
pub proof fn law_parameter_gives_the_name(
    name: Seq<char>,
    value: Seq<char>,
    params: Seq<ParamView>,
    key: Seq<char>,
    stars: bool,
    plains: bool,
)
    requires
        fits(encode_utf8(value).len()),
    ensures
        plains && lower(name) == key ==> search(seq![(name, value)] + params, key, stars, plains)
            == FoundView::Name(words_text(value)),
        stars && lower(name) == key + "*"@ ==> (star_text(encode_utf8(value)) matches Some(t)
            ==> search(seq![(name, value)] + params, key, stars, plains) == FoundView::Name(t)),
        search(seq![], key, stars, plains) is Missing,
{
    reveal_strlit("*");
    let all = seq![(name, value)] + params;
    assert(all[0] == (name, value));
    assert(all.skip(1) =~= params);
    assert((key + "*"@).len() == key.len() + 1);
}

/// The name that the disposition of a part gives comes before that of its content type, and
/// an extended name before a plain one. A part without any name has a name that says so.
pub proof fn law_disposition_names_first(
    disposition: Option<Seq<ParamView>>,
    content_type: Option<Seq<ParamView>>,
)
    ensures
        disposition matches Some(d) ==> {
            &&& search(d, "filename"@, true, false) !is Missing ==> given_name(
                disposition,
                content_type,
            ) == search(d, "filename"@, true, false)
            &&& search(d, "filename"@, true, false) is Missing && search(
                d,
                "filename"@,
                false,
                true,
            ) !is Missing ==> given_name(disposition, content_type) == search(
                d,
                "filename"@,
                false,
                true,
            )
            &&& search(d, "filename"@, true, false) is Missing && search(
                d,
                "filename"@,
                false,
                true,
            ) is Missing ==> given_name(disposition, content_type) == given_name(
                None,
                content_type,
            )
        },
        content_type matches Some(c) ==> given_name(None, content_type) == search(
            c,
            "name"@,
            true,
            true,
        ),
        given_name(None, None) is Missing,
        given_name(disposition, content_type) is Missing ==> name_of(disposition, content_type)
            == settled("(ファイル名なし)"@),
{
}

/// A name whose bytes do not switch character sets is kept as it was found, and one whose
/// bytes do is read once more in the character set that switches so.
pub proof fn law_found_name_is_kept(
    disposition: Option<Seq<ParamView>>,
    content_type: Option<Seq<ParamView>>,
)
    ensures
        given_name(disposition, content_type) matches FoundView::Name(name) ==> (!encode_utf8(
            name,
        ).contains(0x1B) ==> name_of(disposition, content_type) == Some(name)),
        given_name(disposition, content_type) matches FoundView::Name(name) ==> (encode_utf8(
            name,
        ).contains(0x1B) && fits(encode_utf8(name).len()) ==> (charset_text(
            encode_utf8("ISO-2022-JP"@),
            encode_utf8(name),
        ) matches Some(t) ==> name_of(disposition, content_type) == Some(t))),
        given_name(disposition, content_type) is Unreadable ==> name_of(
            disposition,
            content_type,
        ) is None,
{
}

/// An escape gives the byte of its two digits, in capitals or small letters, and an escape
/// whose characters are no digits gives nothing; what follows it is read as if it stood alone.
pub proof fn law_escapes_are_resolved_one_by_one(
    mark: u8,
    hi: u8,
    lo: u8,
    s: Seq<u8>,
    spaces: bool,
)
    requires
        s.len() > 0,
    ensures
        hex_pair(hi, lo) matches Some(b) ==> unescaped(seq![mark, hi, lo] + s, mark, spaces)
            == seq![b] + unescaped(s, mark, spaces),
        hex_pair(hi, lo) is None ==> unescaped(seq![mark, hi, lo] + s, mark, spaces) == unescaped(
            s,
            mark,
            spaces,
        ),
        '0' <= hi as char <= '9' ==> hex_value(hi) == Some(hi - 0x30),
        'A' <= hi as char <= 'F' ==> hex_value(hi) == Some(hi - 0x41 + 10),
        'a' <= hi as char <= 'f' ==> hex_value(hi) == Some(hi - 0x61 + 10),
        hex_value(hi) is Some && hex_value(lo) is Some ==> hex_pair(hi, lo) is Some && hex_pair(
            hi,
            lo,
        )->Some_0 == hex_value(hi)->Some_0 * 16 + hex_value(lo)->Some_0,
{
    let t = seq![mark, hi, lo] + s;
    assert(t.skip(3) =~= s);
    assert(t[0] == mark && t[1] == hi && t[2] == lo);
}

} // verus!
