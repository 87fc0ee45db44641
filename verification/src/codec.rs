//! Bytes as text and as codes: base64, character sets and keyed hashes.
use crate::text::opt_view;
use base64::Engine;
use hmac::Mac;
use vstd::prelude::*;
use vstd::utf8::{decode_utf8, encode_utf8, valid_utf8};

verus! {

/// Whether the size of a text for so many bytes can be computed on this machine.
pub open spec fn fits(n: nat) -> bool {
    n <= usize::MAX / 8
}

/// The digit of base64 with a value below 64, as a byte. The last two digits differ
/// from one alphabet to the other.
pub open spec fn base64_digit(n: int, c62: u8, c63: u8) -> u8 {
    if n < 26 {
        (0x41 + n) as u8
    } else if n < 52 {
        (0x61 + n - 26) as u8
    } else if n < 62 {
        (0x30 + n - 52) as u8
    } else if n == 62 {
        c62
    } else {
        c63
    }
}

/// The four digits that stand for three bytes.
pub open spec fn base64_group(a: u8, b: u8, c: u8, c62: u8, c63: u8) -> Seq<u8> {
    seq![
        base64_digit(a as int / 4, c62, c63),
        base64_digit(a as int % 4 * 16 + b as int / 16, c62, c63),
        base64_digit(b as int % 16 * 4 + c as int / 64, c62, c63),
        base64_digit(c as int % 64, c62, c63),
    ]
}

/// Bytes in base64, with the usual alphabet and with padding.
pub open spec fn base64_padded(bytes: Seq<u8>) -> Seq<u8>
    decreases bytes.len(),
{
    if bytes.len() == 0 {
        seq![]
    } else if bytes.len() == 1 {
        base64_group(bytes[0], 0, 0, 0x2B, 0x2F).take(2) + seq![0x3Du8, 0x3Du8]
    } else if bytes.len() == 2 {
        base64_group(bytes[0], bytes[1], 0, 0x2B, 0x2F).take(3) + seq![0x3Du8]
    } else {
        base64_group(bytes[0], bytes[1], bytes[2], 0x2B, 0x2F) + base64_padded(bytes.skip(3))
    }
}

/// Bytes in base64, with the alphabet for URLs and without padding.
pub open spec fn base64_url(bytes: Seq<u8>) -> Seq<u8>
    decreases bytes.len(),
{
    if bytes.len() == 0 {
        seq![]
    } else if bytes.len() == 1 {
        base64_group(bytes[0], 0, 0, 0x2D, 0x5F).take(2)
    } else if bytes.len() == 2 {
        base64_group(bytes[0], bytes[1], 0, 0x2D, 0x5F).take(3)
    } else {
        base64_group(bytes[0], bytes[1], bytes[2], 0x2D, 0x5F) + base64_url(bytes.skip(3))
    }
}

/// The characters of ASCII bytes.
pub open spec fn ascii_chars(bytes: Seq<u8>) -> Seq<char> {
    bytes.map_values(|b: u8| b as char)
}

/// The bytes that a text stands for in base64, if it stands for any.
pub open spec fn base64_bytes(text: Seq<u8>) -> Option<Seq<u8>> {
    if exists|b: Seq<u8>| #[trigger] base64_padded(b) == text {
        Some(choose|b: Seq<u8>| #[trigger] base64_padded(b) == text)
    } else {
        None
    }
}

proof fn lemma_digit(m: int, n: int)
    requires
        0 <= m < 64,
        0 <= n < 64,
        base64_digit(m, 0x2B, 0x2F) == base64_digit(n, 0x2B, 0x2F),
    ensures
        m == n,
        base64_digit(m, 0x2B, 0x2F) != 0x3D,
{
}

proof fn lemma_group(a: u8, b: u8, c: u8, x: u8, y: u8, z: u8)
    requires
        base64_group(a, b, c, 0x2B, 0x2F) == base64_group(x, y, z, 0x2B, 0x2F),
    ensures
        a == x,
        b == y,
        c == z,
{
    let p = base64_group(a, b, c, 0x2B, 0x2F);
    let q = base64_group(x, y, z, 0x2B, 0x2F);
    assert(p[0] == q[0] && p[1] == q[1] && p[2] == q[2] && p[3] == q[3]);
    lemma_digit(a as int / 4, x as int / 4);
    lemma_digit(a as int % 4 * 16 + b as int / 16, x as int % 4 * 16 + y as int / 16);
    lemma_digit(b as int % 16 * 4 + c as int / 64, y as int % 16 * 4 + z as int / 64);
    lemma_digit(c as int % 64, z as int % 64);
}

/// Different bytes never look the same in base64.
pub proof fn law_base64_is_unambiguous(a: Seq<u8>, b: Seq<u8>)
    requires
        base64_padded(a) == base64_padded(b),
    ensures
        a == b,
    decreases a.len(),
{
    let p = base64_padded(a);
    let q = base64_padded(b);
    if a.len() == 0 || b.len() == 0 {
        assert(p.len() == 0 <==> a.len() == 0);
        assert(q.len() == 0 <==> b.len() == 0);
        assert(a =~= b);
    } else {
        let a1: u8 = if a.len() > 1 { a[1] } else { 0 };
        let a2: u8 = if a.len() > 2 { a[2] } else { 0 };
        let b1: u8 = if b.len() > 1 { b[1] } else { 0 };
        let b2: u8 = if b.len() > 2 { b[2] } else { 0 };
        let g = base64_group(a[0], a1, a2, 0x2B, 0x2F);
        let h = base64_group(b[0], b1, b2, 0x2B, 0x2F);
        assert(p[0] == g[0] && p[1] == g[1]);
        assert(q[0] == h[0] && q[1] == h[1]);
        assert(a.len() > 1 ==> p[2] == g[2]);
        assert(b.len() > 1 ==> q[2] == h[2]);
        assert(a.len() == 1 ==> p[2] == 0x3D && p[3] == 0x3D);
        assert(b.len() == 1 ==> q[2] == 0x3D && q[3] == 0x3D);
        assert(a.len() == 2 ==> p[3] == 0x3D);
        assert(b.len() == 2 ==> q[3] == 0x3D);
        assert(a.len() > 2 ==> p[3] == g[3]);
        assert(b.len() > 2 ==> q[3] == h[3]);
        lemma_digit(a1 as int % 16 * 4 + a2 as int / 64, a1 as int % 16 * 4 + a2 as int / 64);
        lemma_digit(b1 as int % 16 * 4 + b2 as int / 64, b1 as int % 16 * 4 + b2 as int / 64);
        lemma_digit(a2 as int % 64, a2 as int % 64);
        lemma_digit(b2 as int % 64, b2 as int % 64);
        assert((a.len() == 1) == (b.len() == 1));
        assert((a.len() == 2) == (b.len() == 2));
        assert(g =~= h);
        lemma_group(a[0], a1, a2, b[0], b1, b2);
        if a.len() > 2 {
            assert(p.skip(4) =~= base64_padded(a.skip(3)));
            assert(q.skip(4) =~= base64_padded(b.skip(3)));
            law_base64_is_unambiguous(a.skip(3), b.skip(3));
            assert(a =~= seq![a[0], a[1], a[2]] + a.skip(3));
            assert(b =~= seq![b[0], b[1], b[2]] + b.skip(3));
        } else {
            assert(a =~= b);
        }
    }
}

/// Calls `base64::Engine::decode` of the engine `STANDARD`: the bytes whose text in
/// base64, with padding, is the one given, or nothing if there are none.
#[verifier::external_body]
fn decode_standard(text: &[u8]) -> (r: Option<Vec<u8>>)
    ensures
        match r {
            Some(b) => base64_padded(b@) == text@,
            None => forall|b: Seq<u8>| #[trigger] base64_padded(b) != text@,
        },
{
    base64::engine::general_purpose::STANDARD.decode(text).ok()
}

/// The bytes that a text stands for in base64, if it stands for any.
pub fn base64_decode(text: &[u8]) -> (r: Option<Vec<u8>>)
    ensures
        match r {
            Some(b) => base64_bytes(text@) == Some(b@),
            None => base64_bytes(text@) is None,
        },
{
    let r = decode_standard(text);
    proof {
        if let Some(b) = &r {
            let c = choose|c: Seq<u8>| #[trigger] base64_padded(c) == text@;
            assert(base64_padded(b@) == text@);
            law_base64_is_unambiguous(b@, c);
        }
    }
    r
}

/// Calls `base64::Engine::encode` of the engine `URL_SAFE_NO_PAD`: the text of the
/// bytes in base64, with the alphabet for URLs and without padding.
#[verifier::external_body]
pub(crate) fn encode_url(bytes: &[u8]) -> (r: String)
    requires
        fits(bytes@.len()),
    ensures
        r@ == ascii_chars(base64_url(bytes@)),
{
    base64::engine::general_purpose::URL_SAFE_NO_PAD.encode(bytes)
}

/// The keyed hash of a message by HMAC with SHA-256.
pub uninterp spec fn hmac_sha256(key: Seq<u8>, message: Seq<u8>) -> Seq<u8>;

/// The keyed hash of a message by HMAC with SHA-512.
pub uninterp spec fn hmac_sha512(key: Seq<u8>, message: Seq<u8>) -> Seq<u8>;

/// Makes a `hmac::Hmac` over `sha2::Sha256` with the key, which may have any length,
/// and gives the hash of the message, which has 32 bytes.
#[verifier::external_body]
pub(crate) fn hash_sha256(key: &[u8], message: &[u8]) -> (r: Vec<u8>)
    ensures
        r@ == hmac_sha256(key@, message@),
        r@.len() == 32,
{
    let mut mac = hmac::Hmac::<sha2::Sha256>::new_from_slice(key).unwrap();
    mac.update(message);
    mac.finalize().into_bytes().to_vec()
}

/// Makes a `hmac::Hmac` over `sha2::Sha512` with the key, which may have any length,
/// and gives the hash of the message, which has 64 bytes.
#[verifier::external_body]
pub(crate) fn hash_sha512(key: &[u8], message: &[u8]) -> (r: Vec<u8>)
    ensures
        r@ == hmac_sha512(key@, message@),
        r@.len() == 64,
{
    let mut mac = hmac::Hmac::<sha2::Sha512>::new_from_slice(key).unwrap();
    mac.update(message);
    mac.finalize().into_bytes().to_vec()
}

/// The text that bytes stand for in the character set with a label, if there is a
/// character set with that label.
pub uninterp spec fn charset_text(label: Seq<u8>, bytes: Seq<u8>) -> Option<Seq<char>>;

/// Whether a label is that of UTF-8.
pub open spec fn is_utf8_label(label: Seq<u8>) -> bool {
    label == encode_utf8("utf-8"@) || label == encode_utf8("UTF-8"@)
}

/// Whether bytes start with the mark of UTF-8.
pub open spec fn has_utf8_mark(bytes: Seq<u8>) -> bool {
    bytes.len() >= 3 && bytes[0] == 0xEF && bytes[1] == 0xBB && bytes[2] == 0xBF
}

/// Calls `encoding_rs::Encoding::for_label` and, if there is such a character set, its
/// `decode`, which goes by a byte order mark if there is one and puts a replacement
/// character where bytes are malformed. Under the label of UTF-8, bytes of UTF-8 without
/// a mark come out as the text that they encode.
#[verifier::external_body]
pub(crate) fn decode_charset(label: &[u8], bytes: &[u8]) -> (r: Option<String>)
    requires
        fits(bytes@.len()),
    ensures
        opt_view(r) == charset_text(label@, bytes@),
        is_utf8_label(label@) && valid_utf8(bytes@) && !has_utf8_mark(bytes@) ==> opt_view(r)
            == Some(decode_utf8(bytes@)),
{
    match encoding_rs::Encoding::for_label(label) {
        Some(encoding) => Some(encoding.decode(bytes).0.into_owned()),
        None => None,
    }
}

/// The hash of a password by bcrypt, with a cost and a salt.
pub uninterp spec fn bcrypt_text(password: Seq<u8>, cost: int, salt: Seq<u8>) -> Seq<char>;

/// Whether a text is a hash of a password, with the usual cost and some salt.
pub open spec fn is_hash_of(hash: Seq<char>, password: Seq<u8>) -> bool {
    exists|salt: Seq<u8>| salt.len() == 16 && hash == #[trigger] bcrypt_text(password, 12, salt)
}

/// Calls `bcrypt::hash` with `bcrypt::DEFAULT_COST`: the hash of the password with a salt
/// that is left to chance, a text of 60 characters. It fails where no salt can be had; of
/// its message nothing is said.
#[verifier::external_body]
pub(crate) fn hash_password(password: &str) -> (r: Result<String, String>)
    ensures
        r matches Ok(hash) ==> hash@.len() == 60 && exists|salt: Seq<u8>|
            salt.len() == 16 && hash@ == #[trigger] bcrypt_text(encode_utf8(password@), 12, salt),
{
    match bcrypt::hash(password, bcrypt::DEFAULT_COST) {
        Ok(hash) => Ok(hash),
        Err(e) => Err(e.to_string()),
    }
}

} // verus!
