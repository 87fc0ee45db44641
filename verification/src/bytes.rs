//! Bytes: their reading as text, and integers in network order.
use crate::text::{lemma_position_is, position};
use vstd::prelude::*;
use vstd::utf8::{decode_utf8, valid_utf8};

verus! {

/// What `String::from_utf8_lossy` makes of some bytes.
pub uninterp spec fn utf8_lossy(bytes: Seq<u8>) -> Seq<char>;

/// Calls `String::from_utf8_lossy`, which reads bytes as UTF-8 and puts a replacement
/// character where they are none. Valid UTF-8 is decoded as it is; which characters
/// come of invalid bytes is left to the name of the result.
#[verifier::external_body]
pub(crate) fn lossy_text(bytes: &[u8]) -> (r: String)
    ensures
        r@ == utf8_lossy(bytes@),
        valid_utf8(bytes@) ==> r@ == decode_utf8(bytes@),
{
    String::from_utf8_lossy(bytes).into_owned()
}

/// The text that some bytes hold in UTF-8 or, where they are not valid, what is made of them.
pub open spec fn bytes_text(bytes: Seq<u8>) -> Seq<char> {
    if valid_utf8(bytes) {
        decode_utf8(bytes)
    } else {
        utf8_lossy(bytes)
    }
}

/// The text that some bytes hold in UTF-8, if they are valid.
pub open spec fn utf8_chars(bytes: Seq<u8>) -> Option<Seq<char>> {
    if valid_utf8(bytes) {
        Some(decode_utf8(bytes))
    } else {
        None
    }
}

/// Calls `String::from_utf8`, which succeeds on valid UTF-8 alone and then gives the
/// text that the bytes hold.
#[verifier::external_body]
pub(crate) fn utf8_text(bytes: Vec<u8>) -> (r: Option<String>)
    ensures
        match r {
            Some(s) => utf8_chars(bytes@) == Some(s@),
            None => utf8_chars(bytes@) is None,
        },
{
    String::from_utf8(bytes).ok()
}

/// The four bytes of an integer in network order.
pub open spec fn be32(n: u32) -> Seq<u8> {
    seq![
        (n / 0x100_0000) as u8,
        (n / 0x1_0000 % 0x100) as u8,
        (n / 0x100 % 0x100) as u8,
        (n % 0x100) as u8,
    ]
}

/// The integer that four bytes hold in network order.
pub open spec fn from_be32(b: Seq<u8>) -> u32 {
    (b[0] * 0x100_0000 + b[1] * 0x1_0000 + b[2] * 0x100 + b[3]) as u32
}

/// An integer is read back from its bytes, and bytes from their integer.
pub proof fn law_be32_read_back(n: u32, b: Seq<u8>)
    requires
        b.len() == 4,
    ensures
        be32(n).len() == 4,
        from_be32(be32(n)) == n,
        be32(from_be32(b)) == b,
{
    lemma_be32_digits(n);
    let m = b[0] * 0x100_0000 + b[1] * 0x1_0000 + b[2] * 0x100 + b[3];
    lemma_be32_digits(m as u32);
    lemma_from_digits(b[0] as int, b[1] as int, b[2] as int, b[3] as int);
    assert(be32(from_be32(b)) =~= b);
}

proof fn lemma_be32_digits(n: u32)
    ensures
        n / 0x100_0000 < 0x100,
        n == (n / 0x100_0000) * 0x100_0000 + (n / 0x1_0000 % 0x100) * 0x1_0000 + (n / 0x100
            % 0x100) * 0x100 + n % 0x100,
{
    let a = n / 0x100;
    let b = a / 0x100;
    assert(n / 0x1_0000 == b);
    assert(n / 0x100_0000 == b / 0x100);
}

proof fn lemma_from_digits(a: int, b: int, c: int, d: int)
    requires
        0 <= a < 0x100,
        0 <= b < 0x100,
        0 <= c < 0x100,
        0 <= d < 0x100,
    ensures
        ({
            let m = a * 0x100_0000 + b * 0x1_0000 + c * 0x100 + d;
            &&& m / 0x100_0000 == a
            &&& m / 0x1_0000 % 0x100 == b
            &&& m / 0x100 % 0x100 == c
            &&& m % 0x100 == d
        }),
{
    let m = a * 0x100_0000 + b * 0x1_0000 + c * 0x100 + d;
    assert(m / 0x100 == a * 0x1_0000 + b * 0x100 + c);
    assert(m / 0x1_0000 == a * 0x100 + b);
}

/// Appends the four bytes of an integer in network order.
pub fn push_be32(out: &mut Vec<u8>, n: u32)
    ensures
        final(out)@ == old(out)@ + be32(n),
{
    out.push((n / 0x100_0000) as u8);
    out.push((n / 0x1_0000 % 0x100) as u8);
    out.push((n / 0x100 % 0x100) as u8);
    out.push((n % 0x100) as u8);
    proof {
        assert(out@ =~= old(out)@ + be32(n));
    }
}

/// The integer that four bytes hold in network order.
pub fn read_be32(b: &[u8], at: usize) -> (r: u32)
    requires
        at + 4 <= b@.len(),
    ensures
        r == from_be32(b@.subrange(at as int, at + 4)),
{
    b[at] as u32 * 0x100_0000 + b[at + 1] as u32 * 0x1_0000 + b[at + 2] as u32 * 0x100 + b[at
        + 3] as u32
}

/// The contents of a sequence of byte vectors.
pub open spec fn byte_views(v: Seq<Vec<u8>>) -> Seq<Seq<u8>> {
    v.map_values(|w: Vec<u8>| w@)
}

/// Where a byte first stands, if it does.
pub fn find_byte(s: &[u8], b: u8) -> (r: Option<usize>)
    ensures
        r matches Some(i) ==> i < s@.len() && i == position(s@, b),
        r is None <==> position(s@, b) == s@.len(),
{
    let mut i: usize = 0;
    while i < s.len()
        invariant
            i <= s@.len(),
            forall|j: int| 0 <= j < i ==> s@[j] != b,
        decreases s@.len() - i,
    {
        if s[i] == b {
            proof {
                lemma_position_is(s@, b, i as int);
            }
            return Some(i);
        }
        i += 1;
    }
    proof {
        lemma_position_is(s@, b, s@.len() as int);
    }
    None
}

} // verus!
