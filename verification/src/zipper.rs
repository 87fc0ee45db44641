//! Passwords, archives and the names under which attachments are saved.
use crate::names::{
    file_name, is_plain_name, last_dot, last_name, lemma_last_dot, lemma_last_name, lemma_numbered,
    numbered, numbered_name,
};
use crate::text::{
    decimal, from_chars, is_digit, law_decimal_read_back, lower, lower_text, same_text, str_views, to_chars,
};
use rand::seq::SliceRandom;
use rand::Rng;
use std::io::Write;
use vstd::prelude::*;
use vstd::slice::slice_to_vec;
use vstd::utf8::encode_utf8;
use zip::unstable::write::FileOptionsExt;

verus! {

/// The strength of a password.
#[derive(Debug, Clone, Copy)]
pub enum PasswordStrength {
    /// Eight letters and digits.
    Low,
    /// Twelve characters, among them a capital, a small letter, a digit and a symbol.
    Medium,
    /// Sixteen characters, among them a capital, a small letter, a digit and a symbol.
    High,
}

impl PasswordStrength {
    /// The strength with a name, in capitals or small letters.
    pub fn from_str(s: &str) -> (r: Option<PasswordStrength>)
        ensures
            lower(s@) == "low"@ <==> r == Some(PasswordStrength::Low),
            lower(s@) == "medium"@ <==> r == Some(PasswordStrength::Medium),
            lower(s@) == "high"@ <==> r == Some(PasswordStrength::High),
    {
        let name = lower_text(s);
        proof {
            reveal_strlit("low");
            reveal_strlit("medium");
            reveal_strlit("high");
            assert("low"@.len() == 3 && "medium"@.len() == 6 && "high"@.len() == 4);
        }
        if same_text(name.as_str(), "low") {
            Some(PasswordStrength::Low)
        } else if same_text(name.as_str(), "medium") {
            Some(PasswordStrength::Medium)
        } else if same_text(name.as_str(), "high") {
            Some(PasswordStrength::High)
        } else {
            None
        }
    }
}

/// The symbols of passwords.
pub const SYMBOLS: &'static str = "!@#$%^&*()-_=+[]{};:,<>.?/";

/// Whether a character is a capital letter.
pub open spec fn is_upper(c: char) -> bool {
    'A' <= c <= 'Z'
}

/// Whether a character is a small letter.
pub open spec fn is_lower(c: char) -> bool {
    'a' <= c <= 'z'
}

/// Whether a character is one of the symbols of passwords.
pub open spec fn is_symbol(c: char) -> bool {
    SYMBOLS@.contains(c)
}

/// Whether a password has characters of all kinds and no others.
pub open spec fn is_mixed(p: Seq<char>) -> bool {
    &&& exists|i: int| 0 <= i < p.len() && is_upper(#[trigger] p[i])
    &&& exists|i: int| 0 <= i < p.len() && is_lower(#[trigger] p[i])
    &&& exists|i: int| 0 <= i < p.len() && is_digit(#[trigger] p[i])
    &&& exists|i: int| 0 <= i < p.len() && is_symbol(#[trigger] p[i])
    &&& forall|i: int|
        0 <= i < p.len() ==> is_upper(#[trigger] p[i]) || is_lower(p[i]) || is_digit(p[i])
            || is_symbol(p[i])
}

/// Whether a password has no more than one symbol.
pub open spec fn has_one_symbol(p: Seq<char>) -> bool {
    forall|i: int, j: int|
        0 <= i < p.len() && 0 <= j < p.len() && is_symbol(#[trigger] p[i]) && is_symbol(
            #[trigger] p[j],
        ) ==> i == j
}

/// Whether a password has a strength.
pub open spec fn has_strength(p: Seq<char>, level: PasswordStrength) -> bool {
    match level {
        PasswordStrength::Low => p.len() == 8 && forall|i: int|
            0 <= i < p.len() ==> is_upper(#[trigger] p[i]) || is_lower(p[i]) || is_digit(p[i]),
        PasswordStrength::Medium => p.len() == 12 && is_mixed(p) && has_one_symbol(p),
        PasswordStrength::High => p.len() == 16 && is_mixed(p),
    }
}

/// How many characters a password has.
pub open spec fn password_size(level: PasswordStrength) -> int {
    match level {
        PasswordStrength::Low => 8,
        PasswordStrength::Medium => 12,
        PasswordStrength::High => 16,
    }
}

/// Whether a byte can be drawn for a character of a kind: a small letter, a capital, a digit
/// or, for a symbol, its place among the symbols.
pub open spec fn is_draw(kind: int, draw: u8) -> bool {
    if kind == 0 {
        is_lower(draw as char)
    } else if kind == 1 {
        is_upper(draw as char)
    } else if kind == 2 {
        is_digit(draw as char)
    } else {
        draw < SYMBOLS@.len()
    }
}

/// The character that is drawn for a kind.
pub open spec fn drawn_char(kind: int, draw: u8) -> char {
    if kind < 3 {
        draw as char
    } else {
        SYMBOLS@[draw as int]
    }
}

/// The kind of a character, before the characters are put in order: first one of each kind,
/// then those for which a kind is drawn.
pub open spec fn kind_at(draws: Seq<u8>, k: int) -> int {
    if k == 0 {
        1
    } else if k == 1 {
        0
    } else if k < 4 {
        k
    } else {
        draws[2 * k - 4] as int
    }
}

/// What is drawn for a character, before the characters are put in order: behind its kind,
/// where that is drawn too.
pub open spec fn draw_at(draws: Seq<u8>, k: int) -> u8 {
    if k < 4 {
        draws[k]
    } else {
        draws[2 * k - 3]
    }
}

/// Whether bytes can be drawn for a password: its letters and digits or, for a stronger one,
/// one character of each kind and then, in turn, a kind and a character of that kind. Beyond
/// the first, symbols are drawn for the strongest alone.
pub open spec fn are_draws(level: PasswordStrength, draws: Seq<u8>) -> bool {
    let n = password_size(level);
    if level is Low {
        draws.len() == n && forall|i: int|
            0 <= i < n ==> is_upper(#[trigger] draws[i] as char) || is_lower(draws[i] as char)
                || is_digit(draws[i] as char)
    } else {
        &&& draws.len() == 2 * n - 4
        &&& forall|k: int| 0 <= k < n ==> is_draw(kind_at(draws, k), #[trigger] draw_at(draws, k))
        &&& forall|k: int|
            4 <= k < n ==> #[trigger] kind_at(draws, k) <= (if level is High {
                3int
            } else {
                2int
            })
    }
}

/// The places from the first on.
pub open spec fn places(n: int) -> Seq<usize> {
    Seq::new(n as nat, |i: int| i as usize)
}

/// Whether places are those of the characters of a password, each once, in some order. The
/// characters of the weakest are not put in order.
pub open spec fn is_order(order: Seq<usize>, level: PasswordStrength) -> bool {
    if level is Low {
        order.len() == 0
    } else {
        order.to_multiset() == places(password_size(level)).to_multiset()
    }
}

/// The password that is drawn: letters and digits as they come or, for a stronger one, the
/// character of each kind that was drawn, at its place in the order.
pub open spec fn password_text(
    level: PasswordStrength,
    draws: Seq<u8>,
    order: Seq<usize>,
) -> Seq<char> {
    if level is Low {
        Seq::new(draws.len(), |i: int| draws[i] as char)
    } else {
        Seq::new(
            order.len(),
            |i: int|
                drawn_char(kind_at(draws, order[i] as int), draw_at(draws, order[i] as int)),
        )
    }
}

/// Whether a text is a password that can be drawn.
pub open spec fn is_password(text: Seq<char>, level: PasswordStrength) -> bool {
    exists|draws: Seq<u8>, order: Seq<usize>|
        are_draws(level, draws) && is_order(order, level) && text == #[trigger] password_text(
            level,
            draws,
            order,
        )
}

/// Calls `rand::Rng::gen_range` of `rand::thread_rng` with a range of bytes: some byte
/// of the range, which one is left to chance.
#[verifier::external_body]
fn random_byte(low: u8, high: u8) -> (r: u8)
    requires
        low <= high,
    ensures
        low <= r <= high,
{
    rand::thread_rng().gen_range(low..=high)
}

/// Calls `rand::Rng::sample` of `rand::thread_rng` with `rand::distributions::Alphanumeric`:
/// some letter or digit, which one is left to chance.
#[verifier::external_body]
fn random_alphanumeric() -> (r: u8)
    ensures
        is_upper(r as char) || is_lower(r as char) || is_digit(r as char),
{
    rand::thread_rng().sample(rand::distributions::Alphanumeric)
}

/// Calls `rand::seq::SliceRandom::shuffle` with `rand::thread_rng`: the items in some
/// order, which one is left to chance.
#[verifier::external_body]
fn shuffle_places(v: &mut Vec<usize>)
    ensures
        final(v)@.to_multiset() == old(v)@.to_multiset(),
{
    v.shuffle(&mut rand::thread_rng());
}

/// Draws a character of a kind.
fn draw_kind(kind: u8) -> (r: u8)
    ensures
        is_draw(kind as int, r),
{
    proof {
        reveal_strlit("!@#$%^&*()-_=+[]{};:,<>.?/");
    }
    if kind == 0 {
        random_byte(0x61, 0x7A)
    } else if kind == 1 {
        random_byte(0x41, 0x5A)
    } else if kind == 2 {
        random_byte(0x30, 0x39)
    } else {
        random_byte(0, 25)
    }
}

/// Draws what makes a password.
fn draw_password(level: PasswordStrength) -> (r: Vec<u8>)
    ensures
        are_draws(level, r@),
{
    let mut draws: Vec<u8> = Vec::new();
    let (size, last_kind): (usize, u8) = match level {
        PasswordStrength::Low => {
            while draws.len() < 8
                invariant
                    draws@.len() <= 8,
                    forall|i: int|
                        0 <= i < draws@.len() ==> is_upper(#[trigger] draws@[i] as char) || is_lower(
                            draws@[i] as char,
                        ) || is_digit(draws@[i] as char),
                decreases 8 - draws@.len(),
            {
                draws.push(random_alphanumeric());
            }
            return draws;
        },
        PasswordStrength::Medium => (12, 2),
        PasswordStrength::High => (16, 3),
    };
    draws.push(draw_kind(1));
    draws.push(draw_kind(0));
    draws.push(draw_kind(2));
    draws.push(draw_kind(3));
    let mut k: usize = 4;
    while k < size
        invariant
            4 <= k <= size <= 16,
            last_kind <= 3,
            draws@.len() == 2 * k - 4,
            forall|j: int|
                0 <= j < k ==> is_draw(kind_at(draws@, j), #[trigger] draw_at(draws@, j)),
            forall|j: int| 4 <= j < k ==> #[trigger] kind_at(draws@, j) <= last_kind,
        decreases size - k,
    {
        let ghost before = draws@;
        let kind = random_byte(0, last_kind);
        draws.push(kind);
        draws.push(draw_kind(kind));
        proof {
            assert forall|j: int| 0 <= j < k implies kind_at(draws@, j) == kind_at(before, j)
                && #[trigger] draw_at(draws@, j) == draw_at(before, j) by {}
            assert forall|j: int| 4 <= j < k implies #[trigger] kind_at(draws@, j) <= last_kind by {
                assert(kind_at(draws@, j) == kind_at(before, j));
            }
        }
        k += 1;
    }
    draws
}

/// Draws the order of the characters of a password.
fn draw_order(level: PasswordStrength) -> (r: Vec<usize>)
    ensures
        is_order(r@, level),
{
    let mut order: Vec<usize> = Vec::new();
    let size: usize = match level {
        PasswordStrength::Low => {
            return order;
        },
        PasswordStrength::Medium => 12,
        PasswordStrength::High => 16,
    };
    while order.len() < size
        invariant
            order@.len() <= size,
            order@ == places(order@.len() as int),
        decreases size - order@.len(),
    {
        let next = order.len();
        order.push(next);
        proof {
            assert(order@ =~= places(order@.len() as int));
        }
    }
    shuffle_places(&mut order);
    order
}

/// An order of places has each place once.
proof fn lemma_order(order: Seq<usize>, n: int)
    requires
        0 <= n <= 16,
        order.to_multiset() == places(n).to_multiset(),
    ensures
        order.len() == n,
        forall|i: int| 0 <= i < n ==> #[trigger] order[i] < n,
        forall|k: int| 0 <= k < n ==> #[trigger] order.contains(k as usize),
        order.no_duplicates(),
{
    broadcast use vstd::seq_lib::group_to_multiset_ensures;

    let all = places(n);
    assert(order.len() == order.to_multiset().len());
    assert(all.len() == all.to_multiset().len());
    assert forall|i: int| 0 <= i < n implies #[trigger] order[i] < n by {
        assert(order.contains(order[i]));
        assert(order.to_multiset().count(order[i]) > 0);
        assert(all.contains(order[i]));
    }
    assert forall|k: int| 0 <= k < n implies #[trigger] order.contains(k as usize) by {
        assert(all[k] == k as usize);
        assert(all.contains(k as usize));
        assert(all.to_multiset().count(k as usize) > 0);
    }
    assert(all.no_duplicates());
    all.lemma_multiset_has_no_duplicates();
    order.lemma_multiset_has_no_duplicates_conv();
}

/// Makes a password of what has been drawn for it.
pub fn password_of(level: PasswordStrength, draws: &Vec<u8>, order: &Vec<usize>) -> (r: String)
    requires
        are_draws(level, draws@),
        is_order(order@, level),
    ensures
        r@ == password_text(level, draws@, order@),
{
    let mut pw: Vec<char> = Vec::new();
    let mut i: usize = 0;
    match level {
        PasswordStrength::Low => {
            while i < draws.len()
                invariant
                    i <= draws@.len(),
                    pw@ == Seq::new(i as nat, |j: int| draws@[j] as char),
                decreases draws@.len() - i,
            {
                pw.push(draws[i] as char);
                i += 1;
                proof {
                    assert(pw@ =~= Seq::new(i as nat, |j: int| draws@[j] as char));
                }
            }
            return from_chars(pw.as_slice());
        },
        _ => {},
    }
    let symbols = to_chars(SYMBOLS);
    let ghost n = password_size(level);
    let ghost wanted = password_text(level, draws@, order@);
    proof {
        lemma_order(order@, n);
    }
    while i < order.len()
        invariant
            i <= order@.len() == n,
            n == password_size(level),
            !(level is Low),
            are_draws(level, draws@),
            forall|j: int| 0 <= j < n ==> #[trigger] order@[j] < n,
            symbols@ == SYMBOLS@,
            wanted == password_text(level, draws@, order@),
            pw@ == wanted.take(i as int),
        decreases order@.len() - i,
    {
        let k = order[i];
        let (kind, draw): (u8, u8) = if k == 0 {
            (1, draws[0])
        } else if k == 1 {
            (0, draws[1])
        } else if k < 4 {
            (k as u8, draws[k])
        } else {
            (draws[2 * k - 4], draws[2 * k - 3])
        };
        proof {
            assert(kind == kind_at(draws@, k as int) && draw == draw_at(draws@, k as int));
            assert(is_draw(kind as int, draw));
        }
        pw.push(
            if kind < 3 {
                draw as char
            } else {
                symbols[draw as usize]
            },
        );
        proof {
            assert(pw@.last() == wanted[i as int]);
            assert(pw@ =~= wanted.take(i + 1));
        }
        i += 1;
    }
    proof {
        assert(wanted.take(i as int) =~= wanted);
    }
    from_chars(pw.as_slice())
}

/// Symbols are neither letters nor digits.
proof fn lemma_symbols()
    ensures
        forall|c: char| #[trigger] is_symbol(c) ==> !is_upper(c) && !is_lower(c) && !is_digit(c),
{
    reveal_strlit("!@#$%^&*()-_=+[]{};:,<>.?/");
    assert forall|c: char| #[trigger] is_symbol(c) implies !is_upper(c) && !is_lower(c)
        && !is_digit(c) by {
        let s = SYMBOLS@;
        let i = choose|i: int| 0 <= i < s.len() && s[i] == c;
        assert(0 <= i < 26);
    }
}

/// A drawn character is of its kind.
proof fn lemma_drawn_char(kind: int, draw: u8)
    requires
        0 <= kind <= 3,
        is_draw(kind, draw),
    ensures
        kind == 0 ==> is_lower(drawn_char(kind, draw)),
        kind == 1 ==> is_upper(drawn_char(kind, draw)),
        kind == 2 ==> is_digit(drawn_char(kind, draw)),
        kind == 3 <==> is_symbol(drawn_char(kind, draw)),
{
    lemma_symbols();
    let s = SYMBOLS@;
    if kind == 3 {
        assert(s.contains(s[draw as int]));
    }
}

/// Whatever is drawn for a password of a strength, and in whatever order, it has that
/// strength.
pub proof fn law_passwords_have_their_strength(
    level: PasswordStrength,
    draws: Seq<u8>,
    order: Seq<usize>,
)
    requires
        are_draws(level, draws),
        is_order(order, level),
    ensures
        has_strength(password_text(level, draws, order), level),
{
    let p = password_text(level, draws, order);
    if level is Low {
        assert forall|i: int| 0 <= i < p.len() implies is_upper(#[trigger] p[i]) || is_lower(p[i])
            || is_digit(p[i]) by {
            assert(p[i] == draws[i] as char);
        }
    } else {
        let n = password_size(level);
        lemma_order(order, n);
        lemma_symbols();
        assert forall|i: int| 0 <= i < n implies (kind_at(draws, order[i] as int) == 0 ==> is_lower(
            #[trigger] p[i],
        )) && (kind_at(draws, order[i] as int) == 1 ==> is_upper(p[i])) && (kind_at(
            draws,
            order[i] as int,
        ) == 2 ==> is_digit(p[i])) && (kind_at(draws, order[i] as int) == 3 <==> is_symbol(p[i]))
            && 0 <= kind_at(draws, order[i] as int) <= 3 by {
            let k = order[i] as int;
            assert(is_draw(kind_at(draws, k), draw_at(draws, k)));
            lemma_drawn_char(kind_at(draws, k), draw_at(draws, k));
        }
        assert(order.contains(0usize) && order.contains(1usize) && order.contains(2usize)
            && order.contains(3usize)) by {
            assert(order.contains(0int as usize));
            assert(order.contains(1int as usize));
            assert(order.contains(2int as usize));
            assert(order.contains(3int as usize));
        }
        assert(is_upper(p[order.index_of(0usize)]));
        assert(is_lower(p[order.index_of(1usize)]));
        assert(is_digit(p[order.index_of(2usize)]));
        assert(is_symbol(p[order.index_of(3usize)]));
        assert(is_mixed(p));
        if level is Medium {
            assert forall|i: int, j: int|
                0 <= i < p.len() && 0 <= j < p.len() && is_symbol(#[trigger] p[i]) && is_symbol(
                    #[trigger] p[j],
                ) implies i == j by {
                assert(kind_at(draws, order[i] as int) == 3 && kind_at(draws, order[j] as int) == 3);
                assert(order[i] == 3 && order[j] == 3);
            }
        }
    }
}

/// A password of a strength, left to chance but for that.
pub fn generate_password(level: PasswordStrength) -> (r: String)
    ensures
        is_password(r@, level),
        has_strength(r@, level),
{
    let draws = draw_password(level);
    let order = draw_order(level);
    proof {
        law_passwords_have_their_strength(level, draws@, order@);
    }
    password_of(level, &draws, &order)
}

/// An entry of an archive: its name, its contents and, if it is encrypted, the bytes of
/// its password.
#[verifier::ext_equal]
pub struct EntryView {
    pub name: Seq<char>,
    pub data: Seq<u8>,
    pub password: Option<Seq<u8>>,
}

/// An archive that is being written, in memory, by `zip::ZipWriter`.
#[verifier::external_body]
pub struct ZipBuffer {
    inner: zip::ZipWriter<std::io::Cursor<Vec<u8>>>,
}

/// The entries that have been written to an archive.
pub uninterp spec fn zip_entries(z: ZipBuffer) -> Seq<EntryView>;

/// An entry of an archive as it is read: its name, its contents and whether it is
/// encrypted.
#[verifier::ext_equal]
pub struct ReadView {
    pub name: Seq<char>,
    pub data: Seq<u8>,
    pub encrypted: bool,
}

/// The entries that the bytes of an archive hold, as they are read with a password or
/// without one by `zip::ZipArchive`.
pub uninterp spec fn archive_entries(bytes: Seq<u8>, password: Option<Seq<u8>>) -> Seq<ReadView>;

/// Entries as they are read with their passwords.
pub open spec fn read_views(entries: Seq<EntryView>) -> Seq<ReadView> {
    entries.map_values(
        |e: EntryView| ReadView { name: e.name, data: e.data, encrypted: e.password is Some },
    )
}

/// Whether entries all have one password, or all none.
pub open spec fn are_locked_by(entries: Seq<EntryView>, password: Option<Seq<u8>>) -> bool {
    forall|i: int| 0 <= i < entries.len() ==> (#[trigger] entries[i]).password == password
}

/// Whether an entry can be added to some others: no other has its name, the name is not
/// too long for the format, and the password is not empty.
pub open spec fn can_add(entries: Seq<EntryView>, name: Seq<char>, password: Option<Seq<u8>>) -> bool {
    &&& forall|i: int| 0 <= i < entries.len() ==> (#[trigger] entries[i]).name != name
    &&& encode_utf8(name).len() <= 0xFFFF
    &&& password matches Some(p) ==> p.len() > 0
}

/// Whether the contents of entries are small enough to be compressed within the format,
/// whatever they are.
pub open spec fn are_small(entries: Seq<EntryView>) -> bool {
    forall|i: int| 0 <= i < entries.len() ==> (#[trigger] entries[i]).data.len() <= 0x7FFF_FFFF
}

/// How many bytes entries take in an archive at the most, if they do not grow when they
/// are compressed: their contents, their names, and a thousand bytes for the rest of each.
pub open spec fn weight(entries: Seq<EntryView>) -> nat
    decreases entries.len(),
{
    if entries.len() == 0 {
        0
    } else {
        let e = entries.last();
        weight(entries.drop_last()) + e.data.len() + encode_utf8(e.name).len() + 1000
    }
}

/// Whether an archive with some entries stays below the number and the size from which on
/// the format notes numbers, sizes and places in another way, even if the entries grow when
/// they are compressed.
pub open spec fn are_light(entries: Seq<EntryView>) -> bool {
    entries.len() < 0xFFFF && weight(entries) <= 0x7FFF_FFFF
}

/// Calls `zip::ZipWriter::new`.
#[verifier::external_body]
fn new_zip() -> (r: ZipBuffer)
    ensures
        zip_entries(r) == Seq::<EntryView>::empty(),
{
    ZipBuffer { inner: zip::ZipWriter::new(std::io::Cursor::new(Vec::new())) }
}

/// Calls `zip::ZipWriter::start_file` with the default options, which compress, and which
/// encrypt by `with_deprecated_encryption` if there is a password. It adds an entry without
/// contents. It fails where the entry cannot be added, and only there as long as the
/// earlier entries are small; of its message, and of the archive after a failure,
/// nothing is said.
#[verifier::external_body]
fn start_entry(z: &mut ZipBuffer, name: &str, password: Option<&str>) -> (r: Result<(), String>)
    ensures
        r is Ok ==> can_add(zip_entries(*old(z)), name@, password_bytes(password))
            && zip_entries(*final(z)) == zip_entries(*old(z)).push(
            (EntryView { name: name@, data: seq![], password: password_bytes(password) }),
        ),
        can_add(zip_entries(*old(z)), name@, password_bytes(password)) && are_small(
            zip_entries(*old(z)),
        ) ==> r is Ok,
{
    let base: zip::write::FileOptions<'static, ()> = zip::write::FileOptions::default();
    let options = match password {
        Some(p) => base.with_deprecated_encryption(p.as_bytes()),
        None => Ok(base),
    };
    match options.and_then(|options| z.inner.start_file(name, options)) {
        Ok(()) => Ok(()),
        Err(e) => Err(e.to_string()),
    }
}

/// The bytes of a password, if there is one.
pub open spec fn password_bytes(password: Option<&str>) -> Option<Seq<u8>> {
    match password {
        Some(p) => Some(encode_utf8(p@)),
        None => None,
    }
}

/// Calls `write_all` of `zip::ZipWriter`, which appends to the contents of the last
/// entry. It does not fail where they stay small; where they grow beyond what the format
/// can hold it may. Of its message, and of the archive after a failure, nothing is said.
#[verifier::external_body]
fn write_entry(z: &mut ZipBuffer, data: &[u8]) -> (r: Result<(), String>)
    requires
        zip_entries(*old(z)).len() > 0,
    ensures
        r is Ok ==> zip_entries(*final(z)) == zip_entries(*old(z)).drop_last().push(
            (EntryView {
                data: zip_entries(*old(z)).last().data + data@,
                ..zip_entries(*old(z)).last()
            }),
        ),
        zip_entries(*old(z)).last().data.len() + data@.len() <= 0x7FFF_FFFF ==> r is Ok,
{
    match z.inner.write_all(data) {
        Ok(()) => Ok(()),
        Err(e) => Err(e.to_string()),
    }
}

/// Calls `zip::ZipWriter::finish`: the bytes of an archive, in which the entries that have
/// been written, if they are light, are read again with the password that they were
/// written with. It does not fail where they are small. Of its message, and of what is read
/// from an archive whose entries are not light, nothing is said.
#[verifier::external_body]
fn finish_zip(z: ZipBuffer) -> (r: Result<Vec<u8>, String>)
    ensures
        r matches Ok(bytes) ==> forall|password: Option<Seq<u8>>|
            are_light(zip_entries(z)) && are_locked_by(zip_entries(z), password)
                ==> #[trigger] archive_entries(bytes@, password) == read_views(zip_entries(z)),
        are_small(zip_entries(z)) ==> r is Ok,
{
    match z.inner.finish() {
        Ok(cursor) => Ok(cursor.into_inner()),
        Err(e) => Err(e.to_string()),
    }
}

/// The entries that some files make, all with one password or with none.
pub open spec fn entries_of(
    files: Seq<(Seq<char>, Seq<u8>)>,
    password: Option<Seq<u8>>,
) -> Seq<EntryView> {
    files.map_values(
        |f: (Seq<char>, Seq<u8>)| EntryView { name: f.0, data: f.1, password: password },
    )
}

/// Whether files, if they are light, are read from an archive as they are, with a password
/// or without one.
pub open spec fn reads_back(
    bytes: Seq<u8>,
    files: Seq<(Seq<char>, Seq<u8>)>,
    password: Option<Seq<u8>>,
) -> bool {
    are_light(entries_of(files, password)) ==> archive_entries(bytes, password) == read_views(
        entries_of(files, password),
    )
}

/// Whether files can be packed at all: no two have the same name, no name is too long for
/// the format, and the password, if it is used, is not empty.
pub open spec fn can_pack(
    files: Seq<(Seq<char>, Seq<u8>)>,
    password: Option<Seq<u8>>,
) -> bool {
    &&& forall|i: int, j: int|
        0 <= i < j < files.len() ==> (#[trigger] files[i]).0 != (#[trigger] files[j]).0
    &&& forall|i: int| 0 <= i < files.len() ==> encode_utf8((#[trigger] files[i]).0).len() <= 0xFFFF
    &&& password matches Some(p) ==> p.len() > 0 || files.len() == 0
}

/// Whether files are small enough to be packed for sure.
pub open spec fn are_small_files(files: Seq<(Seq<char>, Seq<u8>)>) -> bool {
    forall|i: int| 0 <= i < files.len() ==> (#[trigger] files[i]).1.len() <= 0x7FFF_FFFF
}

/// The names and the contents of files.
pub open spec fn file_views(files: Seq<(String, Vec<u8>)>) -> Seq<(Seq<char>, Seq<u8>)> {
    files.map_values(|f: (String, Vec<u8>)| (f.0@, f.1@))
}

/// Packs files into an archive, in their order, each under its name. Files that cannot
/// be packed give an error, and those that can are packed if they are small enough.
pub fn create_zip_from_files(files: &Vec<(String, Vec<u8>)>, password: Option<&str>) -> (r: Result<
    Vec<u8>,
    String,
>)
    ensures
        r matches Ok(bytes) ==> reads_back(
            bytes@,
            file_views(files@),
            password_bytes(password),
        ),
        r is Ok ==> can_pack(file_views(files@), password_bytes(password)),
        can_pack(file_views(files@), password_bytes(password)) && are_small_files(
            file_views(files@),
        ) ==> r is Ok,
{
    let ghost all = file_views(files@);
    let ghost pw = password_bytes(password);
    let ghost wanted = entries_of(all, pw);
    let mut z = new_zip();
    let mut i: usize = 0;
    while i < files.len()
        invariant
            i <= files@.len(),
            all == file_views(files@),
            pw == password_bytes(password),
            wanted == entries_of(all, pw),
            zip_entries(z) == wanted.take(i as int),
            can_pack(all.take(i as int), pw),
        decreases files@.len() - i,
    {
        let ghost before = zip_entries(z);
        let ghost name = all[i as int].0;
        proof {
            assert(all[i as int] == (files@[i as int].0@, files@[i as int].1@));
            assert forall|k: int| 0 <= k < i implies (#[trigger] before[k]).name == all[k].0 by {
                assert(before[k] == wanted[k]);
            }
            if can_pack(all, pw) {
                assert forall|k: int| 0 <= k < before.len() implies (#[trigger] before[k]).name
                    != name by {
                    assert(all[k].0 != all[i as int].0);
                }
                assert(can_add(before, name, pw));
            }
            if are_small_files(all) {
                assert forall|k: int| 0 <= k < before.len() implies (
                #[trigger] before[k]).data.len() <= 0x7FFF_FFFF by {
                    assert(before[k] == wanted[k]);
                    assert(all[k].1.len() <= 0x7FFF_FFFF);
                }
            }
        }
        match start_entry(&mut z, files[i].0.as_str(), password) {
            Ok(()) => {},
            Err(e) => {
                return Err(e);
            },
        }
        proof {
            let more = all.take(i + 1);
            assert forall|a: int, b: int| 0 <= a < b < more.len() implies (#[trigger] more[a]).0 != (
            #[trigger] more[b]).0 by {
                if b == i {
                    assert(before[a].name == all[a].0);
                } else {
                    assert(all.take(i as int)[a] == more[a]);
                    assert(all.take(i as int)[b] == more[b]);
                }
            }
            assert forall|a: int| 0 <= a < more.len() implies encode_utf8(
                (#[trigger] more[a]).0,
            ).len() <= 0xFFFF by {
                if a < i {
                    assert(all.take(i as int)[a] == more[a]);
                }
            }
            assert(can_pack(more, pw));
        }
        match write_entry(&mut z, files[i].1.as_slice()) {
            Ok(()) => {},
            Err(e) => {
                return Err(e);
            },
        }
        proof {
            assert(Seq::<u8>::empty() + all[i as int].1 =~= all[i as int].1);
            assert(zip_entries(z) =~= wanted.take(i + 1));
        }
        i += 1;
    }
    proof {
        assert(wanted.take(i as int) =~= wanted);
        assert(all.take(i as int) =~= all);
        assert(are_locked_by(wanted, pw));
        if are_small_files(all) {
            assert forall|k: int| 0 <= k < wanted.len() implies (#[trigger] wanted[k]).data.len()
                <= 0x7FFF_FFFF by {
                assert(all[k].1.len() <= 0x7FFF_FFFF);
            }
        }
    }
    finish_zip(z)
}

/// Files with owned names.
fn owned_files(files: Vec<(&str, Vec<u8>)>) -> (r: Vec<(String, Vec<u8>)>)
    ensures
        file_views(r@) == attachment_views(files@),
{
    let mut out: Vec<(String, Vec<u8>)> = Vec::new();
    let mut i: usize = 0;
    let ghost all = attachment_views(files@);
    while i < files.len()
        invariant
            i <= files@.len(),
            all == attachment_views(files@),
            file_views(out@) == all.take(i as int),
        decreases files@.len() - i,
    {
        let ghost before = out@;
        out.push((files[i].0.to_owned(), slice_to_vec(files[i].1.as_slice())));
        proof {
            assert(all[i as int] == (files@[i as int].0@, files@[i as int].1@));
            assert(file_views(out@) =~= file_views(before).push(all[i as int]));
            assert(all.take(i + 1) =~= all.take(i as int).push(all[i as int]));
        }
        i += 1;
    }
    proof {
        assert(all.take(i as int) =~= all);
    }
    out
}

/// The names and the contents of attachments.
pub open spec fn attachment_views(files: Seq<(&str, Vec<u8>)>) -> Seq<(Seq<char>, Seq<u8>)> {
    files.map_values(|f: (&str, Vec<u8>)| (f.0@, f.1@))
}

/// Packs attachments into an archive without a password.
pub fn create_zip(attachments: Vec<(&str, Vec<u8>)>) -> (r: Result<Vec<u8>, String>)
    ensures
        r matches Ok(bytes) ==> reads_back(
            bytes@,
            attachment_views(attachments@),
            None,
        ),
        r is Ok ==> can_pack(attachment_views(attachments@), None),
        can_pack(attachment_views(attachments@), None) && are_small_files(
            attachment_views(attachments@),
        ) ==> r is Ok,
{
    let files = owned_files(attachments);
    create_zip_from_files(&files, None)
}

/// Packs attachments into an archive with a password.
pub fn create_passworded_zip(attachments: Vec<(&str, Vec<u8>)>, password: &str) -> (r: Result<
    Vec<u8>,
    String,
>)
    ensures
        r matches Ok(bytes) ==> reads_back(
            bytes@,
            attachment_views(attachments@),
            Some(encode_utf8(password@)),
        ),
        r is Ok ==> can_pack(attachment_views(attachments@), Some(encode_utf8(password@))),
        can_pack(attachment_views(attachments@), Some(encode_utf8(password@))) && are_small_files(
            attachment_views(attachments@),
        ) ==> r is Ok,
{
    let files = owned_files(attachments);
    create_zip_from_files(&files, Some(password))
}

/// The names under which files of a directory are packed: those that their paths end
/// with.
pub open spec fn packed_views(files: Seq<(Seq<char>, Seq<u8>)>) -> Seq<(Seq<char>, Seq<u8>)> {
    files.map_values(|f: (Seq<char>, Seq<u8>)| (name_or(f.0, "file"@), f.1))
}

/// The name that a path ends with, or another where it ends with none.
pub open spec fn name_or(path: Seq<char>, other: Seq<char>) -> Seq<char> {
    match last_name(path) {
        Some(name) => name,
        None => other,
    }
}

/// The name that a path ends with, or another where it ends with none.
fn find_name(path: &str, other: &str) -> (r: String)
    ensures
        r@ == name_or(path@, other@),
{
    match file_name(path) {
        Some(name) => name,
        None => other.to_owned(),
    }
}

/// Packs the files of a directory, given by their paths and their contents, into an
/// archive.
pub fn create_zip_from_dir(files: &Vec<(String, Vec<u8>)>, password: Option<&str>) -> (r: Result<
    Vec<u8>,
    String,
>)
    ensures
        r matches Ok(bytes) ==> reads_back(
            bytes@,
            packed_views(file_views(files@)),
            password_bytes(password),
        ),
        r is Ok ==> can_pack(packed_views(file_views(files@)), password_bytes(password)),
        can_pack(packed_views(file_views(files@)), password_bytes(password)) && are_small_files(
            file_views(files@),
        ) ==> r is Ok,
{
    let mut named: Vec<(String, Vec<u8>)> = Vec::new();
    let mut i: usize = 0;
    let ghost all = file_views(files@);
    let ghost wanted = packed_views(all);
    while i < files.len()
        invariant
            i <= files@.len(),
            all == file_views(files@),
            wanted == packed_views(all),
            file_views(named@) == wanted.take(i as int),
        decreases files@.len() - i,
    {
        let ghost before = named@;
        named.push(
            (find_name(files[i].0.as_str(), "file"), slice_to_vec(files[i].1.as_slice())),
        );
        proof {
            assert(all[i as int] == (files@[i as int].0@, files@[i as int].1@));
            assert(file_views(named@) =~= file_views(before).push(wanted[i as int]));
            assert(wanted.take(i + 1) =~= wanted.take(i as int).push(wanted[i as int]));
        }
        i += 1;
    }
    proof {
        assert(wanted.take(i as int) =~= wanted);
        if are_small_files(all) {
            assert forall|k: int| 0 <= k < wanted.len() implies (#[trigger] wanted[k]).1.len()
                <= 0x7FFF_FFFF by {
                assert(all[k].1.len() <= 0x7FFF_FFFF);
            }
        }
    }
    create_zip_from_files(&named, password)
}

/// Whether a number is the first that makes a name that is not taken.
pub open spec fn is_first_free(name: Seq<char>, taken: Seq<Seq<char>>, n: nat) -> bool {
    &&& n >= 1
    &&& !taken.contains(numbered(name, n))
    &&& forall|k: nat| 1 <= k < n ==> taken.contains(#[trigger] numbered(name, k))
}

/// A name that is not taken: the name itself or, if it is taken, the name with the first
/// number that makes it free.
pub open spec fn free_name(name: Seq<char>, taken: Seq<Seq<char>>) -> Seq<char> {
    if taken.contains(name) {
        numbered(name, choose|n: nat| is_first_free(name, taken, n))
    } else {
        name
    }
}

/// The names under which files are saved, one after the other, among names that are
/// taken: each by the end of its path, and free.
pub open spec fn saved_names(paths: Seq<Seq<char>>, taken: Seq<Seq<char>>) -> Seq<Seq<char>>
    decreases paths.len(),
{
    if paths.len() == 0 {
        seq![]
    } else {
        let earlier = saved_names(paths.drop_last(), taken);
        earlier.push(free_name(name_or(paths.last(), "attachment.bin"@), taken + earlier))
    }
}

/// Different numbers make different names.
proof fn lemma_numbers_differ(name: Seq<char>, m: nat, n: nat)
    requires
        numbered(name, m) == numbered(name, n),
    ensures
        m == n,
{
    law_decimal_read_back(m, m + n);
    law_decimal_read_back(n, m + n);
    reveal_strlit("_");
    let a = numbered(name, m);
    let b = numbered(name, n);
    match last_dot(name) {
        Some(d) => {
            lemma_last_dot(name);
            let x = decimal(m);
            let y = decimal(n);
            assert(a.len() == name.len() + 1 + x.len());
            assert(b.len() == name.len() + 1 + y.len());
            assert(a.subrange(d + 1, d + 1 + x.len()) =~= x);
            assert(b.subrange(d + 1, d + 1 + y.len()) =~= y);
        },
        None => {
            assert(a.skip(name.len() as int + 1) =~= decimal(m));
            assert(b.skip(name.len() as int + 1) =~= decimal(n));
        },
    }
}

/// There is a number that makes a name free: among more numbers than there are names
/// taken, one is left.
proof fn lemma_some_number_is_free(name: Seq<char>, taken: Seq<Seq<char>>)
    ensures
        exists|n: nat| 1 <= n <= taken.len() + 1 && !taken.contains(#[trigger] numbered(name, n)),
{
    if forall|n: nat| 1 <= n <= taken.len() + 1 ==> taken.contains(#[trigger] numbered(name, n)) {
        let tried = Seq::new(taken.len() + 1, |i: int| numbered(name, (i + 1) as nat));
        assert(tried.no_duplicates()) by {
            assert forall|i: int, j: int|
                0 <= i < tried.len() && 0 <= j < tried.len() && i != j implies tried[i]
                != tried[j] by {
                if tried[i] == tried[j] {
                    lemma_numbers_differ(name, (i + 1) as nat, (j + 1) as nat);
                }
            }
        }
        tried.unique_seq_to_set();
        assert(tried.to_set().subset_of(taken.to_set())) by {
            assert forall|x: Seq<char>| tried.to_set().contains(x) implies taken.to_set().contains(
                x,
            ) by {
                let i = tried.index_of(x);
                assert(tried.contains(x));
                assert(tried[i] == x);
                assert(taken.contains(numbered(name, (i + 1) as nat)));
            }
        }
        vstd::set_lib::lemma_len_subset(tried.to_set(), taken.to_set());
        taken.lemma_cardinality_of_set();
    }
}

/// The first number that makes a name free is the only one.
proof fn lemma_first_free(name: Seq<char>, taken: Seq<Seq<char>>, n: nat)
    requires
        is_first_free(name, taken, n),
    ensures
        n == choose|m: nat| is_first_free(name, taken, m),
{
    let m = choose|m: nat| is_first_free(name, taken, m);
    assert(is_first_free(name, taken, m));
    if m < n {
        assert(taken.contains(numbered(name, m)));
    }
    if n < m {
        assert(taken.contains(numbered(name, n)));
    }
}

/// Whether a name is taken.
fn is_taken(name: &str, taken: &Vec<String>) -> (r: bool)
    ensures
        r == str_views(taken@).contains(name@),
{
    let mut i: usize = 0;
    while i < taken.len()
        invariant
            i <= taken@.len(),
            forall|k: int| 0 <= k < i ==> str_views(taken@)[k] != name@,
        decreases taken@.len() - i,
    {
        if same_text(taken[i].as_str(), name) {
            proof {
                assert(str_views(taken@)[i as int] == name@);
            }
            return true;
        }
        i += 1;
    }
    false
}

/// A name that is not taken.
fn find_free_name(name: &str, taken: &Vec<String>) -> (r: String)
    requires
        taken@.len() < u64::MAX,
    ensures
        r@ == free_name(name@, str_views(taken@)),
{
    let ghost used = str_views(taken@);
    if !is_taken(name, taken) {
        return name.to_owned();
    }
    let ghost some = choose|n: nat|
        1 <= n <= used.len() + 1 && !used.contains(#[trigger] numbered(name@, n));
    proof {
        lemma_some_number_is_free(name@, used);
    }
    let mut n: u64 = 1;
    loop
        invariant
            used == str_views(taken@),
            used.contains(name@),
            taken@.len() < u64::MAX,
            1 <= n <= some <= used.len() + 1,
            !used.contains(numbered(name@, some)),
            forall|k: nat| 1 <= k < n ==> used.contains(#[trigger] numbered(name@, k)),
        decreases some - n,
    {
        let candidate = numbered_name(name, n);
        if !is_taken(candidate.as_str(), taken) {
            proof {
                lemma_first_free(name@, used, n as nat);
            }
            return candidate;
        }
        n += 1;
    }
}

/// The names under which attachments are saved, in a directory where some names are
/// taken.
pub fn plan_saved_names(paths: &Vec<String>, taken: &Vec<String>) -> (r: Vec<String>)
    requires
        paths@.len() + taken@.len() < usize::MAX,
    ensures
        str_views(r@) == saved_names(str_views(paths@), str_views(taken@)),
{
    let ghost all = str_views(paths@);
    let ghost t = str_views(taken@);
    let mut used: Vec<String> = Vec::new();
    let mut k: usize = 0;
    while k < taken.len()
        invariant
            k <= taken@.len(),
            t == str_views(taken@),
            str_views(used@) == t.take(k as int),
        decreases taken@.len() - k,
    {
        let ghost before = used@;
        used.push(taken[k].as_str().to_owned());
        proof {
            assert(str_views(used@) =~= str_views(before).push(t[k as int]));
            assert(t.take(k + 1) =~= t.take(k as int).push(t[k as int]));
        }
        k += 1;
    }
    let mut names: Vec<String> = Vec::new();
    let mut i: usize = 0;
    proof {
        assert(t.take(k as int) =~= t);
        assert(all.take(0) =~= Seq::<Seq<char>>::empty());
        assert(str_views(names@) =~= saved_names(all.take(0), t));
        assert(str_views(used@) =~= t + str_views(names@));
    }
    while i < paths.len()
        invariant
            i <= paths@.len(),
            paths@.len() + taken@.len() < usize::MAX,
            all == str_views(paths@),
            t == str_views(taken@),
            names@.len() == i,
            str_views(names@) == saved_names(all.take(i as int), t),
            str_views(used@) == t + str_views(names@),
            used@.len() == taken@.len() + i,
        decreases paths@.len() - i,
    {
        let ghost before = names@;
        let ghost used_before = used@;
        let wanted = find_name(paths[i].as_str(), "attachment.bin");
        let name = find_free_name(wanted.as_str(), &used);
        used.push(name.as_str().to_owned());
        names.push(name);
        proof {
            assert(all.take(i + 1).drop_last() =~= all.take(i as int));
            assert(all.take(i + 1).last() == paths@[i as int]@);
            assert(str_views(names@) =~= str_views(before).push(name@));
            assert(str_views(used@) =~= str_views(used_before).push(name@));
            assert(str_views(used@) =~= t + str_views(names@));
        }
        i += 1;
    }
    proof {
        assert(all.take(i as int) =~= all);
    }
    names
}

/// A free name is not taken.
proof fn lemma_free_name(name: Seq<char>, taken: Seq<Seq<char>>)
    ensures
        !taken.contains(free_name(name, taken)),
{
    if taken.contains(name) {
        lemma_some_number_is_free(name, taken);
        let some = choose|n: nat|
            1 <= n <= taken.len() + 1 && !taken.contains(#[trigger] numbered(name, n));
        lemma_least_free(name, taken, some);
    }
}

/// If some number makes a name free, there is a first that does.
proof fn lemma_least_free(name: Seq<char>, taken: Seq<Seq<char>>, n: nat)
    requires
        n >= 1,
        !taken.contains(numbered(name, n)),
    ensures
        exists|m: nat| is_first_free(name, taken, m),
    decreases n,
{
    if exists|k: nat| 1 <= k < n && !taken.contains(#[trigger] numbered(name, k)) {
        let k = choose|k: nat| 1 <= k < n && !taken.contains(#[trigger] numbered(name, k));
        lemma_least_free(name, taken, k);
    } else {
        assert(is_first_free(name, taken, n));
    }
}

/// No two attachments are saved under the same name, and none under a name that was
/// taken before.
pub proof fn law_saved_names_differ(paths: Seq<Seq<char>>, taken: Seq<Seq<char>>)
    ensures
        saved_names(paths, taken).len() == paths.len(),
        saved_names(paths, taken).no_duplicates(),
        forall|i: int|
            0 <= i < paths.len() ==> !taken.contains(#[trigger] saved_names(paths, taken)[i]),
    decreases paths.len(),
{
    if paths.len() > 0 {
        law_saved_names_differ(paths.drop_last(), taken);
        let earlier = saved_names(paths.drop_last(), taken);
        let all = saved_names(paths, taken);
        let wanted = name_or(paths.last(), "attachment.bin"@);
        lemma_free_name(wanted, taken + earlier);
        let last = free_name(wanted, taken + earlier);
        assert forall|x: Seq<char>| taken.contains(x) || earlier.contains(x) implies (taken
            + earlier).contains(x) by {
            if taken.contains(x) {
                let i = taken.index_of(x);
                assert((taken + earlier)[i] == x);
            } else {
                let i = earlier.index_of(x);
                assert((taken + earlier)[taken.len() + i] == x);
            }
        }
        assert(!taken.contains(last));
        assert(!earlier.contains(last));
        assert forall|i: int, j: int| 0 <= i < all.len() && 0 <= j < all.len() && i != j implies all[i]
            != all[j] by {
            if i < earlier.len() {
                assert(earlier.contains(earlier[i]));
            }
            if j < earlier.len() {
                assert(earlier.contains(earlier[j]));
            }
        }
        assert forall|i: int| 0 <= i < paths.len() implies !taken.contains(#[trigger] all[i]) by {
            if i < earlier.len() {
                assert(all[i] == earlier[i]);
            }
        }
    }
}

/// Attachments are saved in the directory that is meant for them and nowhere else,
/// whatever their names: no name has a slash in it or goes up.
pub proof fn law_saved_names_stay_in_the_directory(paths: Seq<Seq<char>>, taken: Seq<Seq<char>>)
    ensures
        forall|i: int|
            0 <= i < saved_names(paths, taken).len() ==> is_plain_name(
                #[trigger] saved_names(paths, taken)[i],
            ),
    decreases paths.len(),
{
    if paths.len() > 0 {
        law_saved_names_stay_in_the_directory(paths.drop_last(), taken);
        let earlier = saved_names(paths.drop_last(), taken);
        let wanted = name_or(paths.last(), "attachment.bin"@);
        lemma_last_name(paths.last());
        assert(is_plain_name("attachment.bin"@)) by {
            reveal_strlit("attachment.bin");
            reveal_strlit(".");
            reveal_strlit("..");
            assert("attachment.bin"@.len() == 14 && "."@.len() == 1 && ".."@.len() == 2);
        }
        assert(is_plain_name(wanted));
        let used = taken + earlier;
        if used.contains(wanted) {
            lemma_numbered(wanted, choose|n: nat| is_first_free(wanted, used, n));
        }
    }
}

/// What is read from an archive is what was packed: as many entries as files, in their
/// order, each under the name of its file, with all of its bytes, and encrypted exactly if
/// there is a password.
pub proof fn law_archive_holds_the_files(
    files: Seq<(Seq<char>, Seq<u8>)>,
    password: Option<Seq<u8>>,
    i: int,
)
    requires
        0 <= i < files.len(),
    ensures
        read_views(entries_of(files, password)).len() == files.len(),
        read_views(entries_of(files, password))[i].name == files[i].0,
        read_views(entries_of(files, password))[i].data == files[i].1,
        read_views(entries_of(files, password))[i].encrypted <==> password is Some,
        are_locked_by(entries_of(files, password), password),
{
}

/// The files of a directory are packed under the names that their paths end with, with their
/// contents, in order.
pub proof fn law_directory_is_packed_by_name(files: Seq<(Seq<char>, Seq<u8>)>, i: int)
    requires
        0 <= i < files.len(),
    ensures
        packed_views(files).len() == files.len(),
        packed_views(files)[i].1 == files[i].1,
        last_name(files[i].0) matches Some(name) ==> packed_views(files)[i].0 == name,
        last_name(files[i].0) is None ==> packed_views(files)[i].0 == "file"@,
{
}

/// A name that is not taken is kept, and one that is taken gets a number.
pub proof fn law_free_names_are_kept(name: Seq<char>, taken: Seq<Seq<char>>)
    ensures
        !taken.contains(name) ==> free_name(name, taken) == name,
        taken.contains(name) ==> exists|n: nat|
            n >= 1 && free_name(name, taken) == #[trigger] numbered(name, n) && forall|k: nat|
                1 <= k < n ==> taken.contains(#[trigger] numbered(name, k)),
{
    if taken.contains(name) {
        lemma_some_number_is_free(name, taken);
        let some = choose|n: nat|
            1 <= n <= taken.len() + 1 && !taken.contains(#[trigger] numbered(name, n));
        lemma_least_free(name, taken, some);
        let n = choose|n: nat| is_first_free(name, taken, n);
        assert(is_first_free(name, taken, n));
        assert(free_name(name, taken) == numbered(name, n));
    }
}

/// What is saved of files that come first does not depend on those that follow.
pub proof fn law_files_are_named_one_after_the_other(
    paths: Seq<Seq<char>>,
    path: Seq<char>,
    taken: Seq<Seq<char>>,
)
    ensures
        saved_names(paths.push(path), taken).len() == saved_names(paths, taken).len() + 1,
        saved_names(paths.push(path), taken).drop_last() == saved_names(paths, taken),
        last_name(path) matches Some(name) ==> (!taken.contains(name) && !saved_names(
            paths,
            taken,
        ).contains(name) ==> saved_names(paths.push(path), taken).last() == name),
        last_name(path) is None && !taken.contains("attachment.bin"@) && !saved_names(
            paths,
            taken,
        ).contains("attachment.bin"@) ==> saved_names(paths.push(path), taken).last()
            == "attachment.bin"@,
{
    assert(paths.push(path).drop_last() =~= paths);
    let earlier = saved_names(paths, taken);
    assert(saved_names(paths.push(path), taken).drop_last() =~= earlier);
    let name = name_or(path, "attachment.bin"@);
    if !taken.contains(name) && !earlier.contains(name) {
        assert forall|k: int| 0 <= k < (taken + earlier).len() implies (taken + earlier)[k]
            != name by {
            if k < taken.len() {
                assert(taken.contains(taken[k]));
            } else {
                assert(earlier.contains(earlier[k - taken.len()]));
            }
        }
    }
}

/// The characters of a password are those that were drawn for it: of the weakest in the order
/// in which they were drawn, and of any other at the places that the order gives them. The
/// first four are a capital, a small letter, a digit and a symbol, and for each of the others
/// its kind was drawn before it.
pub proof fn law_draws_make_the_password(
    level: PasswordStrength,
    draws: Seq<u8>,
    order: Seq<usize>,
    i: int,
)
    requires
        are_draws(level, draws),
        is_order(order, level),
        0 <= i < password_text(level, draws, order).len(),
    ensures
        level is Low ==> password_text(level, draws, order)[i] == draws[i] as char,
        !(level is Low) ==> ({
            let c = password_text(level, draws, order)[i];
            let k = order[i] as int;
            &&& 0 <= k <= 2 ==> c == draws[k] as char
            &&& k == 3 ==> c == SYMBOLS@[draws[3] as int]
            &&& k >= 4 && draws[2 * k - 4] < 3 ==> c == draws[2 * k - 3] as char
            &&& k >= 4 && draws[2 * k - 4] == 3 ==> c == SYMBOLS@[draws[2 * k - 3] as int]
        }),
{
}

/// How many bytes some files have, with their names.
pub open spec fn total_size(files: Seq<(Seq<char>, Seq<u8>)>) -> nat
    decreases files.len(),
{
    if files.len() == 0 {
        0
    } else {
        total_size(files.drop_last()) + files.last().1.len() + encode_utf8(files.last().0).len()
    }
}

proof fn lemma_weight(files: Seq<(Seq<char>, Seq<u8>)>, password: Option<Seq<u8>>)
    ensures
        weight(entries_of(files, password)) == total_size(files) + 1000 * files.len(),
    decreases files.len(),
{
    let entries = entries_of(files, password);
    if files.len() > 0 {
        lemma_weight(files.drop_last(), password);
        assert(entries.drop_last() =~= entries_of(files.drop_last(), password));
    }
}

/// An archive that was made of files gives each of them back under its name and with all of
/// its bytes, as long as they are fewer than 65535 and have, with a thousand bytes more for
/// each, no more than two gigabytes.
pub proof fn law_packed_files_come_back(
    bytes: Seq<u8>,
    files: Seq<(Seq<char>, Seq<u8>)>,
    password: Option<Seq<u8>>,
)
    requires
        reads_back(bytes, files, password),
        files.len() < 0xFFFF,
        total_size(files) + 1000 * files.len() <= 0x7FFF_FFFF,
    ensures
        archive_entries(bytes, password).len() == files.len(),
        forall|i: int|
            0 <= i < files.len() ==> (#[trigger] archive_entries(bytes, password)[i]).name
                == files[i].0 && archive_entries(bytes, password)[i].data == files[i].1
                && archive_entries(bytes, password)[i].encrypted == (password is Some),
{
    lemma_weight(files, password);
}

/// Files can be packed if and only if no two of them have the same name, no name has more than
/// 65535 bytes, and a password, if there is one, is not empty or has nothing to encrypt.
pub proof fn law_what_can_be_packed(
    files: Seq<(Seq<char>, Seq<u8>)>,
    file: (Seq<char>, Seq<u8>),
    password: Option<Seq<u8>>,
)
    ensures
        can_pack(seq![], password),
        can_pack(files.push(file), password) <==> can_pack(files, password) && (forall|i: int|
            0 <= i < files.len() ==> (#[trigger] files[i]).0 != file.0) && encode_utf8(file.0).len()
            <= 0xFFFF && (password matches Some(p) ==> p.len() > 0),
        are_small_files(seq![file]) <==> file.1.len() <= 0x7FFF_FFFF,
{
    let more = files.push(file);
    assert(more[files.len() as int] == file);
    assert(forall|i: int| 0 <= i < files.len() ==> #[trigger] files[i] == more[i]);
    assert(seq![file][0] == file);
    if can_pack(more, password) {
        assert forall|i: int, j: int| 0 <= i < j < files.len() implies (#[trigger] files[i]).0 != (
        #[trigger] files[j]).0 by {
            assert(more[i].0 != more[j].0);
        }
        assert forall|i: int| 0 <= i < files.len() implies (#[trigger] files[i]).0 != file.0 by {
            assert(more[i].0 != more[files.len() as int].0);
        }
        assert forall|i: int| 0 <= i < files.len() implies encode_utf8(
            (#[trigger] files[i]).0,
        ).len() <= 0xFFFF by {
            assert(encode_utf8(more[i].0).len() <= 0xFFFF);
        }
    }
    if can_pack(files, password) && (forall|i: int|
        0 <= i < files.len() ==> (#[trigger] files[i]).0 != file.0) && encode_utf8(file.0).len()
        <= 0xFFFF {
        assert forall|i: int, j: int| 0 <= i < j < more.len() implies (#[trigger] more[i]).0 != (
        #[trigger] more[j]).0 by {
            assert(more[i] == files[i]);
            if j < files.len() {
                assert(more[j] == files[j]);
            }
        }
        assert forall|i: int| 0 <= i < more.len() implies encode_utf8((#[trigger] more[i]).0).len()
            <= 0xFFFF by {
            if i < files.len() {
                assert(more[i] == files[i]);
            }
        }
    }
}

/// A password of the weakest strength is eight letters and digits; one of the others has
/// twelve or sixteen characters, among them a capital, a small letter, a digit and a symbol,
/// and nothing but these.
pub proof fn law_strength_is_length_and_kinds(p: Seq<char>, i: int)
    requires
        0 <= i < p.len(),
    ensures
        has_strength(p, PasswordStrength::Low) ==> p.len() == 8 && ('A' <= p[i] <= 'Z' || 'a'
            <= p[i] <= 'z' || '0' <= p[i] <= '9'),
        has_strength(p, PasswordStrength::Medium) ==> p.len() == 12,
        has_strength(p, PasswordStrength::High) ==> p.len() == 16,
        has_strength(p, PasswordStrength::Medium) || has_strength(p, PasswordStrength::High) ==> {
            &&& exists|k: int| 0 <= k < p.len() && 'A' <= #[trigger] p[k] <= 'Z'
            &&& exists|k: int| 0 <= k < p.len() && 'a' <= #[trigger] p[k] <= 'z'
            &&& exists|k: int| 0 <= k < p.len() && '0' <= #[trigger] p[k] <= '9'
            &&& exists|k: int| 0 <= k < p.len() && SYMBOLS@.contains(#[trigger] p[k])
            &&& 'A' <= p[i] <= 'Z' || 'a' <= p[i] <= 'z' || '0' <= p[i] <= '9' || SYMBOLS@.contains(
                p[i],
            )
        },
{
}

} // verus!
