//! Operations on text, as sequences of characters.
//!
//! The executable functions work on slices of `char`; [`to_chars`] and
//! [`from_chars`] lead from and to strings.
use vstd::prelude::*;
use vstd::slice::slice_subrange;

verus! {

/// `String::push` appends one character at the end of the string.
pub assume_specification[ String::push ](s: &mut String, c: char)
    ensures
        final(s)@ == old(s)@.push(c),
;

/// `String::push_str` appends a string at the end of the string.
pub assume_specification[ String::push_str ](s: &mut String, other: &str)
    ensures
        final(s)@ == old(s)@ + other@,
;

/// The contents of a sequence of character vectors.
pub open spec fn views(v: Seq<Vec<char>>) -> Seq<Seq<char>> {
    v.map_values(|w: Vec<char>| w@)
}

/// The contents of a sequence of strings.
pub open spec fn str_views(v: Seq<String>) -> Seq<Seq<char>> {
    v.map_values(|w: String| w@)
}

/// The contents of an optional string.
pub open spec fn opt_view(o: Option<String>) -> Option<Seq<char>> {
    match o {
        Some(s) => Some(s@),
        None => None,
    }
}

/// The characters of a string.
pub fn to_chars(s: &str) -> (r: Vec<char>)
    ensures
        r@ == s@,
{
    let mut out: Vec<char> = Vec::new();
    for c in it: s.chars()
        invariant
            it.seq() == s@,
            out@ == s@.take(it.index() as int),
    {
        out.push(c);
    }
    out
}

/// The string made of some characters.
pub fn from_chars(s: &[char]) -> (r: String)
    ensures
        r@ == s@,
{
    let mut out = String::new();
    let mut i: usize = 0;
    while i < s.len()
        invariant
            i <= s@.len(),
            out@ == s@.take(i as int),
        decreases s@.len() - i,
    {
        out.push(s[i]);
        i += 1;
    }
    proof {
        assert(s@.take(s@.len() as int) =~= s@);
    }
    out
}

/// Whether two character sequences are the same.
pub fn same_chars(a: &[char], b: &[char]) -> (r: bool)
    ensures
        r == (a@ == b@),
{
    if a.len() != b.len() {
        return false;
    }
    let mut i: usize = 0;
    while i < a.len()
        invariant
            i <= a@.len() == b@.len(),
            forall|j: int| 0 <= j < i ==> a@[j] == b@[j],
        decreases a@.len() - i,
    {
        if a[i] != b[i] {
            return false;
        }
        i += 1;
    }
    proof {
        assert(a@ =~= b@);
    }
    true
}

/// Whether some characters are those of a string.
pub fn is_text(a: &[char], s: &str) -> (r: bool)
    ensures
        r == (a@ == s@),
{
    let b = to_chars(s);
    same_chars(a, b.as_slice())
}

/// Whether two strings hold the same characters.
pub fn same_text(a: &str, b: &str) -> (r: bool)
    ensures
        r == (a@ == b@),
{
    let x = to_chars(a);
    is_text(x.as_slice(), b)
}

/// Where `x` first stands in `s`; the length of `s` if it does not.
pub open spec fn position<T>(s: Seq<T>, x: T) -> nat
    decreases s.len(),
{
    if s.len() == 0 || s[0] == x {
        0
    } else {
        1 + position(s.drop_first(), x)
    }
}

/// `position` gives the first place of `x`.
pub proof fn lemma_position<T>(s: Seq<T>, x: T)
    ensures
        position(s, x) <= s.len(),
        forall|j: int| 0 <= j < position(s, x) ==> s[j] != x,
        position(s, x) < s.len() ==> s[position(s, x) as int] == x,
    decreases s.len(),
{
    if s.len() == 0 || s[0] == x {
    } else {
        let t = s.drop_first();
        lemma_position(t, x);
        assert forall|j: int| 0 <= j < position(s, x) implies s[j] != x by {
            if j > 0 {
                assert(s[j] == t[j - 1]);
            }
        }
        if position(s, x) < s.len() {
            assert(s[position(s, x) as int] == t[position(t, x) as int]);
        }
    }
}

/// The first place of `x` is the only one before which `x` does not stand.
pub proof fn lemma_position_is<T>(s: Seq<T>, x: T, p: int)
    requires
        0 <= p <= s.len(),
        forall|j: int| 0 <= j < p ==> s[j] != x,
        p < s.len() ==> s[p] == x,
    ensures
        position(s, x) == p,
{
    lemma_position(s, x);
    let q = position(s, x) as int;
    if q < p {
        assert(s[q] != x);
    }
}

/// Where `c` first stands in `s`, if it does.
pub fn find_char(s: &[char], c: char) -> (r: Option<usize>)
    ensures
        r matches Some(i) ==> i < s@.len() && i == position(s@, c),
        r is None <==> position(s@, c) == s@.len(),
        r is None ==> !s@.contains(c),
        r is Some ==> s@.contains(c),
{
    let mut i: usize = 0;
    while i < s.len()
        invariant
            i <= s@.len(),
            forall|j: int| 0 <= j < i ==> s@[j] != c,
        decreases s@.len() - i,
    {
        if s[i] == c {
            proof {
                lemma_position_is(s@, c, i as int);
            }
            return Some(i);
        }
        i += 1;
    }
    proof {
        lemma_position_is(s@, c, s@.len() as int);
    }
    None
}

/// The pieces of `s` between the occurrences of `sep`.
pub open spec fn split<T>(s: Seq<T>, sep: T) -> Seq<Seq<T>>
    decreases s.len(),
{
    let p = position(s, sep) as int;
    if p >= s.len() {
        seq![s]
    } else {
        seq![s.take(p)] + split(s.skip(p + 1), sep)
    }
}

/// The pieces of `s` between the occurrences of `sep`.
pub fn split_chars(s: &[char], sep: char) -> (r: Vec<Vec<char>>)
    ensures
        views(r@) == split(s@, sep),
{
    let mut out: Vec<Vec<char>> = Vec::new();
    let mut a: usize = 0;
    let mut i: usize = 0;
    proof {
        assert(s@.skip(0) =~= s@);
        assert(views(out@) + split(s@, sep) =~= split(s@, sep));
    }
    while i < s.len()
        invariant
            a <= i <= s@.len(),
            forall|j: int| a <= j < i ==> s@[j] != sep,
            views(out@) + split(s@.skip(a as int), sep) == split(s@, sep),
        decreases s@.len() - i,
    {
        if s[i] == sep {
            let ghost before = out@;
            out.push(vstd::slice::slice_to_vec(slice_subrange(s, a, i)));
            proof {
                let t = s@.skip(a as int);
                lemma_position_is(t, sep, i - a);
                assert(t.take(i - a) =~= s@.subrange(a as int, i as int));
                assert(t.skip(i - a + 1) =~= s@.skip(i + 1));
                assert(views(out@) =~= views(before) + seq![s@.subrange(a as int, i as int)]);
                assert(views(before) + (seq![t.take(i - a)] + split(s@.skip(i + 1), sep)) =~= views(
                    out@,
                ) + split(s@.skip(i + 1), sep));
            }
            a = i + 1;
        }
        i += 1;
    }
    let ghost before = out@;
    out.push(vstd::slice::slice_to_vec(slice_subrange(s, a, s.len())));
    proof {
        let t = s@.skip(a as int);
        lemma_position_is(t, sep, t.len() as int);
        assert(t =~= s@.subrange(a as int, s@.len() as int));
        assert(views(out@) =~= views(before) + seq![t]);
    }
    out
}

/// `s` with each occurrence of `pat`, taken from left to right without overlap,
/// replaced by `with`. An empty pattern replaces nothing.
pub open spec fn replace(s: Seq<char>, pat: Seq<char>, with: Seq<char>) -> Seq<char>
    decreases s.len(),
{
    if pat.len() == 0 || s.len() < pat.len() {
        s
    } else if s.take(pat.len() as int) == pat {
        with + replace(s.skip(pat.len() as int), pat, with)
    } else {
        seq![s[0]] + replace(s.skip(1), pat, with)
    }
}

/// Whether `pat` stands in `s` at place `i`.
pub fn stands_at(s: &[char], i: usize, pat: &[char]) -> (r: bool)
    requires
        i <= s@.len(),
    ensures
        r == (i + pat@.len() <= s@.len() && s@.subrange(i as int, i + pat@.len()) == pat@),
{
    if s.len() - i < pat.len() {
        return false;
    }
    same_chars(slice_subrange(s, i, i + pat.len()), pat)
}

/// `s` with each occurrence of `pat` replaced by `with`.
pub fn replace_chars(s: &[char], pat: &[char], with: &[char]) -> (r: Vec<char>)
    ensures
        r@ == replace(s@, pat@, with@),
{
    let mut out: Vec<char> = Vec::new();
    let mut i: usize = 0;
    proof {
        assert(s@.skip(0) =~= s@);
        assert(out@ + replace(s@, pat@, with@) =~= replace(s@, pat@, with@));
    }
    if pat.len() == 0 {
        return vstd::slice::slice_to_vec(s);
    }
    while i < s.len()
        invariant
            pat@.len() > 0,
            i <= s@.len(),
            out@ + replace(s@.skip(i as int), pat@, with@) == replace(s@, pat@, with@),
        decreases s@.len() - i,
    {
        let ghost before = out@;
        let ghost t = s@.skip(i as int);
        if stands_at(s, i, pat) {
            out.extend_from_slice(with);
            proof {
                assert(t.take(pat@.len() as int) =~= s@.subrange(i as int, i + pat@.len()));
                assert(t.skip(pat@.len() as int) =~= s@.skip(i + pat@.len()));
                assert(out@ =~= before + with@);
                assert(before + (with@ + replace(s@.skip(i + pat@.len()), pat@, with@)) =~= out@
                    + replace(s@.skip(i + pat@.len()), pat@, with@));
            }
            i += pat.len();
        } else {
            out.push(s[i]);
            proof {
                if t.len() >= pat@.len() {
                    assert(t.take(pat@.len() as int) =~= s@.subrange(i as int, i + pat@.len()));
                    assert(t.skip(1) =~= s@.skip(i + 1));
                    assert(before + (seq![t[0]] + replace(s@.skip(i + 1), pat@, with@)) =~= out@
                        + replace(s@.skip(i + 1), pat@, with@));
                } else {
                    assert(replace(s@.skip(i + 1), pat@, with@) == s@.skip(i + 1));
                    assert(before + t =~= out@ + s@.skip(i + 1));
                }
            }
            i += 1;
        }
    }
    proof {
        assert(s@.skip(i as int) =~= Seq::<char>::empty());
        assert(out@ + Seq::<char>::empty() =~= out@);
    }
    out
}

/// `s` with each occurrence of `pat` replaced by `with`.
pub fn replace_text(s: &str, pat: &str, with: &str) -> (r: String)
    ensures
        r@ == replace(s@, pat@, with@),
{
    let a = to_chars(s);
    let b = to_chars(pat);
    let c = to_chars(with);
    let d = replace_chars(a.as_slice(), b.as_slice(), c.as_slice());
    from_chars(d.as_slice())
}

/// Whether a character has the Unicode property White_Space.
pub open spec fn is_space(c: char) -> bool {
    let u = c as u32;
    ||| 0x09 <= u <= 0x0D
    ||| u == 0x20
    ||| u == 0x85
    ||| u == 0xA0
    ||| u == 0x1680
    ||| 0x2000 <= u <= 0x200A
    ||| u == 0x2028
    ||| u == 0x2029
    ||| u == 0x202F
    ||| u == 0x205F
    ||| u == 0x3000
}

/// Whether a character has the Unicode property White_Space.
pub fn is_space_char(c: char) -> (r: bool)
    ensures
        r == is_space(c),
{
    let u = c as u32;
    (0x09 <= u && u <= 0x0D) || u == 0x20 || u == 0x85 || u == 0xA0 || u == 0x1680 || (0x2000 <= u
        && u <= 0x200A) || u == 0x2028 || u == 0x2029 || u == 0x202F || u == 0x205F || u == 0x3000
}

/// `s` without the white space at its start.
pub open spec fn trim_start(s: Seq<char>) -> Seq<char>
    decreases s.len(),
{
    if s.len() > 0 && is_space(s[0]) {
        trim_start(s.skip(1))
    } else {
        s
    }
}

/// `s` without the white space at its end.
pub open spec fn trim_end(s: Seq<char>) -> Seq<char>
    decreases s.len(),
{
    if s.len() > 0 && is_space(s.last()) {
        trim_end(s.drop_last())
    } else {
        s
    }
}

/// `s` without the white space at both ends.
pub open spec fn trim(s: Seq<char>) -> Seq<char> {
    trim_end(trim_start(s))
}

/// `s` without the white space at its start.
pub fn trim_start_chars(s: &[char]) -> (r: &[char])
    ensures
        r@ == trim_start(s@),
{
    let mut a: usize = 0;
    proof {
        assert(s@.skip(0) =~= s@);
    }
    while a < s.len() && is_space_char(s[a])
        invariant
            a <= s@.len(),
            trim_start(s@.skip(a as int)) == trim_start(s@),
        decreases s@.len() - a,
    {
        proof {
            assert(s@.skip(a as int).skip(1) =~= s@.skip(a + 1));
        }
        a += 1;
    }
    proof {
        assert(s@.subrange(a as int, s@.len() as int) =~= s@.skip(a as int));
    }
    slice_subrange(s, a, s.len())
}

/// `s` without the white space at both ends.
pub fn trim_chars(s: &[char]) -> (r: &[char])
    ensures
        r@ == trim(s@),
{
    let t = trim_start_chars(s);
    let mut b: usize = t.len();
    proof {
        assert(t@.take(b as int) =~= t@);
    }
    while b > 0 && is_space_char(t[b - 1])
        invariant
            b <= t@.len(),
            trim_end(t@.take(b as int)) == trim_end(t@),
        decreases b,
    {
        proof {
            assert(t@.take(b as int).drop_last() =~= t@.take(b - 1));
        }
        b -= 1;
    }
    proof {
        assert(t@.subrange(0, b as int) =~= t@.take(b as int));
    }
    slice_subrange(t, 0, b)
}

/// `s` without the run of `c` at its end.
pub open spec fn trim_end_matches(s: Seq<char>, c: char) -> Seq<char>
    decreases s.len(),
{
    if s.len() > 0 && s.last() == c {
        trim_end_matches(s.drop_last(), c)
    } else {
        s
    }
}

/// `s` without the run of `c` at its end.
pub fn trim_end_char(s: &[char], c: char) -> (r: &[char])
    ensures
        r@ == trim_end_matches(s@, c),
{
    let mut b: usize = s.len();
    proof {
        assert(s@.take(b as int) =~= s@);
    }
    while b > 0 && s[b - 1] == c
        invariant
            b <= s@.len(),
            trim_end_matches(s@.take(b as int), c) == trim_end_matches(s@, c),
        decreases b,
    {
        proof {
            assert(s@.take(b as int).drop_last() =~= s@.take(b - 1));
        }
        b -= 1;
    }
    proof {
        assert(s@.subrange(0, b as int) =~= s@.take(b as int));
    }
    slice_subrange(s, 0, b)
}

/// The lower-case form of an ASCII letter; any other character itself.
pub open spec fn lower_char(c: char) -> char {
    if 'A' <= c <= 'Z' {
        ((c as u32) + 32) as char
    } else {
        c
    }
}

/// `s` with its ASCII letters in lower case.
pub open spec fn lower(s: Seq<char>) -> Seq<char> {
    s.map_values(|c: char| lower_char(c))
}

/// The lower-case form of an ASCII letter; any other character itself.
pub fn lower_one(c: char) -> (r: char)
    ensures
        r == lower_char(c),
{
    if 'A' <= c && c <= 'Z' {
        ((c as u8) + 32) as char
    } else {
        c
    }
}

/// `s` with its ASCII letters in lower case.
pub fn lower_chars(s: &[char]) -> (r: Vec<char>)
    ensures
        r@ == lower(s@),
{
    let mut out: Vec<char> = Vec::new();
    let mut i: usize = 0;
    while i < s.len()
        invariant
            i <= s@.len(),
            out@ == lower(s@.take(i as int)),
        decreases s@.len() - i,
    {
        out.push(lower_one(s[i]));
        i += 1;
        proof {
            assert(out@ =~= lower(s@.take(i as int)));
        }
    }
    proof {
        assert(s@.take(s@.len() as int) =~= s@);
    }
    out
}

/// `s` with its ASCII letters in lower case.
pub fn lower_text(s: &str) -> (r: String)
    ensures
        r@ == lower(s@),
{
    let c = to_chars(s);
    let d = lower_chars(c.as_slice());
    from_chars(d.as_slice())
}

/// Whether `s` starts with `p`.
pub open spec fn starts_with(s: Seq<char>, p: Seq<char>) -> bool {
    p.len() <= s.len() && s.take(p.len() as int) == p
}

/// Whether `s` starts with `p`.
pub fn chars_start_with(s: &[char], p: &str) -> (r: bool)
    ensures
        r == starts_with(s@, p@),
{
    let q = to_chars(p);
    proof {
        if q@.len() <= s@.len() {
            assert(s@.subrange(0, q@.len() as int) =~= s@.take(q@.len() as int));
        }
    }
    stands_at(s, 0, q.as_slice())
}

/// The lines of a text: each ends with a line feed, before which one carriage
/// return is left out; the last line may lack its line feed.
pub open spec fn lines(s: Seq<char>) -> Seq<Seq<char>>
    decreases s.len(),
{
    let p = position(s, '\n') as int;
    if s.len() == 0 {
        seq![]
    } else if p >= s.len() {
        seq![s]
    } else {
        let line = s.take(p);
        let line = if line.len() > 0 && line.last() == '\r' {
            line.drop_last()
        } else {
            line
        };
        seq![line] + lines(s.skip(p + 1))
    }
}

/// The lines of a text.
pub fn split_lines(s: &[char]) -> (r: Vec<Vec<char>>)
    ensures
        views(r@) == lines(s@),
{
    let mut out: Vec<Vec<char>> = Vec::new();
    let mut a: usize = 0;
    let mut i: usize = 0;
    proof {
        assert(s@.skip(0) =~= s@);
        assert(views(out@) + lines(s@) =~= lines(s@));
    }
    while i < s.len()
        invariant
            a <= i <= s@.len(),
            forall|j: int| a <= j < i ==> s@[j] != '\n',
            views(out@) + lines(s@.skip(a as int)) == lines(s@),
        decreases s@.len() - i,
    {
        if s[i] == '\n' {
            let ghost before = out@;
            let e: usize = if i > a && s[i - 1] == '\r' {
                i - 1
            } else {
                i
            };
            out.push(vstd::slice::slice_to_vec(slice_subrange(s, a, e)));
            proof {
                let t = s@.skip(a as int);
                lemma_position_is(t, '\n', i - a);
                assert(t.take(i - a) =~= s@.subrange(a as int, i as int));
                if e < i {
                    assert(s@.subrange(a as int, i as int).drop_last() =~= s@.subrange(
                        a as int,
                        e as int,
                    ));
                }
                assert(t.skip(i - a + 1) =~= s@.skip(i + 1));
                assert(views(out@) =~= views(before) + seq![s@.subrange(a as int, e as int)]);
                assert(views(before) + (seq![s@.subrange(a as int, e as int)] + lines(
                    s@.skip(i + 1),
                )) =~= views(out@) + lines(s@.skip(i + 1)));
            }
            a = i + 1;
        }
        i += 1;
    }
    if a < s.len() {
        let ghost before = out@;
        out.push(vstd::slice::slice_to_vec(slice_subrange(s, a, s.len())));
        proof {
            let t = s@.skip(a as int);
            lemma_position_is(t, '\n', t.len() as int);
            assert(t =~= s@.subrange(a as int, s@.len() as int));
            assert(views(out@) =~= views(before) + seq![t]);
        }
    } else {
        proof {
            assert(s@.skip(a as int) =~= Seq::<char>::empty());
            assert(views(out@) + lines(s@.skip(a as int)) =~= views(out@));
        }
    }
    out
}

/// Whether a character is a decimal digit.
pub open spec fn is_digit(c: char) -> bool {
    '0' <= c <= '9'
}

/// The number that a sequence of decimal digits writes.
pub open spec fn decimal_value(s: Seq<char>) -> nat
    decreases s.len(),
{
    if s.len() == 0 {
        0
    } else {
        (decimal_value(s.drop_last()) * 10 + (s.last() as u32 - '0' as u32)) as nat
    }
}

/// The number that `s` writes in decimal, if it is made of digits alone and the
/// number is at most `max`.
pub open spec fn parse_digits(s: Seq<char>, max: nat) -> Option<nat> {
    if s.len() > 0 && (forall|i: int| 0 <= i < s.len() ==> is_digit(#[trigger] s[i]))
        && decimal_value(s) <= max {
        Some(decimal_value(s))
    } else {
        None
    }
}

/// The number that `s` writes in decimal, if it is made of digits alone and the
/// number is at most `max`.
pub fn digits_to_u64(s: &[char], max: u64) -> (r: Option<u64>)
    ensures
        match parse_digits(s@, max as nat) {
            Some(n) => r == Some(n as u64),
            None => r is None,
        },
{
    if s.len() == 0 {
        return None;
    }
    let mut v: u64 = 0;
    let mut over = false;
    let mut i: usize = 0;
    while i < s.len()
        invariant
            i <= s@.len(),
            forall|j: int| 0 <= j < i ==> is_digit(#[trigger] s@[j]),
            over ==> decimal_value(s@.take(i as int)) > max,
            !over ==> v == decimal_value(s@.take(i as int)) && v <= max,
        decreases s@.len() - i,
    {
        let c = s[i];
        if c < '0' || c > '9' {
            proof {
                assert(!is_digit(s@[i as int]));
            }
            return None;
        }
        proof {
            assert(s@.take(i + 1).drop_last() =~= s@.take(i as int));
        }
        let d: u64 = (c as u8 - '0' as u8) as u64;
        if !over {
            if d > max || v > (max - d) / 10 {
                over = true;
            } else {
                v = v * 10 + d;
            }
        }
        i += 1;
    }
    proof {
        assert(s@.take(s@.len() as int) =~= s@);
    }
    if over {
        None
    } else {
        Some(v)
    }
}

/// The number that `s` writes as an unsigned integer of at most `max`: digits, with
/// one plus sign before them at the most.
pub open spec fn parse_unsigned(s: Seq<char>, max: nat) -> Option<nat> {
    if s.len() > 0 && s[0] == '+' {
        parse_digits(s.skip(1), max)
    } else {
        parse_digits(s, max)
    }
}

/// The number that `s` writes as an unsigned integer of at most `max`.
pub fn chars_to_u64(s: &[char], max: u64) -> (r: Option<u64>)
    ensures
        match parse_unsigned(s@, max as nat) {
            Some(n) => r == Some(n as u64),
            None => r is None,
        },
{
    if s.len() > 0 && s[0] == '+' {
        proof {
            assert(s@.subrange(1, s@.len() as int) =~= s@.skip(1));
        }
        digits_to_u64(slice_subrange(s, 1, s.len()), max)
    } else {
        digits_to_u64(s, max)
    }
}

/// The number that `s` writes as a 64-bit signed integer: digits, with one plus or
/// minus sign before them at the most.
pub open spec fn parse_i64(s: Seq<char>) -> Option<int> {
    if s.len() > 0 && s[0] == '-' {
        match parse_digits(s.skip(1), 0x8000_0000_0000_0000) {
            Some(n) => Some(-n),
            None => None,
        }
    } else {
        match parse_unsigned(s, 0x7FFF_FFFF_FFFF_FFFF) {
            Some(n) => Some(n as int),
            None => None,
        }
    }
}

/// The number that `s` writes as a 64-bit signed integer.
pub fn chars_to_i64(s: &[char]) -> (r: Option<i64>)
    ensures
        match parse_i64(s@) {
            Some(n) => r == Some(n as i64) && i64::MIN <= n <= i64::MAX,
            None => r is None,
        },
{
    if s.len() > 0 && s[0] == '-' {
        proof {
            assert(s@.subrange(1, s@.len() as int) =~= s@.skip(1));
        }
        match digits_to_u64(slice_subrange(s, 1, s.len()), 0x8000_0000_0000_0000) {
            Some(n) => if n == 0x8000_0000_0000_0000 {
                Some(i64::MIN)
            } else {
                Some(-(n as i64))
            },
            None => None,
        }
    } else {
        match chars_to_u64(s, 0x7FFF_FFFF_FFFF_FFFF) {
            Some(n) => Some(n as i64),
            None => None,
        }
    }
}

/// The decimal digit of a number below ten.
pub open spec fn digit(n: nat) -> char {
    (n + '0' as u32) as char
}

/// How a number is written in decimal.
pub open spec fn decimal(n: nat) -> Seq<char>
    decreases n,
{
    if n < 10 {
        seq![digit(n)]
    } else {
        decimal(n / 10).push(digit(n % 10))
    }
}

/// How a number is written in decimal.
pub fn decimal_chars(n: u64) -> (r: Vec<char>)
    ensures
        r@ == decimal(n as nat),
    decreases n,
{
    if n < 10 {
        let d = (n as u8 + '0' as u8) as char;
        let mut out: Vec<char> = Vec::new();
        out.push(d);
        proof {
            assert(out@ =~= decimal(n as nat));
        }
        out
    } else {
        let mut out = decimal_chars(n / 10);
        let d = ((n % 10) as u8 + '0' as u8) as char;
        out.push(d);
        out
    }
}

/// How a number is written in decimal.
pub fn decimal_text(n: u64) -> (r: String)
    ensures
        r@ == decimal(n as nat),
{
    let c = decimal_chars(n);
    from_chars(c.as_slice())
}

/// A number written in decimal is read back as itself.
pub proof fn law_decimal_read_back(n: nat, max: nat)
    requires
        n <= max,
    ensures
        parse_digits(decimal(n), max) == Some(n),
        parse_unsigned(decimal(n), max) == Some(n),
    decreases n,
{
    if n < 10 {
        assert(decimal(n).drop_last() =~= Seq::<char>::empty());
        assert(decimal_value(decimal(n).drop_last()) == 0);
        assert(decimal(n).last() == digit(n));
    } else {
        law_decimal_read_back(n / 10, max);
        let s = decimal(n / 10);
        assert(decimal(n).drop_last() =~= s);
        assert forall|i: int| 0 <= i < decimal(n).len() implies is_digit(#[trigger] decimal(n)[i]) by {
            if i < s.len() {
                assert(decimal(n)[i] == s[i]);
            }
        }
        assert(decimal(n)[0] == s[0]);
    }
    assert(is_digit(decimal(n)[0]));
}

/// Whether a text is white space alone.
pub open spec fn is_blank(s: Seq<char>) -> bool {
    forall|i: int| 0 <= i < s.len() ==> is_space(#[trigger] s[i])
}

proof fn lemma_trim_start(s: Seq<char>)
    ensures
        trim_start(s).len() <= s.len(),
        trim_start(s) == s.skip(s.len() - trim_start(s).len()),
        is_blank(s.take(s.len() - trim_start(s).len())),
        trim_start(s).len() > 0 ==> !is_space(trim_start(s)[0]),
    decreases s.len(),
{
    if s.len() > 0 && is_space(s[0]) {
        let t = s.skip(1);
        lemma_trim_start(t);
        let n = s.len() - trim_start(s).len();
        assert(s.skip(n) =~= t.skip(n - 1));
        assert forall|i: int| 0 <= i < s.take(n).len() implies is_space(#[trigger] s.take(n)[i]) by {
            if i > 0 {
                assert(s.take(n)[i] == t.take(n - 1)[i - 1]);
            }
        }
    } else {
        assert(s.skip(0) =~= s);
    }
}

proof fn lemma_trim_end(s: Seq<char>)
    ensures
        trim_end(s).len() <= s.len(),
        trim_end(s) == s.take(trim_end(s).len() as int),
        is_blank(s.skip(trim_end(s).len() as int)),
        trim_end(s).len() > 0 ==> !is_space(trim_end(s).last()),
    decreases s.len(),
{
    let n = trim_end(s).len() as int;
    if s.len() > 0 && is_space(s.last()) {
        let t = s.drop_last();
        lemma_trim_end(t);
        assert(s.take(n) =~= t.take(n));
        assert forall|i: int| 0 <= i < s.skip(n).len() implies is_space(#[trigger] s.skip(n)[i]) by {
            if n + i < t.len() {
                assert(s.skip(n)[i] == t.skip(n)[i]);
            }
        }
    } else {
        assert(s.take(n) =~= s);
    }
}

/// A trimmed text is the text without white space before it and behind it: nothing else is
/// cut off, and it neither starts nor ends with white space.
pub proof fn law_only_white_space_is_trimmed(s: Seq<char>)
    ensures
        exists|a: Seq<char>, b: Seq<char>|
            is_blank(a) && is_blank(b) && s == #[trigger] (a + trim(s) + b),
        trim(s).len() > 0 ==> !is_space(trim(s)[0]) && !is_space(trim(s).last()),
{
    lemma_trim_start(s);
    let t = trim_start(s);
    lemma_trim_end(t);
    let a = s.take(s.len() - t.len());
    let b = t.skip(trim(s).len() as int);
    assert(s =~= a + trim(s) + b);
    assert(is_blank(a) && is_blank(b) && s == a + trim(s) + b);
    if trim(s).len() > 0 {
        assert(trim(s)[0] == t[0]);
    }
}

/// A text that neither starts nor ends with white space is what is left of it when it is
/// trimmed, whatever white space stands around it.
pub proof fn law_trimmed_text_is_kept(a: Seq<char>, s: Seq<char>, b: Seq<char>)
    requires
        is_blank(a),
        is_blank(b),
        s.len() > 0 ==> !is_space(s[0]) && !is_space(s.last()),
    ensures
        trim(a + s + b) == s,
    decreases a.len() + b.len(),
{
    let t = a + s + b;
    if s.len() == 0 {
        lemma_trim_start(t);
        lemma_trim_end(trim_start(t));
        if trim(t).len() > 0 {
            let x = trim_start(t);
            assert(trim(t)[0] == x[0]);
            assert(x[0] == t[t.len() - x.len()]);
            let i = t.len() - x.len();
            if i < a.len() {
                assert(t[i] == a[i]);
            } else {
                assert(t[i] == b[i - a.len()]);
            }
        }
        assert(trim(t) =~= s);
    } else if a.len() > 0 {
        let c = a.skip(1);
        assert(t[0] == a[0]);
        assert(t.skip(1) =~= c + s + b);
        assert forall|i: int| 0 <= i < c.len() implies is_space(#[trigger] c[i]) by {
            assert(c[i] == a[i + 1]);
        }
        law_trimmed_text_is_kept(c, s, b);
    } else {
        assert(t =~= s + b);
        assert(t[0] == s[0]);
        assert(trim_start(t) == t);
        if b.len() > 0 {
            let d = b.drop_last();
            assert(t.last() == b[b.len() - 1]);
            assert(t.drop_last() =~= a + s + d);
            assert forall|i: int| 0 <= i < d.len() implies is_space(#[trigger] d[i]) by {
                assert(d[i] == b[i]);
            }
            law_trimmed_text_is_kept(a, s, d);
            assert(t.drop_last()[0] == s[0]);
            assert(trim_start(t.drop_last()) == t.drop_last());
        } else {
            assert(t =~= s);
        }
    }
}

/// In small letters a text has the same length, capitals of ASCII become the letters that
/// they are, and every other character stays. Two texts that differ in that alone are the
/// same in small letters.
pub proof fn law_small_letters(s: Seq<char>, i: int)
    requires
        0 <= i < s.len(),
    ensures
        lower(s).len() == s.len(),
        'A' <= s[i] <= 'Z' ==> lower(s)[i] as u32 == s[i] as u32 + 32,
        !('A' <= s[i] <= 'Z') ==> lower(s)[i] == s[i],
        lower(lower(s)) == lower(s),
{
    assert(lower(lower(s)) =~= lower(s));
}

/// The pieces of a text, with the separator between each two, make the text, and none of
/// them holds the separator.
pub proof fn law_pieces_make_the_text<T>(s: Seq<T>, sep: T)
    ensures
        joined(split(s, sep), sep) == s,
        split(s, sep).len() > 0,
        forall|i: int| 0 <= i < split(s, sep).len() ==> !(#[trigger] split(s, sep)[i]).contains(sep),
    decreases s.len(),
{
    lemma_position(s, sep);
    let p = position(s, sep) as int;
    let pieces = split(s, sep);
    if p < s.len() {
        let rest = s.skip(p + 1);
        law_pieces_make_the_text(rest, sep);
        assert(pieces.skip(1) =~= split(rest, sep));
        assert(pieces[0] == s.take(p));
        assert(joined(pieces, sep) =~= s);
        assert forall|i: int| 0 <= i < pieces.len() implies !(#[trigger] pieces[i]).contains(
            sep,
        ) by {
            if i > 0 {
                assert(pieces[i] == split(rest, sep)[i - 1]);
            }
        }
    } else {
        assert(pieces.skip(1) =~= Seq::<Seq<T>>::empty());
        assert(joined(pieces, sep) =~= s);
    }
}

/// Pieces with a separator between each two.
pub open spec fn joined<T>(pieces: Seq<Seq<T>>, sep: T) -> Seq<T>
    decreases pieces.len(),
{
    if pieces.len() == 0 {
        seq![]
    } else if pieces.len() == 1 {
        pieces[0]
    } else {
        pieces[0] + seq![sep] + joined(pieces.skip(1), sep)
    }
}

/// A line of a text ends with a line feed, with or without a carriage return before it, and
/// what stands behind it is the rest of the lines.
pub proof fn law_lines_are_told_apart(line: Seq<char>, rest: Seq<char>)
    requires
        !line.contains('\n'),
        line.len() > 0 ==> line.last() != '\r',
    ensures
        lines(line + seq!['\n'] + rest) == seq![line] + lines(rest),
        lines(line + seq!['\r', '\n'] + rest) == seq![line] + lines(rest),
        line.len() > 0 ==> lines(line) == seq![line],
{
    assert forall|j: int| 0 <= j < line.len() implies line[j] != '\n' by {
        assert(line.contains(line[j]));
    }
    let n = line.len() as int;
    let a = line + seq!['\n'] + rest;
    lemma_position_is(a, '\n', n);
    assert(a.take(n) =~= line);
    assert(a.skip(n + 1) =~= rest);
    let b = line + seq!['\r', '\n'] + rest;
    assert forall|j: int| 0 <= j < n + 1 implies b[j] != '\n' by {
        if j < n {
            assert(b[j] == line[j]);
        }
    }
    lemma_position_is(b, '\n', n + 1);
    assert(b.take(n + 1).drop_last() =~= line);
    assert(b.take(n + 1).last() == '\r');
    assert(b.skip(n + 2) =~= rest);
    lemma_position_is(line, '\n', n);
}

/// A number may have a plus sign before it and, with a sign, a minus sign; one that is too
/// large, or that is not made of digits alone, is none.
pub proof fn law_numbers_are_read(n: nat, max: nat, s: Seq<char>, i: int)
    ensures
        n <= max ==> parse_unsigned(seq!['+'] + decimal(n), max) == Some(n),
        n > max ==> parse_unsigned(decimal(n), max) is None,
        n <= 0x8000_0000_0000_0000 ==> parse_i64(seq!['-'] + decimal(n)) == Some(-n),
        n <= 0x7FFF_FFFF_FFFF_FFFF ==> parse_i64(decimal(n)) == Some(n as int),
        s.len() == 0 ==> parse_unsigned(s, max) is None && parse_i64(s) is None,
        1 <= i < s.len() && !is_digit(s[i]) ==> parse_unsigned(s, max) is None && parse_i64(s)
            is None,
{
    let d = decimal(n);
    law_decimal_read_back(n, n);
    assert(is_digit(d[0]));
    assert((seq!['+'] + d).skip(1) =~= d);
    assert((seq!['-'] + d).skip(1) =~= d);
    if n <= max {
        law_decimal_read_back(n, max);
    }
    if n <= 0x8000_0000_0000_0000 {
        law_decimal_read_back(n, 0x8000_0000_0000_0000);
    }
    if n <= 0x7FFF_FFFF_FFFF_FFFF {
        law_decimal_read_back(n, 0x7FFF_FFFF_FFFF_FFFF);
    }
    if 1 <= i < s.len() && !is_digit(s[i]) {
        assert(s.skip(1)[i - 1] == s[i]);
    }
}

/// The blank, the tab, the line ends, the blank of Japanese and the other spaces of Unicode
/// are white space, and no character that can be seen is.
pub proof fn law_what_is_white_space(c: char)
    ensures
        c == ' ' || c == '\t' || c == '\n' || c == '\r' ==> is_space(c),
        c as u32 == 0x0B || c as u32 == 0x0C || c as u32 == 0x85 || c as u32 == 0xA0 ==> is_space(
            c,
        ),
        c as u32 == 0x3000 || c as u32 == 0x1680 || 0x2000 <= c as u32 <= 0x200A ==> is_space(c),
        c as u32 == 0x2028 || c as u32 == 0x2029 || c as u32 == 0x202F || c as u32 == 0x205F
            ==> is_space(c),
        '!' <= c <= '~' || 0x3001 <= c as u32 <= 0x9FFF || c as u32 == 0x200B || c as u32 == 0
            ==> !is_space(c),
{
}

} // verus!
