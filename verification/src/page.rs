//! The files that serve a download: the page, its protection and its token check.
use crate::codec::{hash_password, is_hash_of};
use crate::download::{extract_query_param, or_empty, query_param, text_or_empty};
use crate::json::json_read;
use crate::mailinfo::{
    page_of, read_mailinfo, saved_views, PageInfo, PageView, SavedFile, SavedView,
};
use crate::names::{file_name, last_name};
use crate::text::{
    decimal, decimal_text, find_char, from_chars, law_decimal_read_back, lower, lower_text, opt_view,
    position, replace, replace_text, same_text, to_chars,
};
use vstd::prelude::*;
use vstd::slice::slice_subrange;
use vstd::utf8::encode_utf8;

verus! {

/// How a character is written in HTML.
pub open spec fn html_char(c: char) -> Seq<char> {
    if c == '&' {
        "&amp;"@
    } else if c == '<' {
        "&lt;"@
    } else if c == '>' {
        "&gt;"@
    } else {
        seq![c]
    }
}

/// A text as it is written in HTML.
pub open spec fn html_text(s: Seq<char>) -> Seq<char>
    decreases s.len(),
{
    if s.len() == 0 {
        seq![]
    } else {
        html_text(s.drop_last()) + html_char(s.last())
    }
}

/// A text as it is written in HTML.
pub fn html_escape(s: &str) -> (r: String)
    ensures
        r@ == html_text(s@),
{
    let mut out = String::new();
    proof {
        assert(s@.take(0) =~= Seq::<char>::empty());
        assert(out@ =~= html_text(s@.take(0)));
    }
    for c in it: s.chars()
        invariant
            it.seq() == s@,
            out@ == html_text(s@.take(it.index() as int)),
    {
        proof {
            let i = it.index() as int;
            assert(s@.take(i + 1).drop_last() =~= s@.take(i));
            assert(s@.take(i + 1).last() == c);
        }
        if c == '&' {
            out.push_str("&amp;");
        } else if c == '<' {
            out.push_str("&lt;");
        } else if c == '>' {
            out.push_str("&gt;");
        } else {
            out.push(c);
            proof {
                assert(html_text(s@.take(it.index() as int)) + seq![c] =~= out@);
            }
        }
    }
    proof {
        assert(s@.take(s@.len() as int) =~= s@);
    }
    out
}

/// A text that is written in HTML opens and closes no tag.
pub proof fn law_escaped_text_has_no_tags(s: Seq<char>)
    ensures
        !html_text(s).contains('<'),
        !html_text(s).contains('>'),
    decreases s.len(),
{
    if s.len() > 0 {
        law_escaped_text_has_no_tags(s.drop_last());
        reveal_strlit("&amp;");
        reveal_strlit("&lt;");
        reveal_strlit("&gt;");
        let a = html_text(s.drop_last());
        let b = html_char(s.last());
        assert forall|i: int| 0 <= i < (a + b).len() implies (a + b)[i] != '<' && (a + b)[i]
            != '>' by {
            if i < a.len() {
                assert(a.contains(a[i]));
                assert((a + b)[i] == a[i]);
            } else {
                assert((a + b)[i] == b[i - a.len()]);
            }
        }
    }
}

/// A text whose escapes are undone, those of `<` first and those of `&` last.
pub open spec fn html_undone(s: Seq<char>) -> Seq<char> {
    replace(replace(replace(s, "&lt;"@, "<"@), "&gt;"@, ">"@), "&amp;"@, "&"@)
}

/// How a character is written in HTML where only some characters are escaped.
spec fn partly_escaped_char(c: char, lt: bool, gt: bool, amp: bool) -> Seq<char> {
    if c == '&' && amp {
        "&amp;"@
    } else if c == '<' && lt {
        "&lt;"@
    } else if c == '>' && gt {
        "&gt;"@
    } else {
        seq![c]
    }
}

/// A text as it is written in HTML where only some characters are escaped.
spec fn partly_escaped(s: Seq<char>, lt: bool, gt: bool, amp: bool) -> Seq<char>
    decreases s.len(),
{
    if s.len() == 0 {
        seq![]
    } else {
        partly_escaped_char(s[0], lt, gt, amp) + partly_escaped(s.skip(1), lt, gt, amp)
    }
}

/// A text is written in HTML character by character.
proof fn lemma_html_text(s: Seq<char>)
    ensures
        html_text(s) == partly_escaped(s, true, true, true),
        s.len() > 0 ==> html_text(s) == html_char(s[0]) + html_text(s.skip(1)),
    decreases s.len(),
{
    if s.len() > 0 {
        let t = s.skip(1);
        lemma_html_text(t);
        if s.len() == 1 {
            assert(s.drop_last() =~= Seq::<char>::empty());
            assert(t =~= Seq::<char>::empty());
            assert(html_text(s) =~= html_char(s[0]) + html_text(t));
        } else {
            lemma_html_text(s.drop_last());
            assert(s.drop_last().skip(1) =~= t.drop_last());
            assert(html_text(s) =~= html_char(s[0]) + (html_text(t.drop_last()) + html_char(
                t.last(),
            )));
        }
    }
}

/// A character that does not start a pattern stays where it is.
proof fn lemma_replace_past(c: char, s: Seq<char>, pat: Seq<char>, with: Seq<char>)
    requires
        pat.len() > 0,
        c != pat[0],
    ensures
        replace(seq![c] + s, pat, with) == seq![c] + replace(s, pat, with),
{
    let t = seq![c] + s;
    assert(t.skip(1) =~= s);
    if t.len() >= pat.len() {
        assert(t.take(pat.len() as int)[0] == c);
    }
}

/// A pattern at the start is replaced.
proof fn lemma_replace_first(s: Seq<char>, pat: Seq<char>, with: Seq<char>)
    requires
        pat.len() > 0,
    ensures
        replace(pat + s, pat, with) == with + replace(s, pat, with),
{
    let t = pat + s;
    assert(t.take(pat.len() as int) =~= pat);
    assert(t.skip(pat.len() as int) =~= s);
}

/// An escape of four or five characters that is not the pattern stays where it is.
proof fn lemma_replace_past_escape(e: Seq<char>, s: Seq<char>, pat: Seq<char>, with: Seq<char>)
    requires
        pat.len() >= 4,
        pat[0] == '&',
        4 <= e.len() <= 5,
        e[0] == '&',
        e[1] != pat[1],
        forall|i: int| 1 <= i < e.len() ==> e[i] != '&',
    ensures
        replace(e + s, pat, with) == e + replace(s, pat, with),
{
    let t = e + s;
    if t.len() >= pat.len() {
        assert(t.take(pat.len() as int)[1] == e[1]);
        assert(replace(t, pat, with) == seq!['&'] + replace(t.skip(1), pat, with));
    } else {
        assert(replace(t.skip(1), pat, with) == t.skip(1));
        assert(seq!['&'] + t.skip(1) =~= t);
    }
    if e.len() == 5 {
        let r4 = seq![e[4]] + s;
        lemma_replace_past(e[4], s, pat, with);
        lemma_replace_past(e[3], r4, pat, with);
        lemma_replace_past(e[2], seq![e[3]] + r4, pat, with);
        lemma_replace_past(e[1], seq![e[2]] + (seq![e[3]] + r4), pat, with);
        assert(t.skip(1) =~= seq![e[1]] + (seq![e[2]] + (seq![e[3]] + r4)));
    } else {
        let r3 = seq![e[3]] + s;
        lemma_replace_past(e[3], s, pat, with);
        lemma_replace_past(e[2], r3, pat, with);
        lemma_replace_past(e[1], seq![e[2]] + r3, pat, with);
        assert(t.skip(1) =~= seq![e[1]] + (seq![e[2]] + r3));
    }
    assert(e + replace(s, pat, with) =~= seq!['&'] + replace(t.skip(1), pat, with));
}

/// Undoing the escapes one after the other.
proof fn lemma_undo(s: Seq<char>)
    ensures
        replace(partly_escaped(s, true, true, true), "&lt;"@, "<"@) == partly_escaped(
            s,
            false,
            true,
            true,
        ),
        replace(partly_escaped(s, false, true, true), "&gt;"@, ">"@) == partly_escaped(
            s,
            false,
            false,
            true,
        ),
        replace(partly_escaped(s, false, false, true), "&amp;"@, "&"@) == s,
    decreases s.len(),
{
    reveal_strlit("&amp;");
    reveal_strlit("&lt;");
    reveal_strlit("&gt;");
    reveal_strlit("<");
    reveal_strlit(">");
    reveal_strlit("&");
    assert("<"@ =~= seq!['<'] && ">"@ =~= seq!['>'] && "&"@ =~= seq!['&']);
    if s.len() > 0 {
        let t = s.skip(1);
        lemma_undo(t);
        let a = partly_escaped(t, true, true, true);
        let b = partly_escaped(t, false, true, true);
        let c = partly_escaped(t, false, false, true);
        assert(seq![s[0]] + t =~= s);
        if s[0] == '&' {
            lemma_replace_past_escape("&amp;"@, a, "&lt;"@, "<"@);
            lemma_replace_past_escape("&amp;"@, b, "&gt;"@, ">"@);
            lemma_replace_first(c, "&amp;"@, "&"@);
        } else if s[0] == '<' {
            lemma_replace_first(a, "&lt;"@, "<"@);
            lemma_replace_past('<', b, "&gt;"@, ">"@);
            lemma_replace_past('<', c, "&amp;"@, "&"@);
        } else if s[0] == '>' {
            lemma_replace_past_escape("&gt;"@, a, "&lt;"@, "<"@);
            lemma_replace_first(b, "&gt;"@, ">"@);
            lemma_replace_past('>', c, "&amp;"@, "&"@);
        } else {
            lemma_replace_past(s[0], a, "&lt;"@, "<"@);
            lemma_replace_past(s[0], b, "&gt;"@, ">"@);
            lemma_replace_past(s[0], c, "&amp;"@, "&"@);
        }
    }
}

/// A text that was written in HTML comes back as it was when its escapes are undone.
pub proof fn law_escaped_text_comes_back(s: Seq<char>)
    ensures
        html_undone(html_text(s)) == s,
{
    lemma_html_text(s);
    lemma_undo(s);
}

/// Whether an escape starts at some place of a text.
pub open spec fn is_escape_at(s: Seq<char>, i: int) -> bool {
    ||| i + 5 <= s.len() && s.subrange(i, i + 5) == "&amp;"@
    ||| i + 4 <= s.len() && s.subrange(i, i + 4) == "&lt;"@
    ||| i + 4 <= s.len() && s.subrange(i, i + 4) == "&gt;"@
}

/// In a text that is written in HTML, every ampersand starts an escape.
pub proof fn law_ampersands_start_escapes(s: Seq<char>)
    ensures
        forall|i: int|
            0 <= i < html_text(s).len() && #[trigger] html_text(s)[i] == '&' ==> is_escape_at(
                html_text(s),
                i,
            ),
    decreases s.len(),
{
    if s.len() > 0 {
        lemma_html_text(s);
        law_ampersands_start_escapes(s.skip(1));
        reveal_strlit("&amp;");
        reveal_strlit("&lt;");
        reveal_strlit("&gt;");
        let e = html_char(s[0]);
        let r = html_text(s.skip(1));
        let x = html_text(s);
        assert(x == e + r);
        assert forall|i: int| 0 <= i < x.len() && #[trigger] x[i] == '&' implies is_escape_at(
            x,
            i,
        ) by {
            if i < e.len() {
                assert(i == 0);
                assert(x.subrange(0, e.len() as int) =~= e);
            } else {
                let j = i - e.len();
                assert(r[j] == '&');
                assert(j + 5 <= r.len() ==> x.subrange(i, i + 5) =~= r.subrange(j, j + 5));
                assert(j + 4 <= r.len() ==> x.subrange(i, i + 4) =~= r.subrange(j, j + 4));
            }
        }
    }
}

/// The number of 53 bits nearest to a number of 64 bits: the one itself below 2^53, and
/// else a multiple of a power of two, the even one where two are equally near.
pub open spec fn nearest_53_bits(n: int) -> int {
    if n < 0x20_0000_0000_0000 {
        n
    } else {
        let unit = step_53_bits(n, 2);
        half_even(n, unit) * unit
    }
}

/// The distance of the numbers of 53 bits around a number.
pub open spec fn step_53_bits(n: int, unit: int) -> int
    decreases 0x1_0000_0000_0000_0000 - unit,
{
    if unit <= 0 || unit >= 0x1000 || n < 0x20_0000_0000_0000 * unit {
        unit
    } else {
        step_53_bits(n, 2 * unit)
    }
}

/// The whole number nearest to a quotient, the even one where two are equally near.
pub open spec fn half_even(n: int, d: int) -> int {
    let q = n / d;
    let r = n % d;
    if 2 * r > d || 2 * r == d && q % 2 == 1 {
        q + 1
    } else {
        q
    }
}

/// The number of bytes in a unit of size: a power of 1024, the largest that a size
/// reaches, but none beyond the fourth.
pub open spec fn size_unit(n: int) -> int {
    if n < 0x400 {
        1
    } else if n < 0x10_0000 {
        0x400
    } else if n < 0x4000_0000 {
        0x10_0000
    } else if n < 0x100_0000_0000 {
        0x4000_0000
    } else {
        0x100_0000_0000
    }
}

/// The name of a unit of size.
pub open spec fn size_unit_name(n: int) -> Seq<char> {
    if n < 0x400 {
        " B"@
    } else if n < 0x10_0000 {
        " KB"@
    } else if n < 0x4000_0000 {
        " MB"@
    } else if n < 0x100_0000_0000 {
        " GB"@
    } else {
        " TB"@
    }
}

/// A size as people read it: in bytes, or in tenths of a larger unit, of the number of 53
/// bits that is nearest to it.
pub open spec fn size_text(n: int) -> Seq<char> {
    if n < 0x400 {
        decimal(n as nat) + size_unit_name(n)
    } else {
        let tenths = half_even(10 * nearest_53_bits(n), size_unit(n));
        decimal((tenths / 10) as nat) + "."@ + decimal((tenths % 10) as nat) + size_unit_name(n)
    }
}

/// The whole number nearest to a quotient.
fn divide_half_even(n: u128, d: u128) -> (r: u128)
    requires
        0 < d < 0x1_0000_0000_0000_0000,
        n < 0x1_0000_0000_0000_0000_0000,
    ensures
        r == half_even(n as int, d as int),
        r <= n / d + 1,
{
    let q = n / d;
    let r = n % d;
    proof {
        assert(q <= n) by (nonlinear_arith)
            requires
                q == n / d,
                d > 0,
        ;
    }
    if 2 * r > d || 2 * r == d && q % 2 == 1 {
        q + 1
    } else {
        q
    }
}

/// The number of 53 bits nearest to a number of 64 bits.
fn round_to_53_bits(n: u64) -> (r: u128)
    ensures
        r == nearest_53_bits(n as int),
        r <= 0x1_0000_0000_0000_0000 + 0x1000,
{
    if n < 0x20_0000_0000_0000 {
        return n as u128;
    }
    let mut unit: u128 = 2;
    while unit < 0x1000 && n as u128 >= 0x20_0000_0000_0000u128 * unit
        invariant
            2 <= unit <= 0x1000,
            step_53_bits(n as int, 2) == step_53_bits(n as int, unit as int),
        decreases 0x1000 - unit,
    {
        proof {
            assert(unit < 0x800);
        }
        unit = 2 * unit;
    }
    let q = divide_half_even(n as u128, unit);
    proof {
        let m = n as int;
        let u = unit as int;
        assert(q * u <= (m / u + 1) * u) by (nonlinear_arith)
            requires
                q <= m / u + 1,
                u > 0,
        ;
        assert((m / u + 1) * u <= m + u) by (nonlinear_arith)
            requires
                u > 0,
        ;
    }
    q * unit
}

/// A size as people read it.
pub fn human_readable_size(n: u64) -> (r: String)
    ensures
        r@ == size_text(n as int),
{
    if n < 0x400 {
        let mut out = decimal_text(n);
        out.push_str(" B");
        return out;
    }
    let (unit, name): (u128, &str) = if n < 0x10_0000 {
        (0x400, " KB")
    } else if n < 0x4000_0000 {
        (0x10_0000, " MB")
    } else if n < 0x100_0000_0000 {
        (0x4000_0000, " GB")
    } else {
        (0x100_0000_0000, " TB")
    };
    let rounded = round_to_53_bits(n);
    let tenths = divide_half_even(10 * rounded, unit);
    proof {
        let m = 10 * rounded as int;
        let u = unit as int;
        assert(m / u <= m / 0x400) by (nonlinear_arith)
            requires
                u >= 0x400,
                m >= 0,
        ;
        assert(tenths / 10 < 0x1_0000_0000_0000_0000);
    }
    let mut out = decimal_text((tenths / 10) as u64);
    out.push_str(".");
    let last = decimal_text((tenths % 10) as u64);
    out.push_str(last.as_str());
    out.push_str(name);
    out
}

/// A placeholder and what stands in its place.
pub struct Filling {
    /// The placeholder.
    pub mark: &'static str,
    /// What stands in its place.
    pub text: String,
}

/// Placeholders and what stands in their places.
pub open spec fn filling_views(fillings: Seq<Filling>) -> Seq<(Seq<char>, Seq<char>)> {
    fillings.map_values(|f: Filling| (f.mark@, f.text@))
}

/// A template with its placeholders replaced, one after the other.
pub open spec fn filled(template: Seq<char>, fillings: Seq<(Seq<char>, Seq<char>)>) -> Seq<char>
    decreases fillings.len(),
{
    if fillings.len() == 0 {
        template
    } else {
        let (mark, text) = fillings.last();
        replace(filled(template, fillings.drop_last()), mark, text)
    }
}

/// A template with its placeholders replaced, one after the other.
pub fn fill_template(template: &str, fillings: &Vec<Filling>) -> (r: String)
    ensures
        r@ == filled(template@, filling_views(fillings@)),
{
    let mut out = template.to_owned();
    let ghost all = filling_views(fillings@);
    let mut i: usize = 0;
    proof {
        assert(all.take(0) =~= Seq::<(Seq<char>, Seq<char>)>::empty());
    }
    while i < fillings.len()
        invariant
            i <= fillings@.len(),
            all == filling_views(fillings@),
            out@ == filled(template@, all.take(i as int)),
        decreases fillings@.len() - i,
    {
        let f = &fillings[i];
        out = replace_text(out.as_str(), f.mark, f.text.as_str());
        proof {
            assert(all.take(i + 1).drop_last() =~= all.take(i as int));
            assert(all.take(i + 1).last() == (f.mark@, f.text@));
        }
        i += 1;
    }
    proof {
        assert(all.take(i as int) =~= all);
    }
    out
}

/// The link to the archive itself: the link to the download without its query, and the
/// name of the archive.
pub open spec fn zip_link(download_url: Seq<char>, zip_file: Seq<char>) -> Seq<char> {
    let base = download_url.take(position(download_url, '?') as int);
    if download_url.len() == 0 {
        zip_file
    } else if base.len() > 0 && base.last() == '/' {
        base + zip_file
    } else {
        base + "/"@ + zip_file
    }
}

/// The link to the archive itself.
pub fn make_zip_link(download_url: &str, zip_file: &str) -> (r: String)
    ensures
        r@ == zip_link(download_url@, zip_file@),
{
    let url = to_chars(download_url);
    let n = url.len();
    if n == 0 {
        return zip_file.to_owned();
    }
    let end = match find_char(url.as_slice(), '?') {
        Some(p) => p,
        None => n,
    };
    let base = slice_subrange(url.as_slice(), 0, end);
    proof {
        assert(base@ =~= url@.take(end as int));
    }
    let mut out = from_chars(base);
    if end == 0 || url[end - 1] != '/' {
        out.push_str("/");
    }
    out.push_str(zip_file);
    out
}

/// A password as it is shown: dots, at least six of them, or nothing where there is none.
pub open spec fn masked(password: Seq<char>) -> Seq<char> {
    if password.len() == 0 {
        seq![]
    } else {
        Seq::new(
            if password.len() < 6 {
                6
            } else {
                password.len()
            },
            |i: int| '•',
        )
    }
}

/// A password as it is shown.
pub fn mask_password(password: &str) -> (r: String)
    ensures
        r@ == masked(password@),
{
    let n = to_chars(password).len();
    let mut out = String::new();
    if n == 0 {
        proof {
            assert(out@ =~= Seq::<char>::empty());
        }
        return out;
    }
    let all: usize = if n < 6 {
        6
    } else {
        n
    };
    let mut i: usize = 0;
    while i < all
        invariant
            i <= all,
            out@.len() == i,
            forall|j: int| 0 <= j < i ==> out@[j] == '•',
        decreases all - i,
    {
        out.push('•');
        i += 1;
    }
    proof {
        assert(out@ =~= masked(password@));
    }
    out
}

/// Files as items of an HTML list.
pub open spec fn file_items(files: Seq<SavedView>) -> Seq<char>
    decreases files.len(),
{
    if files.len() == 0 {
        seq![]
    } else {
        let (name, size) = files.last();
        file_items(files.drop_last()) + "  <li>"@ + html_text(name) + " ("@ + html_text(
            size_text(size as int),
        ) + ")</li>\n"@
    }
}

/// Files as an HTML list, if there is one.
pub open spec fn file_list(files: Option<Seq<SavedView>>) -> Seq<char> {
    match files {
        Some(files) => "<ul>\n"@ + file_items(files) + "</ul>\n"@,
        None => seq![],
    }
}

/// Files as an HTML list, if there is one.
fn list_files(files: &Option<Vec<SavedFile>>) -> (r: String)
    ensures
        r@ == file_list(
            match files {
                Some(f) => Some(saved_views(f@)),
                None => None,
            },
        ),
{
    let mut out = String::new();
    match files {
        None => {
            proof {
                assert(out@ =~= Seq::<char>::empty());
            }
        },
        Some(files) => {
            out.push_str("<ul>\n");
            let ghost all = saved_views(files@);
            let mut i: usize = 0;
            proof {
                assert(all.take(0) =~= Seq::<SavedView>::empty());
                assert(out@ =~= "<ul>\n"@ + file_items(all.take(0)));
            }
            while i < files.len()
                invariant
                    i <= files@.len(),
                    all == saved_views(files@),
                    out@ == "<ul>\n"@ + file_items(all.take(i as int)),
                decreases files@.len() - i,
            {
                let file = &files[i];
                let ghost before = file_items(all.take(i as int));
                let name = html_escape(file.filename.as_str());
                let size = human_readable_size(file.size);
                let size = html_escape(size.as_str());
                out.push_str("  <li>");
                out.push_str(name.as_str());
                out.push_str(" (");
                out.push_str(size.as_str());
                out.push_str(")</li>\n");
                proof {
                    assert(all.take(i + 1).drop_last() =~= all.take(i as int));
                    assert(all.take(i + 1).last() == (file.filename@, file.size));
                    assert(out@ =~= "<ul>\n"@ + file_items(all.take(i + 1)));
                }
                i += 1;
            }
            proof {
                assert(all.take(i as int) =~= all);
            }
            out.push_str("</ul>\n");
        },
    }
    out
}

/// The rules that keep the note and the passwords of a download from being served.
pub open spec fn deny_rules() -> Seq<char> {
    "<Files \"mailinfo.txt\">\n  Require all denied\n</Files>\n<Files \".htpasswd\">\n  Require all denied\n</Files>\n"@
}

/// The rules that ask for a user, in a directory.
pub open spec fn login_rules(dir: Seq<char>) -> Seq<char> {
    "AuthType Basic\nAuthName \"MilterSeparator\"\nAuthUserFile "@ + dir
        + "/.htpasswd\nRequire valid-user\n\n"@ + deny_rules()
}

/// The check of a token that a download page runs.
pub open spec fn token_script(token: Seq<char>) -> Seq<char> {
    r#"(function(){
    function getQueryParam(name){
        const params = new URLSearchParams(window.location.search);
        return params.get(name);
    }
    const token = getQueryParam('token');
    const expected = '"#@ + token + r#"';
    if(!expected){
        // no expected token configured; allow
        return;
    }
    if(token !== expected){
        document.body.innerHTML = '<h1>Invalid token</h1><p>ダウンロード用のトークンが一致しません。</p>';
    }
})();"#@
}

/// The check of a token that a download page runs.
pub fn generate_token_js(expected_token: &str) -> (r: String)
    ensures
        r@ == token_script(expected_token@),
{
    let mut out = r#"(function(){
    function getQueryParam(name){
        const params = new URLSearchParams(window.location.search);
        return params.get(name);
    }
    const token = getQueryParam('token');
    const expected = '"#.to_owned();
    out.push_str(expected_token);
    out.push_str(
        r#"';
    if(!expected){
        // no expected token configured; allow
        return;
    }
    if(token !== expected){
        document.body.innerHTML = '<h1>Invalid token</h1><p>ダウンロード用のトークンが一致しません。</p>';
    }
})();"#,
    );
    out
}

/// The template of a download page where there is no other.
pub open spec fn builtin_page() -> Seq<char> {
    r#"<!doctype html>
<html><head><meta charset="utf-8"><title>Download</title></head>
<body>
<h1>{{subject}}</h1>
<p><strong>From:</strong> {{from}}<br><strong>To:</strong> {{to}}</p>
<h2>Attachments</h2>
{{attachments}}
<p>ZIP: <button onclick="downloadZip()">Download ZIP</button></p>
<p>Password: {{zip_password}}</p>
<script>
function downloadZip() {
    const uuid = "{{uuid}}";
    fetch("count.cgi?uuid=" + encodeURIComponent(uuid))
        .finally(() => {
            window.location.href = uuid + '.zip';
        });
}
</script>
</body></html>"#@
}

/// The template of a download page where there is no other.
pub fn default_template() -> (r: &'static str)
    ensures
        r@ == builtin_page(),
{
    r#"<!doctype html>
<html><head><meta charset="utf-8"><title>Download</title></head>
<body>
<h1>{{subject}}</h1>
<p><strong>From:</strong> {{from}}<br><strong>To:</strong> {{to}}</p>
<h2>Attachments</h2>
{{attachments}}
<p>ZIP: <button onclick="downloadZip()">Download ZIP</button></p>
<p>Password: {{zip_password}}</p>
<script>
function downloadZip() {
    const uuid = "{{uuid}}";
    fetch("count.cgi?uuid=" + encodeURIComponent(uuid))
        .finally(() => {
            window.location.href = uuid + '.zip';
        });
}
</script>
</body></html>"#
}

/// The script that counts a download before it starts.
pub open spec fn counting_script(
    counter: Seq<char>,
    uuid: Seq<char>,
    zip_url: Seq<char>,
) -> Seq<char> {
    "<script>function downloadZip(){fetch('"@ + counter + "?uuid="@ + uuid
        + "').finally(()=>{window.location.href='"@ + html_text(zip_url) + "';});}</script>"@
}

/// Whether a page is for basic authentication.
pub open spec fn is_basic(page: PageView) -> bool {
    lower(page.auth_mode) == "basic"@
}

/// What stands in the placeholders of a page, in the order in which they are replaced.
pub open spec fn page_fillings(page: PageView, uuid: Seq<char>) -> Seq<(Seq<char>, Seq<char>)> {
    let user = match page.auth_info {
        Some((name, password)) => seq![
            ("{{basic_auth_user}}"@, html_text(name)),
            ("{{basic_auth_password}}"@, html_text(password)),
        ],
        None => seq![],
    };
    seq![
        ("{{subject}}"@, html_text(page.subject)),
        ("{{from}}"@, html_text(page.from)),
        ("{{to}}"@, html_text(page.to)),
        ("{{zip_file}}"@, html_text(page.zip_file)),
        ("{{zip_url}}"@, html_text(zip_link(page.download_url, page.zip_file))),
        ("{{zip_password_masked}}"@, html_text(masked(page.zip_password))),
        ("{{zip_password}}"@, html_text(page.zip_password)),
        ("{{download_url}}"@, html_text(page.download_url)),
        ("{{attachments}}"@, file_list(page.attachments)),
        ("{{generated_at}}"@, html_text(page.generated_at)),
        ("{{zip_size}}"@, html_text(size_text(page.zip_size as int))),
    ] + (if is_basic(page) {
        user
    } else {
        seq![("{{basic_auth_user}}"@, seq![]), ("{{basic_auth_password}}"@, seq![])]
    }) + seq![("{{uuid}}"@, uuid)]
}

/// The download page.
pub open spec fn page_html(
    page: PageView,
    template: Seq<char>,
    uuid: Seq<char>,
    counter: Seq<char>,
) -> Seq<char> {
    filled(template, page_fillings(page, uuid)) + counting_script(
        counter,
        uuid,
        zip_link(page.download_url, page.zip_file),
    )
}

/// A placeholder with what stands in its place.
fn filling(mark: &'static str, text: String) -> (r: Filling)
    ensures
        (r.mark@, r.text@) == (mark@, text@),
{
    Filling { mark, text }
}

/// The download page.
fn make_page(page: &PageInfo, template: &str, uuid: &str, counter: &str) -> (r: String)
    ensures
        r@ == page_html(page@, template@, uuid@, counter@),
{
    let zip_url = make_zip_link(page.download_url.as_str(), page.zip_file.as_str());
    let hidden = mask_password(page.zip_password.as_str());
    let size = human_readable_size(page.zip_size);
    let mut fillings: Vec<Filling> = Vec::new();
    fillings.push(filling("{{subject}}", html_escape(page.subject.as_str())));
    fillings.push(filling("{{from}}", html_escape(page.from.as_str())));
    fillings.push(filling("{{to}}", html_escape(page.to.as_str())));
    fillings.push(filling("{{zip_file}}", html_escape(page.zip_file.as_str())));
    fillings.push(filling("{{zip_url}}", html_escape(zip_url.as_str())));
    fillings.push(filling("{{zip_password_masked}}", html_escape(hidden.as_str())));
    fillings.push(filling("{{zip_password}}", html_escape(page.zip_password.as_str())));
    fillings.push(filling("{{download_url}}", html_escape(page.download_url.as_str())));
    fillings.push(filling("{{attachments}}", list_files(&page.attachments)));
    fillings.push(filling("{{generated_at}}", html_escape(page.generated_at.as_str())));
    fillings.push(filling("{{zip_size}}", html_escape(size.as_str())));
    if same_text(lower_text(page.auth_mode.as_str()).as_str(), "basic") {
        if let Some(user) = &page.auth_info {
            fillings.push(filling("{{basic_auth_user}}", html_escape(user.username.as_str())));
            fillings.push(filling("{{basic_auth_password}}", html_escape(user.password.as_str())));
        }
    } else {
        fillings.push(filling("{{basic_auth_user}}", String::new()));
        fillings.push(filling("{{basic_auth_password}}", String::new()));
        proof {
            assert(fillings@[11].text@ =~= Seq::<char>::empty());
            assert(fillings@[12].text@ =~= Seq::<char>::empty());
        }
    }
    fillings.push(filling("{{uuid}}", uuid.to_owned()));
    proof {
        assert(filling_views(fillings@) =~= page_fillings(page@, uuid@));
    }
    let mut out = fill_template(template, &fillings);
    out.push_str("<script>function downloadZip(){fetch('");
    out.push_str(counter);
    out.push_str("?uuid=");
    out.push_str(uuid);
    out.push_str("').finally(()=>{window.location.href='");
    out.push_str(html_escape(zip_url.as_str()).as_str());
    out.push_str("';});}</script>");
    proof {
        let f = filled(template@, page_fillings(page@, uuid@));
        assert(out@ =~= f + counting_script(
            counter@,
            uuid@,
            zip_link(page@.download_url, page@.zip_file),
        ));
    }
    out
}

/// A file that is written beside a download.
pub struct FileWrite {
    /// The name of the file.
    pub name: &'static str,
    /// What is written to it.
    pub text: String,
}

/// The files that are written beside a download, in order, and why the rest is not
/// written, if it is not.
pub struct FilePlan {
    /// The files that are written.
    pub writes: Vec<FileWrite>,
    /// Why the rest is not written.
    pub error: Option<String>,
}

/// The names and the contents of the files that are written, and why the rest is not.
#[verifier::ext_equal]
pub struct PlanView {
    pub writes: Seq<(Seq<char>, Seq<char>)>,
    pub error: Option<Seq<char>>,
}

impl View for FilePlan {
    type V = PlanView;

    open spec fn view(&self) -> PlanView {
        PlanView {
            writes: self.writes@.map_values(|w: FileWrite| (w.name@, w.text@)),
            error: opt_view(self.error),
        }
    }
}

/// The rules and the password file of a page, with what came of hashing the password.
pub open spec fn protection(
    page: PageView,
    dir: Seq<char>,
    hashed: Result<Seq<char>, Seq<char>>,
) -> Seq<(Seq<char>, Seq<char>)> {
    if !is_basic(page) {
        seq![(".htaccess"@, deny_rules())]
    } else {
        match (page.auth_info, hashed) {
            (Some((name, _)), Ok(hash)) => seq![
                (".htaccess"@, login_rules(dir)),
                (".htpasswd"@, name + ":"@ + hash + "\n"@),
            ],
            (Some(_), Err(_)) => seq![(".htaccess"@, login_rules(dir))],
            (None, _) => seq![(".htaccess"@, deny_rules())],
        }
    }
}

/// Whether the password of a page is hashed.
pub open spec fn wants_hash(page: PageView) -> bool {
    is_basic(page) && page.auth_info is Some
}

/// The files that are written for a page, with what came of hashing the password: the
/// protection, the check of the token in the mode `token`, and the page. Where the
/// password cannot be hashed nothing more is written.
pub open spec fn page_plan(
    page: PageView,
    template: Seq<char>,
    dir: Seq<char>,
    counter: Seq<char>,
    hashed: Result<Seq<char>, Seq<char>>,
) -> PlanView {
    let first = protection(page, dir, hashed);
    if wants_hash(page) && hashed is Err {
        PlanView { writes: first, error: Some("bcrypt hash error: "@ + hashed->Err_0) }
    } else {
        let token = or_empty(query_param(page.download_url, "token"@));
        let check = if lower(page.auth_mode) == "token"@ {
            seq![("token.js"@, token_script(token))]
        } else {
            seq![]
        };
        let uuid = or_empty(last_name(dir));
        PlanView {
            writes: first + check + seq![
                ("download.html"@, page_html(page, template, uuid, counter)),
            ],
            error: None,
        }
    }
}

/// A text or a message.
pub open spec fn result_view(r: Result<String, String>) -> Result<Seq<char>, Seq<char>> {
    match r {
        Ok(s) => Ok(s@),
        Err(e) => Err(e@),
    }
}

/// The files that are written for a page, with what came of hashing the password.
pub fn plan_files(
    page: &PageInfo,
    template: &str,
    dir: &str,
    counter: &str,
    hashed: &Result<String, String>,
) -> (r: FilePlan)
    ensures
        r@ == page_plan(page@, template@, dir@, counter@, result_view(*hashed)),
{
    let mut writes: Vec<FileWrite> = Vec::new();
    let mode = lower_text(page.auth_mode.as_str());
    let deny = "<Files \"mailinfo.txt\">\n  Require all denied\n</Files>\n<Files \".htpasswd\">\n  Require all denied\n</Files>\n";
    let ghost shown = |w: FileWrite| (w.name@, w.text@);
    if same_text(mode.as_str(), "basic") {
        if let Some(user) = &page.auth_info {
            let mut rules = "AuthType Basic\nAuthName \"MilterSeparator\"\nAuthUserFile ".to_owned();
            rules.push_str(dir);
            rules.push_str("/.htpasswd\nRequire valid-user\n\n");
            rules.push_str(deny);
            writes.push(FileWrite { name: ".htaccess", text: rules });
            match hashed {
                Ok(hash) => {
                    let mut line = user.username.as_str().to_owned();
                    line.push_str(":");
                    line.push_str(hash.as_str());
                    line.push_str("\n");
                    writes.push(FileWrite { name: ".htpasswd", text: line });
                },
                Err(e) => {
                    let mut message = "bcrypt hash error: ".to_owned();
                    message.push_str(e.as_str());
                    let plan = FilePlan { writes, error: Some(message) };
                    proof {
                        assert(plan@ =~= page_plan(
                            page@,
                            template@,
                            dir@,
                            counter@,
                            result_view(*hashed),
                        ));
                    }
                    return plan;
                },
            }
        } else {
            writes.push(FileWrite { name: ".htaccess", text: deny.to_owned() });
        }
    } else {
        writes.push(FileWrite { name: ".htaccess", text: deny.to_owned() });
    }
    let ghost first = protection(page@, dir@, result_view(*hashed));
    proof {
        assert(writes@.map_values(shown) =~= first);
    }
    if same_text(mode.as_str(), "token") {
        let token = text_or_empty(&extract_query_param(page.download_url.as_str(), "token"));
        writes.push(FileWrite { name: "token.js", text: generate_token_js(token.as_str()) });
    }
    let uuid = text_or_empty(&file_name(dir));
    let html = make_page(page, template, uuid.as_str(), counter);
    writes.push(FileWrite { name: "download.html", text: html });
    let plan = FilePlan { writes, error: None };
    proof {
        assert(plan@ =~= page_plan(page@, template@, dir@, counter@, result_view(*hashed)));
    }
    plan
}

/// Whether files are those that are written for a page, whatever came of hashing the
/// password. Where it was hashed, it is the hash of the password of the user.
pub open spec fn is_plan_for(
    plan: PlanView,
    page: PageView,
    template: Seq<char>,
    dir: Seq<char>,
    counter: Seq<char>,
) -> bool {
    exists|hashed: Result<Seq<char>, Seq<char>>|
        plan == #[trigger] page_plan(page, template, dir, counter, hashed) && (wants_hash(page)
            && hashed is Ok ==> is_hash_of(
            hashed->Ok_0,
            encode_utf8((page.auth_info->Some_0).1),
        ))
}

/// The files that are written beside a download, by the text of its note, or why it has
/// none. The password of a user is hashed with a salt that is left to chance.
pub fn write_download_static_files(
    mailinfo: &str,
    template: &Option<String>,
    dir: &str,
    counter: &str,
) -> (r: Result<FilePlan, String>)
    ensures
        match json_read(mailinfo@) {
            Ok(note) => r is Ok && is_plan_for(
                r->Ok_0@,
                page_of(note),
                template_text(*template),
                dir@,
                counter@,
            ),
            Err(e) => r is Err && r->Err_0@ == "parse mailinfo json error: "@ + e,
        },
{
    let page = match read_mailinfo(mailinfo) {
        Ok(page) => page,
        Err(e) => {
            return Err(e);
        },
    };
    let mut hashed: Result<String, String> = Ok(String::new());
    if let Some(user) = &page.auth_info {
        if same_text(lower_text(page.auth_mode.as_str()).as_str(), "basic") {
            hashed = hash_password(user.password.as_str());
        }
    }
    let text = match template {
        Some(t) => t.as_str(),
        None => default_template(),
    };
    let plan = plan_files(&page, text, dir, counter, &hashed);
    proof {
        assert(plan@ == page_plan(page@, text@, dir@, counter@, result_view(hashed)));
    }
    Ok(plan)
}

/// The template of a download page: one that was found, or the one that is built in.
pub open spec fn template_text(template: Option<String>) -> Seq<char> {
    match template {
        Some(t) => t@,
        None => builtin_page(),
    }
}

/// The first file that is written beside a download keeps its note and its passwords from
/// being served, whatever its page and whatever came of hashing the password.
pub proof fn law_note_is_not_served(
    page: PageView,
    template: Seq<char>,
    dir: Seq<char>,
    counter: Seq<char>,
    hashed: Result<Seq<char>, Seq<char>>,
)
    ensures
        page_plan(page, template, dir, counter, hashed).writes.len() > 0,
        page_plan(page, template, dir, counter, hashed).writes[0].0 == ".htaccess"@,
        deny_rules().is_suffix_of(page_plan(page, template, dir, counter, hashed).writes[0].1),
{
    let rules = page_plan(page, template, dir, counter, hashed).writes[0].1;
    let n = rules.len() - deny_rules().len();
    assert(rules.subrange(n, rules.len() as int) =~= deny_rules());
}

/// Whether a text is a placeholder: a name in two pairs of braces.
pub open spec fn is_mark(m: Seq<char>) -> bool {
    let n = m.len() as int;
    &&& n >= 5
    &&& m[0] == '{' && m[1] == '{'
    &&& m[n - 2] == '}' && m[n - 1] == '}'
    &&& forall|i: int| 2 <= i < n - 2 ==> #[trigger] m[i] != '{' && m[i] != '}'
}

/// Whether placeholders are that, and all of them differ.
pub open spec fn are_marks(fillings: Seq<(Seq<char>, Seq<char>)>) -> bool {
    &&& forall|i: int| 0 <= i < fillings.len() ==> is_mark((#[trigger] fillings[i]).0)
    &&& forall|i: int, j: int|
        0 <= i < j < fillings.len() ==> (#[trigger] fillings[i]).0 != (#[trigger] fillings[j]).0
}

/// A text in which a pattern does not start stays where it is.
proof fn lemma_replace_behind(a: Seq<char>, s: Seq<char>, pat: Seq<char>, with: Seq<char>)
    requires
        pat.len() > 0,
        !a.contains(pat[0]),
    ensures
        replace(a + s, pat, with) == a + replace(s, pat, with),
    decreases a.len(),
{
    if a.len() == 0 {
        assert(a + s =~= s);
        assert(a + replace(s, pat, with) =~= replace(s, pat, with));
    } else {
        let t = a.skip(1);
        assert forall|i: int| 0 <= i < t.len() implies t[i] != pat[0] by {
            assert(t[i] == a[i + 1]);
            assert(a.contains(a[i + 1]));
        }
        lemma_replace_behind(t, s, pat, with);
        assert(a.contains(a[0]));
        lemma_replace_past(a[0], t + s, pat, with);
        assert(a + s =~= seq![a[0]] + (t + s));
        assert(a + replace(s, pat, with) =~= seq![a[0]] + (t + replace(s, pat, with)));
    }
}

/// A placeholder stays where it is when another is replaced.
proof fn lemma_other_mark_stays(m: Seq<char>, s: Seq<char>, pat: Seq<char>, with: Seq<char>)
    requires
        is_mark(m),
        is_mark(pat),
        m != pat,
    ensures
        replace(m + s, pat, with) == m + replace(s, pat, with),
{
    let t = m + s;
    let k = pat.len() as int;
    let inner = m.skip(2);
    assert(t.skip(1) =~= seq!['{'] + (inner + s));
    assert(t =~= seq!['{'] + t.skip(1));
    assert forall|i: int| 0 <= i < inner.len() implies inner[i] != '{' by {
        assert(inner[i] == m[i + 2]);
    }
    lemma_replace_behind(inner, s, pat, with);
    if t.len() < k {
        assert(replace(t, pat, with) == t);
        assert(replace(s, pat, with) == s);
    } else {
        assert(t.take(k) != pat) by {
            if t.take(k) == pat {
                let n = m.len() as int;
                if k < n {
                    assert(pat[k - 1] == m[k - 1]);
                    assert(pat[k - 2] == m[k - 2]);
                } else if k > n {
                    assert(pat[n - 2] == m[n - 2]);
                    assert(pat[n - 1] == m[n - 1]);
                } else {
                    assert(m =~= pat);
                }
            }
        }
        assert(replace(t, pat, with) == seq!['{'] + replace(t.skip(1), pat, with));
        if t.skip(1).len() >= k {
            assert(t.skip(1).take(k)[1] == m[2]);
            assert(t.skip(1).skip(1) =~= inner + s);
            assert(replace(t.skip(1), pat, with) == seq!['{'] + replace(inner + s, pat, with));
        } else {
            assert(replace(t.skip(1), pat, with) == t.skip(1));
            assert(replace(inner + s, pat, with) == inner + s);
        }
        assert(m + replace(s, pat, with) =~= seq!['{'] + (seq!['{'] + (inner + replace(
            s,
            pat,
            with,
        ))));
    }
}

/// What stands before the placeholders of a template stays as it is: a text without braces
/// is written to the page as it stands in the template.
pub proof fn law_template_text_is_kept(
    a: Seq<char>,
    s: Seq<char>,
    fillings: Seq<(Seq<char>, Seq<char>)>,
)
    requires
        are_marks(fillings),
        !a.contains('{'),
    ensures
        filled(a + s, fillings) == a + filled(s, fillings),
    decreases fillings.len(),
{
    if fillings.len() > 0 {
        let (mark, text) = fillings.last();
        assert(is_mark(fillings[fillings.len() - 1].0));
        law_template_text_is_kept(a, s, fillings.drop_last());
        lemma_replace_behind(a, filled(s, fillings.drop_last()), mark, text);
    }
}

/// A text that is none of the placeholders stays as it is, and what follows it is filled as
/// if it stood alone.
proof fn lemma_unknown_mark_stays(
    m: Seq<char>,
    s: Seq<char>,
    fillings: Seq<(Seq<char>, Seq<char>)>,
)
    requires
        are_marks(fillings),
        is_mark(m),
        forall|i: int| 0 <= i < fillings.len() ==> (#[trigger] fillings[i]).0 != m,
    ensures
        filled(m + s, fillings) == m + filled(s, fillings),
    decreases fillings.len(),
{
    if fillings.len() > 0 {
        let (mark, text) = fillings.last();
        assert(is_mark(fillings[fillings.len() - 1].0));
        assert(fillings[fillings.len() - 1].0 != m);
        lemma_unknown_mark_stays(m, s, fillings.drop_last());
        lemma_other_mark_stays(m, filled(s, fillings.drop_last()), mark, text);
    }
}

/// A placeholder gives way to its own text and to that of no other, and what follows it in
/// the template is filled as if it stood alone, as long as its text has no braces itself.
pub proof fn law_placeholder_gives_its_text(
    k: int,
    s: Seq<char>,
    fillings: Seq<(Seq<char>, Seq<char>)>,
)
    requires
        are_marks(fillings),
        0 <= k < fillings.len(),
        !fillings[k].1.contains('{'),
    ensures
        filled(fillings[k].0 + s, fillings) == fillings[k].1 + filled(s, fillings),
    decreases fillings.len(),
{
    let (mark, text) = fillings.last();
    let earlier = fillings.drop_last();
    let m = fillings[k].0;
    assert(is_mark(fillings[fillings.len() - 1].0));
    if k == fillings.len() - 1 {
        assert forall|i: int| 0 <= i < earlier.len() implies (#[trigger] earlier[i]).0 != m by {
            assert(fillings[i].0 != fillings[k].0);
        }
        lemma_unknown_mark_stays(m, s, earlier);
        lemma_replace_first(filled(s, earlier), mark, text);
    } else {
        assert(earlier[k] == fillings[k]);
        law_placeholder_gives_its_text(k, s, earlier);
        lemma_replace_behind(fillings[k].1, filled(s, earlier), mark, text);
    }
}

/// The placeholders of a page are placeholders, and what tells them apart.
proof fn lemma_page_mark_names()
    ensures
        is_mark("{{subject}}"@) && "{{subject}}"@.len() == 11 && "{{subject}}"@[2] == 's',
        is_mark("{{from}}"@) && "{{from}}"@.len() == 8 && "{{from}}"@[2] == 'f',
        is_mark("{{to}}"@) && "{{to}}"@.len() == 6 && "{{to}}"@[2] == 't',
        is_mark("{{zip_file}}"@) && "{{zip_file}}"@.len() == 12 && "{{zip_file}}"@[2] == 'z' && "{{zip_file}}"@[6] == 'f',
        is_mark("{{zip_url}}"@) && "{{zip_url}}"@.len() == 11 && "{{zip_url}}"@[2] == 'z',
        is_mark("{{zip_password_masked}}"@) && "{{zip_password_masked}}"@.len() == 23 && "{{zip_password_masked}}"@[2] == 'z',
        is_mark("{{zip_password}}"@) && "{{zip_password}}"@.len() == 16 && "{{zip_password}}"@[2] == 'z',
        is_mark("{{download_url}}"@) && "{{download_url}}"@.len() == 16 && "{{download_url}}"@[2] == 'd',
        is_mark("{{attachments}}"@) && "{{attachments}}"@.len() == 15 && "{{attachments}}"@[2] == 'a',
        is_mark("{{generated_at}}"@) && "{{generated_at}}"@.len() == 16 && "{{generated_at}}"@[2] == 'g',
        is_mark("{{zip_size}}"@) && "{{zip_size}}"@.len() == 12 && "{{zip_size}}"@[2] == 'z' && "{{zip_size}}"@[6] == 's',
        is_mark("{{basic_auth_user}}"@) && "{{basic_auth_user}}"@.len() == 19 && "{{basic_auth_user}}"@[2] == 'b',
        is_mark("{{basic_auth_password}}"@) && "{{basic_auth_password}}"@.len() == 23 && "{{basic_auth_password}}"@[2] == 'b',
        is_mark("{{uuid}}"@) && "{{uuid}}"@.len() == 8 && "{{uuid}}"@[2] == 'u',
{
    reveal_strlit("{{subject}}");
    reveal_strlit("{{from}}");
    reveal_strlit("{{to}}");
    reveal_strlit("{{zip_file}}");
    reveal_strlit("{{zip_url}}");
    reveal_strlit("{{zip_password_masked}}");
    reveal_strlit("{{zip_password}}");
    reveal_strlit("{{download_url}}");
    reveal_strlit("{{attachments}}");
    reveal_strlit("{{generated_at}}");
    reveal_strlit("{{zip_size}}");
    reveal_strlit("{{basic_auth_user}}");
    reveal_strlit("{{basic_auth_password}}");
    reveal_strlit("{{uuid}}");
}

/// The placeholders of a page differ.
proof fn lemma_page_marks(page: PageView, uuid: Seq<char>)
    ensures
        are_marks(page_fillings(page, uuid)),
{
    lemma_page_mark_names();
    let f = page_fillings(page, uuid);
    assert forall|i: int| 0 <= i < f.len() implies is_mark((#[trigger] f[i]).0) by {}
    assert forall|i: int, j: int| 0 <= i < j < f.len() implies (#[trigger] f[i]).0 != (
    #[trigger] f[j]).0 by {}
}

/// A text without braces has none when it is written in HTML.
proof fn lemma_html_has_no_braces(s: Seq<char>)
    requires
        !s.contains('{'),
    ensures
        !html_text(s).contains('{'),
    decreases s.len(),
{
    if s.len() > 0 {
        let t = s.drop_last();
        assert forall|i: int| 0 <= i < t.len() implies t[i] != '{' by {
            assert(s.contains(s[i]));
        }
        lemma_html_has_no_braces(t);
        assert(s.contains(s.last()));
        reveal_strlit("&amp;");
        reveal_strlit("&lt;");
        reveal_strlit("&gt;");
        let a = html_text(t);
        let b = html_char(s.last());
        assert forall|i: int| 0 <= i < (a + b).len() implies (a + b)[i] != '{' by {
            if i < a.len() {
                assert(a.contains(a[i]));
            }
        }
    }
}

/// A size has no braces.
proof fn lemma_size_has_no_braces(n: int)
    requires
        0 <= n,
    ensures
        !size_text(n).contains('{'),
{
    reveal_strlit(" B");
    reveal_strlit(" KB");
    reveal_strlit(" MB");
    reveal_strlit(" GB");
    reveal_strlit(" TB");
    reveal_strlit(".");
    if n < 0x400 {
        law_decimal_read_back(n as nat, n as nat);
    } else {
        let tenths = half_even(10 * nearest_53_bits(n), size_unit(n));
        law_decimal_read_back((tenths / 10) as nat, (tenths / 10) as nat);
        law_decimal_read_back((tenths % 10) as nat, (tenths % 10) as nat);
    }
}

/// The link to an archive has no braces where its parts have none.
proof fn lemma_link_has_no_braces(download_url: Seq<char>, zip_file: Seq<char>)
    requires
        !download_url.contains('{'),
        !zip_file.contains('{'),
    ensures
        !zip_link(download_url, zip_file).contains('{'),
{
    reveal_strlit("/");
    let n = position(download_url, '?') as int;
    crate::text::lemma_position(download_url, '?');
    let base = download_url.take(n);
    let link = zip_link(download_url, zip_file);
    assert forall|i: int| 0 <= i < link.len() implies link[i] != '{' by {
        assert(forall|k: int| 0 <= k < zip_file.len() ==> zip_file.contains(#[trigger] zip_file[k]));
        assert(forall|k: int|
            0 <= k < download_url.len() ==> download_url.contains(#[trigger] download_url[k]));
        assert(forall|k: int| 0 <= k < n ==> base[k] == #[trigger] download_url[k]);
    }
}

/// Each placeholder of a page shows what it is called after: the placeholder of the subject
/// shows the subject of the note, that of the senders its senders, and so on, each as it is
/// written in HTML and as long as it has no braces itself, and what follows the placeholder
/// is filled as if it stood alone.
pub proof fn law_placeholders_show_what_they_name(page: PageView, uuid: Seq<char>, s: Seq<char>)
    ensures
        ({
            let f = page_fillings(page, uuid);
            &&& !page.subject.contains('{') ==> filled("{{subject}}"@ + s, f) == html_text(
                page.subject,
            ) + filled(s, f)
            &&& !page.from.contains('{') ==> filled("{{from}}"@ + s, f) == html_text(page.from)
                + filled(s, f)
            &&& !page.to.contains('{') ==> filled("{{to}}"@ + s, f) == html_text(page.to) + filled(
                s,
                f,
            )
            &&& !page.zip_file.contains('{') ==> filled("{{zip_file}}"@ + s, f) == html_text(
                page.zip_file,
            ) + filled(s, f)
            &&& !page.zip_file.contains('{') && !page.download_url.contains('{') ==> filled(
                "{{zip_url}}"@ + s,
                f,
            ) == html_text(zip_link(page.download_url, page.zip_file)) + filled(s, f)
            &&& filled("{{zip_password_masked}}"@ + s, f) == html_text(masked(page.zip_password))
                + filled(s, f)
            &&& !page.zip_password.contains('{') ==> filled("{{zip_password}}"@ + s, f)
                == html_text(page.zip_password) + filled(s, f)
            &&& !page.download_url.contains('{') ==> filled("{{download_url}}"@ + s, f)
                == html_text(page.download_url) + filled(s, f)
            &&& !file_list(page.attachments).contains('{') ==> filled("{{attachments}}"@ + s, f)
                == file_list(page.attachments) + filled(s, f)
            &&& !page.generated_at.contains('{') ==> filled("{{generated_at}}"@ + s, f)
                == html_text(page.generated_at) + filled(s, f)
            &&& filled("{{zip_size}}"@ + s, f) == html_text(size_text(page.zip_size as int))
                + filled(s, f)
            &&& !uuid.contains('{') ==> filled("{{uuid}}"@ + s, f) == uuid + filled(s, f)
        }),
{
    let f = page_fillings(page, uuid);
    lemma_page_marks(page, uuid);
    if !page.subject.contains('{') {
        lemma_html_has_no_braces(page.subject);
        law_placeholder_gives_its_text(0, s, f);
    }
    if !page.from.contains('{') {
        lemma_html_has_no_braces(page.from);
        law_placeholder_gives_its_text(1, s, f);
    }
    if !page.to.contains('{') {
        lemma_html_has_no_braces(page.to);
        law_placeholder_gives_its_text(2, s, f);
    }
    if !page.zip_file.contains('{') {
        lemma_html_has_no_braces(page.zip_file);
        law_placeholder_gives_its_text(3, s, f);
        if !page.download_url.contains('{') {
            lemma_link_has_no_braces(page.download_url, page.zip_file);
            lemma_html_has_no_braces(zip_link(page.download_url, page.zip_file));
            law_placeholder_gives_its_text(4, s, f);
        }
    }
    lemma_html_has_no_braces(masked(page.zip_password));
    law_placeholder_gives_its_text(5, s, f);
    if !page.zip_password.contains('{') {
        lemma_html_has_no_braces(page.zip_password);
        law_placeholder_gives_its_text(6, s, f);
    }
    if !page.download_url.contains('{') {
        lemma_html_has_no_braces(page.download_url);
        law_placeholder_gives_its_text(7, s, f);
    }
    if !file_list(page.attachments).contains('{') {
        law_placeholder_gives_its_text(8, s, f);
    }
    if !page.generated_at.contains('{') {
        lemma_html_has_no_braces(page.generated_at);
        law_placeholder_gives_its_text(9, s, f);
    }
    lemma_size_has_no_braces(page.zip_size as int);
    lemma_html_has_no_braces(size_text(page.zip_size as int));
    law_placeholder_gives_its_text(10, s, f);
    if !uuid.contains('{') {
        law_placeholder_gives_its_text(f.len() - 1, s, f);
    }
}

/// On a page for basic authentication the placeholder of the user shows the name of the user
/// that is noted and that of the password the password, so that the page tells the recipient
/// the user whom the password file names and the password whose hash it holds. On a page for
/// any other mode both show nothing.
pub proof fn law_page_tells_how_to_log_in(
    page: PageView,
    uuid: Seq<char>,
    s: Seq<char>,
    dir: Seq<char>,
    counter: Seq<char>,
    template: Seq<char>,
    hash: Seq<char>,
)
    ensures
        ({
            let f = page_fillings(page, uuid);
            &&& !is_basic(page) ==> filled("{{basic_auth_user}}"@ + s, f) == filled(s, f) && filled(
                "{{basic_auth_password}}"@ + s,
                f,
            ) == filled(s, f)
            &&& is_basic(page) && page.auth_info is None ==> filled("{{basic_auth_user}}"@ + s, f)
                == "{{basic_auth_user}}"@ + filled(s, f) && filled(
                "{{basic_auth_password}}"@ + s,
                f,
            ) == "{{basic_auth_password}}"@ + filled(s, f)
            &&& is_basic(page) ==> (page.auth_info matches Some((name, password)) ==> {
                let writes = page_plan(page, template, dir, counter, Ok(hash)).writes;
                &&& !name.contains('{') ==> filled("{{basic_auth_user}}"@ + s, f) == html_text(name)
                    + filled(s, f)
                &&& !password.contains('{') ==> filled("{{basic_auth_password}}"@ + s, f)
                    == html_text(password) + filled(s, f)
                &&& writes.contains((".htpasswd"@, name + ":"@ + hash + "\n"@))
            })
        }),
{
    let f = page_fillings(page, uuid);
    lemma_page_marks(page, uuid);
    lemma_page_mark_names();
    if !is_basic(page) {
        law_placeholder_gives_its_text(11, s, f);
        law_placeholder_gives_its_text(12, s, f);
        assert(Seq::<char>::empty() + filled(s, f) =~= filled(s, f));
    } else if let Some((name, password)) = page.auth_info {
        if !name.contains('{') {
            lemma_html_has_no_braces(name);
            law_placeholder_gives_its_text(11, s, f);
        }
        if !password.contains('{') {
            lemma_html_has_no_braces(password);
            law_placeholder_gives_its_text(12, s, f);
        }
        let writes = page_plan(page, template, dir, counter, Ok(hash)).writes;
        assert(writes[1] == (".htpasswd"@, name + ":"@ + hash + "\n"@));
    } else {
        lemma_unknown_mark_stays("{{basic_auth_user}}"@, s, f);
        lemma_unknown_mark_stays("{{basic_auth_password}}"@, s, f);
    }
}

/// A text in HTML is that of its parts, and only the three characters that mean something in
/// HTML are written in another way.
pub proof fn law_html_is_written_character_by_character(a: Seq<char>, b: Seq<char>, c: char)
    ensures
        html_text(a + b) == html_text(a) + html_text(b),
        c != '&' && c != '<' && c != '>' ==> html_text(seq![c]) == seq![c],
    decreases b.len(),
{
    assert(seq![c].drop_last() =~= Seq::<char>::empty());
    assert(html_text(seq![c].drop_last()) == Seq::<char>::empty());
    assert(html_text(seq![c]) =~= html_char(c));
    if b.len() == 0 {
        assert(a + b =~= a);
        assert(html_text(a) + html_text(b) =~= html_text(a));
    } else {
        law_html_is_written_character_by_character(a, b.drop_last(), c);
        assert((a + b).drop_last() =~= a + b.drop_last());
        assert((a + b).last() == b.last());
        assert(html_text(a + b) =~= html_text(a) + html_text(b));
    }
}

/// The list on a page has an item for each file, in order, with the name of the file and its
/// size.
pub proof fn law_every_file_is_listed(
    a: Seq<SavedView>,
    b: Seq<SavedView>,
    name: Seq<char>,
    size: u64,
)
    ensures
        file_items(a + b) == file_items(a) + file_items(b),
        file_items(seq![(name, size)]) == "  <li>"@ + html_text(name) + " ("@ + html_text(
            size_text(size as int),
        ) + ")</li>\n"@,
        file_list(Some(a)) == "<ul>\n"@ + file_items(a) + "</ul>\n"@,
        file_list(None) == Seq::<char>::empty(),
    decreases b.len(),
{
    let one = seq![(name, size)];
    assert(one.drop_last() =~= Seq::<SavedView>::empty());
    assert(file_items(one.drop_last()) == Seq::<char>::empty());
    assert(file_items(one) =~= "  <li>"@ + html_text(name) + " ("@ + html_text(
        size_text(size as int),
    ) + ")</li>\n"@);
    if b.len() == 0 {
        assert(a + b =~= a);
        assert(file_items(a) + file_items(b) =~= file_items(a));
    } else {
        law_every_file_is_listed(a, b.drop_last(), name, size);
        assert((a + b).drop_last() =~= a + b.drop_last());
        assert((a + b).last() == b.last());
        assert(file_items(a + b) =~= file_items(a) + file_items(b));
    }
}

/// The whole number nearest to a quotient is no further from it than a half.
proof fn lemma_half_even(n: int, d: int)
    requires
        n >= 0,
        d > 0,
    ensures
        half_even(n, d) >= 0,
        -d <= 2 * (n - half_even(n, d) * d) <= d,
{
    let q = n / d;
    let r = n % d;
    assert(n == q * d + r && 0 <= r < d && q >= 0) by (nonlinear_arith)
        requires
            q == n / d,
            r == n % d,
            n >= 0,
            d > 0,
    ;
    assert((q + 1) * d == q * d + d) by (nonlinear_arith);
}

/// A size below a kilobyte is shown to the byte, and a larger one, up to where doubles count
/// every byte, in tenths of the largest unit that it reaches, no further from the truth than
/// half a tenth.
pub proof fn law_size_is_shown_to_a_tenth(n: int)
    requires
        0 <= n < 0x20_0000_0000_0000,
    ensures
        n < 0x400 ==> size_text(n) == decimal(n as nat) + " B"@,
        0x400 <= n < 0x10_0000 ==> shows_tenths(size_text(n), n, 0x400, " KB"@),
        0x10_0000 <= n < 0x4000_0000 ==> shows_tenths(size_text(n), n, 0x10_0000, " MB"@),
        0x4000_0000 <= n < 0x100_0000_0000 ==> shows_tenths(size_text(n), n, 0x4000_0000, " GB"@),
        0x100_0000_0000 <= n ==> shows_tenths(size_text(n), n, 0x100_0000_0000, " TB"@),
{
    if n >= 0x400 {
        let unit = size_unit(n);
        let tenths = half_even(10 * n, unit);
        lemma_half_even(10 * n, unit);
        assert(size_text(n) == tenths_text(tenths) + size_unit_name(n));
    }
}

/// A number of tenths, with a dot before the last.
pub open spec fn tenths_text(tenths: int) -> Seq<char> {
    decimal((tenths / 10) as nat) + "."@ + decimal((tenths % 10) as nat)
}

/// Whether a text shows a size in tenths of a unit, no further from it than half a tenth.
pub open spec fn shows_tenths(text: Seq<char>, n: int, unit: int, name: Seq<char>) -> bool {
    exists|tenths: int|
        tenths >= 0 && text == #[trigger] tenths_text(tenths) + name && -unit <= 2 * (10 * n
            - tenths * unit) <= unit
}

/// A hidden password shows nothing of the password but, from six characters on, its length.
pub proof fn law_hidden_password_shows_nothing(a: Seq<char>, b: Seq<char>)
    ensures
        forall|i: int| 0 <= i < masked(a).len() ==> #[trigger] masked(a)[i] == '•',
        a.len() > 0 ==> masked(a).len() >= 6,
        a.len() == 0 ==> masked(a).len() == 0,
        a.len() == b.len() ==> masked(a) == masked(b),
        0 < a.len() <= 6 && 0 < b.len() <= 6 ==> masked(a) == masked(b),
        a.len() >= 6 ==> masked(a).len() == a.len(),
{
    if a.len() == b.len() || 0 < a.len() <= 6 && 0 < b.len() <= 6 {
        assert(masked(a) =~= masked(b));
    }
}

/// The link to an archive is the link to its download, without a query, a slash and the name
/// of the archive, whether or not the link to the download ends with a slash.
pub proof fn law_archive_link_is_beside_the_download(
    url: Seq<char>,
    query: Seq<char>,
    file: Seq<char>,
)
    requires
        !url.contains('?'),
        url.len() > 0,
    ensures
        url.last() != '/' ==> zip_link(url, file) == url + seq!['/'] + file,
        url.last() == '/' ==> zip_link(url, file) == url + file,
        zip_link(url + seq!['?'] + query, file) == zip_link(url, file),
        zip_link(seq![], file) == file,
{
    reveal_strlit("/");
    assert("/"@ =~= seq!['/']);
    assert forall|j: int| 0 <= j < url.len() implies url[j] != '?' by {
        assert(url.contains(url[j]));
    }
    let n = url.len() as int;
    crate::text::lemma_position_is(url, '?', n);
    assert(url.take(n) =~= url);
    let long = url + seq!['?'] + query;
    assert forall|j: int| 0 <= j < n implies long[j] != '?' by {
        assert(long[j] == url[j]);
    }
    crate::text::lemma_position_is(long, '?', n);
    assert(long.take(n) =~= url);
}

/// What is written beside a download, by its mode: the mode `basic` with a user asks for the
/// user by a password file in the directory, the mode `token` checks the token that stands in
/// the link, and any other mode does neither. The page comes last, is filled from the
/// template, and starts the download of the archive after it was counted under the name of
/// the directory.
pub proof fn law_files_follow_the_mode(
    page: PageView,
    template: Seq<char>,
    dir: Seq<char>,
    counter: Seq<char>,
    hash: Seq<char>,
    error: Seq<char>,
)
    ensures
        ({
            let plan = page_plan(page, template, dir, counter, Ok(hash));
            let failed = page_plan(page, template, dir, counter, Err(error));
            let mode = lower(page.auth_mode);
            let uuid = or_empty(last_name(dir));
            let html = filled(template, page_fillings(page, uuid))
                + "<script>function downloadZip(){fetch('"@ + counter + "?uuid="@ + uuid
                + "').finally(()=>{window.location.href='"@ + html_text(
                zip_link(page.download_url, page.zip_file),
            ) + "';});}</script>"@;
            &&& plan.error is None
            &&& plan.writes.last() == ("download.html"@, html)
            &&& mode == "basic"@ && page.auth_info is Some ==> plan.writes.len() == 3
                && plan.writes[0].1 == login_rules(dir) && plan.writes[1].0 == ".htpasswd"@
            &&& mode == "basic"@ && page.auth_info is None ==> plan.writes.len() == 2
                && plan.writes[0].1 == deny_rules()
            &&& mode == "token"@ ==> plan.writes.len() == 3 && plan.writes[0].1 == deny_rules()
                && plan.writes[1] == (
                "token.js"@,
                token_script(or_empty(query_param(page.download_url, "token"@))),
            )
            &&& mode != "token"@ && mode != "basic"@ ==> plan.writes.len() == 2
                && plan.writes[0].1 == deny_rules()
            &&& mode == "basic"@ && page.auth_info is Some ==> failed.error == Some(
                "bcrypt hash error: "@ + error,
            ) && failed.writes.len() == 1
            &&& !(mode == "basic"@ && page.auth_info is Some) ==> failed == plan
        }),
{
    reveal_strlit("basic");
    reveal_strlit("token");
    assert("basic"@[0] == 'b' && "token"@[0] == 't');
    let plan = page_plan(page, template, dir, counter, Ok(hash));
    let uuid = or_empty(last_name(dir));
    let html = filled(template, page_fillings(page, uuid))
        + "<script>function downloadZip(){fetch('"@ + counter + "?uuid="@ + uuid
        + "').finally(()=>{window.location.href='"@ + html_text(
        zip_link(page.download_url, page.zip_file),
    ) + "';});}</script>"@;
    assert(page_html(page, template, uuid, counter) =~= html);
}

/// The rules that ask for a user name the password file of the directory and keep the note and
/// that file from being served, and the check of a token compares with the token it is made
/// for.
pub proof fn law_rules_name_their_directory(dir: Seq<char>, other: Seq<char>)
    ensures
        login_rules(dir) == "AuthType Basic\nAuthName \"MilterSeparator\"\nAuthUserFile "@ + dir
            + "/.htpasswd\nRequire valid-user\n\n"@ + deny_rules(),
        login_rules(dir) == login_rules(other) ==> dir == other,
        token_script(dir) == token_script(other) ==> dir == other,
{
    let a = "AuthType Basic\nAuthName \"MilterSeparator\"\nAuthUserFile "@;
    if login_rules(dir) == login_rules(other) {
        let n = a.len() as int;
        assert(login_rules(dir).len() - dir.len() == login_rules(other).len() - other.len());
        assert(login_rules(dir).subrange(n, n + dir.len()) =~= dir);
        assert(login_rules(other).subrange(n, n + other.len()) =~= other);
    }
    if token_script(dir) == token_script(other) {
        assert(token_script(dir).len() - dir.len() == token_script(other).len() - other.len());
        lemma_token_stands_in_script(dir, other);
    }
}

/// Where the token stands in its check.
proof fn lemma_token_stands_in_script(a: Seq<char>, b: Seq<char>)
    requires
        a.len() == b.len(),
        token_script(a) == token_script(b),
    ensures
        a == b,
{
    let head = r#"(function(){
    function getQueryParam(name){
        const params = new URLSearchParams(window.location.search);
        return params.get(name);
    }
    const token = getQueryParam('token');
    const expected = '"#@;
    let n = head.len() as int;
    assert(token_script(a).subrange(n, n + a.len()) =~= a);
    assert(token_script(b).subrange(n, n + b.len()) =~= b);
}

/// A number of 53 bits is no further from the number it stands for than half the distance of
/// such numbers, which up to a number of 64 bits is no more than 4096.
pub proof fn law_large_sizes_are_nearly_right(n: int)
    requires
        0 <= n < 0x1_0000_0000_0000_0000,
    ensures
        n < 0x20_0000_0000_0000 ==> nearest_53_bits(n) == n,
        -4096 <= 2 * (n - nearest_53_bits(n)) <= 4096,
        n < 0x40_0000_0000_0000 ==> -2 <= 2 * (n - nearest_53_bits(n)) <= 2,
{
    if n >= 0x20_0000_0000_0000 {
        lemma_step(n, 2);
        lemma_half_even(n, step_53_bits(n, 2));
    }
}

/// The distance of numbers of 53 bits.
proof fn lemma_step(n: int, unit: int)
    requires
        n < 0x1_0000_0000_0000_0000,
        2 <= unit <= 0x1000,
    ensures
        unit <= step_53_bits(n, unit) <= 0x1000,
        unit == 2 && n < 0x40_0000_0000_0000 ==> step_53_bits(n, unit) == 2,
    decreases 0x1000 - unit,
{
    if unit < 0x1000 && n >= 0x20_0000_0000_0000 * unit {
        assert(unit < 0x800);
        lemma_step(n, 2 * unit);
    }
}

/// Whether a text stands in another at some place.
pub open spec fn has_at(s: Seq<char>, i: int, t: Seq<char>) -> bool {
    0 <= i && i + t.len() <= s.len() && s.subrange(i, i + t.len()) == t
}

/// The page that is built in shows the subject, the senders, the recipients, the attachments
/// and the password of the archive, and counts under the name of the download.
pub proof fn law_builtin_page_shows_what_is_needed()
    ensures
        exists|i: int| has_at(builtin_page(), i, "{{subject}}"@),
        exists|i: int| has_at(builtin_page(), i, "{{from}}"@),
        exists|i: int| has_at(builtin_page(), i, "{{to}}"@),
        exists|i: int| has_at(builtin_page(), i, "{{attachments}}"@),
        exists|i: int| has_at(builtin_page(), i, "{{zip_password}}"@),
        exists|i: int| has_at(builtin_page(), i, "{{uuid}}"@),
{
    let page = builtin_page();
    reveal_strlit(r#"<!doctype html>
<html><head><meta charset="utf-8"><title>Download</title></head>
<body>
<h1>{{subject}}</h1>
<p><strong>From:</strong> {{from}}<br><strong>To:</strong> {{to}}</p>
<h2>Attachments</h2>
{{attachments}}
<p>ZIP: <button onclick="downloadZip()">Download ZIP</button></p>
<p>Password: {{zip_password}}</p>
<script>
function downloadZip() {
    const uuid = "{{uuid}}";
    fetch("count.cgi?uuid=" + encodeURIComponent(uuid))
        .finally(() => {
            window.location.href = uuid + '.zip';
        });
}
</script>
</body></html>"#);
    reveal_strlit("{{subject}}");
    reveal_strlit("{{from}}");
    reveal_strlit("{{to}}");
    reveal_strlit("{{attachments}}");
    reveal_strlit("{{zip_password}}");
    reveal_strlit("{{uuid}}");
    assert(page.subrange(92, 103) =~= "{{subject}}"@);
    assert(has_at(page, 92, "{{subject}}"@));
    assert(page.subrange(135, 143) =~= "{{from}}"@);
    assert(has_at(page, 135, "{{from}}"@));
    assert(page.subrange(168, 174) =~= "{{to}}"@);
    assert(has_at(page, 168, "{{to}}"@));
    assert(page.subrange(200, 215) =~= "{{attachments}}"@);
    assert(has_at(page, 200, "{{attachments}}"@));
    assert(page.subrange(295, 311) =~= "{{zip_password}}"@);
    assert(has_at(page, 295, "{{zip_password}}"@));
    assert(page.subrange(368, 376) =~= "{{uuid}}"@);
    assert(has_at(page, 368, "{{uuid}}"@));
}

/// The check of a token holds the token that is expected, lets everything pass where none is,
/// and else replaces the page where the token of the link is another.
pub proof fn law_token_is_compared(token: Seq<char>)
    ensures
        exists|i: int| has_at(token_script(token), i, "const expected = '"@ + token + "';"@),
        exists|i: int| has_at(token_script(token), i, "if(!expected){"@),
        exists|i: int| has_at(token_script(token), i, "if(token !== expected){"@),
{
    let head = r#"(function(){
    function getQueryParam(name){
        const params = new URLSearchParams(window.location.search);
        return params.get(name);
    }
    const token = getQueryParam('token');
    const expected = '"#@;
    let tail = r#"';
    if(!expected){
        // no expected token configured; allow
        return;
    }
    if(token !== expected){
        document.body.innerHTML = '<h1>Invalid token</h1><p>ダウンロード用のトークンが一致しません。</p>';
    }
})();"#@;
    let script = token_script(token);
    reveal_strlit(r#"(function(){
    function getQueryParam(name){
        const params = new URLSearchParams(window.location.search);
        return params.get(name);
    }
    const token = getQueryParam('token');
    const expected = '"#);
    reveal_strlit(r#"';
    if(!expected){
        // no expected token configured; allow
        return;
    }
    if(token !== expected){
        document.body.innerHTML = '<h1>Invalid token</h1><p>ダウンロード用のトークンが一致しません。</p>';
    }
})();"#);
    reveal_strlit("const expected = '");
    reveal_strlit("';");
    reveal_strlit("if(!expected){");
    reveal_strlit("if(token !== expected){");
    let n = head.len() as int;
    let m = n + token.len();
    assert(script =~= head + token + tail);
    assert(head.subrange(n - 18, n) =~= "const expected = '"@);
    assert(tail.subrange(0, 2) =~= "';"@);
    assert(script.subrange(n - 18, m + 2) =~= head.subrange(n - 18, n) + token + tail.subrange(
        0,
        2,
    ));
    assert(has_at(script, n - 18, "const expected = '"@ + token + "';"@));
    assert(tail.subrange(7, 21) =~= "if(!expected){"@);
    assert(script.subrange(m + 7, m + 21) =~= tail.subrange(7, 21));
    assert(has_at(script, m + 7, "if(!expected){"@));
    assert(tail.subrange(95, 118) =~= "if(token !== expected){"@);
    assert(script.subrange(m + 95, m + 118) =~= tail.subrange(95, 118));
    assert(has_at(script, m + 95, "if(token !== expected){"@));
}

} // verus!
