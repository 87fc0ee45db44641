//! The parts of file names, and names that are not yet taken.
use crate::text::{
    decimal, decimal_text, from_chars, is_text, position, split, split_chars, to_chars, views,
};
use vstd::prelude::*;
use vstd::slice::slice_subrange;

verus! {

/// Whether a piece of a path, between slashes, names something.
pub open spec fn is_component(piece: Seq<char>) -> bool {
    piece.len() > 0 && piece != "."@
}

/// The last component of a path, if it is a name. Empty pieces and dots are skipped; a
/// path that ends by going up has no name.
pub open spec fn last_name(path: Seq<char>) -> Option<Seq<char>> {
    let pieces = split(path, '/').filter(|p: Seq<char>| is_component(p));
    if pieces.len() == 0 || pieces.last() == ".."@ {
        None
    } else {
        Some(pieces.last())
    }
}

/// The last component of a path, if it is a name.
pub fn file_name(path: &str) -> (r: Option<String>)
    ensures
        match r {
            Some(name) => last_name(path@) == Some(name@),
            None => last_name(path@) is None,
        },
{
    let chars = to_chars(path);
    let pieces = split_chars(chars.as_slice(), '/');
    let ghost all = views(pieces@);
    let ghost named = |p: Seq<char>| is_component(p);
    let mut i = pieces.len();
    proof {
        assert(all.take(i as int) =~= all);
    }
    while i > 0
        invariant
            i <= pieces@.len(),
            all == views(pieces@),
            all == split(path@, '/'),
            named == (|p: Seq<char>| is_component(p)),
            all.filter(named) == all.take(i as int).filter(named),
        decreases i,
    {
        let piece = pieces[i - 1].as_slice();
        proof {
            let head = all.take(i - 1);
            assert(all[i - 1] == piece@);
            assert(all.take(i as int) =~= head.push(piece@));
            head.lemma_filter_push(piece@, named);
        }
        if piece.len() > 0 && !is_text(piece, ".") {
            proof {
                assert(all.filter(named).last() == piece@);
            }
            if is_text(piece, "..") {
                return None;
            }
            return Some(from_chars(piece));
        }
        i -= 1;
    }
    proof {
        assert(all.take(0) =~= Seq::<Seq<char>>::empty());
        reveal(Seq::filter);
        assert(all.filter(named).len() == 0);
    }
    None
}

/// Where the last dot of a name stands, or nothing if there is none but, perhaps, at the
/// start.
pub open spec fn last_dot(name: Seq<char>) -> Option<int>
    decreases name.len(),
{
    if name.len() <= 1 {
        None
    } else if name.last() == '.' {
        Some(name.len() - 1)
    } else {
        last_dot(name.drop_last())
    }
}

pub proof fn lemma_last_dot(name: Seq<char>)
    ensures
        last_dot(name) matches Some(d) ==> 0 < d < name.len() && name[d] == '.',
    decreases name.len(),
{
    if name.len() > 1 && name.last() != '.' {
        lemma_last_dot(name.drop_last());
    }
}

/// A name with a number before its extension.
pub open spec fn numbered(name: Seq<char>, n: nat) -> Seq<char> {
    match last_dot(name) {
        Some(d) => name.take(d) + "_"@ + decimal(n) + name.skip(d),
        None => name + "_"@ + decimal(n),
    }
}

/// A name with a number before its extension.
pub fn numbered_name(name: &str, n: u64) -> (r: String)
    ensures
        r@ == numbered(name@, n as nat),
{
    let chars = to_chars(name);
    let len = chars.len();
    let number = decimal_text(n);
    let mut i = len;
    proof {
        assert(chars@.take(len as int) =~= chars@);
    }
    while i > 1
        invariant
            i <= len == chars@.len(),
            chars@ == name@,
            number@ == decimal(n as nat),
            last_dot(chars@) == last_dot(chars@.take(i as int)),
        decreases i,
    {
        if chars[i - 1] == '.' {
            let head = slice_subrange(chars.as_slice(), 0, i - 1);
            let tail = slice_subrange(chars.as_slice(), i - 1, len);
            proof {
                assert(chars@.take(i as int).last() == '.');
                assert(head@ =~= chars@.take(i - 1));
                assert(tail@ =~= chars@.skip(i - 1));
            }
            let mut out = from_chars(head);
            out.push_str("_");
            out.push_str(number.as_str());
            out.push_str(from_chars(tail).as_str());
            return out;
        }
        proof {
            assert(chars@.take(i as int).drop_last() =~= chars@.take(i - 1));
        }
        i -= 1;
    }
    let mut out = name.to_owned();
    out.push_str("_");
    out.push_str(number.as_str());
    out
}

/// Whether a text names something in a directory, and nothing outside of it.
pub open spec fn is_plain_name(name: Seq<char>) -> bool {
    is_component(name) && name != ".."@ && !name.contains('/')
}

proof fn lemma_pieces(s: Seq<char>, sep: char)
    ensures
        forall|i: int| 0 <= i < split(s, sep).len() ==> !(#[trigger] split(s, sep)[i]).contains(sep),
    decreases s.len(),
{
    crate::text::lemma_position(s, sep);
    let p = position(s, sep) as int;
    if p < s.len() {
        lemma_pieces(s.skip(p + 1), sep);
        assert forall|i: int| 0 <= i < split(s, sep).len() implies !(#[trigger] split(
            s,
            sep,
        )[i]).contains(sep) by {
            if i > 0 {
                assert(split(s, sep)[i] == split(s.skip(p + 1), sep)[i - 1]);
            }
        }
    }
}

/// The name that a path ends with names something in a directory.
pub proof fn lemma_last_name(path: Seq<char>)
    ensures
        last_name(path) matches Some(name) ==> is_plain_name(name),
{
    let named = |p: Seq<char>| is_component(p);
    let all = split(path, '/');
    let pieces = all.filter(named);
    lemma_pieces(path, '/');
    if last_name(path) is Some {
        let name = pieces.last();
        all.lemma_filter_pred(named, pieces.len() - 1);
        assert(pieces.contains(name));
        all.lemma_filter_contains_rev(named, name);
        let i = all.index_of(name);
        assert(all.contains(name));
        assert(all[i] == name);
    }
}

proof fn lemma_decimal_has_no_slash(n: nat)
    ensures
        !decimal(n).contains('/'),
    decreases n,
{
    if n >= 10 {
        lemma_decimal_has_no_slash(n / 10);
        let s = decimal(n / 10);
        assert forall|i: int| 0 <= i < decimal(n).len() implies decimal(n)[i] != '/' by {
            if i < s.len() {
                assert(decimal(n)[i] == s[i]);
                assert(s.contains(s[i]));
            }
        }
    }
}

/// A name with a number names something in a directory if the name did.
pub proof fn lemma_numbered(name: Seq<char>, n: nat)
    requires
        is_plain_name(name),
    ensures
        is_plain_name(numbered(name, n)),
{
    lemma_last_dot(name);
    lemma_decimal_has_no_slash(n);
    reveal_strlit("_");
    reveal_strlit(".");
    reveal_strlit("..");
    let x = decimal(n);
    let r = numbered(name, n);
    let d = match last_dot(name) {
        Some(d) => d,
        None => name.len() as int,
    };
    assert(r[d] == '_');
    assert("."@[0] == '.' && ".."@[0] == '.' && ".."@[1] == '.');
    assert forall|i: int| 0 <= i < r.len() implies r[i] != '/' by {
        if i < d {
            assert(r[i] == name[i]);
            assert(name.contains(name[i]));
        } else if i > d && i < d + 1 + x.len() {
            assert(r[i] == x[i - d - 1]);
            assert(x.contains(x[i - d - 1]));
        } else if i > d {
            assert(r[i] == name[i - 1 - x.len()]);
            assert(name.contains(name[i - 1 - x.len()]));
        }
    }
}

/// The pieces of a text with a separator and another text behind it, if that text has no
/// separator itself.
proof fn lemma_split_last(a: Seq<char>, b: Seq<char>, sep: char)
    requires
        !b.contains(sep),
    ensures
        split(a + seq![sep] + b, sep) == split(a, sep).push(b),
    decreases a.len(),
{
    let s = a + seq![sep] + b;
    crate::text::lemma_position(a, sep);
    let p = position(a, sep) as int;
    assert forall|j: int| 0 <= j < p implies s[j] != sep by {
        assert(s[j] == a[j]);
    }
    assert(s[p] == sep);
    crate::text::lemma_position_is(s, sep, p);
    assert(s.take(p) =~= a.take(p));
    assert(split(s, sep) == seq![s.take(p)] + split(s.skip(p + 1), sep));
    if p < a.len() {
        let rest = a.skip(p + 1);
        lemma_split_last(rest, b, sep);
        assert(split(a, sep) == seq![a.take(p)] + split(rest, sep));
        assert(s.skip(p + 1) =~= rest + seq![sep] + b);
        assert(seq![a.take(p)] + split(rest, sep).push(b) =~= (seq![a.take(p)] + split(
            rest,
            sep,
        )).push(b));
    } else {
        assert(s.skip(p + 1) =~= b);
        assert forall|j: int| 0 <= j < b.len() implies b[j] != sep by {
            assert(b.contains(b[j]));
        }
        crate::text::lemma_position_is(b, sep, b.len() as int);
        assert(split(b, sep) == seq![b]);
        assert(split(a, sep) == seq![a]);
        assert(a.take(p) =~= a);
        assert(seq![a] + seq![b] =~= seq![a].push(b));
    }
}

/// The name that a path ends with is what stands behind its last slash, whatever stands
/// before it, and a name alone is a path that ends with it.
pub proof fn law_path_ends_with_its_name(dir: Seq<char>, name: Seq<char>)
    requires
        is_plain_name(name),
    ensures
        last_name(dir + seq!['/'] + name) == Some(name),
        last_name(dir + seq!['/'] + name + seq!['/']) == Some(name),
        last_name(name) == Some(name),
{
    let named = |p: Seq<char>| is_component(p);
    let path = dir + seq!['/'] + name;
    let none = Seq::<char>::empty();
    lemma_split_last(dir, name, '/');
    split(dir, '/').lemma_filter_push(name, named);
    assert(path + seq!['/'] =~= path + seq!['/'] + none);
    lemma_split_last(path, none, '/');
    split(path, '/').lemma_filter_push(none, named);
    assert forall|j: int| 0 <= j < name.len() implies name[j] != '/' by {
        assert(name.contains(name[j]));
    }
    crate::text::lemma_position_is(name, '/', name.len() as int);
    assert(split(name, '/') =~= Seq::<Seq<char>>::empty().push(name));
    Seq::<Seq<char>>::empty().lemma_filter_push(name, named);
    assert(split(name, '/').filter(named).last() == name);
}

/// Where the last dot of a name stands that has an extension.
pub proof fn lemma_last_dot_is(stem: Seq<char>, extension: Seq<char>)
    requires
        stem.len() > 0,
        !extension.contains('.'),
    ensures
        last_dot(stem + seq!['.'] + extension) == Some(stem.len() as int),
    decreases extension.len(),
{
    let name = stem + seq!['.'] + extension;
    if extension.len() > 0 {
        let e = extension.drop_last();
        assert(extension.contains(extension.last()));
        assert forall|j: int| 0 <= j < e.len() implies e[j] != '.' by {
            assert(extension.contains(extension[j]));
        }
        lemma_last_dot_is(stem, e);
        assert(name.drop_last() =~= stem + seq!['.'] + e);
        assert(name.last() == extension.last());
    } else {
        assert(name.last() == '.');
    }
}

/// A number that makes a name free stands before its extension, so that the file stays of
/// the kind that it was.
pub proof fn law_number_stands_before_the_extension(
    stem: Seq<char>,
    extension: Seq<char>,
    n: nat,
)
    requires
        stem.len() > 0,
        !extension.contains('.'),
    ensures
        numbered(stem + seq!['.'] + extension, n) == stem + seq!['_'] + decimal(n) + seq!['.']
            + extension,
        numbered(extension, n) == extension + seq!['_'] + decimal(n),
{
    reveal_strlit("_");
    assert("_"@ =~= seq!['_']);
    let name = stem + seq!['.'] + extension;
    let d = stem.len() as int;
    lemma_last_dot_is(stem, extension);
    assert(name.take(d) =~= stem);
    assert(name.skip(d) =~= seq!['.'] + extension);
    assert(numbered(name, n) =~= stem + seq!['_'] + decimal(n) + seq!['.'] + extension);
    lemma_last_dot(extension);
    if let Some(d) = last_dot(extension) {
        assert(extension.contains(extension[d]));
    }
}

} // verus!
