//! What a client announces about a message: its macros and its header fields.
use crate::text::{position, str_views};
use vstd::prelude::*;

verus! {

/// The macros of a mail session: names, each with one value.
pub struct MacroFields {
    entries: Vec<(String, String)>,
}

/// The value that goes with a name in a list of pairs, the last one if there are
/// several.
pub open spec fn pairs_to_map(pairs: Seq<(Seq<char>, Seq<char>)>) -> Map<Seq<char>, Seq<char>>
    decreases pairs.len(),
{
    if pairs.len() == 0 {
        Map::empty()
    } else {
        pairs_to_map(pairs.drop_last()).insert(pairs.last().0, pairs.last().1)
    }
}

impl MacroFields {
    closed spec fn pairs(&self) -> Seq<(Seq<char>, Seq<char>)> {
        self.entries@.map_values(|e: (String, String)| (e.0@, e.1@))
    }

    /// The names and their values.
    pub closed spec fn view(&self) -> Map<Seq<char>, Seq<char>> {
        pairs_to_map(self.pairs())
    }

    /// No macros.
    pub fn new() -> (r: MacroFields)
        ensures
            r@ == Map::<Seq<char>, Seq<char>>::empty(),
    {
        MacroFields { entries: Vec::new() }
    }

    /// Gives a name a value, in place of the one that it had.
    pub fn insert(&mut self, name: String, value: String)
        ensures
            final(self)@ == old(self)@.insert(name@, value@),
    {
        self.entries.push((name, value));
        proof {
            assert(self.pairs().drop_last() =~= old(self).pairs());
            assert(self.pairs().last() == (name@, value@));
        }
    }

    /// The value of a name.
    pub fn get(&self, name: &str) -> (r: Option<&String>)
        ensures
            match r {
                Some(v) => self@.contains_key(name@) && self@[name@] == v@,
                None => !self@.contains_key(name@),
            },
    {
        let mut i: usize = self.entries.len();
        let key = name.to_owned();
        proof {
            assert(self.pairs().take(i as int) =~= self.pairs());
        }
        while i > 0
            invariant
                i <= self.entries@.len(),
                key@ == name@,
                self@.contains_key(name@) == pairs_to_map(self.pairs().take(i as int)).contains_key(
                    name@,
                ),
                self@.contains_key(name@) ==> self@[name@] == pairs_to_map(
                    self.pairs().take(i as int),
                )[name@],
            decreases i,
        {
            proof {
                let p = self.pairs().take(i as int);
                assert(p.drop_last() =~= self.pairs().take(i - 1));
                assert(p.last() == (self.entries@[i - 1].0@, self.entries@[i - 1].1@));
            }
            if self.entries[i - 1].0 == key {
                return Some(&self.entries[i - 1].1);
            }
            i -= 1;
        }
        None
    }

    /// Forgets all macros.
    pub fn clear(&mut self)
        ensures
            final(self)@ == Map::<Seq<char>, Seq<char>>::empty(),
    {
        self.entries.clear();
        proof {
            assert(self.pairs().len() == 0);
        }
    }
}

/// A header field as it was received: its name, and its values in order.
pub type FieldView = (Seq<char>, Seq<Seq<char>>);

/// The header fields of a message: names in the order in which they first came, each
/// with its values in order.
pub struct HeaderFields {
    entries: Vec<(String, Vec<String>)>,
}

/// The names of a list of fields.
pub open spec fn names(fields: Seq<FieldView>) -> Seq<Seq<char>> {
    fields.map_values(|f: FieldView| f.0)
}

/// The fields after one more value: it is put behind the values of its name, and a
/// new name behind all others.
pub open spec fn added(fields: Seq<FieldView>, name: Seq<char>, value: Seq<char>) -> Seq<FieldView> {
    let i = position(names(fields), name) as int;
    if i < fields.len() {
        fields.update(i, (name, fields[i].1.push(value)))
    } else {
        fields.push((name, seq![value]))
    }
}

/// The values that a name has in a list of fields.
pub open spec fn values_of(fields: Seq<FieldView>, name: Seq<char>) -> Seq<Seq<char>> {
    let i = position(names(fields), name) as int;
    if i < fields.len() {
        fields[i].1
    } else {
        seq![]
    }
}

/// The names and the values of some entries.
spec fn entry_views(entries: Seq<(String, Vec<String>)>) -> Seq<FieldView> {
    entries.map_values(|e: (String, Vec<String>)| (e.0@, str_views(e.1@)))
}

impl HeaderFields {
    /// The fields, in order.
    pub closed spec fn view(&self) -> Seq<FieldView> {
        entry_views(self.entries@)
    }

    /// No name stands twice.
    #[verifier::type_invariant]
    spec fn are_names_distinct(self) -> bool {
        names(self@).no_duplicates()
    }

    /// No fields.
    pub fn new() -> (r: HeaderFields)
        ensures
            r@ == Seq::<FieldView>::empty(),
    {
        let r = HeaderFields { entries: Vec::new() };
        proof {
            assert(r@ =~= Seq::<FieldView>::empty());
        }
        r
    }

    /// How many names there are. None stands twice.
    pub fn len(&self) -> (r: usize)
        ensures
            r == self@.len(),
            names(self@).no_duplicates(),
    {
        proof {
            use_type_invariant(self);
        }
        self.entries.len()
    }

    /// A name, by its place.
    pub fn name(&self, i: usize) -> (r: &String)
        requires
            i < self@.len(),
        ensures
            r@ == self@[i as int].0,
    {
        &self.entries[i].0
    }

    /// The values of a name, by its place.
    pub fn values(&self, i: usize) -> (r: &Vec<String>)
        requires
            i < self@.len(),
        ensures
            str_views(r@) == self@[i as int].1,
    {
        &self.entries[i].1
    }

    /// Adds a value to a name.
    pub fn add(&mut self, name: String, value: String)
        ensures
            final(self)@ == added(old(self)@, name@, value@),
    {
        let ghost before = self@;
        proof {
            use_type_invariant(&*self);
            law_values_are_kept_in_order(before, name@, value@, name@);
        }
        let mut entries: Vec<(String, Vec<String>)> = Vec::new();
        std::mem::swap(&mut entries, &mut self.entries);
        let mut i: usize = 0;
        while i < entries.len()
            invariant
                before == old(self)@,
                before == entry_views(entries@),
                names(added(before, name@, value@)).no_duplicates(),
                i <= entries@.len(),
                forall|j: int| 0 <= j < i ==> names(before)[j] != name@,
            decreases entries@.len() - i,
        {
            proof {
                assert(names(before)[i as int] == entries@[i as int].0@);
            }
            if entries[i].0 == name {
                proof {
                    crate::text::lemma_position_is(names(before), name@, i as int);
                }
                let (key, mut values) = entries.remove(i);
                let ghost held = str_views(values@);
                values.push(value);
                proof {
                    assert(str_views(values@) =~= held.push(value@));
                }
                entries.insert(i, (key, values));
                proof {
                    assert(entry_views(entries@) =~= before.update(
                        i as int,
                        (name@, held.push(value@)),
                    ));
                }
                self.entries = entries;
                return;
            }
            i += 1;
        }
        let mut values: Vec<String> = Vec::new();
        values.push(value);
        proof {
            crate::text::lemma_position_is(names(before), name@, names(before).len() as int);
            assert(str_views(values@) =~= seq![value@]);
        }
        entries.push((name, values));
        proof {
            assert(entry_views(entries@) =~= before.push((name@, seq![value@])));
        }
        self.entries = entries;
    }

    /// Forgets all fields.
    pub fn clear(&mut self)
        ensures
            final(self)@ == Seq::<FieldView>::empty(),
    {
        self.entries = Vec::new();
        proof {
            assert(self@ =~= Seq::<FieldView>::empty());
        }
    }
}

/// Adding a value puts it behind the values of its name, keeps the values of every
/// other name, and lets no name stand twice.
pub proof fn law_values_are_kept_in_order(
    fields: Seq<FieldView>,
    name: Seq<char>,
    value: Seq<char>,
    other: Seq<char>,
)
    requires
        names(fields).no_duplicates(),
    ensures
        values_of(added(fields, name, value), name) == values_of(fields, name).push(value),
        other != name ==> values_of(added(fields, name, value), other) == values_of(fields, other),
        names(added(fields, name, value)).no_duplicates(),
{
    let after = added(fields, name, value);
    let i = position(names(fields), name) as int;
    crate::text::lemma_position(names(fields), name);
    crate::text::lemma_position(names(fields), other);
    if i < fields.len() {
        assert(names(fields)[i] == name);
        assert(names(after) =~= names(fields));
    } else {
        assert(names(after) =~= names(fields).push(name));
        crate::text::lemma_position_is(names(after), name, i);
        let j = position(names(fields), other) as int;
        if other != name {
            crate::text::lemma_position_is(
                names(after),
                other,
                if j < fields.len() {
                    j
                } else {
                    j + 1
                },
            );
        }
        assert(seq![value] =~= Seq::<Seq<char>>::empty().push(value));
        assert forall|a: int, b: int| 0 <= a < b < names(after).len() implies names(after)[a]
            != names(after)[b] by {
            if b == fields.len() {
                assert(names(fields)[a] != name);
            }
        }
    }
}

/// The names of header fields stay in the order in which they first came, and a value that
/// is added is the only one that is new.
pub proof fn law_names_stay_in_order(fields: Seq<FieldView>, name: Seq<char>, value: Seq<char>)
    ensures
        names(fields).contains(name) ==> names(added(fields, name, value)) == names(fields),
        !names(fields).contains(name) ==> added(fields, name, value) == fields.push(
            (name, seq![value]),
        ),
        forall|i: int|
            0 <= i < fields.len() && (#[trigger] fields[i]).0 != name ==> added(
                fields,
                name,
                value,
            )[i] == fields[i],
{
    crate::text::lemma_position(names(fields), name);
    let i = position(names(fields), name) as int;
    if i < fields.len() {
        assert(names(fields)[i] == name);
        assert(names(fields).contains(name));
        assert(names(added(fields, name, value)) =~= names(fields));
        assert(fields[i].0 == name);
    } else if names(fields).contains(name) {
        let k = names(fields).index_of(name);
        assert(names(fields)[k] == name);
    }
}

} // verus!
