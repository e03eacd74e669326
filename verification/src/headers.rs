//! Header fields: a mapping from header name to header value that remembers
//! the order in which the names were first inserted.

use crate::text::str_eq;
use vstd::prelude::*;
use vstd::std_specs::cmp::PartialEqSpecImpl;

verus! {

/// A header field as a pair of name and value.
pub type Field = (Seq<char>, Seq<char>);

/// No name occurs twice in `fields`.
pub open spec fn names_distinct(fields: Seq<Field>) -> bool {
    forall|i: int, j: int| 0 <= i < j < fields.len() ==> fields[i].0 != fields[j].0
}

/// `fields` holds `name` at index `i`.
pub open spec fn named_at(fields: Seq<Field>, name: Seq<char>, i: int) -> bool {
    0 <= i < fields.len() && fields[i].0 == name
}

/// The mapping that results from inserting `fields` one after the other: where
/// a name repeats, the last value stands.
pub open spec fn to_map(fields: Seq<Field>) -> Map<Seq<char>, Seq<char>>
    decreases fields.len(),
{
    if fields.len() == 0 {
        Map::empty()
    } else {
        to_map(fields.drop_last()).insert(fields.last().0, fields.last().1)
    }
}

/// `fields` after `name` is set to `value`: the field of that name is replaced
/// where it stands, and a new name is added at the end.
pub open spec fn put(fields: Seq<Field>, name: Seq<char>, value: Seq<char>) -> Seq<Field> {
    if exists|i: int| named_at(fields, name, i) {
        fields.update(choose|i: int| named_at(fields, name, i), (name, value))
    } else {
        fields.push((name, value))
    }
}

/// The mapping holds exactly the names of the fields.
pub proof fn lemma_to_map_names(fields: Seq<Field>, name: Seq<char>)
    ensures
        to_map(fields).contains_key(name) <==> exists|i: int| named_at(fields, name, i),
    decreases fields.len(),
{
    if fields.len() > 0 {
        let init = fields.drop_last();
        lemma_to_map_names(init, name);
        if exists|i: int| named_at(fields, name, i) {
            let i = choose|i: int| named_at(fields, name, i);
            if i < fields.len() - 1 {
                assert(named_at(init, name, i));
            }
        }
        if to_map(fields).contains_key(name) {
            if fields.last().0 == name {
                assert(named_at(fields, name, fields.len() - 1));
            } else {
                let i = choose|i: int| named_at(init, name, i);
                assert(named_at(fields, name, i));
            }
        }
    }
}

/// Where no name repeats, the mapping gives each name the value of its field.
pub proof fn lemma_to_map_value(fields: Seq<Field>, i: int)
    requires
        names_distinct(fields),
        0 <= i < fields.len(),
    ensures
        to_map(fields).contains_key(fields[i].0),
        to_map(fields)[fields[i].0] == fields[i].1,
    decreases fields.len(),
{
    if i < fields.len() - 1 {
        let init = fields.drop_last();
        assert(init[i] == fields[i]);
        lemma_to_map_value(init, i);
    }
}

/// Where no name repeats, the mapping has as many entries as there are fields.
pub proof fn lemma_to_map_len(fields: Seq<Field>)
    requires
        names_distinct(fields),
    ensures
        to_map(fields).dom().finite(),
        to_map(fields).dom().len() == fields.len(),
    decreases fields.len(),
{
    if fields.len() > 0 {
        let init = fields.drop_last();
        lemma_to_map_len(init);
        lemma_to_map_names(init, fields.last().0);
        if exists|i: int| named_at(init, fields.last().0, i) {
            let i = choose|i: int| named_at(init, fields.last().0, i);
            assert(fields[i].0 == fields[fields.len() - 1].0);
        }
    }
}

/// Setting a name keeps the names distinct and inserts into the mapping.
pub proof fn lemma_put(fields: Seq<Field>, name: Seq<char>, value: Seq<char>)
    requires
        names_distinct(fields),
    ensures
        names_distinct(put(fields, name, value)),
        to_map(put(fields, name, value)) == to_map(fields).insert(name, value),
{
    let after = put(fields, name, value);
    if exists|i: int| named_at(fields, name, i) {
        let k = choose|i: int| named_at(fields, name, i);
        assert(after.len() == fields.len());
        assert forall|i: int, j: int| 0 <= i < j < after.len() implies after[i].0
            != after[j].0 by {
            assert(after[i].0 == fields[i].0);
            assert(after[j].0 == fields[j].0);
        }
        assert forall|key: Seq<char>|
            to_map(after).contains_key(key) <==> #[trigger] to_map(fields).insert(
                name,
                value,
            ).contains_key(key) by {
            lemma_to_map_names(after, key);
            lemma_to_map_names(fields, key);
            if exists|i: int| named_at(after, key, i) {
                let i = choose|i: int| named_at(after, key, i);
                assert(named_at(fields, key, i));
            }
            if exists|i: int| named_at(fields, key, i) {
                let i = choose|i: int| named_at(fields, key, i);
                assert(named_at(after, key, i));
            }
        }
        assert forall|key: Seq<char>| #[trigger]
            to_map(after).contains_key(key) implies to_map(after)[key] == to_map(fields).insert(
            name,
            value,
        )[key] by {
            lemma_to_map_names(after, key);
            let i = choose|i: int| named_at(after, key, i);
            lemma_to_map_value(after, i);
            if i != k {
                lemma_to_map_value(fields, i);
            }
        }
        assert(to_map(after) =~= to_map(fields).insert(name, value));
    } else {
        assert(after.drop_last() =~= fields);
        assert forall|i: int, j: int| 0 <= i < j < after.len() implies after[i].0
            != after[j].0 by {
            if j == fields.len() {
                assert(!named_at(fields, name, i));
            }
        }
    }
}

/// A mapping from header name to header value. No name occurs twice; the
/// fields keep the order in which their names were first inserted.
#[derive(Debug)]
pub struct Headers {
    fields: Vec<(String, String)>,
}

/// The fields that a vector of string pairs stands for.
spec fn fields_of(pairs: Seq<(String, String)>) -> Seq<Field> {
    Seq::new(pairs.len(), |i: int| (pairs[i].0@, pairs[i].1@))
}

impl View for Headers {
    type V = Map<Seq<char>, Seq<char>>;

    /// The mapping from name to value.
    open spec fn view(&self) -> Map<Seq<char>, Seq<char>> {
        to_map(self.fields())
    }
}

impl Headers {
    /// The fields in order.
    pub closed spec fn fields(&self) -> Seq<Field> {
        fields_of(self.fields@)
    }

    #[verifier::type_invariant]
    spec fn well_formed(&self) -> bool {
        names_distinct(self.fields())
    }

    /// An empty mapping.
    pub fn new() -> (h: Headers)
        ensures
            h.fields() == Seq::<Field>::empty(),
            h@ == Map::<Seq<char>, Seq<char>>::empty(),
    {
        let h = Headers { fields: Vec::new() };
        assert(h.fields() =~= Seq::<Field>::empty());
        h
    }

    /// The number of fields, which is the number of names: no name occurs twice.
    pub fn len(&self) -> (n: usize)
        ensures
            n == self.fields().len(),
            n == self@.dom().len(),
            names_distinct(self.fields()),
    {
        proof {
            use_type_invariant(self);
            lemma_to_map_len(self.fields());
        }
        self.fields.len()
    }

    /// The index of the field named `name`, if there is one.
    fn position(&self, name: &str) -> (r: Option<usize>)
        ensures
            match r {
                Some(i) => named_at(self.fields(), name@, i as int),
                None => !exists|i: int| named_at(self.fields(), name@, i),
            },
    {
        let mut i: usize = 0;
        while i < self.fields.len()
            invariant
                i <= self.fields.len(),
                forall|j: int| 0 <= j < i ==> !named_at(self.fields(), name@, j),
            decreases self.fields.len() - i,
        {
            if str_eq(self.fields[i].0.as_str(), name) {
                return Some(i);
            }
            i += 1;
        }
        None
    }

    /// The value of the field named `name`, if there is one.
    pub fn get(&self, name: &str) -> (r: Option<&String>)
        ensures
            match r {
                Some(value) => self@.contains_key(name@) && value@ == self@[name@],
                None => !self@.contains_key(name@),
            },
    {
        proof {
            use_type_invariant(self);
            lemma_to_map_names(self.fields(), name@);
        }
        match self.position(name) {
            Some(i) => {
                proof {
                    lemma_to_map_value(self.fields(), i as int);
                }
                Some(&self.fields[i].1)
            },
            None => None,
        }
    }

    /// The name and the value of the field at index `i`, if there is one.
    pub fn field(&self, i: usize) -> (r: Option<(&String, &String)>)
        ensures
            match r {
                Some((name, value)) => i < self.fields().len() && (name@, value@)
                    == self.fields()[i as int],
                None => i >= self.fields().len(),
            },
    {
        if i < self.fields.len() {
            Some((&self.fields[i].0, &self.fields[i].1))
        } else {
            None
        }
    }

    /// Sets the field named `name` to `value`. A name that is already there
    /// keeps its place and takes the new value.
    pub fn insert(&mut self, name: String, value: String)
        ensures
            final(self).fields() == put(old(self).fields(), name@, value@),
            final(self)@ == old(self)@.insert(name@, value@),
    {
        proof {
            use_type_invariant(&*self);
            lemma_put(self.fields(), name@, value@);
        }
        let found = self.position(name.as_str());
        let ghost before = self.fields();
        let mut fields: Vec<(String, String)> = Vec::new();
        std::mem::swap(&mut fields, &mut self.fields);
        match found {
            Some(i) => {
                proof {
                    let k = choose|k: int| named_at(before, name@, k);
                    assert(k == i);
                }
                fields.set(i, (name, value));
            },
            None => {
                fields.push((name, value));
            },
        }
        assert(fields_of(fields@) =~= put(before, name@, value@));
        self.fields = fields;
    }
}

impl PartialEq for Headers {
    /// Two mappings are equal when they hold the same names with the same
    /// values, in whatever order.
    fn eq(&self, other: &Headers) -> (r: bool) {
        proof {
            use_type_invariant(self);
            use_type_invariant(other);
            lemma_to_map_len(self.fields());
            lemma_to_map_len(other.fields());
        }
        if self.fields.len() != other.fields.len() {
            return false;
        }
        let mut i: usize = 0;
        while i < self.fields.len()
            invariant
                i <= self.fields.len(),
                names_distinct(self.fields()),
                forall|j: int|
                    0 <= j < i ==> {
                        &&& other@.contains_key(#[trigger] self.fields()[j].0)
                        &&& other@[self.fields()[j].0] == self.fields()[j].1
                    },
            decreases self.fields.len() - i,
        {
            proof {
                lemma_to_map_value(self.fields(), i as int);
            }
            match other.get(self.fields[i].0.as_str()) {
                Some(value) => {
                    if !str_eq(value.as_str(), self.fields[i].1.as_str()) {
                        return false;
                    }
                },
                None => {
                    return false;
                },
            }
            i += 1;
        }
        proof {
            assert forall|key: Seq<char>| #[trigger]
                self@.dom().contains(key) implies other@.dom().contains(key) && self@[key]
                == other@[key] by {
                lemma_to_map_names(self.fields(), key);
                let j = choose|j: int| named_at(self.fields(), key, j);
                lemma_to_map_value(self.fields(), j);
                assert(other@.contains_key(self.fields()[j].0));
            }
            vstd::set_lib::lemma_subset_equality(self@.dom(), other@.dom());
            assert(self@ =~= other@);
        }
        true
    }
}

impl PartialEqSpecImpl for Headers {
    open spec fn obeys_eq_spec() -> bool {
        true
    }

    open spec fn eq_spec(&self, other: &Headers) -> bool {
        self@ == other@
    }
}

impl Clone for Headers {
    /// A copy of the mapping, with the fields in the same order.
    fn clone(&self) -> (h: Headers)
        ensures
            h.fields() == self.fields(),
            h@ == self@,
    {
        proof {
            use_type_invariant(self);
        }
        let mut fields: Vec<(String, String)> = Vec::new();
        let mut i: usize = 0;
        while i < self.fields.len()
            invariant
                i <= self.fields.len(),
                fields_of(fields@) == fields_of(self.fields@).take(i as int),
            decreases self.fields.len() - i,
        {
            let ghost before = fields_of(fields@);
            let name = self.fields[i].0.clone();
            let value = self.fields[i].1.clone();
            fields.push((name, value));
            assert(fields_of(fields@) =~= before.push(fields_of(self.fields@)[i as int]));
            i += 1;
            assert(fields_of(fields@) =~= fields_of(self.fields@).take(i as int));
        }
        assert(fields_of(fields@) =~= fields_of(self.fields@));
        Headers { fields }
    }
}

} // verus!
