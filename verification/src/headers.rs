//! The header collection of a request or a response: a mapping from names
//! to values in which a name occurs once and a later value for the same name
//! replaces the earlier one. Entries keep the order in which their names
//! first arrived, so a message is always written out the same way.

use crate::text::{lemma_prefix_len, lemma_prefix_len_is, prefix_len};
use vstd::prelude::*;
use vstd::string::StringExecFns;

verus! {

/// One header as plain text: its name and its value.
pub type Field = (Seq<char>, Seq<char>);

/// The test "is not named `name`".
pub open spec fn named_otherwise(name: Seq<char>) -> spec_fn(Field) -> bool {
    |f: Field| f.0 != name
}

/// Position of the first field of `fields` named `name`, or `fields.len()`
/// when there is none.
pub open spec fn position(fields: Seq<Field>, name: Seq<char>) -> nat {
    prefix_len(fields, named_otherwise(name))
}

/// No name occurs twice in `fields`.
pub open spec fn distinct_names(fields: Seq<Field>) -> bool {
    forall|i: int, j: int| 0 <= i < j < fields.len() ==> fields[i].0 != fields[j].0
}

/// `fields` after `name` is given `value`: the field of that name is
/// replaced where it stands, or a new field is added at the end.
pub open spec fn put(fields: Seq<Field>, name: Seq<char>, value: Seq<char>) -> Seq<Field> {
    let i = position(fields, name) as int;
    if i < fields.len() {
        fields.update(i, (name, value))
    } else {
        fields.push((name, value))
    }
}

/// The mapping that `fields` stands for: a name is present when a field
/// carries it, and maps to the value of the first such field.
pub open spec fn as_map(fields: Seq<Field>) -> Map<Seq<char>, Seq<char>> {
    Map::new(
        |name: Seq<char>| position(fields, name) < fields.len(),
        |name: Seq<char>| fields[position(fields, name) as int].1,
    )
}

/// The header block of a message: each field as `name:value` and a line
/// break, in order.
pub open spec fn header_lines(fields: Seq<Field>) -> Seq<char>
    decreases fields.len(),
{
    if fields.len() == 0 {
        Seq::empty()
    } else {
        header_lines(fields.drop_last()) + fields.last().0 + ":"@ + fields.last().1 + "\r\n"@
    }
}

/// Where a name stands in a sequence without repeated names.
pub proof fn lemma_position(fields: Seq<Field>, i: int)
    requires
        distinct_names(fields),
        0 <= i < fields.len(),
    ensures
        position(fields, fields[i].0) == i,
{
    lemma_prefix_len_is(fields, named_otherwise(fields[i].0), i);
}

/// `put` keeps names distinct and acts on the mapping as `Map::insert`.
pub proof fn lemma_put(fields: Seq<Field>, name: Seq<char>, value: Seq<char>)
    requires
        distinct_names(fields),
    ensures
        distinct_names(put(fields, name, value)),
        as_map(put(fields, name, value)) == as_map(fields).insert(name, value),
        position(put(fields, name, value), name) == position(fields, name),
{
    let after = put(fields, name, value);
    let at = position(fields, name) as int;
    lemma_prefix_len(fields, named_otherwise(name));
    assert(after[at] == (name, value));
    assert forall|i: int, j: int| 0 <= i < j < after.len() implies after[i].0 != after[j].0 by {
        if i != at && j != at {
            assert(after[i] == fields[i] && after[j] == fields[j]);
        } else if i == at {
            assert(after[j] == fields[j]);
            if at < fields.len() {
                assert(fields[at].0 == name);
            }
        } else {
            assert(after[i] == fields[i]);
            assert(named_otherwise(name)(fields[i]));
        }
    }
    assert forall|j: int| 0 <= j < at implies named_otherwise(name)(#[trigger] after[j]) by {
        assert(after[j] == fields[j]);
    }
    lemma_prefix_len_is(after, named_otherwise(name), at);
    assert forall|other: Seq<char>| other != name implies (position(after, other) < after.len()
        <==> position(fields, other) < fields.len()) && (position(fields, other) < fields.len()
        ==> after[position(after, other) as int] == fields[position(fields, other) as int]) by {
        let p = position(fields, other) as int;
        lemma_prefix_len(fields, named_otherwise(other));
        assert forall|j: int| 0 <= j < p && j < after.len() implies named_otherwise(other)(
            #[trigger] after[j],
        ) by {
            if j != at {
                assert(after[j] == fields[j]);
            }
        }
        if p < fields.len() {
            assert(fields[p].0 == other);
            assert(p != at);
            assert(after[p] == fields[p]);
            lemma_prefix_len_is(after, named_otherwise(other), p);
        } else {
            assert(after.len() == fields.len() || after[fields.len() as int] == (name, value));
            lemma_prefix_len_is(after, named_otherwise(other), after.len() as int);
        }
    }
    assert(as_map(after) =~= as_map(fields).insert(name, value));
}

/// An insertion-ordered set of headers with unique names.
#[derive(Debug)]
pub struct Headers {
    items: Vec<(String, String)>,
}

impl View for Headers {
    type V = Map<Seq<char>, Seq<char>>;

    /// The headers as a mapping from names to values.
    open spec fn view(&self) -> Map<Seq<char>, Seq<char>> {
        as_map(self.fields())
    }
}

impl Headers {
    /// The headers as text, in the order in which they are written out.
    pub closed spec fn fields(&self) -> Seq<Field> {
        Seq::new(self.items@.len(), |i: int| (self.items@[i].0@, self.items@[i].1@))
    }

    #[verifier::type_invariant]
    spec fn names_are_distinct(&self) -> bool {
        distinct_names(self.fields())
    }

    /// An empty set of headers.
    pub fn new() -> (r: Headers)
        ensures
            r.fields() == Seq::<Field>::empty(),
            r@ == Map::<Seq<char>, Seq<char>>::empty(),
    {
        let r = Headers { items: Vec::new() };
        assert(r.fields() =~= Seq::<Field>::empty());
        assert(r@ =~= Map::<Seq<char>, Seq<char>>::empty());
        r
    }

    /// Number of headers.
    pub fn len(&self) -> (r: usize)
        ensures
            r == self.fields().len(),
            distinct_names(self.fields()),
    {
        proof {
            use_type_invariant(self);
        }
        self.items.len()
    }

    /// The `i`-th header in writing order: its name and its value.
    pub fn field(&self, i: usize) -> (r: (&String, &String))
        requires
            i < self.fields().len(),
        ensures
            (r.0@, r.1@) == self.fields()[i as int],
    {
        let item = &self.items[i];
        (&item.0, &item.1)
    }

    /// The header block as text: one `name:value` line per header.
    pub fn to_text(&self) -> (r: String)
        ensures
            r@ == header_lines(self.fields()),
    {
        let mut block = String::new();
        let n: usize = self.items.len();
        let mut i: usize = 0;
        while i < n
            invariant
                i <= n,
                n == self.fields().len(),
                block@ == header_lines(self.fields().take(i as int)),
            decreases n - i,
        {
            let (name, value) = self.field(i);
            block.append(name.as_str());
            block.append(":");
            block.append(value.as_str());
            block.append("\r\n");
            proof {
                let upto = self.fields().take(i as int + 1);
                assert(upto.drop_last() =~= self.fields().take(i as int));
                assert(upto.last() == self.fields()[i as int]);
            }
            i = i + 1;
        }
        assert(self.fields().take(n as int) =~= self.fields());
        block
    }

    /// Position of the header named `name`, or `len()` when there is none.
    fn find(&self, name: &String) -> (r: usize)
        ensures
            r == position(self.fields(), name@),
            r <= self.fields().len(),
    {
        let mut i: usize = 0;
        while i < self.items.len() && self.items[i].0 != *name
            invariant
                i <= self.items@.len(),
                forall|j: int| 0 <= j < i ==> named_otherwise(name@)(#[trigger] self.fields()[j]),
            decreases self.items@.len() - i,
        {
            i = i + 1;
        }
        proof {
            lemma_prefix_len_is(self.fields(), named_otherwise(name@), i as int);
        }
        i
    }

    /// Gives `name` the value `value`, replacing the value it had, if any.
    pub fn insert(&mut self, name: String, value: String)
        ensures
            final(self).fields() == put(old(self).fields(), name@, value@),
            final(self)@ == old(self)@.insert(name@, value@),
            distinct_names(final(self).fields()),
    {
        proof {
            use_type_invariant(&*self);
            lemma_put(self.fields(), name@, value@);
        }
        let at = self.find(&name);
        let mut items: Vec<(String, String)> = Vec::new();
        std::mem::swap(&mut self.items, &mut items);
        if at < items.len() {
            items.set(at, (name, value));
        } else {
            items.push((name, value));
        }
        let ghost after = Seq::new(items@.len(), |i: int| (items@[i].0@, items@[i].1@));
        assert(after =~= put(old(self).fields(), name@, value@));
        std::mem::swap(&mut self.items, &mut items);
        assert(self.fields() =~= after);
    }

    /// The value of the header named `name`, if there is one.
    pub fn get(&self, name: &str) -> (r: Option<&String>)
        ensures
            match r {
                Some(value) => self@.contains_key(name@) && value@ == self@[name@],
                None => !self@.contains_key(name@),
            },
    {
        let key = String::from_str(name);
        let at = self.find(&key);
        if at < self.items.len() {
            Some(&self.items[at].1)
        } else {
            None
        }
    }

    /// Whether every header of `self` is a header of `other` with the same
    /// value.
    fn within(&self, other: &Headers) -> (r: bool)
        ensures
            r == self@.submap_of(other@),
    {
        proof {
            use_type_invariant(self);
        }
        let mut i: usize = 0;
        while i < self.items.len()
            invariant
                i <= self.items@.len(),
                distinct_names(self.fields()),
                forall|j: int|
                    0 <= j < i ==> other@.contains_key(#[trigger] self.fields()[j].0) && other@[self.fields()[j].0]
                        == self.fields()[j].1,
            decreases self.items@.len() - i,
        {
            let at = other.find(&self.items[i].0);
            proof {
                lemma_position(self.fields(), i as int);
            }
            let ghost name = self.fields()[i as int].0;
            assert(self@.dom().contains(name) && self@[name] == self.fields()[i as int].1);
            if at >= other.items.len() {
                assert(!other@.dom().contains(name));
                return false;
            }
            assert(other@[name] == other.fields()[at as int].1);
            if other.items[at].1 != self.items[i].1 {
                assert(other@.dom().contains(name) && other@[name] != self@[name]);
                return false;
            }
            i = i + 1;
        }
        assert forall|name: Seq<char>| self@.dom().contains(name) implies #[trigger] other@.dom().contains(
            name,
        ) && self@[name] == other@[name] by {
            let p = position(self.fields(), name) as int;
            lemma_prefix_len(self.fields(), named_otherwise(name));
            assert(self.fields()[p].0 == name);
        }
        true
    }
}

impl Clone for Headers {
    fn clone(&self) -> (r: Headers)
        ensures
            r.fields() == self.fields(),
    {
        proof {
            use_type_invariant(self);
        }
        let mut items: Vec<(String, String)> = Vec::new();
        let mut i: usize = 0;
        while i < self.items.len()
            invariant
                i <= self.items@.len(),
                items@.len() == i,
                forall|j: int|
                    0 <= j < i ==> (#[trigger] items@[j]).0@ == self.items@[j].0@ && items@[j].1@
                        == self.items@[j].1@,
            decreases self.items@.len() - i,
        {
            items.push((self.items[i].0.clone(), self.items[i].1.clone()));
            i = i + 1;
        }
        assert(Seq::new(items@.len(), |i: int| (items@[i].0@, items@[i].1@)) =~= self.fields());
        Headers { items }
    }
}

impl PartialEq for Headers {
    /// Two sets of headers are equal when they map the same names to the
    /// same values, whatever the order.
    fn eq(&self, other: &Headers) -> (r: bool) {
        let r = self.within(other) && other.within(self);
        proof {
            if r {
                assert(self@ =~= other@);
            }
        }
        r
    }
}

impl vstd::std_specs::cmp::PartialEqSpecImpl for Headers {
    open spec fn obeys_eq_spec() -> bool {
        true
    }

    open spec fn eq_spec(&self, other: &Headers) -> bool {
        self@ == other@
    }
}

} // verus!
