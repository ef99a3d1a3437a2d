//! A table from names to values that remembers the order in which the names
//! first came in.

use crate::text;
use vstd::prelude::*;
use vstd::string::*;

verus! {

/// The value for `key`.
pub open spec fn lookup<V>(entries: Seq<(Seq<char>, V)>, key: Seq<char>) -> Option<V>
    decreases entries.len(),
{
    if entries.len() == 0 {
        None
    } else if entries[0].0 == key {
        Some(entries[0].1)
    } else {
        lookup(entries.drop_first(), key)
    }
}

/// The entries after `value` was put in for `key`: in the place of the earlier
/// value, or at the end.
pub open spec fn put<V>(entries: Seq<(Seq<char>, V)>, key: Seq<char>, value: V) -> Seq<
    (Seq<char>, V),
>
    decreases entries.len(),
{
    if entries.len() == 0 {
        seq![(key, value)]
    } else if entries[0].0 == key {
        seq![(key, value)] + entries.drop_first()
    } else {
        seq![entries[0]] + put(entries.drop_first(), key, value)
    }
}

/// The entries without the one for `key`.
pub open spec fn without<V>(entries: Seq<(Seq<char>, V)>, key: Seq<char>) -> Seq<(Seq<char>, V)>
    decreases entries.len(),
{
    if entries.len() == 0 {
        entries
    } else if entries[0].0 == key {
        entries.drop_first()
    } else {
        seq![entries[0]] + without(entries.drop_first(), key)
    }
}

/// No name occurs twice.
pub open spec fn distinct<V>(entries: Seq<(Seq<char>, V)>) -> bool {
    forall|i: int, j: int|
        0 <= i < j < entries.len() ==> (#[trigger] entries[i]).0 != (#[trigger] entries[j]).0
}

/// A name is in a table exactly when some entry has it, and then its value is
/// the one of that entry.
pub proof fn lemma_lookup<V>(entries: Seq<(Seq<char>, V)>, key: Seq<char>)
    ensures
        lookup(entries, key) is None ==> forall|i: int|
            0 <= i < entries.len() ==> (#[trigger] entries[i]).0 != key,
        lookup(entries, key) matches Some(v) ==> exists|i: int|
            0 <= i < entries.len() && #[trigger] entries[i] == (key, v),
    decreases entries.len(),
{
    if entries.len() > 0 {
        let rest = entries.drop_first();
        lemma_lookup(rest, key);
        if entries[0].0 == key {
            assert(entries[0] == (key, entries[0].1));
        } else if lookup(entries, key) is None {
            assert forall|i: int| 0 <= i < entries.len() implies (#[trigger] entries[i]).0
                != key by {
                if i > 0 {
                    assert(rest[i - 1] == entries[i]);
                }
            }
        } else {
            let v = lookup(entries, key)->0;
            let i = choose|i: int| 0 <= i < rest.len() && #[trigger] rest[i] == (key, v);
            assert(entries[i + 1] == rest[i]);
        }
    }
}

/// In a table every entry is found under its name.
pub proof fn lemma_lookup_entry<V>(entries: Seq<(Seq<char>, V)>, i: int)
    requires
        distinct(entries),
        0 <= i < entries.len(),
    ensures
        lookup(entries, entries[i].0) == Some(entries[i].1),
    decreases entries.len(),
{
    if i > 0 {
        let rest = entries.drop_first();
        assert(entries[0].0 != entries[i].0);
        assert forall|a: int, b: int| 0 <= a < b < rest.len() implies (#[trigger] rest[a]).0 != (
        #[trigger] rest[b]).0 by {
            assert(rest[a] == entries[a + 1] && rest[b] == entries[b + 1]);
        }
        assert(rest[i - 1] == entries[i]);
        lemma_lookup_entry(rest, i - 1);
    }
}

/// Putting in a value makes it the one for its name, and leaves every other
/// name as it was.
pub proof fn law_put<V>(entries: Seq<(Seq<char>, V)>, key: Seq<char>, value: V, other: Seq<char>)
    ensures
        lookup(put(entries, key, value), other) == if other == key {
            Some(value)
        } else {
            lookup(entries, other)
        },
        distinct(entries) ==> distinct(put(entries, key, value)),
    decreases entries.len(),
{
    lemma_put_lookup(entries, key, value, other);
    if distinct(entries) {
        lemma_put_distinct(entries, key, value);
    }
}

proof fn lemma_put_lookup<V>(
    entries: Seq<(Seq<char>, V)>,
    key: Seq<char>,
    value: V,
    other: Seq<char>,
)
    ensures
        lookup(put(entries, key, value), other) == if other == key {
            Some(value)
        } else {
            lookup(entries, other)
        },
    decreases entries.len(),
{
    let after = put(entries, key, value);
    if entries.len() == 0 {
        assert(after.drop_first() == Seq::<(Seq<char>, V)>::empty());
        assert(lookup(after.drop_first(), other) is None);
    } else if entries[0].0 == key {
        assert(after.drop_first() == entries.drop_first());
    } else {
        assert(after.drop_first() == put(entries.drop_first(), key, value));
        lemma_put_lookup(entries.drop_first(), key, value, other);
    }
}

proof fn lemma_distinct_rest<V>(entries: Seq<(Seq<char>, V)>)
    requires
        distinct(entries),
        entries.len() > 0,
    ensures
        distinct(entries.drop_first()),
        lookup(entries.drop_first(), entries[0].0) is None,
{
    let rest = entries.drop_first();
    assert forall|a: int, b: int| 0 <= a < b < rest.len() implies (#[trigger] rest[a]).0 != (
    #[trigger] rest[b]).0 by {
        assert(rest[a] == entries[a + 1] && rest[b] == entries[b + 1]);
    }
    lemma_lookup(rest, entries[0].0);
    if lookup(rest, entries[0].0) is Some {
        let v = lookup(rest, entries[0].0)->0;
        let i = choose|i: int| 0 <= i < rest.len() && #[trigger] rest[i] == (entries[0].0, v);
        assert(rest[i] == entries[i + 1]);
        assert(entries[0].0 != entries[i + 1].0);
    }
}

/// An entry in front keeps a table one, if its name is new.
proof fn lemma_distinct_cons<V>(entry: (Seq<char>, V), rest: Seq<(Seq<char>, V)>)
    requires
        distinct(rest),
        lookup(rest, entry.0) is None,
    ensures
        distinct(seq![entry] + rest),
{
    let entries = seq![entry] + rest;
    lemma_lookup(rest, entry.0);
    assert forall|a: int, b: int| 0 <= a < b < entries.len() implies (#[trigger] entries[a]).0 != (
    #[trigger] entries[b]).0 by {
        assert(entries[b] == rest[b - 1]);
        if a > 0 {
            assert(entries[a] == rest[a - 1]);
        }
    }
}

proof fn lemma_put_distinct<V>(entries: Seq<(Seq<char>, V)>, key: Seq<char>, value: V)
    requires
        distinct(entries),
    ensures
        distinct(put(entries, key, value)),
    decreases entries.len(),
{
    if entries.len() > 0 {
        let rest = entries.drop_first();
        lemma_distinct_rest(entries);
        if entries[0].0 == key {
            lemma_distinct_cons((key, value), rest);
        } else {
            lemma_put_distinct(rest, key, value);
            lemma_put_lookup(rest, key, value, entries[0].0);
            lemma_distinct_cons(entries[0], put(rest, key, value));
        }
    }
}

/// Taking out a name leaves it without a value, and every other name as it was.
pub proof fn law_without<V>(entries: Seq<(Seq<char>, V)>, key: Seq<char>, other: Seq<char>)
    requires
        distinct(entries),
    ensures
        lookup(without(entries, key), other) == if other == key {
            None
        } else {
            lookup(entries, other)
        },
        distinct(without(entries, key)),
    decreases entries.len(),
{
    if entries.len() > 0 {
        let rest = entries.drop_first();
        let after = without(entries, key);
        lemma_distinct_rest(entries);
        if entries[0].0 != key {
            law_without(rest, key, other);
            law_without(rest, key, entries[0].0);
            assert(after.drop_first() == without(rest, key));
            lemma_distinct_cons(entries[0], without(rest, key));
        }
    }
}

/// Taking out a name that was just put in gives the table without it.
pub proof fn law_without_put<V>(entries: Seq<(Seq<char>, V)>, key: Seq<char>, value: V)
    ensures
        without(put(entries, key, value), key) == without(entries, key),
        lookup(entries, key) is None ==> without(entries, key) == entries,
    decreases entries.len(),
{
    let after = put(entries, key, value);
    if entries.len() == 0 {
        assert(after.drop_first() == entries);
    } else if entries[0].0 == key {
        assert(after.drop_first() == entries.drop_first());
    } else {
        assert(after.drop_first() == put(entries.drop_first(), key, value));
        law_without_put(entries.drop_first(), key, value);
        assert(seq![entries[0]] + entries.drop_first() == entries);
    }
}

proof fn lemma_split<V>(entries: Seq<(Seq<char>, V)>, i: int, key: Seq<char>, value: V)
    requires
        0 <= i <= entries.len(),
        forall|j: int| 0 <= j < i ==> (#[trigger] entries[j]).0 != key,
    ensures
        i == entries.len() ==> lookup(entries, key) is None && put(entries, key, value)
            == entries.push((key, value)) && without(entries, key) == entries,
        i < entries.len() && entries[i].0 == key ==> lookup(entries, key) == Some(entries[i].1)
            && put(entries, key, value) == entries.update(i, (key, value)) && without(entries, key)
            == entries.remove(i),
    decreases i,
{
    if i == 0 {
        if entries.len() > 0 && entries[0].0 == key {
            assert(seq![(key, value)] + entries.drop_first() == entries.update(0, (key, value)));
            assert(entries.drop_first() == entries.remove(0));
        } else if entries.len() == 0 {
            assert(entries.push((key, value)) == seq![(key, value)]);
        }
    } else {
        let rest = entries.drop_first();
        assert(entries[0].0 != key);
        assert forall|j: int| 0 <= j < i - 1 implies (#[trigger] rest[j]).0 != key by {
            assert(rest[j] == entries[j + 1]);
        }
        lemma_split(rest, i - 1, key, value);
        if i == entries.len() {
            assert(seq![entries[0]] + rest.push((key, value)) == entries.push((key, value)));
            assert(seq![entries[0]] + rest == entries);
        } else if entries[i].0 == key {
            assert(rest[i - 1] == entries[i]);
            assert(seq![entries[0]] + rest.update(i - 1, (key, value)) == entries.update(
                i,
                (key, value),
            ));
            assert(seq![entries[0]] + rest.remove(i - 1) == entries.remove(i));
        }
    }
}

/// A table from names to values.
#[derive(Debug)]
pub struct Table<V> {
    entries: Vec<(String, V)>,
}

impl<V: DeepView> View for Table<V> {
    type V = Seq<(Seq<char>, V::V)>;

    closed spec fn view(&self) -> Seq<(Seq<char>, V::V)> {
        self.entries.deep_view()
    }
}

impl<V: DeepView> Table<V> {
    /// No name occurs twice.
    pub open spec fn wf(self) -> bool {
        distinct(self@)
    }

    /// A table without entries.
    pub fn new() -> (r: Self)
        ensures
            r.wf(),
            r@ == Seq::<(Seq<char>, V::V)>::empty(),
    {
        let r = Table { entries: Vec::new() };
        assert(r@ =~= Seq::<(Seq<char>, V::V)>::empty());
        r
    }

    pub fn len(&self) -> (n: usize)
        ensures
            n == self@.len(),
    {
        self.entries.len()
    }

    pub fn is_empty(&self) -> (r: bool)
        ensures
            r == (self@.len() == 0),
    {
        self.entries.len() == 0
    }

    /// The name of the entry at position `i`.
    pub fn key_at(&self, i: usize) -> (key: &String)
        requires
            i < self@.len(),
        ensures
            key@ == self@[i as int].0,
    {
        &self.entries[i].0
    }

    /// The value of the entry at position `i`.
    pub fn value_at(&self, i: usize) -> (value: &V)
        requires
            i < self@.len(),
        ensures
            value.deep_view() == self@[i as int].1,
    {
        &self.entries[i].1
    }

    /// The position of the first entry for `key`, or the number of entries.
    fn find(&self, key: &str) -> (i: usize)
        ensures
            i <= self@.len(),
            forall|j: int| 0 <= j < i ==> (#[trigger] self@[j]).0 != key@,
            i < self@.len() ==> self@[i as int].0 == key@,
    {
        let mut i: usize = 0;
        while i < self.entries.len()
            invariant
                i <= self@.len(),
                forall|j: int| 0 <= j < i ==> (#[trigger] self@[j]).0 != key@,
            decreases self@.len() - i,
        {
            if text::same_text(self.entries[i].0.as_str(), key) {
                return i;
            }
            i = i + 1;
        }
        i
    }

    /// The value for `key`.
    pub fn get(&self, key: &str) -> (r: Option<&V>)
        ensures
            match r {
                Some(v) => lookup(self@, key@) == Some(v.deep_view()),
                None => lookup(self@, key@) is None,
            },
    {
        let i: usize = self.find(key);
        proof {
            lemma_split(self@, i as int, key@, arbitrary());
        }
        if i < self.entries.len() {
            Some(&self.entries[i].1)
        } else {
            None
        }
    }

    /// The value for `key`, to be changed in place.
    pub fn get_mut(&mut self, key: &str) -> (r: Option<&mut V>)
        ensures
            match r {
                Some(v) => lookup(old(self)@, key@) == Some((*v).deep_view()) && final(self)@
                    == put(old(self)@, key@, (*final(v)).deep_view()),
                None => lookup(old(self)@, key@) is None && final(self)@ == old(self)@,
            },
            old(self).wf() ==> final(self).wf(),
    {
        let i: usize = self.find(key);
        if i < self.entries.len() {
            let ghost before = self@;
            let v = &mut self.entries[i].1;
            proof {
                lemma_split(before, i as int, key@, (*final(v)).deep_view());
                if distinct(before) {
                    lemma_put_distinct(before, key@, (*final(v)).deep_view());
                }
            }
            Some(v)
        } else {
            proof {
                lemma_split(self@, i as int, key@, arbitrary());
            }
            None
        }
    }

    /// Puts in a value for `key`.
    pub fn insert(&mut self, key: String, value: V)
        requires
            old(self).wf(),
        ensures
            final(self).wf(),
            final(self)@ == put(old(self)@, key@, value.deep_view()),
    {
        let i: usize = self.find(key.as_str());
        let ghost before = self@;
        proof {
            lemma_split(before, i as int, key@, value.deep_view());
            lemma_put_distinct(before, key@, value.deep_view());
        }
        if i < self.entries.len() {
            self.entries.set(i, (key, value));
            assert(self@ =~= before.update(i as int, (key@, value.deep_view())));
        } else {
            self.entries.push((key, value));
            assert(self@ =~= before.push((key@, value.deep_view())));
        }
    }

    /// Adds a value for a name that is not in the table.
    pub fn push_new(&mut self, key: String, value: V)
        requires
            old(self).wf(),
            forall|i: int| 0 <= i < old(self)@.len() ==> (#[trigger] old(self)@[i]).0 != key@,
        ensures
            final(self).wf(),
            final(self)@ == old(self)@.push((key@, value.deep_view())),
    {
        let ghost before = self@;
        self.entries.push((key, value));
        assert(self@ =~= before.push((key@, value.deep_view())));
    }

    /// Takes out the value for `key`.
    pub fn remove(&mut self, key: &str) -> (r: Option<V>)
        requires
            old(self).wf(),
        ensures
            final(self).wf(),
            final(self)@ == without(old(self)@, key@),
            match r {
                Some(v) => lookup(old(self)@, key@) == Some(v.deep_view()),
                None => lookup(old(self)@, key@) is None,
            },
    {
        let i: usize = self.find(key);
        let ghost before = self@;
        proof {
            lemma_split(before, i as int, key@, arbitrary());
            law_without(before, key@, key@);
        }
        if i < self.entries.len() {
            let (_, value) = self.entries.remove(i);
            assert(self@ =~= before.remove(i as int));
            Some(value)
        } else {
            None
        }
    }
}

} // verus!
