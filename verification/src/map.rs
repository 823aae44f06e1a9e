//! Maps from names to values that keep the order in which the names came.

use crate::text::same_text;
use vstd::prelude::*;

verus! {

/// Values under names, in the order in which the names were first put in.
/// No name occurs twice.
pub struct TextMap<V> {
    entries: Vec<(String, V)>,
}

impl<V> TextMap<V> {
    /// The names, in the order in which they were first inserted.
    pub closed spec fn names(self) -> Seq<Seq<char>> {
        Seq::new(self.entries@.len(), |i: int| self.entries@[i].0@)
    }

    /// The values, each at the index of its name.
    pub closed spec fn values(self) -> Seq<V> {
        Seq::new(self.entries@.len(), |i: int| self.entries@[i].1)
    }

    /// Whether `name` has a value.
    pub open spec fn has(self, name: Seq<char>) -> bool {
        self.names().contains(name)
    }

    /// The first index at which `name` stands.
    pub open spec fn index_of(self, name: Seq<char>) -> int {
        choose|i: int|
            0 <= i < self.names().len() && self.names()[i] == name && forall|k: int|
                0 <= k < i ==> self.names()[k] != name
    }

    /// The value of `name`, if it has one.
    pub open spec fn value_of(self, name: Seq<char>) -> Option<V> {
        if self.has(name) {
            Some(self.values()[self.index_of(name)])
        } else {
            None
        }
    }

    /// No name occurs twice, and each has a value.
    pub open spec fn wf(self) -> bool {
        self.names().no_duplicates() && self.names().len() == self.values().len()
    }

    #[verifier::type_invariant]
    closed spec fn distinct(self) -> bool {
        self.wf()
    }

    /// There are no more names than a vector can hold.
    pub proof fn lemma_names_fit(self)
        ensures
            self.names().len() <= usize::MAX,
            self.names().len() == self.values().len(),
    {
        assert(self.entries.len() == self.entries@.len());
    }

    /// A name that stands in a map without doubles has the value at its own
    /// index.
    pub proof fn lemma_value_at_index(self, i: int)
        requires
            self.wf(),
            0 <= i < self.names().len(),
        ensures
            self.has(self.names()[i]),
            self.index_of(self.names()[i]) == i,
            self.value_of(self.names()[i]) == Some(self.values()[i]),
    {
        let name = self.names()[i];
        let first = self.index_of(name);
        assert(self.names()[first] == name);
    }

    /// A map without names.
    pub fn new() -> (out: Self)
        ensures
            out.wf(),
            out.names().len() == 0,
    {
        TextMap { entries: Vec::new() }
    }

    /// The number of names.
    pub fn len(&self) -> (n: usize)
        ensures
            n == self.names().len(),
    {
        self.entries.len()
    }

    /// The name at index `i`.
    pub fn name_at(&self, i: usize) -> (out: &str)
        requires
            i < self.names().len(),
        ensures
            out@ == self.names()[i as int],
    {
        self.entries[i].0.as_str()
    }

    /// The value at index `i`.
    pub fn value_at(&self, i: usize) -> (out: &V)
        requires
            i < self.names().len(),
        ensures
            *out == self.values()[i as int],
            self.names().len() == self.values().len(),
    {
        &self.entries[i].1
    }

    /// The index of `name` among the names.
    pub fn position(&self, name: &str) -> (at: Option<usize>)
        ensures
            at is None <==> !self.has(name@),
            at matches Some(i) ==> i < self.names().len() && i == self.index_of(name@),
    {
        let mut i: usize = 0;
        while i < self.entries.len()
            invariant
                i <= self.entries.len(),
                forall|k: int| 0 <= k < i ==> self.names()[k] != name@,
            decreases self.entries.len() - i,
        {
            assert(self.names()[i as int] == self.entries@[i as int].0@);
            if same_text(self.entries[i].0.as_str(), name) {
                assert(self.names()[self.index_of(name@)] == name@);
                return Some(i);
            }
            i += 1;
        }
        None
    }

    /// The value of `name`.
    pub fn get(&self, name: &str) -> (out: Option<&V>)
        ensures
            match out {
                Some(value) => self.value_of(name@) == Some(*value),
                None => self.value_of(name@) is None,
            },
    {
        match self.position(name) {
            Some(i) => {
                assert(self.values()[i as int] == self.entries@[i as int].1);
                Some(&self.entries[i].1)
            },
            None => None,
        }
    }

    /// Puts `value` under `name`: in place of the value that the name had, or
    /// behind the others if it had none.
    pub fn insert(&mut self, name: String, value: V)
        ensures
            final(self).wf(),
            final(self).has(name@),
            old(self).has(name@) ==> final(self).names() == old(self).names()
                && final(self).values() == old(self).values().update(
                old(self).index_of(name@),
                value,
            ),
            !old(self).has(name@) ==> final(self).names() == old(self).names().push(name@)
                && final(self).values() == old(self).values().push(value),
    {
        let ghost before = *self;
        proof {
            use_type_invariant(&*self);
        }
        let at = self.position(name.as_str());
        let mut entries: Vec<(String, V)> = Vec::new();
        std::mem::swap(&mut self.entries, &mut entries);
        match at {
            Some(i) => {
                entries.set(i, (name, value));
            },
            None => {
                entries.push((name, value));
            },
        }
        proof {
            let after = TextMap { entries };
            match at {
                Some(i) => {
                    assert(after.names() =~= before.names());
                    assert(after.values() =~= before.values().update(i as int, value));
                    assert(before.names()[before.index_of(name@)] == name@);
                    assert(after.names()[i as int] == name@);
                },
                None => {
                    assert(after.names() =~= before.names().push(name@));
                    assert(after.values() =~= before.values().push(value));
                    assert(after.names()[before.names().len() as int] == name@);
                },
            }
        }
        std::mem::swap(&mut self.entries, &mut entries);
    }
}

} // verus!
