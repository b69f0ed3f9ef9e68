//! A small map from names to values that keeps its entries in the order in
//! which their names were first inserted.

use vstd::prelude::*;

verus! {

/// A map from names to values. No name occurs twice; the entries stand in
/// the order in which their names came.
#[derive(Debug)]
pub struct Registry<V> {
    entries: Vec<(String, V)>,
}

/// The entries as names and values.
pub open spec fn entry_views<V>(entries: Seq<(String, V)>) -> Seq<(Seq<char>, V)> {
    Seq::new(entries.len(), |i: int| (entries[i].0@, entries[i].1))
}

/// The index of the first entry at or after `from` whose name is `key`.
pub open spec fn position_from<V>(entries: Seq<(Seq<char>, V)>, key: Seq<char>, from: int) -> Option<
    int,
>
    decreases entries.len() - from,
{
    if from < 0 || from >= entries.len() {
        None
    } else if entries[from].0 == key {
        Some(from)
    } else {
        position_from(entries, key, from + 1)
    }
}

/// The index of the entry whose name is `key`.
pub open spec fn position_of<V>(entries: Seq<(Seq<char>, V)>, key: Seq<char>) -> Option<int> {
    position_from(entries, key, 0)
}

/// The value under `key`.
pub open spec fn value_of<V>(entries: Seq<(Seq<char>, V)>, key: Seq<char>) -> Option<V> {
    match position_of(entries, key) {
        Some(i) => Some(entries[i].1),
        None => None,
    }
}

/// The entries after `value` was put under `key`: in the place of the old
/// value where the name was there, behind all others where it was not.
pub open spec fn inserted<V>(entries: Seq<(Seq<char>, V)>, key: Seq<char>, value: V) -> Seq<
    (Seq<char>, V),
> {
    match position_of(entries, key) {
        Some(i) => entries.update(i, (key, value)),
        None => entries.push((key, value)),
    }
}

/// The entries without the one whose name is `key`.
pub open spec fn removed<V>(entries: Seq<(Seq<char>, V)>, key: Seq<char>) -> Seq<(Seq<char>, V)> {
    match position_of(entries, key) {
        Some(i) => entries.remove(i),
        None => entries,
    }
}

/// Whether no name occurs twice.
pub open spec fn distinct_names<V>(entries: Seq<(Seq<char>, V)>) -> bool {
    forall|i: int, j: int|
        0 <= i < j < entries.len() ==> (#[trigger] entries[i]).0 != (#[trigger] entries[j]).0
}

/// What `position_from` finds is the first entry at or after `from` with the
/// name `key`; it finds nothing only where no entry from there on has it.
pub proof fn lemma_position_from<V>(entries: Seq<(Seq<char>, V)>, key: Seq<char>, from: int)
    requires
        0 <= from,
    ensures
        match position_from(entries, key, from) {
            Some(i) => from <= i < entries.len() && entries[i].0 == key && forall|j: int|
                from <= j < i ==> (#[trigger] entries[j]).0 != key,
            None => forall|j: int| from <= j < entries.len() ==> (#[trigger] entries[j]).0 != key,
        },
    decreases entries.len() - from,
{
    if from < entries.len() && entries[from].0 != key {
        lemma_position_from(entries, key, from + 1);
    }
}

/// Putting a value under a name makes it the value under that name, leaves
/// the values under all other names, and keeps the names distinct.
pub proof fn lemma_inserted<V>(
    entries: Seq<(Seq<char>, V)>,
    key: Seq<char>,
    value: V,
    other: Seq<char>,
)
    requires
        distinct_names(entries),
    ensures
        distinct_names(inserted(entries, key, value)),
        value_of(inserted(entries, key, value), key) == Some(value),
        other != key ==> value_of(inserted(entries, key, value), other) == value_of(entries, other),
{
    let after = inserted(entries, key, value);
    lemma_position_from(entries, key, 0);
    lemma_position_from(after, key, 0);
    lemma_position_from(entries, other, 0);
    lemma_position_from(after, other, 0);
    match position_of(entries, key) {
        Some(i) => {
            assert(after[i].0 == key);
            assert forall|a: int, b: int| 0 <= a < b < after.len() implies (#[trigger] after[a]).0
                != (#[trigger] after[b]).0 by {
                assert(after[a].0 == entries[a].0);
                assert(after[b].0 == entries[b].0);
            }
            if other != key {
                match position_of(entries, other) {
                    Some(p) => {
                        assert(after[p] == entries[p]);
                        match position_of(after, other) {
                            Some(q) => {
                                assert(after[q].0 == entries[q].0);
                            },
                            None => {},
                        }
                    },
                    None => {
                        match position_of(after, other) {
                            Some(q) => {
                                assert(after[q].0 == entries[q].0);
                            },
                            None => {},
                        }
                    },
                }
            }
        },
        None => {
            assert(after[entries.len() as int].0 == key);
            assert forall|a: int, b: int| 0 <= a < b < after.len() implies (#[trigger] after[a]).0
                != (#[trigger] after[b]).0 by {
                if b < entries.len() {
                    assert(after[a] == entries[a]);
                    assert(after[b] == entries[b]);
                } else {
                    assert(after[a] == entries[a]);
                }
            }
            match position_of(after, key) {
                Some(q) => {
                    if q < entries.len() {
                        assert(after[q] == entries[q]);
                    }
                },
                None => {},
            }
            if other != key {
                match position_of(entries, other) {
                    Some(p) => {
                        assert(after[p] == entries[p]);
                        match position_of(after, other) {
                            Some(q) => {
                                if q < entries.len() {
                                    assert(after[q] == entries[q]);
                                }
                            },
                            None => {},
                        }
                    },
                    None => {
                        match position_of(after, other) {
                            Some(q) => {
                                if q < entries.len() {
                                    assert(after[q] == entries[q]);
                                }
                            },
                            None => {},
                        }
                    },
                }
            }
        },
    }
}

/// Removing a name leaves nothing under it, leaves the values under all
/// other names, and keeps the names distinct.
pub proof fn lemma_removed<V>(entries: Seq<(Seq<char>, V)>, key: Seq<char>, other: Seq<char>)
    requires
        distinct_names(entries),
    ensures
        distinct_names(removed(entries, key)),
        value_of(removed(entries, key), key) is None,
        other != key ==> value_of(removed(entries, key), other) == value_of(entries, other),
{
    let after = removed(entries, key);
    lemma_position_from(entries, key, 0);
    lemma_position_from(after, key, 0);
    lemma_position_from(entries, other, 0);
    lemma_position_from(after, other, 0);
    match position_of(entries, key) {
        Some(i) => {
            assert forall|a: int| 0 <= a < after.len() implies #[trigger] after[a] == entries[if a
                < i {
                a
            } else {
                a + 1
            }] by {}
            assert forall|a: int, b: int| 0 <= a < b < after.len() implies (#[trigger] after[a]).0
                != (#[trigger] after[b]).0 by {
                let a0 = if a < i { a } else { a + 1 };
                let b0 = if b < i { b } else { b + 1 };
                assert(after[a] == entries[a0]);
                assert(after[b] == entries[b0]);
            }
            match position_of(after, key) {
                Some(q) => {
                    let q0 = if q < i { q } else { q + 1 };
                    assert(after[q] == entries[q0]);
                },
                None => {},
            }
            if other != key {
                match position_of(entries, other) {
                    Some(p) => {
                        let p1 = if p < i { p } else { p - 1 };
                        assert(after[p1] == entries[p]);
                        match position_of(after, other) {
                            Some(q) => {
                                let q0 = if q < i { q } else { q + 1 };
                                assert(after[q] == entries[q0]);
                            },
                            None => {},
                        }
                    },
                    None => {
                        match position_of(after, other) {
                            Some(q) => {
                                let q0 = if q < i { q } else { q + 1 };
                                assert(after[q] == entries[q0]);
                            },
                            None => {},
                        }
                    },
                }
            }
        },
        None => {},
    }
}

/// The entries with each value replaced by what `f` makes of it.
pub open spec fn with_values<V, W>(entries: Seq<(Seq<char>, V)>, f: spec_fn(V) -> W) -> Seq<
    (Seq<char>, W),
> {
    Seq::new(entries.len(), |i: int| (entries[i].0, f(entries[i].1)))
}

/// Where a name stands does not depend on the values.
pub proof fn lemma_position_with_values<V, W>(
    entries: Seq<(Seq<char>, V)>,
    f: spec_fn(V) -> W,
    key: Seq<char>,
    from: int,
)
    requires
        0 <= from,
    ensures
        position_from(with_values(entries, f), key, from) == position_from(entries, key, from),
    decreases entries.len() - from,
{
    if from < entries.len() && entries[from].0 != key {
        lemma_position_with_values(entries, f, key, from + 1);
    }
}

/// Replacing the values commutes with removing a name and with looking a
/// name up, and keeps the names as they are.
pub proof fn lemma_with_values<V, W>(
    entries: Seq<(Seq<char>, V)>,
    f: spec_fn(V) -> W,
    key: Seq<char>,
)
    ensures
        with_values(removed(entries, key), f) == removed(with_values(entries, f), key),
        value_of(with_values(entries, f), key) == match value_of(entries, key) {
            Some(v) => Some(f(v)),
            None => None,
        },
        distinct_names(with_values(entries, f)) == distinct_names(entries),
{
    lemma_position_with_values(entries, f, key, 0);
    lemma_position_from(entries, key, 0);
    assert(with_values(removed(entries, key), f) =~= removed(with_values(entries, f), key));
    let mapped = with_values(entries, f);
    if distinct_names(entries) {
        assert forall|i: int, j: int| 0 <= i < j < mapped.len() implies (#[trigger] mapped[i]).0
            != (#[trigger] mapped[j]).0 by {
            assert(entries[i].0 != entries[j].0);
        }
    }
    if distinct_names(mapped) {
        assert forall|i: int, j: int| 0 <= i < j < entries.len() implies (#[trigger] entries[i]).0
            != (#[trigger] entries[j]).0 by {
            assert(mapped[i].0 != mapped[j].0);
        }
    }
}

/// Replacing the values commutes with putting a value under a name.
pub proof fn lemma_with_values_inserted<V, W>(
    entries: Seq<(Seq<char>, V)>,
    f: spec_fn(V) -> W,
    key: Seq<char>,
    value: V,
)
    ensures
        with_values(inserted(entries, key, value), f) == inserted(
            with_values(entries, f),
            key,
            f(value),
        ),
{
    lemma_position_with_values(entries, f, key, 0);
    lemma_position_from(entries, key, 0);
    assert(with_values(inserted(entries, key, value), f) =~= inserted(
        with_values(entries, f),
        key,
        f(value),
    ));
}

impl<V> View for Registry<V> {
    type V = Seq<(Seq<char>, V)>;

    /// The entries, in order.
    closed spec fn view(&self) -> Seq<(Seq<char>, V)> {
        entry_views(self.entries@)
    }
}

impl<V> Registry<V> {
    /// Whether no name occurs twice.
    pub open spec fn wf(&self) -> bool {
        distinct_names(self@)
    }

    /// A registry without entries.
    pub fn new() -> (registry: Self)
        ensures
            registry.wf(),
            registry@ == Seq::<(Seq<char>, V)>::empty(),
    {
        let registry = Registry { entries: Vec::new() };
        assert(registry@ =~= Seq::<(Seq<char>, V)>::empty());
        registry
    }

    /// The number of entries.
    pub fn len(&self) -> (n: usize)
        ensures
            n == self@.len(),
    {
        self.entries.len()
    }

    /// The index of the entry whose name is `key`.
    pub fn position(&self, key: &str) -> (index: Option<usize>)
        ensures
            match index {
                Some(i) => position_of(self@, key@) == Some(i as int) && i < self@.len(),
                None => position_of(self@, key@) is None,
            },
    {
        let wanted = key.to_owned();
        let mut i: usize = 0;
        while i < self.entries.len()
            invariant
                i <= self.entries.len(),
                wanted@ == key@,
                position_of(self@, key@) == position_from(self@, key@, i as int),
            decreases self.entries.len() - i,
        {
            if self.entries[i].0 == wanted {
                return Some(i);
            }
            i += 1;
        }
        None
    }

    /// The value under `key`.
    pub fn get(&self, key: &str) -> (value: Option<&V>)
        ensures
            match value {
                Some(v) => value_of(self@, key@) == Some(*v),
                None => value_of(self@, key@) is None,
            },
    {
        match self.position(key) {
            Some(i) => Some(&self.entries[i].1),
            None => None,
        }
    }

    /// The name and the value of the entry `index`.
    pub fn entry(&self, index: usize) -> (entry: (&String, &V))
        requires
            index < self@.len(),
        ensures
            entry.0@ == self@[index as int].0,
            *entry.1 == self@[index as int].1,
    {
        (&self.entries[index].0, &self.entries[index].1)
    }

    /// Puts `value` under `key`, in place of the value that was there, if
    /// any, which is returned.
    pub fn insert(&mut self, key: String, value: V) -> (previous: Option<V>)
        requires
            old(self).wf(),
        ensures
            final(self).wf(),
            final(self)@ == inserted(old(self)@, key@, value),
            previous == value_of(old(self)@, key@),
    {
        proof {
            lemma_inserted(self@, key@, value, key@);
        }
        match self.position(key.as_str()) {
            Some(i) => {
                let mut entry = (key, value);
                std::mem::swap(&mut self.entries[i], &mut entry);
                assert(self@ =~= inserted(old(self)@, key@, value));
                Some(entry.1)
            },
            None => {
                self.entries.push((key, value));
                assert(self@ =~= inserted(old(self)@, key@, value));
                None
            },
        }
    }

    /// Removes the entry whose name is `key`, and returns its value.
    pub fn remove(&mut self, key: &str) -> (previous: Option<V>)
        requires
            old(self).wf(),
        ensures
            final(self).wf(),
            final(self)@ == removed(old(self)@, key@),
            previous == value_of(old(self)@, key@),
    {
        proof {
            lemma_removed(self@, key@, key@);
        }
        match self.position(key) {
            Some(i) => {
                let entry = self.entries.remove(i);
                assert(self@ =~= removed(old(self)@, key@));
                Some(entry.1)
            },
            None => None,
        }
    }
}

} // verus!
