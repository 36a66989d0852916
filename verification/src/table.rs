//! Tables from names to values, kept as lists of entries in which no name stands twice.

use crate::strings::same;
use vstd::prelude::*;

verus! {

/// The names of a list of entries.
pub open spec fn names<T>(entries: Seq<(String, T)>) -> Seq<Seq<char>> {
    Seq::new(entries.len(), |i: int| entries[i].0@)
}

/// The names of a list of entries seen by their texts.
pub open spec fn keys<V>(entries: Seq<(Seq<char>, V)>) -> Seq<Seq<char>> {
    Seq::new(entries.len(), |i: int| entries[i].0)
}

/// The first place from `i` on at which `name` stands, or the length of the list.
pub open spec fn place_from(list: Seq<Seq<char>>, name: Seq<char>, i: int) -> int
    decreases list.len() - i,
{
    if i >= list.len() {
        list.len() as int
    } else if list[i] == name {
        i
    } else {
        place_from(list, name, i + 1)
    }
}

/// The place of `name`, or the length of the list.
pub open spec fn place(list: Seq<Seq<char>>, name: Seq<char>) -> int {
    place_from(list, name, 0)
}

/// The value that a table holds for a name.
pub open spec fn entry<V>(entries: Seq<(Seq<char>, V)>, name: Seq<char>) -> Option<V> {
    let at = place(keys(entries), name);
    if 0 <= at < entries.len() {
        Some(entries[at].1)
    } else {
        None
    }
}

/// The table with `value` under `name`, in place of what stood there before.
pub open spec fn with_entry<V>(
    entries: Seq<(Seq<char>, V)>,
    name: Seq<char>,
    value: V,
) -> Seq<(Seq<char>, V)> {
    let at = place(keys(entries), name);
    if 0 <= at < entries.len() {
        entries.update(at, (name, value))
    } else {
        entries.push((name, value))
    }
}

pub proof fn lemma_place_from(list: Seq<Seq<char>>, name: Seq<char>, i: int)
    requires
        0 <= i <= list.len(),
    ensures
        i <= place_from(list, name, i) <= list.len(),
        place_from(list, name, i) < list.len() ==> list[place_from(list, name, i)] == name,
        forall|j: int| i <= j < place_from(list, name, i) ==> list[j] != name,
    decreases list.len() - i,
{
    if i < list.len() && list[i] != name {
        lemma_place_from(list, name, i + 1);
    }
}

/// What is put into a table under a name is found there, and nothing else changes.
pub proof fn lemma_entry_after_insert<V>(
    entries: Seq<(Seq<char>, V)>,
    name: Seq<char>,
    value: V,
    other: Seq<char>,
)
    ensures
        entry(with_entry(entries, name, value), other) == if other == name {
            Some(value)
        } else {
            entry(entries, other)
        },
{
    let after = with_entry(entries, name, value);
    let old_keys = keys(entries);
    let new_keys = keys(after);
    lemma_place_from(old_keys, name, 0);
    lemma_place_from(old_keys, other, 0);
    lemma_place_from(new_keys, other, 0);
    let p = place(old_keys, name);
    let q = place(old_keys, other);
    let r = place(new_keys, other);
    assert(forall|j: int| 0 <= j < old_keys.len() ==> new_keys[j] == old_keys[j]);
    if other == name {
        assert(new_keys[p] == name);
        if r < p {
            assert(new_keys[r] == old_keys[r]);
        }
        assert(r == p);
    } else {
        if q < old_keys.len() {
            assert(new_keys[q] == other);
            assert(r <= q);
            assert(new_keys[r] == old_keys[r]);
            assert(r == q);
        } else if r < old_keys.len() {
            assert(new_keys[r] == old_keys[r]);
        }
    }
}

/// The place of `name`, or the number of entries.
pub fn place_of<T>(entries: &[(String, T)], name: &str) -> (at: usize)
    ensures
        at == place(names(entries@), name@),
        at <= entries@.len(),
        at < entries@.len() ==> entries@[at as int].0@ == name@,
{
    let mut at: usize = 0;
    while at < entries.len()
        invariant
            at <= entries@.len(),
            place_from(names(entries@), name@, 0) == place_from(
                names(entries@),
                name@,
                at as int,
            ),
        decreases entries@.len() - at,
    {
        if same(entries[at].0.as_str(), name) {
            return at;
        }
        at = at + 1;
    }
    at
}

/// Puts `value` under `name`, in place of what stood there before.
pub fn insert<T>(entries: &mut Vec<(String, T)>, name: String, value: T)
    ensures
        ({
            let at = place(names(old(entries)@), name@);
            &&& 0 <= at <= old(entries)@.len()
            &&& if at < old(entries)@.len() {
                final(entries)@ == old(entries)@.update(at, (name, value))
            } else {
                final(entries)@ == old(entries)@.push((name, value))
            }
        }),
{
    let at = place_of(entries.as_slice(), name.as_str());
    if at < entries.len() {
        entries.set(at, (name, value));
    } else {
        entries.push((name, value));
    }
}

} // verus!
