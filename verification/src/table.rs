//! Tables as insertion-ordered entry lists.
//!
//! A table keeps its entries in a vector, in the order in which their keys
//! were first inserted. Keys are compared structurally. Inserting under a key
//! that is already present replaces the value in place, so a table that is
//! built only through [`table_insert`] never holds a key twice.

use crate::value::{distinct_keys, table_view, LuaValue, Value};
use vstd::prelude::*;

verus! {
/// Some entry of `entries` has the key `key`.
pub open spec fn has_key(entries: Seq<(Value, Value)>, key: Value) -> bool {
    exists|i: int| 0 <= i < entries.len() && (#[trigger] entries[i]).0 == key
}

/// `i` is the position of the first entry of `entries` with the key `key`.
pub open spec fn is_first_at(entries: Seq<(Value, Value)>, key: Value, i: int) -> bool {
    &&& 0 <= i < entries.len()
    &&& entries[i].0 == key
    &&& forall|j: int| 0 <= j < i ==> (#[trigger] entries[j]).0 != key
}

/// The position of the first entry with the key `key`, where there is one.
pub open spec fn index_of(entries: Seq<(Value, Value)>, key: Value) -> int {
    choose|i: int| is_first_at(entries, key, i)
}

/// The value stored under `key`, if any.
pub open spec fn lookup(entries: Seq<(Value, Value)>, key: Value) -> Option<Value> {
    if has_key(entries, key) {
        Some(entries[index_of(entries, key)].1)
    } else {
        None
    }
}

/// The entries after storing `value` under `key`: the value is replaced in
/// place where the key is present, and the pair is appended where it is not.
pub open spec fn insert_entry(entries: Seq<(Value, Value)>, key: Value, value: Value) -> Seq<
    (Value, Value),
> {
    if has_key(entries, key) {
        entries.update(index_of(entries, key), (key, value))
    } else {
        entries.push((key, value))
    }
}

/// The table that results from inserting `pairs` one after the other into an
/// empty table.
pub open spec fn table_of(pairs: Seq<(Value, Value)>) -> Seq<(Value, Value)>
    decreases pairs.len(),
{
    if pairs.len() == 0 {
        Seq::empty()
    } else {
        insert_entry(table_of(pairs.drop_last()), pairs.last().0, pairs.last().1)
    }
}

/// The position of the first entry with the given key.
pub fn table_find(entries: &Vec<(LuaValue, LuaValue)>, key: &LuaValue) -> (r: Option<usize>)
    ensures
        r matches Some(i) ==> is_first_at(table_view(entries@), key@, i as int),
        r is None ==> !has_key(table_view(entries@), key@),
{
    let mut i: usize = 0;
    while i < entries.len()
        invariant
            i <= entries.len(),
            forall|j: int| 0 <= j < i ==> (#[trigger] table_view(entries@)[j]).0 != key@,
        decreases entries.len() - i,
    {
        if entries[i].0 == *key {
            return Some(i);
        }
        i += 1;
    }
    None
}

/// The value stored under `key`, if any.
pub fn table_get<'a>(entries: &'a Vec<(LuaValue, LuaValue)>, key: &LuaValue) -> (r: Option<
    &'a LuaValue,
>)
    ensures
        r matches Some(v) ==> lookup(table_view(entries@), key@) == Some(v@),
        r is None ==> lookup(table_view(entries@), key@) is None,
{
    match table_find(entries, key) {
        Some(i) => {
            proof {
                lemma_index_of(table_view(entries@), key@, i as int);
            }
            Some(&entries[i].1)
        },
        None => None,
    }
}

/// Stores `value` under `key` and returns the value that was stored there
/// before, if any. A present key keeps its place.
pub fn table_insert(entries: &mut Vec<(LuaValue, LuaValue)>, key: LuaValue, value: LuaValue) -> (r:
    Option<LuaValue>)
    ensures
        table_view(final(entries)@) == insert_entry(table_view(old(entries)@), key@, value@),
        r matches Some(v) ==> lookup(table_view(old(entries)@), key@) == Some(v@),
        r is None ==> lookup(table_view(old(entries)@), key@) is None,
{
    let found = table_find(entries, &key);
    let ghost before = table_view(entries@);
    entries.push((key, value));
    match found {
        Some(i) => {
            proof {
                lemma_index_of(before, key@, i as int);
            }
            let previous = entries.swap_remove(i);
            assert(table_view(entries@) =~= insert_entry(before, key@, value@));
            Some(previous.1)
        },
        None => {
            assert(table_view(entries@) =~= insert_entry(before, key@, value@));
            None
        },
    }
}

/// A key that is present has exactly one first position.
pub proof fn lemma_index_of(entries: Seq<(Value, Value)>, key: Value, i: int)
    requires
        is_first_at(entries, key, i),
    ensures
        has_key(entries, key),
        index_of(entries, key) == i,
{
    assert(entries[i].0 == key);
    let j = index_of(entries, key);
    assert(is_first_at(entries, key, j));
    if j < i {
        assert(entries[j].0 != key);
    }
    if i < j {
        assert(entries[i].0 != key);
    }
}

/// A key that is present has a first position.
pub proof fn lemma_has_key_first(entries: Seq<(Value, Value)>, key: Value)
    requires
        has_key(entries, key),
    ensures
        is_first_at(entries, key, index_of(entries, key)),
{
    let w = choose|i: int| 0 <= i < entries.len() && (#[trigger] entries[i]).0 == key;
    lemma_first_below(entries, key, w);
}

/// Below any position that holds the key there is a first one.
proof fn lemma_first_below(entries: Seq<(Value, Value)>, key: Value, w: int)
    requires
        0 <= w < entries.len(),
        entries[w].0 == key,
    ensures
        exists|i: int| is_first_at(entries, key, i),
    decreases w,
{
    if exists|j: int| 0 <= j < w && (#[trigger] entries[j]).0 == key {
        let j = choose|j: int| 0 <= j < w && (#[trigger] entries[j]).0 == key;
        lemma_first_below(entries, key, j);
    } else {
        assert(is_first_at(entries, key, w));
    }
}

/// Inserting keeps the keys of a table distinct.
pub proof fn lemma_insert_distinct(entries: Seq<(Value, Value)>, key: Value, value: Value)
    requires
        distinct_keys(entries),
    ensures
        distinct_keys(insert_entry(entries, key, value)),
        has_key(insert_entry(entries, key, value), key),
{
    let after = insert_entry(entries, key, value);
    if has_key(entries, key) {
        lemma_has_key_first(entries, key);
        let p = index_of(entries, key);
        assert(after[p].0 == key);
    } else {
        assert(after[entries.len() as int].0 == key);
    }
}

/// Every entry of a table after an insertion is the inserted pair or an
/// entry that was there before, at the same place.
pub proof fn lemma_insert_entries(entries: Seq<(Value, Value)>, key: Value, value: Value)
    ensures
        forall|i: int|
            0 <= i < insert_entry(entries, key, value).len() ==> {
                ||| (#[trigger] insert_entry(entries, key, value)[i]) == (key, value)
                ||| i < entries.len() && insert_entry(entries, key, value)[i] == entries[i]
            },
{
    if has_key(entries, key) {
        lemma_has_key_first(entries, key);
    }
}

/// What was stored under a key is found under it.
pub proof fn lemma_lookup_inserted(entries: Seq<(Value, Value)>, key: Value, value: Value)
    ensures
        lookup(insert_entry(entries, key, value), key) == Some(value),
{
    let after = insert_entry(entries, key, value);
    if has_key(entries, key) {
        lemma_has_key_first(entries, key);
        let p = index_of(entries, key);
        assert(is_first_at(after, key, p));
    } else {
        let p = entries.len() as int;
        assert(is_first_at(after, key, p));
    }
}

/// Storing under one key changes nothing under another key.
pub proof fn lemma_lookup_other(
    entries: Seq<(Value, Value)>,
    key: Value,
    value: Value,
    other: Value,
)
    requires
        other != key,
    ensures
        lookup(insert_entry(entries, key, value), other) == lookup(entries, other),
        has_key(insert_entry(entries, key, value), other) == has_key(entries, other),
{
    let after = insert_entry(entries, key, value);
    if has_key(entries, key) {
        lemma_has_key_first(entries, key);
    }
    if has_key(entries, other) {
        lemma_has_key_first(entries, other);
        let p = index_of(entries, other);
        assert(is_first_at(after, other, p));
    }
}

/// A table built by insertion holds no key twice.
pub proof fn lemma_table_of_distinct(pairs: Seq<(Value, Value)>)
    ensures
        distinct_keys(table_of(pairs)),
    decreases pairs.len(),
{
    if pairs.len() > 0 {
        lemma_table_of_distinct(pairs.drop_last());
        lemma_insert_distinct(table_of(pairs.drop_last()), pairs.last().0, pairs.last().1);
    }
}

/// Inserting entries whose keys are already distinct, in order, gives back
/// the same entries.
pub proof fn lemma_table_of_identity(pairs: Seq<(Value, Value)>)
    requires
        distinct_keys(pairs),
    ensures
        table_of(pairs) == pairs,
    decreases pairs.len(),
{
    if pairs.len() > 0 {
        let front = pairs.drop_last();
        lemma_table_of_identity(front);
    }
}

} // verus!
