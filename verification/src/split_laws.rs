//! What holds of every split: nothing is lost, the head entity names an
//! entity of its file, and sound trees stay sound.

use crate::split::{
    chunk_count, chunk_end, chunk_size, chunk_start, chunks, has_head_index, key_entities,
    key_head_ent, key_index, sound, with_chunk,
};
use crate::table::{
    has_key, index_of, insert_entry, lemma_has_key_first, lemma_insert_distinct,
    lemma_insert_entries, lemma_lookup_inserted, lemma_lookup_other, lookup,
};
use crate::value::Value;
use vstd::prelude::*;

verus! {
/// Every chunk is a run of at least one entry within the list.
pub proof fn lemma_chunk_bounds(len: nat, n: nat, i: int)
    requires
        n >= 1,
        0 <= i < chunk_count(len, n),
    ensures
        0 <= chunk_start(len, n, i) < chunk_end(len, n, i) <= len,
{
    let size = chunk_size(len, n) as int;
    let l = len as int;
    if size > 0 {
        let k = l / size;
        vstd::arithmetic::div_mod::lemma_fundamental_div_mod(l, size);
        assert(i * size >= 0) by (nonlinear_arith)
            requires
                0 <= i,
                size > 0,
        ;
        assert(i * size + size <= k * size) by (nonlinear_arith)
            requires
                0 <= i < k,
                size > 0,
        ;
    }
}

/// Nothing is lost and nothing is doubled by cutting: there are
/// [`chunk_count`] chunks, none of them is empty, and the chunks put one
/// after the other are the entries in their order. So every entry, and with
/// it every key of the entities, falls into exactly one chunk.
pub proof fn lemma_chunks_cover<T>(entries: Seq<T>, n: nat)
    requires
        n >= 1,
    ensures
        chunks(entries, n).len() == chunk_count(entries.len(), n),
        chunks(entries, n).flatten() == entries,
        forall|i: int|
            0 <= i < chunks(entries, n).len() ==> (#[trigger] chunks(entries, n)[i]).len() > 0,
{
    let len = entries.len() as int;
    let size = chunk_size(entries.len(), n) as int;
    let parts = chunks(entries, n);
    assert forall|i: int| 0 <= i < parts.len() implies (#[trigger] parts[i]).len() > 0 by {
        lemma_chunk_bounds(entries.len(), n, i);
    }
    if len == 0 {
    } else if size == 0 {
        lemma_chunk_bounds(entries.len(), n, 0);
        assert(parts[0] =~= entries);
        parts.lemma_flatten_one_element();
    } else {
        let k = len / size;
        assert(size <= len) by (nonlinear_arith)
            requires
                size == len / (n as int),
                n >= 1,
                len >= 0,
        ;
        assert(k >= 1) by (nonlinear_arith)
            requires
                k == len / size,
                0 < size <= len,
        ;
        lemma_chunk_bounds(entries.len(), n, k - 1);
        let last = entries.subrange((k - 1) * size, len);
        lemma_runs_flatten(entries, size, k - 1);
        assert(parts =~= runs(entries, size, k - 1).push(last));
        runs(entries, size, k - 1).lemma_flatten_push(last);
        assert(entries.take((k - 1) * size) + last =~= entries);
    }
}

/// The first `m` runs of `size` entries, one after the other.
spec fn runs<T>(entries: Seq<T>, size: int, m: int) -> Seq<Seq<T>> {
    Seq::new(m as nat, |i: int| entries.subrange(i * size, i * size + size))
}

/// The first `m` runs of `size` entries together are the first `m * size`
/// entries.
proof fn lemma_runs_flatten<T>(entries: Seq<T>, size: int, m: int)
    requires
        size > 0,
        0 <= m,
        m * size <= entries.len(),
    ensures
        runs(entries, size, m).flatten() == entries.take(m * size),
    decreases m,
{
    if m == 0 {
        assert(runs(entries, size, m) =~= Seq::<Seq<T>>::empty());
    } else {
        assert((m - 1) * size + size == m * size) by (nonlinear_arith);
        lemma_runs_flatten(entries, size, m - 1);
        let run = entries.subrange((m - 1) * size, (m - 1) * size + size);
        assert(runs(entries, size, m) =~= runs(entries, size, m - 1).push(run));
        runs(entries, size, m - 1).lemma_flatten_push(run);
    }
}

/// The quotient of `a` by `b`, rounded up.
pub open spec fn ceil_div(a: nat, b: nat) -> nat {
    ((a + b - 1) / (b as int)) as nat
}

/// The smaller of two numbers.
pub open spec fn least(a: nat, b: nat) -> nat {
    if a <= b {
        a
    } else {
        b
    }
}

/// The larger of two numbers.
pub open spec fn most(a: nat, b: nat) -> nat {
    if a >= b {
        a
    } else {
        b
    }
}

/// The number of chunks where the entries divide well: the count asked
/// for, or the number of chunks of `len / n` entries that it takes to hold
/// them all, whichever is less, and at least one.
pub open spec fn even_count(len: nat, n: nat) -> nat {
    least(n, most(1, ceil_div(len, most(1, len / n))))
}

/// The number of chunks where the entries divide well. Where there is at
/// least one entry, and either a single entry for more than one file or at
/// least as many entries as files with `len / n` going exactly `n` times
/// into `len`, rounded down, the entries are cut into
/// `min(n, max(1, ceil(len / max(1, len / n))))` chunks, which are at most
/// `n`.
pub proof fn lemma_chunk_count_even(len: nat, n: nat)
    requires
        n >= 1,
        len >= 1,
        len < n ==> len == 1,
        len >= n ==> len / (len / n) == n,
    ensures
        chunk_count(len, n) == even_count(len, n),
        chunk_count(len, n) <= n,
{
    if len < n {
        assert(len / n == 0) by (nonlinear_arith)
            requires
                len < n,
                len >= 0,
        ;
        assert(ceil_div(1, 1) == 1);
    } else {
        let size = len / n;
        assert(size >= 1) by (nonlinear_arith)
            requires
                len >= n,
                n >= 1,
                size == len / n,
        ;
        vstd::arithmetic::div_mod::lemma_div_is_ordered(len as int, len + size - 1, size as int);
    }
}

/// The head entity of an output file names an entity of that file: in the
/// tree that [`with_chunk`] makes, the table under `Entities` is the chunk,
/// and the `Index` of the table under `HeadEnt` is the key of the first
/// entry of the chunk.
pub proof fn lemma_head_index(root: Value, chunk: Seq<(Value, Value)>)
    requires
        has_head_index(root),
        chunk.len() > 0,
    ensures
        with_chunk(root, chunk) is Table,
        lookup(with_chunk(root, chunk)->Table_0, key_entities()) == Some(Value::Table(chunk)),
        lookup(with_chunk(root, chunk)->Table_0, key_head_ent()) matches Some(Value::Table(head))
            && lookup(head, key_index()) == Some(chunk[0].0),
        has_key(chunk, chunk[0].0),
{
    let entries = insert_entry(root->Table_0, key_entities(), Value::Table(chunk));
    let head = lookup(root->Table_0, key_head_ent())->Some_0->Table_0;
    let new_head = Value::Table(insert_entry(head, key_index(), chunk[0].0));
    lemma_lookup_inserted(root->Table_0, key_entities(), Value::Table(chunk));
    lemma_lookup_other(entries, key_head_ent(), new_head, key_entities());
    lemma_lookup_inserted(entries, key_head_ent(), new_head);
    lemma_lookup_inserted(head, key_index(), chunk[0].0);
}

/// Splitting keeps trees sound: the tree of an output file is well-formed
/// and can be written where the tree of the input and the chunk are.
pub proof fn lemma_with_chunk_sound(root: Value, chunk: Seq<(Value, Value)>)
    requires
        has_head_index(root),
        chunk.len() > 0,
        sound(root),
        sound(Value::Table(chunk)),
    ensures
        sound(with_chunk(root, chunk)),
{
    let entries = insert_entry(root->Table_0, key_entities(), Value::Table(chunk));
    let head = lookup(root->Table_0, key_head_ent())->Some_0->Table_0;
    let new_head = Value::Table(insert_entry(head, key_index(), chunk[0].0));
    lemma_keys_sound();
    lemma_insert_sound(root->Table_0, key_entities(), Value::Table(chunk));
    lemma_lookup_sound(root->Table_0, key_head_ent());
    lemma_insert_sound(head, key_index(), chunk[0].0);
    lemma_insert_sound(entries, key_head_ent(), new_head);
}

/// Every chunk of the entries of a sound table is a sound table.
pub proof fn lemma_chunk_sound(entries: Seq<(Value, Value)>, n: nat, i: int)
    requires
        n >= 1,
        0 <= i < chunks(entries, n).len(),
        sound(Value::Table(entries)),
    ensures
        sound(Value::Table(chunks(entries, n)[i])),
{
    lemma_chunk_bounds(entries.len(), n, i);
}

/// What is found in a sound table is sound.
pub proof fn lemma_lookup_sound(entries: Seq<(Value, Value)>, key: Value)
    requires
        sound(Value::Table(entries)),
        has_key(entries, key),
    ensures
        sound(lookup(entries, key)->Some_0),
{
    lemma_has_key_first(entries, key);
    let p = index_of(entries, key);
}

/// A sound table stays sound when a sound value is stored in it under a
/// sound key.
proof fn lemma_insert_sound(entries: Seq<(Value, Value)>, key: Value, value: Value)
    requires
        sound(Value::Table(entries)),
        sound(key),
        sound(value),
    ensures
        sound(Value::Table(insert_entry(entries, key, value))),
{
    lemma_insert_distinct(entries, key, value);
    lemma_insert_entries(entries, key, value);
}

/// The keys that splitting writes are sound.
proof fn lemma_keys_sound()
    ensures
        sound(key_entities()),
        sound(key_head_ent()),
        sound(key_index()),
{
    vstd::utf8::is_ascii_chars_encode_utf8(key_entities()->Text_0);
    vstd::utf8::is_ascii_chars_encode_utf8(key_head_ent()->Text_0);
    vstd::utf8::is_ascii_chars_encode_utf8(key_index()->Text_0);
}

} // verus!
