//! Cutting the entities of a decoded file into several files.
//!
//! The entities of a file are the entries of the table under the key
//! `Entities` of its tree. They are cut into chunks in their order. Each
//! chunk gives one file: the tree of the input with the chunk as its
//! entities, and with the entry `Index` of the table under `HeadEnt` set to
//! the key of the first entity of the chunk.

use crate::codec::DuplicationResult;
use crate::error::{CodecError, Failure};
use crate::layout::FileModel;
use crate::number::{decimal, decimal_text};
use crate::split_laws::{lemma_chunk_sound, lemma_lookup_sound, lemma_with_chunk_sound};
use crate::table::{has_key, insert_entry, lemma_lookup_other, lookup, table_get, table_insert};
use crate::value::{list_view, table_view, LuaValue, Value};
use vstd::prelude::*;

verus! {

/// The number of entries after which a chunk is closed when `len` entries
/// are cut for `n` files.
pub open spec fn chunk_size(len: nat, n: nat) -> nat {
    len / n
}

/// The number of chunks into which `len` entries are cut for `n` files:
/// none where there is no entry, one where there are fewer entries than
/// files, and else as many as there are full chunks.
pub open spec fn chunk_count(len: nat, n: nat) -> nat {
    if len == 0 {
        0
    } else if chunk_size(len, n) == 0 {
        1
    } else {
        len / chunk_size(len, n)
    }
}

/// The position of the first entry of chunk `i`.
pub open spec fn chunk_start(len: nat, n: nat, i: int) -> int {
    i * chunk_size(len, n)
}

/// The position behind the last entry of chunk `i`. The last chunk runs to
/// the end and so takes what is left over.
pub open spec fn chunk_end(len: nat, n: nat, i: int) -> int {
    if i == chunk_count(len, n) - 1 {
        len as int
    } else {
        i * chunk_size(len, n) + chunk_size(len, n)
    }
}

/// The chunks into which a list of entries is cut for `n` files: consecutive
/// runs of [`chunk_size`] entries, of which the last also takes what is left
/// over.
pub open spec fn chunks<T>(entries: Seq<T>, n: nat) -> Seq<Seq<T>> {
    Seq::new(
        chunk_count(entries.len(), n),
        |i: int|
            entries.subrange(
                chunk_start(entries.len(), n, i),
                chunk_end(entries.len(), n, i),
            ),
    )
}

/// The models of a list of chunks.
pub open spec fn chunk_views(v: Seq<Vec<(LuaValue, LuaValue)>>) -> Seq<Seq<(Value, Value)>> {
    Seq::new(v.len(), |i: int| table_view(v[i]@))
}

/// The key of the table of entities.
pub open spec fn key_entities() -> Value {
    Value::Text(seq!['E', 'n', 't', 'i', 't', 'i', 'e', 's'])
}

/// The key of the head entity.
pub open spec fn key_head_ent() -> Value {
    Value::Text(seq!['H', 'e', 'a', 'd', 'E', 'n', 't'])
}

/// The key under which the head entity names an entity.
pub open spec fn key_index() -> Value {
    Value::Text(seq!['I', 'n', 'd', 'e', 'x'])
}

/// The value is a table with a head entity that is a table with an index.
pub open spec fn has_head_index(root: Value) -> bool {
    &&& root matches Value::Table(entries)
    &&& lookup(entries, key_head_ent()) matches Some(Value::Table(head))
    &&& has_key(head, key_index())
}

/// The tree of one output file: the tree `root` with `chunk` as its
/// entities and the key of the first entry of `chunk` as the index of its
/// head entity.
pub open spec fn with_chunk(root: Value, chunk: Seq<(Value, Value)>) -> Value
    recommends
        has_head_index(root),
        chunk.len() > 0,
{
    let entries = insert_entry(root->Table_0, key_entities(), Value::Table(chunk));
    let head = lookup(root->Table_0, key_head_ent())->Some_0->Table_0;
    let new_head = Value::Table(insert_entry(head, key_index(), chunk[0].0));
    Value::Table(insert_entry(entries, key_head_ent(), new_head))
}

/// The key of what a tree and a chunk lack to give an output file, if
/// anything: `HeadEnt` where the tree is no table or holds no table under
/// that key; else `Entities` where the chunk holds no entity; else `Index`
/// where the head entity has none.
pub open spec fn missing_key(root: Value, chunk: Seq<(Value, Value)>) -> Option<Seq<char>> {
    if !(root is Table) || !(lookup(root->Table_0, key_head_ent()) is Some) || !(lookup(
        root->Table_0,
        key_head_ent(),
    )->Some_0 is Table) {
        Some(key_head_ent()->Text_0)
    } else if chunk.len() == 0 {
        Some(key_entities()->Text_0)
    } else if !has_key(lookup(root->Table_0, key_head_ent())->Some_0->Table_0, key_index()) {
        Some(key_index()->Text_0)
    } else {
        None
    }
}

/// What the first chunk that gives no output file lacks, if there is such a
/// chunk.
pub open spec fn first_missing(root: Value, parts: Seq<Seq<(Value, Value)>>) -> Option<Seq<char>>
    decreases parts.len(),
{
    if parts.len() == 0 {
        None
    } else {
        match first_missing(root, parts.drop_last()) {
            Some(key) => Some(key),
            None => missing_key(root, parts.last()),
        }
    }
}

/// The entities of a tree: the table under the key `Entities` of a tree
/// that is a table.
pub open spec fn entities_of(root: Value) -> Option<Seq<(Value, Value)>> {
    match root {
        Value::Table(entries) => match lookup(entries, key_entities()) {
            Some(Value::Table(entities)) => Some(entities),
            _ => None,
        },
        _ => None,
    }
}

/// The files into which a file is split. Without a count the file is left
/// whole. With a count `n` its entities are cut into chunks for `n` files,
/// and each chunk gives one file with the information block of the input.
/// A tree without a table of entities cannot be split, nor can one without
/// head entity and index where there is a chunk: the failure names the key
/// that is missing.
pub open spec fn split_files(file: FileModel, size: Option<nat>) -> Result<
    Seq<FileModel>,
    Failure,
> {
    match entities_of(file.value) {
        None => Err(Failure::StructuralAssumptionViolated(key_entities()->Text_0)),
        Some(entities) => match size {
            None => Ok(seq![file]),
            Some(n) => {
                let parts = chunks(entities, n);
                match first_missing(file.value, parts) {
                    None => Ok(
                        Seq::new(
                            parts.len(),
                            |i: int|
                                FileModel {
                                    info: file.info,
                                    value: with_chunk(file.value, parts[i]),
                                },
                        ),
                    ),
                    Some(key) => Err(Failure::StructuralAssumptionViolated(key)),
                }
            },
        },
    }
}

/// The models of a list of files.
pub open spec fn file_views(files: Seq<DuplicationResult>) -> Seq<FileModel> {
    Seq::new(files.len(), |i: int| files[i]@)
}

/// The count as a natural number.
pub open spec fn count_view(size: Option<usize>) -> Option<nat> {
    match size {
        Some(n) => Some(n as nat),
        None => None,
    }
}

/// A value that is well-formed and can be written.
pub open spec fn sound(v: Value) -> bool {
    v.wf() && v.encodable()
}

/// The name of an output file: the stem of the input, a hyphen, the
/// number of the file in decimal, and `.txt`.
pub open spec fn output_name_text(stem: Seq<char>, index: nat) -> Seq<char> {
    stem + seq!['-'] + decimal_text(index) + seq!['.', 't', 'x', 't']
}

/// Cuts the entries of a table into chunks for `n` files.
///
/// The entries are taken in their order. A chunk is closed when it holds
/// `map.len() / n` entries; what is left over at the end joins the last
/// closed chunk, or is the only chunk where none was closed.
pub fn split_map(map: &Vec<(LuaValue, LuaValue)>, n: usize) -> (r: Vec<Vec<(LuaValue, LuaValue)>>)
    requires
        n >= 1,
    ensures
        chunk_views(r@) == chunks(table_view(map@), n as nat),
{
    let size = map.len() / n;
    let ghost entries = table_view(map@);
    let mut sealed: Vec<Vec<(LuaValue, LuaValue)>> = Vec::new();
    let mut chunk: Vec<(LuaValue, LuaValue)> = Vec::new();
    let mut count: usize = 0;
    let mut j: usize = 0;
    while j < map.len()
        invariant
            j <= map.len(),
            n >= 1,
            size == map.len() / n,
            entries == table_view(map@),
            count == chunk@.len(),
            j == sealed@.len() * size + count,
            size > 0 ==> count < size,
            size == 0 ==> sealed@.len() == 0,
            table_view(chunk@) == entries.subrange(sealed@.len() * size, j as int),
            forall|i: int|
                0 <= i < sealed@.len() ==> table_view((#[trigger] sealed@[i])@)
                    == entries.subrange(i * size, i * size + size),
        decreases map.len() - j,
    {
        chunk.push((map[j].0.clone(), map[j].1.clone()));
        count += 1;
        if count == size {
            let ghost done = sealed@;
            assert((done.len() + 1) * size == done.len() * size + size) by (nonlinear_arith);
            sealed.push(chunk);
            chunk = Vec::new();
            count = 0;
        }
        j += 1;
    }
    let ghost k = sealed@.len() as int;
    proof {
        lemma_chunk_count_is(map.len() as int, n as int, k, count as int);
        assert((k - 1) * size + size == k * size) by (nonlinear_arith);
    }
    if count > 0 {
        if sealed.len() == 0 {
            sealed.push(chunk);
        } else {
            let mut last = sealed.pop().unwrap();
            let ghost head = last@;
            let mut i: usize = 0;
            while i < chunk.len()
                invariant
                    i <= chunk.len(),
                    last@.len() == head.len() + i,
                    table_view(last@) == table_view(head) + table_view(chunk@).take(i as int),
                decreases chunk.len() - i,
            {
                let ghost before = last@;
                last.push((chunk[i].0.clone(), chunk[i].1.clone()));
                assert(table_view(last@) =~= table_view(before).push(table_view(chunk@)[i as int]));
                i += 1;
            }
            assert(table_view(last@) =~= entries.subrange((k - 1) * size, map.len() as int));
            sealed.push(last);
        }
    }
    sealed
}

/// Makes the tree of one output file from the tree of the input and one
/// chunk of its entities.
///
/// The tree has to be a table whose head entity is a table with an index,
/// and the chunk has to hold an entry: anything else is reported as a
/// violated structure, with the key of what is missing.
pub fn rebase(base: &LuaValue, split: &Vec<(LuaValue, LuaValue)>) -> (r: Result<
    LuaValue,
    CodecError,
>)
    ensures
        match missing_key(base@, table_view(split@)) {
            None => r matches Ok(v) && v@ == with_chunk(base@, table_view(split@)),
            Some(key) => r matches Err(e) && e@ == Failure::StructuralAssumptionViolated(key),
        },
        sound(base@) && sound(Value::Table(table_view(split@))) ==> (r matches Ok(v) ==> sound(v@)),
{
    proof {
        if has_head_index(base@) && split@.len() > 0 && sound(base@) && sound(
            Value::Table(table_view(split@)),
        ) {
            lemma_with_chunk_sound(base@, table_view(split@));
        }
        reveal_strlit("Entities");
        reveal_strlit("HeadEnt");
        reveal_strlit("Index");
        assert("Entities"@ =~= key_entities()->Text_0);
        assert("HeadEnt"@ =~= key_head_ent()->Text_0);
        assert("Index"@ =~= key_index()->Text_0);
    }
    let mut split_value = match base.clone() {
        LuaValue::Table(entries) => entries,
        _ => {
            return Err(CodecError::StructuralAssumptionViolated("HeadEnt".to_owned()));
        },
    };
    let ghost root = table_view(split_value@);
    let ghost chunk = table_view(split@);
    let entities = LuaValue::Table(clone_entries(split));
    table_insert(&mut split_value, text_value("Entities"), entities);
    proof {
        lemma_lookup_other(root, key_entities(), Value::Table(chunk), key_head_ent());
    }
    let mut head = match table_get(&split_value, &text_value("HeadEnt")) {
        Some(LuaValue::Table(head)) => clone_entries(head),
        _ => {
            return Err(CodecError::StructuralAssumptionViolated("HeadEnt".to_owned()));
        },
    };
    if split.len() == 0 {
        return Err(CodecError::StructuralAssumptionViolated("Entities".to_owned()));
    }
    let first = split[0].0.clone();
    match table_insert(&mut head, text_value("Index"), first) {
        Some(_) => {},
        None => {
            return Err(CodecError::StructuralAssumptionViolated("Index".to_owned()));
        },
    }
    table_insert(&mut split_value, text_value("HeadEnt"), LuaValue::Table(head));
    Ok(LuaValue::Table(split_value))
}

/// Makes the trees of the output files from the tree of the input and the
/// chunks of its entities: each tree is the input with one chunk as its
/// entities and with the index of its head entity set to the key of the
/// first entry of that chunk. Where a chunk gives no tree, the error names
/// what the first such chunk lacks.
pub fn split_lua_tables(base_clone: &LuaValue, split_maps: &Vec<Vec<(LuaValue, LuaValue)>>) -> (r:
    Result<Vec<LuaValue>, CodecError>)
    ensures
        match first_missing(base_clone@, chunk_views(split_maps@)) {
            None => r matches Ok(trees) && list_view(trees@) == Seq::new(
                split_maps@.len(),
                |i: int| with_chunk(base_clone@, chunk_views(split_maps@)[i]),
            ),
            Some(key) => r matches Err(e) && e@ == Failure::StructuralAssumptionViolated(key),
        },
        sound(base_clone@) && (forall|i: int|
            0 <= i < split_maps@.len() ==> sound(
                Value::Table(#[trigger] chunk_views(split_maps@)[i]),
            )) ==> (r matches Ok(trees) ==> forall|i: int|
            0 <= i < trees@.len() ==> sound((#[trigger] trees@[i])@)),
{
    let mut splits: Vec<LuaValue> = Vec::new();
    let ghost parts = chunk_views(split_maps@);
    let mut i: usize = 0;
    while i < split_maps.len()
        invariant
            i <= split_maps.len(),
            parts == chunk_views(split_maps@),
            splits@.len() == i,
            first_missing(base_clone@, parts.take(i as int)) is None,
            forall|j: int|
                0 <= j < i ==> (#[trigger] splits@[j])@ == with_chunk(base_clone@, parts[j]),
            sound(base_clone@) && (forall|j: int|
                0 <= j < split_maps@.len() ==> sound(Value::Table(#[trigger] parts[j])))
                ==> forall|j: int| 0 <= j < i ==> sound((#[trigger] splits@[j])@),
        decreases split_maps.len() - i,
    {
        assert(parts[i as int] == table_view(split_maps@[i as int]@));
        assert(parts.take(i + 1).drop_last() =~= parts.take(i as int));
        assert(parts.take(i + 1).last() == parts[i as int]);
        match rebase(base_clone, &split_maps[i]) {
            Ok(tree) => {
                splits.push(tree);
            },
            Err(e) => {
                proof {
                    lemma_first_missing_stays(base_clone@, parts, i + 1);
                }
                return Err(e);
            },
        }
        i += 1;
    }
    assert(parts.take(i as int) =~= parts);
    assert(list_view(splits@) =~= Seq::new(
        split_maps@.len(),
        |i: int| with_chunk(base_clone@, chunk_views(split_maps@)[i]),
    ));
    Ok(splits)
}

/// Splits a decoded file into the files that are to be written: the file
/// itself where no count is given, and else one file for each chunk of its
/// entities. A tree that cannot be split is reported with the key that it
/// lacks.
pub fn perform_split(result: &DuplicationResult, size: Option<usize>) -> (r: Result<
    Vec<DuplicationResult>,
    CodecError,
>)
    requires
        size matches Some(n) ==> n >= 1,
    ensures
        match split_files(result@, count_view(size)) {
            Ok(files) => r matches Ok(out) && file_views(out@) == files,
            Err(failure) => r matches Err(e) && e@ == failure,
        },
        sound(result@.value) ==> (r matches Ok(out) ==> forall|i: int|
            0 <= i < out@.len() ==> sound((#[trigger] out@[i])@.value)),
{
    proof {
        reveal_strlit("Entities");
        assert("Entities"@ =~= key_entities()->Text_0);
    }
    let table = match result.value().as_table() {
        Some(table) => table,
        None => {
            return Err(CodecError::StructuralAssumptionViolated("Entities".to_owned()));
        },
    };
    let entity_map = match table_get(table, &text_value("Entities")) {
        Some(LuaValue::Table(entities)) => entities,
        _ => {
            return Err(CodecError::StructuralAssumptionViolated("Entities".to_owned()));
        },
    };
    let mut files: Vec<DuplicationResult> = Vec::new();
    match size {
        None => {
            files.push(DuplicationResult::new(result.info().clone(), result.value().clone()));
            Ok(files)
        },
        Some(n) => {
            let split_maps = split_map(entity_map, n);
            let trees = match split_lua_tables(result.value(), &split_maps) {
                Ok(trees) => trees,
                Err(e) => {
                    return Err(e);
                },
            };
            let ghost parts = chunks(table_view(entity_map@), n as nat);
            proof {
                if sound(result@.value) {
                    lemma_lookup_sound(result@.value->Table_0, key_entities());
                    assert forall|j: int| 0 <= j < split_maps@.len() implies sound(
                        Value::Table(#[trigger] chunk_views(split_maps@)[j]),
                    ) by {
                        lemma_chunk_sound(table_view(entity_map@), n as nat, j);
                    }
                }
                assert(list_view(trees@).len() == trees@.len());
                assert forall|j: int| 0 <= j < trees@.len() implies (#[trigger] trees@[j])@
                    == with_chunk(result@.value, parts[j]) by {
                    assert(list_view(trees@)[j] == trees@[j]@);
                }
            }
            let mut i: usize = 0;
            while i < trees.len()
                invariant
                    i <= trees.len(),
                    files@.len() == i,
                    trees@.len() == parts.len(),
                    forall|j: int|
                        0 <= j < trees@.len() ==> (#[trigger] trees@[j])@ == with_chunk(
                            result@.value,
                            parts[j],
                        ),
                    forall|j: int|
                        0 <= j < i ==> (#[trigger] files@[j])@ == (FileModel {
                            info: result@.info,
                            value: with_chunk(result@.value, parts[j]),
                        }),
                    sound(result@.value) ==> forall|j: int|
                        0 <= j < trees@.len() ==> sound((#[trigger] trees@[j])@),
                    sound(result@.value) ==> forall|j: int|
                        0 <= j < i ==> sound((#[trigger] files@[j])@.value),
                decreases trees.len() - i,
            {
                files.push(DuplicationResult::new(result.info().clone(), trees[i].clone()));
                i += 1;
            }
            Ok(files)
        },
    }
}

/// The name of the output file with the given number.
pub fn output_name(stem: &str, index: usize) -> (r: String)
    ensures
        r@ == output_name_text(stem@, index as nat),
{
    proof {
        reveal_strlit("-");
        reveal_strlit(".txt");
    }
    let mut name = stem.to_owned();
    name.append("-");
    name.append(decimal(index as u64).as_str());
    name.append(".txt");
    name
}

/// A text value that holds the given text.
fn text_value(text: &str) -> (r: LuaValue)
    ensures
        r@ == Value::Text(text@),
{
    LuaValue::String(text.to_owned())
}

/// A deep copy of a list of entries.
fn clone_entries(entries: &Vec<(LuaValue, LuaValue)>) -> (r: Vec<(LuaValue, LuaValue)>)
    ensures
        table_view(r@) == table_view(entries@),
{
    let mut copy: Vec<(LuaValue, LuaValue)> = Vec::new();
    let mut i: usize = 0;
    while i < entries.len()
        invariant
            i <= entries.len(),
            copy@.len() == i,
            forall|j: int|
                0 <= j < i ==> copy@[j].0@ == entries@[j].0@ && copy@[j].1@ == entries@[j].1@,
        decreases entries.len() - i,
    {
        copy.push((entries[i].0.clone(), entries[i].1.clone()));
        i += 1;
    }
    copy
}

/// Where `len` entries are `k` full chunks of `len / n` entries and `rest`
/// more, with `rest` less than a chunk, `k` is the number of chunks but for
/// the one that is made of the rest alone.
proof fn lemma_chunk_count_is(len: int, n: int, k: int, rest: int)
    requires
        n >= 1,
        len >= 0,
        k >= 0,
        rest >= 0,
        len == k * (len / n) + rest,
        len / n > 0 ==> rest < len / n,
        len / n == 0 ==> k == 0,
    ensures
        len / n > 0 ==> chunk_count(len as nat, n as nat) == k,
        len / n == 0 && len > 0 ==> chunk_count(len as nat, n as nat) == 1,
        len == 0 ==> chunk_count(len as nat, n as nat) == 0 && k == 0,
{
    let size = len / n;
    if size > 0 {
        vstd::arithmetic::div_mod::lemma_fundamental_div_mod_converse(len, size, k, rest);
    }
}

/// Once a chunk lacks something, what the first such chunk lacks stays the
/// same however many chunks follow.
proof fn lemma_first_missing_stays(root: Value, parts: Seq<Seq<(Value, Value)>>, m: int)
    requires
        0 <= m <= parts.len(),
        first_missing(root, parts.take(m)) is Some,
    ensures
        first_missing(root, parts) == first_missing(root, parts.take(m)),
    decreases parts.len() - m,
{
    if m < parts.len() {
        assert(parts.take(m + 1).drop_last() =~= parts.take(m));
        lemma_first_missing_stays(root, parts, m + 1);
    } else {
        assert(parts.take(m) =~= parts);
    }
}

} // verus!
