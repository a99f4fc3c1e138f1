use adv2_splitter::advanced_dupe::{decode, encode};
use adv2_splitter::codec::DuplicationResult;
use adv2_splitter::error::CodecError;
use adv2_splitter::info::DuplicationInfo;
use adv2_splitter::split::{output_name, perform_split, rebase, split_lua_tables, split_map};
use adv2_splitter::table::table_get;
use adv2_splitter::value::LuaValue;

fn text(s: &str) -> LuaValue {
    LuaValue::String(s.to_string())
}

fn number(x: f64) -> LuaValue {
    LuaValue::Double(x.to_bits())
}

fn entities(count: usize) -> Vec<(LuaValue, LuaValue)> {
    let mut out = Vec::new();
    for i in 0..count {
        out.push((
            number((i + 1) as f64),
            LuaValue::Table(vec![(text("Class"), text("prop_physics"))]),
        ));
    }
    out
}

fn root_with(count: usize) -> LuaValue {
    LuaValue::Table(vec![
        (text("Constraints"), LuaValue::Array(vec![])),
        (text("Entities"), LuaValue::Table(entities(count))),
        (text("HeadEnt"), LuaValue::Table(vec![(text("Index"), number(1.0)), (text("Z"), number(0.5))])),
    ])
}

fn file_with(count: usize) -> DuplicationResult {
    let mut info = DuplicationInfo::new();
    info.add_value("name".to_string(), "me".to_string());
    info.set_player_name("me".to_string());
    DuplicationResult::new(info, root_with(count))
}

fn lacks(key: &str) -> CodecError {
    CodecError::StructuralAssumptionViolated(key.to_string())
}

fn sizes(chunks: &Vec<Vec<(LuaValue, LuaValue)>>) -> Vec<usize> {
    chunks.iter().map(|c| c.len()).collect()
}

fn joined(chunks: &Vec<Vec<(LuaValue, LuaValue)>>) -> Vec<(LuaValue, LuaValue)> {
    let mut out = Vec::new();
    for c in chunks {
        out.extend(c.iter().cloned());
    }
    out
}

fn expected_chunks(e: usize, n: usize) -> usize {
    let size = std::cmp::max(1, e / n);
    std::cmp::min(n, std::cmp::max(1, (e + size - 1) / size))
}

#[test]
fn entries_that_divide_evenly() {
    assert_eq!(sizes(&split_map(&entities(6), 3)), vec![2, 2, 2]);
    assert_eq!(sizes(&split_map(&entities(6), 1)), vec![6]);
    assert_eq!(sizes(&split_map(&entities(6), 6)), vec![1, 1, 1, 1, 1, 1]);
    assert_eq!(sizes(&split_map(&entities(1), 1)), vec![1]);
}

#[test]
fn leftover_joins_the_last_chunk() {
    assert_eq!(sizes(&split_map(&entities(7), 3)), vec![2, 2, 3]);
    assert_eq!(sizes(&split_map(&entities(5), 2)), vec![2, 3]);
    assert_eq!(sizes(&split_map(&entities(11), 4)), vec![2, 2, 2, 2, 3]);
}

#[test]
fn fewer_entries_than_files_give_one_chunk() {
    assert_eq!(sizes(&split_map(&entities(3), 5)), vec![3]);
    assert_eq!(sizes(&split_map(&entities(1), 2)), vec![1]);
}

#[test]
fn no_entries_give_no_chunk() {
    assert_eq!(sizes(&split_map(&entities(0), 1)), Vec::<usize>::new());
    assert_eq!(sizes(&split_map(&entities(0), 4)), Vec::<usize>::new());
}

#[test]
fn chunks_are_closed_at_the_rounded_size() {
    assert_eq!(sizes(&split_map(&entities(10), 4)), vec![2, 2, 2, 2, 2]);
    assert_eq!(sizes(&split_map(&entities(3), 2)), vec![1, 1, 1]);
    assert_eq!(sizes(&split_map(&entities(9), 5)), vec![1, 1, 1, 1, 1, 1, 1, 1, 1]);
}

#[test]
fn chunks_together_are_the_entries() {
    for e in 0..30 {
        for n in 1..12 {
            let all = entities(e);
            let chunks = split_map(&all, n);
            assert_eq!(joined(&chunks), all);
            assert!(chunks.iter().all(|c| !c.is_empty()));
        }
    }
}

#[test]
fn chunk_count_where_the_entries_divide_well() {
    for e in 1..40usize {
        for n in 1..12usize {
            let divides_well = if e < n { e == 1 } else { e / (e / n) == n };
            let chunks = split_map(&entities(e), n);
            assert_eq!(chunks.len() == expected_chunks(e, n), divides_well);
            if divides_well {
                assert!(chunks.len() <= n);
            }
        }
    }
    assert_eq!(split_map(&entities(7), 3).len(), expected_chunks(7, 3));
    assert_eq!(expected_chunks(7, 3), 3);
}

#[test]
fn head_entity_names_the_first_entity_of_each_chunk() {
    let root = root_with(7);
    let chunks = split_map(root.as_table().unwrap()[1].1.as_table().unwrap(), 3);
    let trees = split_lua_tables(&root, &chunks).expect("the tree can be split");
    assert_eq!(trees.len(), 3);
    for (tree, chunk) in trees.iter().zip(chunks.iter()) {
        let table = tree.as_table().expect("a table");
        let ents = table_get(table, &text("Entities")).expect("entities").as_table().expect("a table");
        assert_eq!(ents, chunk);
        let head = table_get(table, &text("HeadEnt")).expect("head").as_table().expect("a table");
        let index = table_get(head, &text("Index")).expect("index");
        assert_eq!(index, &chunk[0].0);
        assert!(table_get(ents, index).is_some());
        assert_eq!(table_get(head, &text("Z")), Some(&number(0.5)));
        assert_eq!(table_get(table, &text("Constraints")), Some(&LuaValue::Array(vec![])));
        assert_eq!(table.len(), 3);
        assert!(tree.is_well_formed());
    }
    assert_eq!(
        table_get(
            table_get(trees[1].as_table().unwrap(), &text("HeadEnt")).unwrap().as_table().unwrap(),
            &text("Index")
        ),
        Some(&number(3.0))
    );
}

#[test]
fn rebase_keeps_the_places_of_the_keys() {
    let root = root_with(2);
    let chunk = vec![(number(9.0), text("nine"))];
    let tree = rebase(&root, &chunk).expect("the tree can be split");
    assert_eq!(
        tree,
        LuaValue::Table(vec![
            (text("Constraints"), LuaValue::Array(vec![])),
            (text("Entities"), LuaValue::Table(chunk.clone())),
            (
                text("HeadEnt"),
                LuaValue::Table(vec![(text("Index"), number(9.0)), (text("Z"), number(0.5))])
            ),
        ])
    );
}

#[test]
fn rebase_adds_entities_where_there_are_none() {
    let root = LuaValue::Table(vec![(text("HeadEnt"), LuaValue::Table(vec![(text("Index"), number(1.0))]))]);
    let chunk = vec![(number(4.0), text("four"))];
    let tree = rebase(&root, &chunk).expect("the tree can be split");
    assert_eq!(
        tree,
        LuaValue::Table(vec![
            (text("HeadEnt"), LuaValue::Table(vec![(text("Index"), number(4.0))])),
            (text("Entities"), LuaValue::Table(chunk.clone())),
        ])
    );
}

#[test]
fn tree_without_head_entity_cannot_be_split() {
    let chunk = vec![(number(1.0), text("one"))];
    let no_table = text("root");
    let no_head = LuaValue::Table(vec![(text("Entities"), LuaValue::Table(vec![]))]);
    let head_no_table = LuaValue::Table(vec![(text("HeadEnt"), number(1.0))]);
    let no_index = LuaValue::Table(vec![(text("HeadEnt"), LuaValue::Table(vec![]))]);
    for (root, key) in [
        (no_table, "HeadEnt"),
        (no_head, "HeadEnt"),
        (head_no_table, "HeadEnt"),
        (no_index, "Index"),
    ] {
        assert_eq!(rebase(&root, &chunk), Err(lacks(key)));
        assert_eq!(split_lua_tables(&root, &vec![chunk.clone()]), Err(lacks(key)));
        assert_eq!(split_lua_tables(&root, &vec![]), Ok(vec![]));
    }
}

#[test]
fn empty_chunk_cannot_be_a_file() {
    let root = root_with(2);
    assert_eq!(rebase(&root, &vec![]), Err(lacks("Entities")));
    assert_eq!(split_lua_tables(&root, &vec![entities(1), vec![]]), Err(lacks("Entities")));
}

#[test]
fn perform_split_gives_one_file_for_each_chunk() {
    let file = file_with(7);
    let files = perform_split(&file, Some(3)).expect("the file can be split");
    assert_eq!(files.len(), 3);
    let mut seen: Vec<(LuaValue, LuaValue)> = Vec::new();
    for out in files.iter() {
        assert_eq!(out.info().values(), file.info().values());
        assert_eq!(out.info().player_name(), "me");
        let table = out.value().as_table().expect("a table");
        let ents = table_get(table, &text("Entities")).expect("entities").as_table().expect("a table");
        let head = table_get(table, &text("HeadEnt")).expect("head").as_table().expect("a table");
        assert!(table_get(ents, table_get(head, &text("Index")).expect("index")).is_some());
        seen.extend(ents.iter().cloned());
    }
    assert_eq!(seen, entities(7));
}

#[test]
fn perform_split_without_a_count_keeps_the_file_whole() {
    let file = file_with(4);
    let files = perform_split(&file, None).expect("the file has entities");
    assert_eq!(files.len(), 1);
    assert_eq!(files[0].value(), file.value());
    assert_eq!(files[0].info().values(), file.info().values());
}

#[test]
fn perform_split_of_no_entities_gives_no_file() {
    let files = perform_split(&file_with(0), Some(2)).expect("nothing to split");
    assert_eq!(files.len(), 0);
}

#[test]
fn perform_split_needs_entities() {
    let no_table = DuplicationResult::new(DuplicationInfo::new(), text("root"));
    let no_entities = DuplicationResult::new(DuplicationInfo::new(), LuaValue::Table(vec![]));
    let entities_no_table = DuplicationResult::new(
        DuplicationInfo::new(),
        LuaValue::Table(vec![(text("Entities"), number(1.0))]),
    );
    let no_head = DuplicationResult::new(
        DuplicationInfo::new(),
        LuaValue::Table(vec![(text("Entities"), LuaValue::Table(entities(2)))]),
    );
    for file in [&no_table, &no_entities, &entities_no_table] {
        assert_eq!(perform_split(file, Some(2)).err(), Some(lacks("Entities")));
        assert_eq!(perform_split(file, None).err(), Some(lacks("Entities")));
    }
    assert_eq!(perform_split(&no_head, Some(2)).err(), Some(lacks("HeadEnt")));
    assert_eq!(perform_split(&no_head, None).map(|f| f.len()), Ok(1));
}

#[test]
fn split_files_can_be_written_and_read_back() {
    let file = file_with(5);
    let files = perform_split(&file, Some(2)).expect("the file can be split");
    assert_eq!(files.len(), 2);
    for out in files.iter() {
        assert!(out.value().is_well_formed());
        assert!(out.value().is_encodable());
        let image = encode(out.info(), out.value()).expect("the compressor works");
        let back = decode(&image).expect("the file is valid");
        assert_eq!(back.value(), out.value());
        assert_eq!(back.info().values(), out.info().values());
    }
}

#[test]
fn output_files_are_named_after_the_stem() {
    assert_eq!(output_name("dupe", 0), "dupe-0.txt");
    assert_eq!(output_name("dupe", 12), "dupe-12.txt");
    assert_eq!(output_name("", 3), "-3.txt");
    assert_eq!(output_name("my.save", 1005), "my.save-1005.txt");
}

#[test]
fn the_first_thing_that_is_missing_is_named() {
    let no_head = LuaValue::Table(vec![(text("Entities"), LuaValue::Table(vec![]))]);
    let no_index = LuaValue::Table(vec![(text("HeadEnt"), LuaValue::Table(vec![]))]);
    assert_eq!(rebase(&no_head, &vec![]), Err(lacks("HeadEnt")));
    assert_eq!(rebase(&no_index, &vec![]), Err(lacks("Entities")));
    assert_eq!(split_lua_tables(&no_index, &vec![entities(1), vec![]]), Err(lacks("Index")));
    assert_eq!(split_lua_tables(&no_index, &vec![vec![], entities(1)]), Err(lacks("Entities")));
}

#[test]
fn perform_split_names_the_missing_index() {
    let no_index = DuplicationResult::new(
        DuplicationInfo::new(),
        LuaValue::Table(vec![
            (text("Entities"), LuaValue::Table(entities(3))),
            (text("HeadEnt"), LuaValue::Table(vec![(text("Z"), number(1.0))])),
        ]),
    );
    assert_eq!(perform_split(&no_index, Some(2)).err(), Some(lacks("Index")));
    assert_eq!(
        perform_split(&no_index, Some(2)).err().map(|e| e.describe()),
        Some("Unable to split the table: Index".to_string())
    );
}
