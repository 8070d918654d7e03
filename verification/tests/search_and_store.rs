use arrow_array::StringArray;

use sukusho::batch::{
    check_vectors, model_is_needed, pair_records, sub_batch_len, to_unix_seconds, BatchError,
    FileMeta,
};
use sukusho::columns::{add_sizes, collect_texts, TextColumn};
use sukusho::corpus::{distinct_paths, CorpusScan, DirEntry, EntryKind, IndexedPaths};
use sukusho::search::{
    search_images, select_existing, SearchAction, SearchOutcome, DEFAULT_LIMIT,
};
use sukusho::store::{
    create_schema, delete_predicate, has_images_table, insert_mode, next_open_step,
    ColumnKind, InsertMode, OpenStep, EMBEDDING_DIM,
};
use sukusho::text::clone_range;

fn strings(items: &[&str]) -> Vec<String> {
    items.iter().map(|s| s.to_string()).collect()
}

#[test]
fn search_in_an_empty_store_returns_nothing() {
    let (state, action) = search_images("a cat".to_string(), 100);
    assert_eq!(action, SearchAction::EmbedQuery("a cat".to_string()));
    let (state, action) = state.advance(SearchOutcome::Embedded(1));
    assert_eq!(action, SearchAction::OpenStore);
    let (state, action) = state.advance(SearchOutcome::StoreOpened);
    assert_eq!(action, SearchAction::ListTables);
    let (state, action) = state.advance(SearchOutcome::Tables(Vec::new()));
    assert_eq!(action, SearchAction::Finish(Vec::new()));
    assert!(state.is_done());
}

#[test]
fn search_filters_stale_rows_and_keeps_the_ranking() {
    let (state, _) = search_images("login form".to_string(), 2);
    let (state, _) = state.advance(SearchOutcome::Embedded(1));
    let (state, _) = state.advance(SearchOutcome::StoreOpened);
    let (state, action) =
        state.advance(SearchOutcome::Tables(strings(&["other", "images"])));
    assert_eq!(action, SearchAction::Query(2));
    assert!(!state.is_done());
    let ranked = strings(&["/s/gone.png", "/s/best.png", "/s/next.png"]);
    let (state, action) = state.advance(SearchOutcome::Candidates(ranked.clone()));
    assert_eq!(action, SearchAction::CheckFiles(ranked));
    let (state, action) = state.advance(SearchOutcome::Existence(vec![false, true, true]));
    assert_eq!(action, SearchAction::Finish(strings(&["/s/best.png", "/s/next.png"])));
    assert!(state.is_done());
}

#[test]
fn query_without_a_vector_returns_nothing() {
    let (state, _) = search_images("x".to_string(), 10);
    let (state, action) = state.advance(SearchOutcome::Embedded(0));
    assert_eq!(action, SearchAction::Finish(Vec::new()));
    assert!(state.is_done());
}

#[test]
fn search_failure_degrades_to_no_result() {
    let (state, _) = search_images("x".to_string(), 10);
    let (_, action) = state.advance(SearchOutcome::Failed);
    assert_eq!(action, SearchAction::Finish(Vec::new()));

    let (state, _) = search_images("x".to_string(), 10);
    let (state, _) = state.advance(SearchOutcome::Embedded(1));
    let (state, action) = state.advance(SearchOutcome::Failed);
    assert_eq!(action, SearchAction::Finish(Vec::new()));
    let (_, action) = state.advance(SearchOutcome::StoreOpened);
    assert_eq!(action, SearchAction::Finish(Vec::new()));

    // a report that answers another action
    let (state, _) = search_images("x".to_string(), 10);
    let (_, action) = state.advance(SearchOutcome::Existence(vec![true]));
    assert_eq!(action, SearchAction::Finish(Vec::new()));
}

#[test]
fn select_existing_takes_the_first_limit_that_exist() {
    let c = strings(&["a", "b", "c", "d", "e"]);
    assert_eq!(
        select_existing(&c, &vec![true, false, true, true, true], 2),
        strings(&["a", "c"])
    );
    assert_eq!(
        select_existing(&c, &vec![true, false, true, true, true], 100),
        strings(&["a", "c", "d", "e"])
    );
    assert_eq!(select_existing(&c, &vec![true; 5], 0), Vec::<String>::new());
    assert_eq!(select_existing(&c, &vec![false; 5], 3), Vec::<String>::new());
    // positions that the report does not cover count as missing
    assert_eq!(select_existing(&c, &vec![false, true], 3), strings(&["b"]));
    assert_eq!(select_existing(&c, &Vec::new(), 3), Vec::<String>::new());
    assert_eq!(select_existing(&Vec::new(), &vec![true], 3), Vec::<String>::new());
    // a deleted path is no candidate, so it is no result
    assert!(!select_existing(&c, &vec![true; 5], 5).contains(&"deleted".to_string()));
}

#[test]
fn table_presence_decides_the_operations() {
    let without = strings(&["image", "Images", ""]);
    let with = strings(&["a", "images"]);
    assert!(!has_images_table(&without));
    assert!(!has_images_table(&Vec::new()));
    assert!(has_images_table(&with));
    assert_eq!(insert_mode(&without), InsertMode::CreateTable);
    assert_eq!(insert_mode(&with), InsertMode::Append);
}

#[test]
fn schema_has_the_four_columns() {
    let columns = create_schema();
    let got: Vec<(&str, ColumnKind, bool)> =
        columns.iter().map(|c| (c.name.as_str(), c.kind, c.nullable)).collect();
    assert_eq!(
        got,
        vec![
            ("file_path", ColumnKind::Utf8, false),
            ("file_size", ColumnKind::UInt64, false),
            ("modified_time", ColumnKind::Int64, false),
            ("vector", ColumnKind::Vector(768), true),
        ]
    );
    assert_eq!(EMBEDDING_DIM, 768);
}

#[test]
fn delete_filter_quotes_the_path() {
    assert_eq!(delete_predicate("/shots/a.png"), "file_path = '/shots/a.png'");
    assert_eq!(delete_predicate(""), "file_path = ''");
    assert_eq!(delete_predicate("it's"), "file_path = 'it''s'");
    assert_eq!(delete_predicate("''"), "file_path = ''''''");
    assert_eq!(delete_predicate("C:\\shots\\é.png"), "file_path = 'C:\\shots\\é.png'");
}

#[test]
fn corrupt_store_is_wiped_once() {
    assert_eq!(next_open_step(0), OpenStep::Connect);
    assert_eq!(next_open_step(1), OpenStep::WipeAndConnect);
    assert_eq!(next_open_step(2), OpenStep::GiveUp);
    assert_eq!(next_open_step(usize::MAX), OpenStep::GiveUp);
}

#[test]
fn column_texts_skip_null_rows() {
    let column = TextColumn {
        values: StringArray::from(vec![Some("/s/a.png"), None, Some(""), Some("/s/b.png")]),
    };
    let mut out = strings(&["kept"]);
    collect_texts(&column, &mut out);
    assert_eq!(out, strings(&["kept", "/s/a.png", "", "/s/b.png"]));

    let empty = TextColumn { values: StringArray::from(Vec::<Option<&str>>::new()) };
    collect_texts(&empty, &mut out);
    assert_eq!(out.len(), 4);

    let nulls = TextColumn { values: StringArray::from(vec![None::<&str>, None]) };
    collect_texts(&nulls, &mut out);
    assert_eq!(out.len(), 4);

    let plain = TextColumn { values: StringArray::from(vec!["x", "y"]) };
    let mut fresh = Vec::new();
    collect_texts(&plain, &mut fresh);
    assert_eq!(fresh, strings(&["x", "y"]));
}

#[test]
fn sizes_add_up_or_overflow() {
    assert_eq!(add_sizes(0, &vec![]), Some(0));
    assert_eq!(add_sizes(5, &vec![1, 2, 3]), Some(11));
    assert_eq!(add_sizes(u64::MAX - 6, &vec![1, 2, 3]), Some(u64::MAX));
    assert_eq!(add_sizes(u64::MAX - 5, &vec![1, 2, 3]), None);
    assert_eq!(add_sizes(1, &vec![u64::MAX]), None);
}

#[test]
fn empty_input_needs_no_model() {
    assert!(!model_is_needed(0));
    assert!(model_is_needed(1));
    assert!(model_is_needed(usize::MAX));
    assert_eq!(DEFAULT_LIMIT, 100);
}

#[test]
fn sub_batch_is_what_came_back() {
    assert_eq!(sub_batch_len(8, 8), Ok(8));
    assert_eq!(sub_batch_len(8, 5), Ok(5));
    assert_eq!(sub_batch_len(8, 0), Ok(0));
    assert_eq!(sub_batch_len(8, 9), Err(BatchError::CountMismatch));
    assert_eq!(sub_batch_len(0, 0), Ok(0));
}

#[test]
fn rows_pair_by_position() {
    let paths = strings(&["a", "b", "c"]);
    let m = |s: u64, t: u64| Some(FileMeta { size: s, modified_secs: t });
    let rows = pair_records(&paths, &vec![m(1, 10), m(2, 20), m(3, 30)]).unwrap();
    let got: Vec<(&str, u64, i64, usize)> = rows
        .iter()
        .map(|r| (r.file_path.as_str(), r.file_size, r.modified_time, r.vector))
        .collect();
    assert_eq!(got, vec![("a", 1, 10, 0), ("b", 2, 20, 1), ("c", 3, 30, 2)]);
    // what is reported past the files is not looked at
    assert_eq!(pair_records(&paths, &vec![m(1, 1); 5]).unwrap().len(), 3);
    assert_eq!(pair_records(&Vec::new(), &vec![None]), Ok(Vec::new()));
}

#[test]
fn unreadable_metadata_yields_no_rows() {
    let paths = strings(&["a", "b", "c"]);
    let m = |s: u64, t: u64| Some(FileMeta { size: s, modified_secs: t });
    assert_eq!(
        pair_records(&paths, &vec![m(1, 10), None, m(3, 30)]),
        Err(BatchError::MetadataUnreadable)
    );
    assert_eq!(pair_records(&paths, &vec![m(1, 1)]), Err(BatchError::MetadataUnreadable));
    assert_eq!(pair_records(&paths, &Vec::new()), Err(BatchError::MetadataUnreadable));
}

#[test]
fn vectors_are_checked_for_number_and_length() {
    assert_eq!(check_vectors(3, &vec![768, 768, 768]), Ok(3));
    assert_eq!(check_vectors(3, &vec![768]), Ok(1));
    assert_eq!(check_vectors(3, &Vec::new()), Ok(0));
    assert_eq!(check_vectors(0, &Vec::new()), Ok(0));
    assert_eq!(check_vectors(2, &vec![768, 768, 768]), Err(BatchError::CountMismatch));
    assert_eq!(check_vectors(2, &vec![1, 2, 3]), Err(BatchError::CountMismatch));
    assert_eq!(check_vectors(3, &vec![768, 767, 768]), Err(BatchError::WrongDimension));
    assert_eq!(check_vectors(3, &vec![769]), Err(BatchError::WrongDimension));
}

#[test]
fn distinct_paths_keep_first_occurrences() {
    assert_eq!(distinct_paths(&strings(&["a", "b", "a", "c", "b"])), strings(&["a", "b", "c"]));
    assert_eq!(distinct_paths(&strings(&["a", "a"])), strings(&["a"]));
    assert!(distinct_paths(&Vec::new()).is_empty());
}

#[test]
fn unix_seconds_keep_their_bits() {
    assert_eq!(to_unix_seconds(0), 0);
    assert_eq!(to_unix_seconds(1_700_000_000), 1_700_000_000);
    assert_eq!(to_unix_seconds(i64::MAX as u64), i64::MAX);
    assert_eq!(to_unix_seconds(i64::MAX as u64 + 1), i64::MIN);
    assert_eq!(to_unix_seconds(u64::MAX), -1);
}

#[test]
fn clone_range_copies_the_slice() {
    let items = strings(&["a", "b", "c", "d"]);
    assert_eq!(clone_range(&items, 1, 3), strings(&["b", "c"]));
    assert_eq!(clone_range(&items, 0, 4), items);
    assert!(clone_range(&items, 2, 2).is_empty());
}

#[test]
fn scan_diffs_against_the_index() {
    let mut indexed = IndexedPaths::new();
    assert!(indexed.insert("/s/a.png".to_string()));
    assert!(!indexed.insert("/s/a.png".to_string()));
    indexed.extend(&strings(&["/s/sub/b.jpg"]));
    assert!(indexed.contains("/s/sub/b.jpg"));
    assert!(!indexed.contains("/s/c.png"));

    let entry = |p: &str, kind| DirEntry { path: p.to_string(), kind };
    for diff in [true, false] {
        let mut scan = CorpusScan::new("/s".to_string(), diff);
        assert_eq!(scan.next_directory(), Some("/s".to_string()));
        scan.record(
            &vec![
                entry("/s/a.png", EntryKind::File),
                entry("/s/sub", EntryKind::Directory),
                entry("/s/c.png", EntryKind::File),
                entry("/s/d.txt", EntryKind::File),
                entry("/s/e.png", EntryKind::Other),
            ],
            &indexed,
        );
        assert_eq!(scan.next_directory(), Some("/s/sub".to_string()));
        scan.record(&vec![entry("/s/sub/b.jpg", EntryKind::File)], &indexed);
        assert_eq!(scan.next_directory(), None);
        assert_eq!(scan.next_directory(), None);
        let files = scan.finish();
        if diff {
            assert_eq!(files, strings(&["/s/c.png"]));
        } else {
            assert_eq!(files, strings(&["/s/a.png", "/s/c.png", "/s/sub/b.jpg"]));
        }
    }
}

#[test]
fn rescan_after_indexing_finds_nothing() {
    let mut indexed = IndexedPaths::new();
    let listing = vec![
        DirEntry { path: "/s/a.png".to_string(), kind: EntryKind::File },
        DirEntry { path: "/s/b.png".to_string(), kind: EntryKind::File },
    ];
    let mut scan = CorpusScan::new("/s".to_string(), true);
    scan.next_directory();
    scan.record(&listing, &indexed);
    let found = scan.finish();
    assert_eq!(found.len(), 2);
    indexed.extend(&found);
    let mut again = CorpusScan::new("/s".to_string(), true);
    again.next_directory();
    again.record(&listing, &indexed);
    assert!(again.finish().is_empty());
}
