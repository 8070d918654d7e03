use sukusho::batch::{FileMeta, IndexedRecord};
use sukusho::config::{CpuMode, IndexConfig};
use sukusho::corpus::{DirEntry, EntryKind};
use sukusho::events::ProgressEvent;
use sukusho::indexer::{start_indexing, Action, IndexerState, Outcome, Step};
use sukusho::run::Phase;

/// A corpus and a store held in memory, and how the models behave.
struct World {
    dirs: Vec<(String, Vec<DirEntry>)>,
    stored: Vec<IndexedRecord>,
    /// Fail the embedding of the batch with this number (from 0).
    embed_fails_at: Option<usize>,
    /// Return this many vectors for every batch instead of one per file.
    vectors_per_batch: Option<usize>,
    /// Files whose metadata cannot be read.
    unreadable: Vec<String>,
    /// Number of components of every vector.
    dimension: usize,
    store_opens: bool,
    insert_fails: bool,
    remove_fails: bool,
    batches: Vec<usize>,
    removals: Vec<Vec<String>>,
    opened: Vec<String>,
    sleeps: Vec<u64>,
}

fn world(dirs: Vec<(String, Vec<DirEntry>)>) -> World {
    World {
        dirs,
        stored: Vec::new(),
        embed_fails_at: None,
        vectors_per_batch: None,
        unreadable: Vec::new(),
        dimension: 768,
        store_opens: true,
        insert_fails: false,
        remove_fails: false,
        batches: Vec::new(),
        removals: Vec::new(),
        opened: Vec::new(),
        sleeps: Vec::new(),
    }
}

fn file(path: &str) -> DirEntry {
    DirEntry { path: path.to_string(), kind: EntryKind::File }
}

fn dir(path: &str) -> DirEntry {
    DirEntry { path: path.to_string(), kind: EntryKind::Directory }
}

fn config(mode: CpuMode) -> IndexConfig {
    IndexConfig {
        db_path: "/data/index".to_string(),
        cpu_mode: mode,
        screenshot_dir: "/shots".to_string(),
    }
}

fn meta_of(path: &str) -> FileMeta {
    FileMeta { size: path.len() as u64 * 100, modified_secs: 1_700_000_000 + path.len() as u64 }
}

fn perform(world: &mut World, action: Action) -> Option<Outcome> {
    Some(match action {
        Action::LoadVisionModel | Action::LoadTextModel => Outcome::ModelLoaded,
        Action::OpenStore(path) => {
            world.opened.push(path);
            if world.store_opens {
                Outcome::StoreOpened
            } else {
                Outcome::StoreFailed("cannot open".to_string())
            }
        }
        Action::LoadIndexedPaths => {
            Outcome::IndexLoaded(world.stored.iter().map(|r| r.file_path.clone()).collect())
        }
        Action::ReadDir(path) => match world.dirs.iter().find(|(d, _)| *d == path) {
            Some((_, entries)) => Outcome::DirListing(entries.clone()),
            None => Outcome::DirUnreadable,
        },
        Action::Embed(paths) => {
            let number = world.batches.len();
            world.batches.push(paths.len());
            if world.embed_fails_at == Some(number) {
                Outcome::EmbedFailed("model broke".to_string())
            } else {
                Outcome::Embedded(vec![
                    world.dimension;
                    world.vectors_per_batch.unwrap_or(paths.len())
                ])
            }
        }
        Action::RemoveRows(paths) => {
            if world.remove_fails {
                Outcome::RemoveFailed("locked".to_string())
            } else {
                world.stored.retain(|r| !paths.contains(&r.file_path));
                world.removals.push(paths);
                Outcome::Removed
            }
        }
        Action::ReadMetadata(paths) => Outcome::Metadata(
            paths
                .iter()
                .map(|p| if world.unreadable.contains(p) { None } else { Some(meta_of(p)) })
                .collect(),
        ),
        Action::Insert(rows) => {
            if world.insert_fails {
                Outcome::InsertFailed("disk full".to_string())
            } else {
                world.stored.extend(rows);
                Outcome::Inserted
            }
        }
        Action::Sleep(ms) => {
            world.sleeps.push(ms);
            Outcome::Slept
        }
        Action::Finish => return None,
    })
}

fn drive(world: &mut World, first: (IndexerState, Step)) -> (IndexerState, Vec<ProgressEvent>) {
    let (mut state, mut step) = first;
    let mut events = Vec::new();
    for _ in 0..10_000 {
        events.extend(step.events);
        match perform(world, step.action) {
            None => return (state, events),
            Some(outcome) => {
                let next = state.advance(outcome);
                state = next.0;
                step = next.1;
            }
        }
    }
    panic!("the run does not end");
}

fn index(world: &mut World, mode: CpuMode, force_all: bool) -> Vec<ProgressEvent> {
    drive(world, start_indexing(config(mode), force_all, true, true)).1
}

fn three_pngs() -> Vec<(String, Vec<DirEntry>)> {
    vec![(
        "/shots".to_string(),
        vec![file("/shots/a.png"), file("/shots/b.PNG"), file("/shots/c.png"), file("/shots/notes.txt")],
    )]
}

fn many(n: usize) -> Vec<(String, Vec<DirEntry>)> {
    vec![("/shots".to_string(), (0..n).map(|i| file(&format!("/shots/{:03}.png", i))).collect())]
}

fn progress(current: usize, total: usize, label: &str) -> ProgressEvent {
    ProgressEvent::Progress(current, total, label.to_string())
}

#[test]
fn three_new_files_are_indexed() {
    let mut w = world(three_pngs());
    let events = index(&mut w, CpuMode::Normal, false);
    assert_eq!(
        events,
        vec![ProgressEvent::Started(3), progress(3, 3, "a.png"), ProgressEvent::Completed(3)]
    );
    assert_eq!(w.stored.len(), 3);
    assert_eq!(w.batches, vec![3]);
    assert_eq!(w.sleeps, vec![25]);
    assert_eq!(
        w.stored[1],
        IndexedRecord {
            file_path: "/shots/b.PNG".to_string(),
            file_size: 1200,
            modified_time: 1_700_000_012,
            vector: 1,
        }
    );
}

#[test]
fn one_indexed_one_new() {
    let mut w = world(vec![(
        "/shots".to_string(),
        vec![file("/shots/old.png"), file("/shots/new.png")],
    )]);
    w.stored.push(IndexedRecord {
        file_path: "/shots/old.png".to_string(),
        file_size: 1,
        modified_time: 1,
        vector: 0,
    });
    let events = index(&mut w, CpuMode::Fast, false);
    assert_eq!(
        events,
        vec![ProgressEvent::Started(1), progress(1, 1, "new.png"), ProgressEvent::Completed(1)]
    );
    assert_eq!(w.stored.len(), 2);
    assert_eq!(w.stored[1].file_path, "/shots/new.png");
    assert!(w.sleeps.is_empty());
}

#[test]
fn second_incremental_run_indexes_nothing() {
    let mut w = world(three_pngs());
    index(&mut w, CpuMode::Normal, false);
    w.batches.clear();
    let events = index(&mut w, CpuMode::Normal, false);
    assert_eq!(events, vec![ProgressEvent::Completed(0)]);
    assert!(w.batches.is_empty());
    assert_eq!(w.stored.len(), 3);
}

#[test]
fn force_all_embeds_indexed_files_again() {
    let mut w = world(three_pngs());
    index(&mut w, CpuMode::Normal, false);
    let events = index(&mut w, CpuMode::Normal, true);
    assert_eq!(events[0], ProgressEvent::Started(3));
    assert_eq!(events[events.len() - 1], ProgressEvent::Completed(3));
}

#[test]
fn empty_corpus_completes_without_start() {
    let mut w = world(vec![("/shots".to_string(), vec![file("/shots/readme.md")])]);
    let events = index(&mut w, CpuMode::Normal, false);
    assert_eq!(events, vec![ProgressEvent::Completed(0)]);
    assert!(w.batches.is_empty());
}

#[test]
fn missing_root_is_an_empty_corpus() {
    let mut w = world(Vec::new());
    let events = index(&mut w, CpuMode::Fast, true);
    assert_eq!(events, vec![ProgressEvent::Completed(0)]);
}

#[test]
fn subdirectories_are_walked_and_unreadable_ones_skipped() {
    let mut w = world(vec![
        (
            "/shots".to_string(),
            vec![dir("/shots/2023"), file("/shots/top.jpg"), dir("/shots/locked"), dir("/shots/2024")],
        ),
        ("/shots/2023".to_string(), vec![file("/shots/2023/x.webp"), dir("/shots/2023/deep")]),
        ("/shots/2023/deep".to_string(), vec![file("/shots/2023/deep/y.gif")]),
        (
            "/shots/2024".to_string(),
            vec![
                file("/shots/2024/z.avif"),
                DirEntry { path: "/shots/2024/pipe.png".to_string(), kind: EntryKind::Other },
            ],
        ),
    ]);
    let events = index(&mut w, CpuMode::Fast, false);
    assert_eq!(events[0], ProgressEvent::Started(4));
    assert_eq!(events[events.len() - 1], ProgressEvent::Completed(4));
    let mut paths: Vec<String> = w.stored.iter().map(|r| r.file_path.clone()).collect();
    paths.sort();
    assert_eq!(
        paths,
        vec!["/shots/2023/deep/y.gif", "/shots/2023/x.webp", "/shots/2024/z.avif", "/shots/top.jpg"]
    );
}

#[test]
fn normal_mode_batches_by_eight_and_pauses() {
    let mut w = world(many(20));
    let events = index(&mut w, CpuMode::Normal, false);
    assert_eq!(w.batches, vec![8, 8, 4]);
    assert_eq!(w.sleeps, vec![25, 25, 25]);
    assert_eq!(
        events,
        vec![
            ProgressEvent::Started(20),
            progress(8, 20, "000.png"),
            progress(16, 20, "008.png"),
            progress(20, 20, "016.png"),
            ProgressEvent::Completed(20),
        ]
    );
}

#[test]
fn fast_mode_batches_by_thirty_two_without_pause() {
    let mut w = world(many(40));
    let events = index(&mut w, CpuMode::Fast, false);
    assert_eq!(w.batches, vec![32, 8]);
    assert!(w.sleeps.is_empty());
    assert_eq!(
        events,
        vec![
            ProgressEvent::Started(40),
            progress(32, 40, "000.png"),
            progress(40, 40, "032.png"),
            ProgressEvent::Completed(40),
        ]
    );
}

#[test]
fn exact_multiple_of_the_batch_size() {
    let mut w = world(many(16));
    index(&mut w, CpuMode::Normal, false);
    assert_eq!(w.batches, vec![8, 8]);
}

#[test]
fn modes_leave_the_same_rows() {
    let mut normal = world(many(50));
    let mut fast = world(many(50));
    index(&mut normal, CpuMode::Normal, false);
    index(&mut fast, CpuMode::Fast, false);
    let strip = |rows: &Vec<IndexedRecord>| -> Vec<(String, u64, i64)> {
        rows.iter().map(|r| (r.file_path.clone(), r.file_size, r.modified_time)).collect()
    };
    assert_eq!(strip(&normal.stored), strip(&fast.stored));
    assert_eq!(normal.stored.len(), 50);
}

#[test]
fn progress_never_steps_back() {
    let mut w = world(many(30));
    w.vectors_per_batch = Some(5);
    let events = index(&mut w, CpuMode::Normal, false);
    let mut last = 0;
    let mut seen = 0;
    for e in &events {
        if let ProgressEvent::Progress(current, total, _) = e {
            assert!(*current >= last);
            assert_eq!(*total, 30);
            last = *current;
            seen += 1;
        }
    }
    assert_eq!(seen, 4);
    // 8, 8, 8 and 6 files were asked for; five vectors came back each time.
    assert_eq!(events[events.len() - 1], ProgressEvent::Completed(20));
    assert_eq!(w.stored.len(), 20);
}

#[test]
fn short_embedding_keeps_the_first_files_of_the_batch() {
    let mut w = world(three_pngs());
    w.vectors_per_batch = Some(2);
    let events = index(&mut w, CpuMode::Fast, false);
    assert_eq!(
        events,
        vec![ProgressEvent::Started(3), progress(2, 3, "a.png"), ProgressEvent::Completed(2)]
    );
    let paths: Vec<&str> = w.stored.iter().map(|r| r.file_path.as_str()).collect();
    assert_eq!(paths, vec!["/shots/a.png", "/shots/b.PNG"]);
    assert_eq!(w.stored[0].vector, 0);
    assert_eq!(w.stored[1].vector, 1);
}

#[test]
fn no_vector_at_all_still_reports_progress() {
    let mut w = world(three_pngs());
    w.vectors_per_batch = Some(0);
    let events = index(&mut w, CpuMode::Fast, false);
    assert_eq!(
        events,
        vec![ProgressEvent::Started(3), progress(0, 3, "a.png"), ProgressEvent::Completed(0)]
    );
    assert!(w.stored.is_empty());
}

#[test]
fn too_many_vectors_is_a_mismatch() {
    let mut w = world(three_pngs());
    w.vectors_per_batch = Some(4);
    let events = index(&mut w, CpuMode::Fast, false);
    assert_eq!(
        events,
        vec![
            ProgressEvent::Started(3),
            ProgressEvent::Failed("Mismatch between paths and embeddings count".to_string()),
        ]
    );
    assert!(w.stored.is_empty());
}

#[test]
fn first_batch_failure_fails_the_run() {
    let mut w = world(many(20));
    w.embed_fails_at = Some(0);
    let events = index(&mut w, CpuMode::Normal, false);
    assert_eq!(
        events,
        vec![ProgressEvent::Started(20), ProgressEvent::Failed("model broke".to_string())]
    );
    assert_eq!(w.batches, vec![8]);
}

#[test]
fn later_batch_failure_completes_with_the_partial_count() {
    let mut w = world(many(20));
    w.embed_fails_at = Some(1);
    let events = index(&mut w, CpuMode::Normal, false);
    assert_eq!(
        events,
        vec![ProgressEvent::Started(20), progress(8, 20, "000.png"), ProgressEvent::Completed(8)]
    );
    assert_eq!(w.stored.len(), 8);
    // the remaining worklist is abandoned
    assert_eq!(w.batches, vec![8, 8]);
}

#[test]
fn insert_failure_follows_the_same_rule() {
    let mut w = world(three_pngs());
    w.insert_fails = true;
    let events = index(&mut w, CpuMode::Fast, false);
    assert_eq!(
        events,
        vec![ProgressEvent::Started(3), ProgressEvent::Failed("disk full".to_string())]
    );
}

#[test]
fn store_that_does_not_open_fails_the_run() {
    let mut w = world(three_pngs());
    w.store_opens = false;
    let events = index(&mut w, CpuMode::Fast, false);
    assert_eq!(events, vec![ProgressEvent::Failed("cannot open".to_string())]);
}

#[test]
fn unreadable_metadata_fails_the_batch() {
    let mut w = world(three_pngs());
    w.unreadable.push("/shots/b.PNG".to_string());
    let events = index(&mut w, CpuMode::Fast, false);
    assert_eq!(
        events,
        vec![
            ProgressEvent::Started(3),
            ProgressEvent::Failed("Failed to read file metadata".to_string()),
        ]
    );
    assert!(w.stored.is_empty());
}

#[test]
fn unreadable_metadata_in_a_later_batch_keeps_the_count_of_rows() {
    let mut w = world(many(20));
    w.unreadable.push("/shots/009.png".to_string());
    let events = index(&mut w, CpuMode::Normal, false);
    assert_eq!(
        events,
        vec![ProgressEvent::Started(20), progress(8, 20, "000.png"), ProgressEvent::Completed(8)]
    );
    assert_eq!(w.stored.len(), 8);
}

#[test]
fn the_count_is_the_number_of_rows_written() {
    let mut w = world(many(30));
    w.vectors_per_batch = Some(5);
    let events = index(&mut w, CpuMode::Normal, false);
    let mut written = 0;
    for e in &events {
        if let ProgressEvent::Progress(current, _, _) = e {
            written += 5;
            assert_eq!(*current, written);
        }
    }
    assert_eq!(events[events.len() - 1], ProgressEvent::Completed(w.stored.len()));
    assert_eq!(w.stored.len(), 20);
}

#[test]
fn vector_of_another_length_fails_the_batch() {
    for dimension in [767, 769, 0] {
        let mut w = world(three_pngs());
        w.dimension = dimension;
        let events = index(&mut w, CpuMode::Fast, false);
        assert_eq!(
            events,
            vec![
                ProgressEvent::Started(3),
                ProgressEvent::Failed(
                    "Embedding has another length than the store takes".to_string()
                ),
            ]
        );
        assert!(w.stored.is_empty());
    }
}

#[test]
fn one_short_vector_among_good_ones_fails_the_batch() {
    let (state, _) = start_indexing(config(CpuMode::Fast), false, true, true);
    let (state, _) = state.advance(Outcome::StoreOpened);
    let (state, _) = state.advance(Outcome::IndexLoaded(Vec::new()));
    let (state, _) =
        state.advance(Outcome::DirListing(vec![file("/shots/a.png"), file("/shots/b.png")]));
    let (state, step) = state.advance(Outcome::Embedded(vec![768, 767]));
    assert_eq!(step.action, Action::Finish);
    assert!(state.is_done());
    assert_eq!(state.indexed_count(), 0);
}

#[test]
fn embedding_everything_again_removes_the_old_rows_first() {
    let mut w = world(three_pngs());
    index(&mut w, CpuMode::Fast, false);
    assert_eq!(w.stored.len(), 3);
    assert!(w.removals.is_empty());
    let events = index(&mut w, CpuMode::Fast, true);
    assert_eq!(events[events.len() - 1], ProgressEvent::Completed(3));
    assert_eq!(
        w.removals,
        vec![vec![
            "/shots/a.png".to_string(),
            "/shots/b.PNG".to_string(),
            "/shots/c.png".to_string()
        ]]
    );
    // still one row for each path
    assert_eq!(w.stored.len(), 3);
    let mut paths: Vec<&str> = w.stored.iter().map(|r| r.file_path.as_str()).collect();
    paths.dedup();
    assert_eq!(paths.len(), 3);
}

#[test]
fn rows_that_cannot_be_removed_fail_the_batch() {
    let mut w = world(three_pngs());
    w.remove_fails = true;
    let events = index(&mut w, CpuMode::Fast, true);
    assert_eq!(
        events,
        vec![ProgressEvent::Started(3), ProgressEvent::Failed("locked".to_string())]
    );
}

#[test]
fn a_path_listed_twice_is_embedded_once() {
    let mut w = world(vec![(
        "/shots".to_string(),
        vec![file("/shots/a.png"), file("/shots/b.png"), file("/shots/a.png")],
    )]);
    let events = index(&mut w, CpuMode::Fast, true);
    assert_eq!(events[0], ProgressEvent::Started(2));
    assert_eq!(w.batches, vec![2]);
    let paths: Vec<&str> = w.stored.iter().map(|r| r.file_path.as_str()).collect();
    assert_eq!(paths, vec!["/shots/a.png", "/shots/b.png"]);
}

#[test]
fn the_store_of_the_configuration_is_opened() {
    let mut w = world(three_pngs());
    index(&mut w, CpuMode::Fast, false);
    assert_eq!(w.opened, vec!["/data/index".to_string()]);
    let mut w = world(three_pngs());
    drive(&mut w, start_indexing(config(CpuMode::Fast), false, false, false));
    assert_eq!(w.opened, vec!["/data/index".to_string()]);
}

#[test]
fn models_are_acquired_unless_both_are_at_hand() {
    for (vision, text) in [(false, false), (true, false), (false, true)] {
        let mut w = world(three_pngs());
        let (state, events) =
            drive(&mut w, start_indexing(config(CpuMode::Fast), false, vision, text));
        assert!(state.is_done());
        assert_eq!(
            events[..3],
            [
                ProgressEvent::ModelAcquisitionProgress(1, 2, "vision".to_string()),
                ProgressEvent::ModelAcquisitionProgress(2, 2, "text".to_string()),
                ProgressEvent::ModelAcquisitionCompleted,
            ]
        );
        assert_eq!(events[3], ProgressEvent::Started(3));
        assert_eq!(events.len(), 6);
    }
}

#[test]
fn model_failure_is_terminal() {
    let (state, step) = start_indexing(config(CpuMode::Fast), false, false, true);
    assert_eq!(step.action, Action::LoadVisionModel);
    assert_eq!(state.phase(), Phase::LoadingVision);
    let (state, step) = state.advance(Outcome::ModelLoaded);
    assert_eq!(step.action, Action::LoadTextModel);
    let (state, step) = state.advance(Outcome::ModelFailed("no network".to_string()));
    assert_eq!(
        step.events,
        vec![ProgressEvent::ModelAcquisitionFailed("no network".to_string())]
    );
    assert_eq!(step.action, Action::Finish);
    assert!(state.is_done());
    let (state, step) = state.advance(Outcome::StoreOpened);
    assert!(step.events.is_empty());
    assert_eq!(step.action, Action::Finish);
    assert!(state.is_done());
}

#[test]
fn stray_report_fails_the_run() {
    let (state, step) = start_indexing(config(CpuMode::Fast), true, true, true);
    assert_eq!(step.action, Action::OpenStore("/data/index".to_string()));
    assert!(step.events.is_empty());
    let (state, step) = state.advance(Outcome::Slept);
    assert_eq!(
        step.events,
        vec![ProgressEvent::Failed("outcome does not answer the pending action".to_string())]
    );
    assert_eq!(step.action, Action::Finish);
    assert!(state.is_done());
}

#[test]
fn idle_state_asks_for_nothing() {
    let state = IndexerState::new(config(CpuMode::Normal));
    assert_eq!(state.phase(), Phase::Idle);
    assert_eq!(state.total(), 0);
    assert_eq!(state.indexed_count(), 0);
    let (state, step) = state.advance(Outcome::StoreOpened);
    assert_eq!(step.action, Action::Finish);
    assert_eq!(state.phase(), Phase::Idle);
    let (state, step) = state.run_indexing(true);
    assert_eq!(step.action, Action::OpenStore("/data/index".to_string()));
    assert_eq!(state.phase(), Phase::OpeningStore);
    // with force_all the store's paths are not read
    let (_, step) = state.advance(Outcome::StoreOpened);
    assert_eq!(step.action, Action::ReadDir("/shots".to_string()));
}

#[test]
fn the_run_knows_what_is_indexed() {
    let (state, _) = start_indexing(config(CpuMode::Fast), false, true, true);
    let (state, step) = state.advance(Outcome::StoreOpened);
    assert_eq!(step.action, Action::LoadIndexedPaths);
    let (state, _) = state.advance(Outcome::IndexLoaded(vec!["/shots/a.png".to_string()]));
    assert!(!state.should_index("/shots/a.png"));
    assert!(state.should_index("/shots/b.png"));
    let (state, step) = state.advance(Outcome::DirListing(vec![
        file("/shots/a.png"),
        file("/shots/b.png"),
    ]));
    assert_eq!(step.action, Action::Embed(vec!["/shots/b.png".to_string()]));
    let (state, step) = state.advance(Outcome::Embedded(vec![768]));
    assert_eq!(step.action, Action::ReadMetadata(vec!["/shots/b.png".to_string()]));
    let (state, step) = state.advance(Outcome::Metadata(vec![Some(FileMeta {
        size: 5,
        modified_secs: 6,
    })]));
    assert_eq!(
        step.action,
        Action::Insert(vec![IndexedRecord {
            file_path: "/shots/b.png".to_string(),
            file_size: 5,
            modified_time: 6,
            vector: 0,
        }])
    );
    assert!(state.should_index("/shots/b.png"));
    let (state, step) = state.advance(Outcome::Inserted);
    assert!(!state.should_index("/shots/b.png"));
    assert_eq!(state.indexed_count(), 1);
    assert_eq!(step.action, Action::Finish);
}
