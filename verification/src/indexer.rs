//! The indexing run in executable form: the caller performs each action that
//! the run asks for and reports what came of it.

use vstd::prelude::*;
use crate::batch::check_vectors;
use crate::batch::kept;
use crate::batch::pair_records;
use crate::batch::records;
use crate::batch::BatchError;
use crate::batch::FileMeta;
use crate::batch::IndexedRecord;
use crate::batch::RecordView;
use crate::batch::StoredRow;
use crate::corpus::distinct_paths;
use crate::config::IndexConfig;
use crate::corpus::listing;
use crate::corpus::record_listing;
use crate::corpus::DirEntry;
use crate::corpus::DirEntryView;
use crate::corpus::IndexedPaths;
use crate::events::reports;
use crate::events::EventView;
use crate::events::ProgressEvent;
use crate::paths::progress_label;
use crate::run::lemma_next_preserves_wf;
use crate::run::ActionView;
use crate::run::OutcomeView;
use crate::run::Phase;
use crate::run::RunView;
use crate::run::StepView;
use crate::text::clone_range;
use crate::text::texts;

verus! {

/// What the caller is asked to do next.
#[derive(Clone, Debug, PartialEq, Eq)]
pub enum Action {
    /// Load the image model, then report `ModelLoaded` or `ModelFailed`.
    LoadVisionModel,
    /// Load the text model, then report `ModelLoaded` or `ModelFailed`.
    LoadTextModel,
    /// Open the store in this directory, creating it if need be, then
    /// report `StoreOpened` or `StoreFailed`.
    OpenStore(String),
    /// Read the paths of all rows, then report `IndexLoaded` or
    /// `StoreFailed`.
    LoadIndexedPaths,
    /// Read this directory, then report `DirListing` or `DirUnreadable`.
    ReadDir(String),
    /// Embed these files, then report `Embedded` or `EmbedFailed`.
    Embed(Vec<String>),
    /// Remove the rows that the store holds for these paths, if any, then
    /// report `Removed` or `RemoveFailed`.
    RemoveRows(Vec<String>),
    /// Read the metadata of these files, then report `Metadata`.
    ReadMetadata(Vec<String>),
    /// Write these rows as one batch, row `i` with the vector at the row's
    /// position among the vectors that the embedding returned, then report
    /// `Inserted` or `InsertFailed`.
    Insert(Vec<IndexedRecord>),
    /// Pause for this many milliseconds, then report `Slept`.
    Sleep(u64),
    /// Nothing is left to do.
    Finish,
}

impl View for Action {
    type V = ActionView;

    open spec fn view(&self) -> ActionView {
        match self {
            Action::LoadVisionModel => ActionView::LoadVisionModel,
            Action::LoadTextModel => ActionView::LoadTextModel,
            Action::OpenStore(path) => ActionView::OpenStore(path@),
            Action::LoadIndexedPaths => ActionView::LoadIndexedPaths,
            Action::ReadDir(dir) => ActionView::ReadDir(dir@),
            Action::Embed(paths) => ActionView::Embed(texts(paths@)),
            Action::RemoveRows(paths) => ActionView::RemoveRows(texts(paths@)),
            Action::ReadMetadata(paths) => ActionView::ReadMetadata(texts(paths@)),
            Action::Insert(rows) => ActionView::Insert(records(rows@)),
            Action::Sleep(ms) => ActionView::Sleep(*ms),
            Action::Finish => ActionView::Finish,
        }
    }
}

/// What the caller reports of the action it was asked for.
#[derive(Clone, Debug, PartialEq, Eq)]
pub enum Outcome {
    /// The model is loaded.
    ModelLoaded,
    /// The model could not be loaded; the error's text.
    ModelFailed(String),
    /// The store is open.
    StoreOpened,
    /// The store could not be opened or read; the error's text.
    StoreFailed(String),
    /// The paths of all rows of the store; none if it has no table yet.
    IndexLoaded(Vec<String>),
    /// The entries of the directory.
    DirListing(Vec<DirEntry>),
    /// The directory could not be read.
    DirUnreadable,
    /// The embedding returned vectors with these numbers of components, in
    /// order; vector `i` belongs to file `i` of the batch.
    Embedded(Vec<usize>),
    /// The embedding failed; the error's text.
    EmbedFailed(String),
    /// The store holds no row for the paths any more.
    Removed,
    /// The rows could not be removed; the error's text.
    RemoveFailed(String),
    /// The metadata of the files, position by position; `None` where they
    /// could not be read.
    Metadata(Vec<Option<FileMeta>>),
    /// The rows are written.
    Inserted,
    /// The rows could not be written; the error's text.
    InsertFailed(String),
    /// The pause is over.
    Slept,
}

impl View for Outcome {
    type V = OutcomeView;

    open spec fn view(&self) -> OutcomeView {
        match self {
            Outcome::ModelLoaded => OutcomeView::ModelLoaded,
            Outcome::ModelFailed(message) => OutcomeView::ModelFailed(message@),
            Outcome::StoreOpened => OutcomeView::StoreOpened,
            Outcome::StoreFailed(message) => OutcomeView::StoreFailed(message@),
            Outcome::IndexLoaded(paths) => OutcomeView::IndexLoaded(texts(paths@)),
            Outcome::DirListing(entries) => OutcomeView::DirListing(listing(entries@)),
            Outcome::DirUnreadable => OutcomeView::DirUnreadable,
            Outcome::Embedded(lengths) => OutcomeView::Embedded(lengths@),
            Outcome::EmbedFailed(message) => OutcomeView::EmbedFailed(message@),
            Outcome::Removed => OutcomeView::Removed,
            Outcome::RemoveFailed(message) => OutcomeView::RemoveFailed(message@),
            Outcome::Metadata(metadata) => OutcomeView::Metadata(metadata@),
            Outcome::Inserted => OutcomeView::Inserted,
            Outcome::InsertFailed(message) => OutcomeView::InsertFailed(message@),
            Outcome::Slept => OutcomeView::Slept,
        }
    }
}

/// The answer to a report: the events to pass on, in order, and the next
/// action.
#[derive(Clone, Debug, PartialEq, Eq)]
pub struct Step {
    /// Events for the caller's channel, oldest first.
    pub events: Vec<ProgressEvent>,
    /// What to do next.
    pub action: Action,
}

impl View for Step {
    type V = StepView;

    open spec fn view(&self) -> StepView {
        StepView { events: reports(self.events@), action: self.action@ }
    }
}

struct RunCore {
    config: IndexConfig,
    force_all: bool,
    phase: Phase,
    indexed: IndexedPaths,
    pending: Vec<String>,
    found: Vec<String>,
    files: Vec<String>,
    cursor: usize,
    batch_end: usize,
    accepted: usize,
    indexed_count: usize,
    rows: Ghost<Seq<RecordView>>,
    trace: Ghost<Seq<EventView>>,
    stored: Ghost<Seq<StoredRow>>,
    removed: Ghost<Set<Seq<char>>>,
    lossless: Ghost<bool>,
    started_at: Ghost<int>,
    known: Ghost<Set<Seq<char>>>,
    listings: Ghost<Seq<Seq<DirEntryView>>>,
    asked: Ghost<Seq<Seq<char>>>,
    scan_done: Ghost<bool>,
}

impl RunCore {
    spec fn view(&self) -> RunView {
        RunView {
            mode: self.config.cpu_mode,
            root: self.config.screenshot_dir@,
            store: self.config.db_path@,
            force_all: self.force_all,
            phase: self.phase,
            indexed: self.indexed@,
            pending: texts(self.pending@),
            found: texts(self.found@),
            files: texts(self.files@),
            cursor: self.cursor,
            batch_end: self.batch_end,
            accepted: self.accepted,
            rows: self.rows@,
            indexed_count: self.indexed_count,
            trace: self.trace@,
            stored: self.stored@,
            removed: self.removed@,
            lossless: self.lossless@,
            started_at: self.started_at@,
            known: self.known@,
            listings: self.listings@,
            asked: self.asked@,
            scan_done: self.scan_done@,
        }
    }
}

fn no_events() -> (events: Vec<ProgressEvent>)
    ensures
        reports(events@) == Seq::<EventView>::empty(),
{
    let events: Vec<ProgressEvent> = Vec::new();
    proof {
        assert(reports(events@) =~= Seq::<EventView>::empty());
    }
    events
}

fn one_event(event: ProgressEvent) -> (events: Vec<ProgressEvent>)
    ensures
        reports(events@) == seq![event@],
{
    let mut events: Vec<ProgressEvent> = Vec::new();
    events.push(event);
    proof {
        assert(reports(events@) =~= seq![event@]);
    }
    events
}

fn finish_with(core: &mut RunCore, event: ProgressEvent) -> (step: Step)
    ensures
        (final(core).view(), step@) == old(core).view().finish_with(event@),
{
    core.phase = Phase::Done;
    core.trace = Ghost(core.trace@.push(event@));
    Step { events: one_event(event), action: Action::Finish }
}

fn stray(core: &mut RunCore) -> (step: Step)
    ensures
        (final(core).view(), step@) == old(core).view().stray(),
{
    finish_with(
        core,
        ProgressEvent::Failed(String::from_str("outcome does not answer the pending action")),
    )
}

fn batch_failed(core: &mut RunCore, message: String) -> (step: Step)
    ensures
        (final(core).view(), step@) == old(core).view().batch_failed(message@),
{
    if core.indexed_count == 0 {
        finish_with(core, ProgressEvent::Failed(message))
    } else {
        let count = core.indexed_count;
        finish_with(core, ProgressEvent::Completed(count))
    }
}

fn batch_limit(core: &RunCore, from: usize) -> (end: usize)
    requires
        from <= core.files@.len(),
    ensures
        end == core.view().batch_limit(from as int),
        from <= end <= core.files@.len(),
{
    let size = core.config.cpu_mode.batch_size();
    if core.files.len() - from > size {
        from + size
    } else {
        core.files.len()
    }
}

fn begin_scan(core: &mut RunCore) -> (step: Step)
    ensures
        (final(core).view(), step@) == old(core).view().begin_scan(),
{
    core.phase = Phase::Scanning;
    core.pending = Vec::new();
    core.found = Vec::new();
    let ghost known = core.indexed@;
    let ghost asked = seq![core.config.screenshot_dir@];
    core.known = Ghost(known);
    core.listings = Ghost(Seq::empty());
    core.asked = Ghost(asked);
    core.scan_done = Ghost(false);
    proof {
        assert(texts(core.pending@) =~= Seq::<Seq<char>>::empty());
        assert(texts(core.found@) =~= Seq::<Seq<char>>::empty());
    }
    Step { events: no_events(), action: Action::ReadDir(core.config.screenshot_dir.clone()) }
}

fn begin_batches(core: &mut RunCore) -> (step: Step)
    ensures
        (final(core).view(), step@) == old(core).view().begin_batches(),
{
    core.scan_done = Ghost(true);
    if core.found.len() == 0 {
        core.files = Vec::new();
        proof {
            assert(texts(core.files@) =~= Seq::<Seq<char>>::empty());
        }
        finish_with(core, ProgressEvent::Completed(0))
    } else {
        let files = distinct_paths(&core.found);
        core.files = files;
        core.found = Vec::new();
        core.phase = Phase::Embedding;
        core.cursor = 0;
        core.indexed_count = 0;
        proof {
            assert(texts(core.found@) =~= Seq::<Seq<char>>::empty());
        }
        let end = batch_limit(core, 0);
        let total = core.files.len();
        core.batch_end = end;
        let ghost at = core.trace@.len() as int;
        core.started_at = Ghost(at);
        core.trace = Ghost(core.trace@.push(EventView::Started(total)));
        let batch = clone_range(&core.files, 0, end);
        Step { events: one_event(ProgressEvent::Started(total)), action: Action::Embed(batch) }
    }
}

fn scanned(core: &mut RunCore, entries: &Vec<DirEntry>) -> (step: Step)
    ensures
        (final(core).view(), step@) == old(core).view().scanned(listing(entries@)),
        old(core).view().found.len() + crate::corpus::qualifying(
            listing(entries@),
            old(core).view().indexed,
            !old(core).view().force_all,
        ).len() <= usize::MAX,
{
    record_listing(entries, &core.indexed, !core.force_all, &mut core.pending, &mut core.found);
    let found_len = core.found.len();
    let ghost pending = texts(core.pending@);
    let ghost more = core.listings@.push(listing(entries@));
    core.listings = Ghost(more);
    proof {
        let fresh = crate::corpus::qualifying(
            listing(entries@),
            old(core).view().indexed,
            !old(core).view().force_all,
        );
        assert(texts(core.found@).len() == found_len);
        assert(texts(core.found@) == texts(old(core).found@) + fresh);
        assert((texts(old(core).found@) + fresh).len() == texts(old(core).found@).len()
            + fresh.len());
    }
    match core.pending.pop() {
        Some(dir) => {
            let ghost asked = core.asked@.push(dir@);
            core.asked = Ghost(asked);
            proof {
                assert(texts(core.pending@) =~= pending.drop_last());
            }
            Step { events: no_events(), action: Action::ReadDir(dir) }
        },
        None => begin_batches(core),
    }
}

fn next_batch(core: &mut RunCore, events: Vec<ProgressEvent>) -> (step: Step)
    requires
        old(core).cursor <= old(core).files@.len(),
    ensures
        (final(core).view(), step@) == old(core).view().next_batch(reports(events@)),
{
    if core.cursor >= core.files.len() {
        let done = ProgressEvent::Completed(core.indexed_count);
        core.phase = Phase::Done;
        core.trace = Ghost(core.trace@.push(done@));
        let mut events = events;
        let ghost before = events@;
        events.push(done);
        proof {
            assert(reports(events@) =~= reports(before).push(done@));
        }
        Step { events, action: Action::Finish }
    } else {
        let end = batch_limit(core, core.cursor);
        core.phase = Phase::Embedding;
        core.batch_end = end;
        let batch = clone_range(&core.files, core.cursor, end);
        Step { events, action: Action::Embed(batch) }
    }
}

fn batch_written(core: &mut RunCore, written: usize) -> (step: Step)
    requires
        old(core).cursor < old(core).batch_end <= old(core).files@.len(),
        written == old(core).rows@.len(),
        old(core).indexed_count + written <= usize::MAX,
    ensures
        (final(core).view(), step@) == old(core).view().batch_written(),
{
    let count = core.indexed_count + written;
    let total = core.files.len();
    let label = progress_label(core.files[core.cursor].as_str());
    let progress = ProgressEvent::Progress(count, total, label);
    core.phase = Phase::Sleeping;
    core.cursor = core.batch_end;
    core.indexed_count = count;
    core.trace = Ghost(core.trace@.push(progress@));
    core.stored = Ghost(core.stored@ + kept(core.rows@));
    let delay = core.config.cpu_mode.delay_ms();
    if delay > 0 {
        Step { events: one_event(progress), action: Action::Sleep(delay) }
    } else {
        next_batch(core, one_event(progress))
    }
}

fn sub_batch(core: &RunCore) -> (batch: Vec<String>)
    requires
        core.cursor + core.accepted <= core.files@.len(),
    ensures
        texts(batch@) == core.view().sub_batch(),
{
    let total = core.files.len();
    assert(core.cursor + core.accepted <= total);
    clone_range(&core.files, core.cursor, core.cursor + core.accepted)
}

fn embedded(core: &mut RunCore, lengths: &Vec<usize>) -> (step: Step)
    requires
        old(core).cursor < old(core).batch_end <= old(core).files@.len(),
        old(core).indexed_count <= old(core).cursor,
    ensures
        (final(core).view(), step@) == old(core).view().embedded(lengths@),
{
    let len = core.batch_end - core.cursor;
    match check_vectors(len, lengths) {
        Err(BatchError::CountMismatch) => batch_failed(
            core,
            String::from_str("Mismatch between paths and embeddings count"),
        ),
        Err(_) => batch_failed(
            core,
            String::from_str("Embedding has another length than the store takes"),
        ),
        Ok(vectors) => {
            core.accepted = vectors;
            core.rows = Ghost(Seq::empty());
            let ghost lossless = core.lossless@ && vectors == len;
            core.lossless = Ghost(lossless);
            if vectors == 0 {
                batch_written(core, 0)
            } else if core.force_all {
                core.phase = Phase::Removing;
                Step { events: no_events(), action: Action::RemoveRows(sub_batch(core)) }
            } else {
                core.phase = Phase::ReadingMetadata;
                Step { events: no_events(), action: Action::ReadMetadata(sub_batch(core)) }
            }
        },
    }
}

fn rows_removed(core: &mut RunCore) -> (step: Step)
    requires
        old(core).cursor + old(core).accepted <= old(core).files@.len(),
    ensures
        (final(core).view(), step@) == old(core).view().rows_removed(),
{
    let batch = sub_batch(core);
    let ghost removed = core.removed@.union(texts(batch@).to_set());
    core.removed = Ghost(removed);
    core.phase = Phase::ReadingMetadata;
    Step { events: no_events(), action: Action::ReadMetadata(batch) }
}

fn metadata_read(core: &mut RunCore, metadata: &Vec<Option<FileMeta>>) -> (step: Step)
    requires
        old(core).cursor + old(core).accepted <= old(core).files@.len(),
    ensures
        (final(core).view(), step@) == old(core).view().metadata_read(metadata@),
{
    let batch = sub_batch(core);
    match pair_records(&batch, metadata) {
        Err(_) => batch_failed(core, String::from_str("Failed to read file metadata")),
        Ok(rows) => {
            core.rows = Ghost(records(rows@));
            core.phase = Phase::Inserting;
            Step { events: no_events(), action: Action::Insert(rows) }
        },
    }
}

fn inserted(core: &mut RunCore) -> (step: Step)
    requires
        old(core).cursor < old(core).batch_end <= old(core).files@.len(),
        old(core).indexed_count <= old(core).cursor,
        old(core).accepted <= old(core).batch_end - old(core).cursor,
        old(core).rows@.len() == old(core).accepted,
    ensures
        (final(core).view(), step@) == old(core).view().inserted(),
{
    let batch = sub_batch(core);
    core.indexed.extend(&batch);
    let written = core.accepted;
    batch_written(core, written)
}

/// An indexing run. It is made by [`IndexerState::new`] or
/// [`start_indexing`], and moved on by [`IndexerState::advance`] with each
/// report of the caller.
pub struct IndexerState {
    core: RunCore,
}

impl View for IndexerState {
    type V = RunView;

    closed spec fn view(&self) -> RunView {
        self.core.view()
    }
}

impl IndexerState {
    #[verifier::type_invariant]
    spec fn well_formed(self) -> bool {
        self.core.view().wf()
    }

    /// A run that has not begun.
    pub fn new(config: IndexConfig) -> (state: Self)
        ensures
            state@ == RunView::idle(config.cpu_mode, config.screenshot_dir@, config.db_path@),
            state@.wf(),
    {
        let core = RunCore {
            config,
            force_all: false,
            phase: Phase::Idle,
            indexed: IndexedPaths::new(),
            pending: Vec::new(),
            found: Vec::new(),
            files: Vec::new(),
            cursor: 0,
            batch_end: 0,
            accepted: 0,
            indexed_count: 0,
            rows: Ghost(Seq::empty()),
            trace: Ghost(Seq::empty()),
            stored: Ghost(Seq::empty()),
            removed: Ghost(Set::empty()),
            lossless: Ghost(true),
            started_at: Ghost(0),
            known: Ghost(Set::empty()),
            listings: Ghost(Seq::empty()),
            asked: Ghost(Seq::empty()),
            scan_done: Ghost(false),
        };
        proof {
            assert(texts(core.files@) =~= Seq::<Seq<char>>::empty());
            assert(texts(core.found@) =~= Seq::<Seq<char>>::empty());
            assert(texts(core.pending@) =~= Seq::<Seq<char>>::empty());
        }
        IndexerState { core }
    }

    /// Whether the run is over.
    pub fn is_done(&self) -> (done: bool)
        ensures
            done == (self@.phase == Phase::Done),
    {
        self.core.phase == Phase::Done
    }

    /// Where the run stands.
    pub fn phase(&self) -> (phase: Phase)
        ensures
            phase == self@.phase,
    {
        self.core.phase
    }

    /// Files indexed so far.
    pub fn indexed_count(&self) -> (count: usize)
        ensures
            count == self@.indexed_count,
    {
        self.core.indexed_count
    }

    /// Number of files on the worklist; zero until the scan is over.
    pub fn total(&self) -> (total: usize)
        ensures
            total == self@.files.len(),
    {
        self.core.files.len()
    }

    /// Whether the file at `path` has still to be indexed: the store is not
    /// known to hold a row for it.
    pub fn should_index(&self, path: &str) -> (new: bool)
        ensures
            new == !self@.indexed.contains(path@),
    {
        !self.core.indexed.contains(path)
    }

    /// Begins a run, with the models at hand: the store is opened first.
    /// With `force_all` every image of the corpus is embedded; without it,
    /// only the images that the store lacks. Whatever the state held of an
    /// earlier run is dropped.
    pub fn run_indexing(self, force_all: bool) -> (next: (IndexerState, Step))
        ensures
            (next.0@, next.1@) == self@.begin(force_all),
            next.0@.wf(),
    {
        let mut core = self.core;
        begin(&mut core, force_all);
        let store = core.config.db_path.clone();
        (IndexerState { core }, Step { events: no_events(), action: Action::OpenStore(store) })
    }

    /// Takes in the caller's report on the action asked for last, and
    /// answers with the events to pass on and the next action.
    pub fn advance(self, outcome: Outcome) -> (next: (IndexerState, Step))
        ensures
            (next.0@, next.1@) == self@.next(outcome@),
            next.0@.wf(),
            next.0@.trace == self@.trace + next.1@.events,
    {
        proof {
            use_type_invariant(&self);
        }
        let ghost before = self@;
        let mut core = self.core;
        let step = match core.phase {
            Phase::Idle | Phase::Done => Step { events: no_events(), action: Action::Finish },
            Phase::LoadingVision => match outcome {
                Outcome::ModelLoaded => {
                    let announced = ProgressEvent::ModelAcquisitionProgress(
                        2,
                        2,
                        String::from_str("text"),
                    );
                    core.phase = Phase::LoadingText;
                    core.trace = Ghost(core.trace@.push(announced@));
                    Step { events: one_event(announced), action: Action::LoadTextModel }
                },
                Outcome::ModelFailed(message) => finish_with(
                    &mut core,
                    ProgressEvent::ModelAcquisitionFailed(message),
                ),
                _ => stray(&mut core),
            },
            Phase::LoadingText => match outcome {
                Outcome::ModelLoaded => {
                    core.phase = Phase::OpeningStore;
                    core.trace = Ghost(core.trace@.push(EventView::ModelAcquisitionCompleted));
                    Step {
                        events: one_event(ProgressEvent::ModelAcquisitionCompleted),
                        action: Action::OpenStore(core.config.db_path.clone()),
                    }
                },
                Outcome::ModelFailed(message) => finish_with(
                    &mut core,
                    ProgressEvent::ModelAcquisitionFailed(message),
                ),
                _ => stray(&mut core),
            },
            Phase::OpeningStore => match outcome {
                Outcome::StoreOpened => if core.force_all {
                    begin_scan(&mut core)
                } else {
                    core.phase = Phase::LoadingIndex;
                    Step { events: no_events(), action: Action::LoadIndexedPaths }
                },
                Outcome::StoreFailed(message) => finish_with(
                    &mut core,
                    ProgressEvent::Failed(message),
                ),
                _ => stray(&mut core),
            },
            Phase::LoadingIndex => match outcome {
                Outcome::IndexLoaded(paths) => {
                    let mut indexed = IndexedPaths::new();
                    indexed.extend(&paths);
                    proof {
                        assert(indexed@ =~= texts(paths@).to_set());
                    }
                    core.indexed = indexed;
                    begin_scan(&mut core)
                },
                Outcome::StoreFailed(message) => finish_with(
                    &mut core,
                    ProgressEvent::Failed(message),
                ),
                _ => stray(&mut core),
            },
            Phase::Scanning => match outcome {
                Outcome::DirListing(entries) => scanned(&mut core, &entries),
                Outcome::DirUnreadable => {
                    let entries: Vec<DirEntry> = Vec::new();
                    proof {
                        assert(listing(entries@) =~= Seq::<crate::corpus::DirEntryView>::empty());
                    }
                    scanned(&mut core, &entries)
                },
                _ => stray(&mut core),
            },
            Phase::Embedding => match outcome {
                Outcome::Embedded(lengths) => embedded(&mut core, &lengths),
                Outcome::EmbedFailed(message) => batch_failed(&mut core, message),
                _ => stray(&mut core),
            },
            Phase::Removing => match outcome {
                Outcome::Removed => rows_removed(&mut core),
                Outcome::RemoveFailed(message) => batch_failed(&mut core, message),
                _ => stray(&mut core),
            },
            Phase::ReadingMetadata => match outcome {
                Outcome::Metadata(metadata) => metadata_read(&mut core, &metadata),
                _ => stray(&mut core),
            },
            Phase::Inserting => match outcome {
                Outcome::Inserted => inserted(&mut core),
                Outcome::InsertFailed(message) => batch_failed(&mut core, message),
                _ => stray(&mut core),
            },
            Phase::Sleeping => match outcome {
                Outcome::Slept => next_batch(&mut core, no_events()),
                _ => stray(&mut core),
            },
        };
        proof {
            assert((core.view(), step@) == before.next(outcome@));
            lemma_next_preserves_wf(before, outcome@);
        }
        (IndexerState { core }, step)
    }
}

fn begin(core: &mut RunCore, force_all: bool)
    ensures
        final(core).view() == old(core).view().begin(force_all).0,
        final(core).view().wf(),
{
    core.force_all = force_all;
    core.phase = Phase::OpeningStore;
    core.indexed = IndexedPaths::new();
    core.pending = Vec::new();
    core.found = Vec::new();
    core.files = Vec::new();
    core.cursor = 0;
    core.batch_end = 0;
    core.accepted = 0;
    core.indexed_count = 0;
    core.rows = Ghost(Seq::empty());
    core.trace = Ghost(Seq::empty());
    core.stored = Ghost(Seq::empty());
    core.removed = Ghost(Set::empty());
    core.lossless = Ghost(true);
    core.started_at = Ghost(0);
    core.known = Ghost(Set::empty());
    core.listings = Ghost(Seq::empty());
    core.asked = Ghost(Seq::empty());
    core.scan_done = Ghost(false);
    proof {
        assert(texts(core.pending@) =~= Seq::<Seq<char>>::empty());
        assert(texts(core.files@) =~= Seq::<Seq<char>>::empty());
        assert(texts(core.found@) =~= Seq::<Seq<char>>::empty());
    }
}

/// Starts the indexing of the corpus that `config` names. With both models
/// at hand (`prewarmed_vision`, `prewarmed_text`) the run begins at once;
/// otherwise both are acquired first, each announced before it is loaded.
pub fn start_indexing(
    config: IndexConfig,
    force_all: bool,
    prewarmed_vision: bool,
    prewarmed_text: bool,
) -> (next: (IndexerState, Step))
    ensures
        next.0@.wf(),
        prewarmed_vision && prewarmed_text ==> (next.0@, next.1@) == RunView::idle(
            config.cpu_mode,
            config.screenshot_dir@,
            config.db_path@,
        ).begin(force_all),
        !(prewarmed_vision && prewarmed_text) ==> (next.0@, next.1@) == RunView::idle(
            config.cpu_mode,
            config.screenshot_dir@,
            config.db_path@,
        ).begin_acquisition(force_all),
{
    let state = IndexerState::new(config);
    if prewarmed_vision && prewarmed_text {
        state.run_indexing(force_all)
    } else {
        let mut core = state.core;
        begin(&mut core, force_all);
        let announced = ProgressEvent::ModelAcquisitionProgress(1, 2, String::from_str("vision"));
        core.phase = Phase::LoadingVision;
        let ghost trace = seq![announced@];
        core.trace = Ghost(trace);
        (
            IndexerState { core },
            Step { events: one_event(announced), action: Action::LoadVisionModel },
        )
    }
}

} // verus!
