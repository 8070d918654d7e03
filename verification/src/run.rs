//! The indexing run as a state machine over plain values: what each answer
//! of the outside world does to the run, and what holds of every run.

use vstd::prelude::*;
use crate::batch::all_of_dimension;
use crate::batch::all_read;
use crate::batch::kept;
use crate::batch::rows_of;
use crate::batch::FileMeta;
use crate::batch::RecordView;
use crate::batch::StoredRow;
use crate::config::CpuMode;
use crate::corpus::all_directories;
use crate::corpus::directories;
use crate::corpus::distinct;
use crate::corpus::gathered;
use crate::corpus::is_image_entry;
use crate::corpus::lemma_distinct;
use crate::corpus::lemma_gathered_are_new;
use crate::corpus::lemma_gathered_characterized;
use crate::corpus::lemma_gathered_members;
use crate::corpus::listed_to_embed;
use crate::corpus::lemma_nothing_gathered;
use crate::corpus::lemma_nothing_qualifies;
use crate::corpus::qualifies;
use crate::corpus::qualifying;
use crate::corpus::DirEntryView;
use crate::events::is_loading;
use crate::events::is_terminal;
use crate::events::progress_monotone;
use crate::events::EventView;
use crate::paths::label_of;

verus! {

/// Where a run stands: what the caller has been asked to do.
#[derive(Clone, Copy, Debug, PartialEq, Eq, Structural)]
pub enum Phase {
    /// Nothing asked yet.
    Idle,
    /// The image model is being loaded.
    LoadingVision,
    /// The text model is being loaded.
    LoadingText,
    /// The store is being opened.
    OpeningStore,
    /// The paths that the store holds are being read.
    LoadingIndex,
    /// A directory of the corpus is being read.
    Scanning,
    /// A batch is being embedded.
    Embedding,
    /// The rows that the store holds for a batch's files are being removed.
    Removing,
    /// The metadata of a batch's files are being read.
    ReadingMetadata,
    /// The rows of a batch are being written.
    Inserting,
    /// The run pauses between two batches.
    Sleeping,
    /// The run is over.
    Done,
}

/// What the caller is asked to do next.
pub enum ActionView {
    LoadVisionModel,
    LoadTextModel,
    OpenStore(Seq<char>),
    LoadIndexedPaths,
    ReadDir(Seq<char>),
    Embed(Seq<Seq<char>>),
    RemoveRows(Seq<Seq<char>>),
    ReadMetadata(Seq<Seq<char>>),
    Insert(Seq<RecordView>),
    Sleep(u64),
    Finish,
}

/// What the caller reports of the action it was asked for.
pub enum OutcomeView {
    ModelLoaded,
    ModelFailed(Seq<char>),
    StoreOpened,
    StoreFailed(Seq<char>),
    IndexLoaded(Seq<Seq<char>>),
    DirListing(Seq<DirEntryView>),
    DirUnreadable,
    Embedded(Seq<usize>),
    EmbedFailed(Seq<char>),
    Removed,
    RemoveFailed(Seq<char>),
    Metadata(Seq<Option<FileMeta>>),
    Inserted,
    InsertFailed(Seq<char>),
    Slept,
}

/// The answer to a report: the events to pass on, in order, and the next
/// action.
pub struct StepView {
    pub events: Seq<EventView>,
    pub action: ActionView,
}

/// A run as contracts speak of it.
pub struct RunView {
    /// Throughput mode.
    pub mode: CpuMode,
    /// Root of the corpus.
    pub root: Seq<char>,
    /// Directory of the vector store.
    pub store: Seq<char>,
    /// Whether every image is embedded again, indexed or not.
    pub force_all: bool,
    pub phase: Phase,
    /// The paths that the store is known to hold.
    pub indexed: Set<Seq<char>>,
    /// Directories still to be read; the last one comes next.
    pub pending: Seq<Seq<char>>,
    /// Files found by the scan so far.
    pub found: Seq<Seq<char>>,
    /// The worklist, once the scan is over.
    pub files: Seq<Seq<char>>,
    /// Start of the current batch in the worklist.
    pub cursor: usize,
    /// End of the current batch in the worklist.
    pub batch_end: usize,
    /// How many files of the current batch go on to the store: as many as
    /// vectors came back.
    pub accepted: usize,
    /// The rows of the current batch, once its metadata are read.
    pub rows: Seq<RecordView>,
    /// Rows written so far.
    pub indexed_count: usize,
    /// Every event passed on so far, in order.
    pub trace: Seq<EventView>,
    /// The rows that the store received, in order.
    pub stored: Seq<StoredRow>,
    /// The paths whose earlier rows the store was asked to remove, and did.
    pub removed: Set<Seq<char>>,
    /// Whether every batch so far got a vector for each of its files.
    pub lossless: bool,
    /// Position in the trace of the report that indexing started, once it
    /// did.
    pub started_at: int,
    /// The index as it stood when the scan began.
    pub known: Set<Seq<char>>,
    /// The listings reported so far, in order; a directory that could not
    /// be read counts as an empty listing.
    pub listings: Seq<Seq<DirEntryView>>,
    /// The directories that the caller was asked to read, in order.
    pub asked: Seq<Seq<char>>,
    /// Whether the scan is over.
    pub scan_done: bool,
}

/// The message of a batch whose embedding returned too many vectors.
pub open spec fn mismatch_message() -> Seq<char> {
    "Mismatch between paths and embeddings count"@
}

/// The message of a batch with a vector of another length than the store
/// takes.
pub open spec fn dimension_message() -> Seq<char> {
    "Embedding has another length than the store takes"@
}

/// The message of a batch with a file whose metadata could not be read.
pub open spec fn metadata_message() -> Seq<char> {
    "Failed to read file metadata"@
}

/// The message of a run that was told something it had not asked for.
pub open spec fn stray_message() -> Seq<char> {
    "outcome does not answer the pending action"@
}

/// The label of the image model.
pub open spec fn vision_label() -> Seq<char> {
    "vision"@
}

/// The label of the text model.
pub open spec fn text_label() -> Seq<char> {
    "text"@
}

impl RunView {
    /// A run that has not begun, for a corpus at `root` and a store at
    /// `store`.
    pub open spec fn idle(mode: CpuMode, root: Seq<char>, store: Seq<char>) -> RunView {
        RunView {
            mode,
            root,
            store,
            force_all: false,
            phase: Phase::Idle,
            indexed: Set::empty(),
            pending: Seq::empty(),
            found: Seq::empty(),
            files: Seq::empty(),
            cursor: 0,
            batch_end: 0,
            accepted: 0,
            rows: Seq::empty(),
            indexed_count: 0,
            trace: Seq::empty(),
            stored: Seq::empty(),
            removed: Set::empty(),
            lossless: true,
            started_at: 0,
            known: Set::empty(),
            listings: Seq::empty(),
            asked: Seq::empty(),
            scan_done: false,
        }
    }

    /// Where the batch that starts at `from` ends.
    pub open spec fn batch_limit(self, from: int) -> int {
        if from + self.mode.spec_batch_size() < self.files.len() {
            from + self.mode.spec_batch_size()
        } else {
            self.files.len() as int
        }
    }

    /// The files of the current batch that go on to the store.
    pub open spec fn sub_batch(self) -> Seq<Seq<char>> {
        self.files.subrange(self.cursor as int, self.cursor + self.accepted)
    }

    /// Whether the run is at work on a batch.
    pub open spec fn in_batch(self) -> bool {
        self.phase == Phase::Embedding || self.phase == Phase::Removing || self.phase
            == Phase::ReadingMetadata || self.phase == Phase::Inserting
    }

    /// Whether the run has not reached its batches.
    pub open spec fn before_batches(self) -> bool {
        self.phase == Phase::Idle || self.phase == Phase::LoadingVision || self.phase
            == Phase::LoadingText || self.phase == Phase::OpeningStore || self.phase
            == Phase::LoadingIndex || self.phase == Phase::Scanning
    }

    /// The run is over, it finished its scan and left its last batch behind,
    /// and every batch got a vector for each of its files and had its rows
    /// written.
    pub open spec fn completed_in_full(self) -> bool {
        self.phase == Phase::Done && self.scan_done && self.lossless && self.cursor
            == self.files.len()
    }

    /// Number of events of the trace that come before the final one of a
    /// run that is over; all of them, while the run goes on.
    pub open spec fn body(self) -> int {
        if self.phase == Phase::Done {
            self.trace.len() - 1
        } else {
            self.trace.len() as int
        }
    }

    /// The shape of the trace. It begins with the reports of the models
    /// being loaded. A run with files to embed then reports once that it
    /// started, with their number, and after that only progress. A run that
    /// is over has reported last how it ended, and a run that goes on has
    /// not reported an end. A run that completed reports the number of rows
    /// that it wrote.
    pub open spec fn shaped(self) -> bool {
        &&& self.phase == Phase::Done ==> self.trace.len() >= 1 && is_terminal(self.trace.last())
        &&& (self.phase == Phase::Done && self.trace.last() is Completed)
            ==> self.trace.last()->Completed_0 == self.stored.len()
        &&& if self.files.len() > 0 {
            &&& 0 <= self.started_at < self.body()
            &&& self.trace[self.started_at] == EventView::Started(self.files.len() as usize)
            &&& forall|i: int| 0 <= i < self.started_at ==> is_loading(#[trigger] self.trace[i])
            &&& forall|i: int|
                self.started_at < i < self.body() ==> #[trigger] self.trace[i] is Progress
            &&& self.phase == Phase::Done ==> !(self.trace.last() is ModelAcquisitionFailed)
        } else {
            forall|i: int| 0 <= i < self.body() ==> is_loading(#[trigger] self.trace[i])
        }
    }

    /// What holds of the counters of every run. The count of files indexed
    /// is the number of rows written.
    pub open spec fn counted(self) -> bool {
        &&& self.files.len() <= usize::MAX
        &&& self.found.len() <= usize::MAX
        &&& self.indexed_count == self.stored.len()
        &&& self.in_batch() ==> {
            &&& self.cursor < self.batch_end <= self.files.len()
            &&& self.batch_end - self.cursor <= self.mode.spec_batch_size()
            &&& self.indexed_count <= self.cursor
        }
        &&& (self.phase == Phase::Removing || self.phase == Phase::ReadingMetadata || self.phase
            == Phase::Inserting) ==> {
            &&& 1 <= self.accepted <= self.batch_end - self.cursor
            &&& self.lossless ==> self.accepted == self.batch_end - self.cursor
        }
        &&& self.phase == Phase::Inserting ==> self.rows.len() == self.accepted
            && forall|i: int|
            0 <= i < self.rows.len() ==> (#[trigger] self.rows[i]).file_path
                == self.files[self.cursor + i] && self.rows[i].vector == i
        &&& self.phase == Phase::Sleeping ==> self.indexed_count <= self.cursor
            == self.batch_end <= self.files.len() && self.files.len() > 0
        &&& self.phase == Phase::Done ==> self.indexed_count <= self.files.len() && self.cursor
            <= self.files.len()
        &&& self.before_batches() ==> {
            &&& self.files.len() == 0
            &&& self.cursor == 0
            &&& self.indexed_count == 0
            &&& self.lossless
        }
        &&& forall|i: int|
            0 <= i < self.trace.len() && #[trigger] self.trace[i] is Progress
                ==> self.trace[i]->Progress_1 == self.files.len() && self.trace[i]->Progress_0
                <= self.indexed_count
        &&& progress_monotone(self.trace)
    }

    /// What holds of the rows of every run: what the store received is
    /// known as indexed; every row is of a file of the worklist before the
    /// cursor, and no two rows are of one path; a run that lost no vector
    /// wrote a row for each file up to its cursor, in order. A path that got
    /// a row was not in the index as loaded, or, where everything is
    /// embedded again, had its earlier rows removed first.
    pub open spec fn kept_track(self) -> bool {
        &&& forall|i: int|
            0 <= i < self.stored.len() ==> self.indexed.contains(
                (#[trigger] self.stored[i]).file_path,
            )
        &&& forall|i: int|
            0 <= i < self.stored.len() ==> self.files.subrange(0, self.cursor as int).contains(
                (#[trigger] self.stored[i]).file_path,
            )
        &&& forall|i: int, j: int|
            0 <= i < j < self.stored.len() ==> (#[trigger] self.stored[i]).file_path != (
            #[trigger] self.stored[j]).file_path
        &&& self.force_all ==> forall|i: int|
            0 <= i < self.stored.len() ==> self.removed.contains(
                (#[trigger] self.stored[i]).file_path,
            )
        &&& (self.force_all && (self.phase == Phase::ReadingMetadata || self.phase
            == Phase::Inserting)) ==> forall|i: int|
            0 <= i < self.accepted ==> self.removed.contains(
                #[trigger] self.files[self.cursor + i],
            )
        &&& (self.lossless && !self.before_batches()) ==> {
            &&& self.stored.len() == self.cursor
            &&& forall|i: int|
                0 <= i < self.stored.len() ==> (#[trigger] self.stored[i]).file_path
                    == self.files[i]
        }
    }

    /// What holds of the walk once it is over: the worklist is what the
    /// listings held that had to be embedded, each path once; the
    /// directories read are the root and every directory that a listing
    /// held, each as often as it was listed, and every one of them was
    /// reported on.
    pub open spec fn walked(self) -> bool {
        &&& !self.scan_done ==> self.files.len() == 0
        &&& (self.in_batch() || self.phase == Phase::Sleeping) ==> self.scan_done
        &&& self.before_batches() ==> !self.scan_done
        &&& self.scan_done ==> {
            &&& self.files == distinct(gathered(self.listings, self.known, !self.force_all))
            &&& self.files.no_duplicates()
            &&& !self.force_all ==> forall|i: int|
                0 <= i < self.files.len() ==> !self.known.contains(#[trigger] self.files[i])
            &&& self.known.subset_of(self.indexed)
            &&& self.asked.len() == self.listings.len()
            &&& self.asked.to_multiset() == seq![self.root].to_multiset().add(
                all_directories(self.listings).to_multiset(),
            )
        }
    }

    /// What holds of the walk while it goes on: one directory is being read,
    /// and every directory that the root or a listing gave is either read
    /// or still to be read.
    pub open spec fn walking(self) -> bool {
        self.phase == Phase::Scanning ==> {
            &&& self.indexed == self.known
            &&& self.found == gathered(self.listings, self.known, !self.force_all)
            &&& self.asked.len() == self.listings.len() + 1
            &&& self.asked.to_multiset().add(self.pending.to_multiset()) == seq![
                self.root,
            ].to_multiset().add(all_directories(self.listings).to_multiset())
        }
    }

    /// What holds of every run.
    pub open spec fn wf(self) -> bool {
        &&& self.counted()
        &&& self.shaped()
        &&& self.kept_track()
        &&& self.walked()
        &&& self.walking()
    }

    /// Whether the report can be taken in: the files found have to stay
    /// countable.
    pub open spec fn admits(self, outcome: OutcomeView) -> bool {
        self.phase == Phase::Scanning ==> match outcome {
            OutcomeView::DirListing(entries) => (self.found + qualifying(
                entries,
                self.indexed,
                !self.force_all,
            )).len() <= usize::MAX,
            _ => true,
        }
    }

    /// The run ends with `event`.
    pub open spec fn finish_with(self, event: EventView) -> (RunView, StepView) {
        (
            RunView { phase: Phase::Done, trace: self.trace.push(event), ..self },
            StepView { events: seq![event], action: ActionView::Finish },
        )
    }

    /// The run was told something it had not asked for: it ends as failed.
    pub open spec fn stray(self) -> (RunView, StepView) {
        self.finish_with(EventView::Failed(stray_message()))
    }

    /// A batch could not be embedded or written. A run that has written no
    /// row yet fails with the message; one that has written rows completes
    /// with their number, since the store holds them. The rest of the
    /// worklist is left.
    pub open spec fn batch_failed(self, message: Seq<char>) -> (RunView, StepView) {
        if self.indexed_count == 0 {
            self.finish_with(EventView::Failed(message))
        } else {
            self.finish_with(EventView::Completed(self.indexed_count))
        }
    }

    /// A run begins: the store is opened first.
    pub open spec fn begin(self, force_all: bool) -> (RunView, StepView) {
        (
            RunView {
                force_all,
                phase: Phase::OpeningStore,
                ..RunView::idle(self.mode, self.root, self.store)
            },
            StepView { events: Seq::empty(), action: ActionView::OpenStore(self.store) },
        )
    }

    /// The models are acquired before the run begins: the image model is
    /// announced and asked for.
    pub open spec fn begin_acquisition(self, force_all: bool) -> (RunView, StepView) {
        let announced = EventView::ModelAcquisitionProgress(1, 2, vision_label());
        (
            RunView {
                phase: Phase::LoadingVision,
                trace: seq![announced],
                ..self.begin(force_all).0
            },
            StepView { events: seq![announced], action: ActionView::LoadVisionModel },
        )
    }

    /// The scan starts at the root.
    pub open spec fn begin_scan(self) -> (RunView, StepView) {
        (
            RunView {
                phase: Phase::Scanning,
                pending: Seq::empty(),
                found: Seq::empty(),
                known: self.indexed,
                listings: Seq::empty(),
                asked: seq![self.root],
                scan_done: false,
                ..self
            },
            StepView { events: Seq::empty(), action: ActionView::ReadDir(self.root) },
        )
    }

    /// The scan is over: the worklist is what was found, each path once.
    /// Without files the run completes at once with a count of zero; with
    /// files it announces their number and asks for the first batch.
    pub open spec fn begin_batches(self) -> (RunView, StepView) {
        if self.found.len() == 0 {
            RunView { files: Seq::empty(), scan_done: true, ..self }.finish_with(
                EventView::Completed(0),
            )
        } else {
            let files = distinct(self.found);
            let ready = RunView {
                phase: Phase::Embedding,
                files,
                found: Seq::empty(),
                cursor: 0,
                indexed_count: 0,
                scan_done: true,
                ..self
            };
            let end = ready.batch_limit(0);
            let started = EventView::Started(files.len() as usize);
            (
                RunView {
                    batch_end: end as usize,
                    trace: self.trace.push(started),
                    started_at: self.trace.len() as int,
                    ..ready
                },
                StepView { events: seq![started], action: ActionView::Embed(files.subrange(0, end)) },
            )
        }
    }

    /// A directory was read: its directories are read later, its files that
    /// have to be embedded join the files found, and the next directory is
    /// asked for, or the scan is over.
    pub open spec fn scanned(self, entries: Seq<DirEntryView>) -> (RunView, StepView) {
        let pending = self.pending + directories(entries);
        let found = self.found + qualifying(entries, self.indexed, !self.force_all);
        let listings = self.listings.push(entries);
        if pending.len() > 0 {
            (
                RunView {
                    pending: pending.drop_last(),
                    found,
                    listings,
                    asked: self.asked.push(pending.last()),
                    ..self
                },
                StepView { events: Seq::empty(), action: ActionView::ReadDir(pending.last()) },
            )
        } else {
            RunView { pending, found, listings, ..self }.begin_batches()
        }
    }

    /// A batch is left behind, with `events` still to pass on: the next
    /// batch is asked for, or the run completes with its count.
    pub open spec fn next_batch(self, events: Seq<EventView>) -> (RunView, StepView) {
        if self.cursor >= self.files.len() {
            let done = EventView::Completed(self.indexed_count);
            (
                RunView { phase: Phase::Done, trace: self.trace.push(done), ..self },
                StepView { events: events.push(done), action: ActionView::Finish },
            )
        } else {
            let end = self.batch_limit(self.cursor as int);
            (
                RunView { phase: Phase::Embedding, batch_end: end as usize, ..self },
                StepView {
                    events,
                    action: ActionView::Embed(self.files.subrange(self.cursor as int, end)),
                },
            )
        }
    }

    /// The batch is dealt with: the store has received its rows, the count
    /// grows by their number, progress is reported under the label of the
    /// batch's first file, and the run pauses if its mode asks for a pause.
    pub open spec fn batch_written(self) -> (RunView, StepView) {
        let count = (self.indexed_count + self.rows.len()) as usize;
        let progress = EventView::Progress(
            count,
            self.files.len() as usize,
            label_of(self.files[self.cursor as int]),
        );
        let counted = RunView {
            phase: Phase::Sleeping,
            cursor: self.batch_end,
            indexed_count: count,
            trace: self.trace.push(progress),
            stored: self.stored + kept(self.rows),
            ..self
        };
        if self.mode.spec_delay_ms() > 0 {
            (
                counted,
                StepView {
                    events: seq![progress],
                    action: ActionView::Sleep(self.mode.spec_delay_ms() as u64),
                },
            )
        } else {
            counted.next_batch(seq![progress])
        }
    }

    /// The embedding returned vectors of the lengths `lengths` for the
    /// batch; vector `i` belongs to file `i`. More vectors than files, or a
    /// vector of another length than the store takes, fail the batch. With
    /// no vector at all nothing is written. Otherwise the first files of
    /// the batch, as many as vectors came back, go on: where everything is
    /// embedded again their earlier rows are removed first, else their
    /// metadata are read.
    pub open spec fn embedded(self, lengths: Seq<usize>) -> (RunView, StepView) {
        let len = self.batch_end - self.cursor;
        if lengths.len() > len {
            self.batch_failed(mismatch_message())
        } else if !all_of_dimension(lengths) {
            self.batch_failed(dimension_message())
        } else {
            let taken = RunView {
                accepted: lengths.len() as usize,
                rows: Seq::empty(),
                lossless: self.lossless && lengths.len() == len,
                ..self
            };
            if lengths.len() == 0 {
                taken.batch_written()
            } else if self.force_all {
                (
                    RunView { phase: Phase::Removing, ..taken },
                    StepView { events: Seq::empty(), action: ActionView::RemoveRows(taken.sub_batch()) },
                )
            } else {
                (
                    RunView { phase: Phase::ReadingMetadata, ..taken },
                    StepView {
                        events: Seq::empty(),
                        action: ActionView::ReadMetadata(taken.sub_batch()),
                    },
                )
            }
        }
    }

    /// The earlier rows of the batch's files are removed: their metadata
    /// are read next.
    pub open spec fn rows_removed(self) -> (RunView, StepView) {
        (
            RunView {
                phase: Phase::ReadingMetadata,
                removed: self.removed.union(self.sub_batch().to_set()),
                ..self
            },
            StepView { events: Seq::empty(), action: ActionView::ReadMetadata(self.sub_batch()) },
        )
    }

    /// The metadata of the files that go on to the store were read. Where
    /// one of them could not be read the batch fails; otherwise there is a
    /// row for each file, row `i` for file `i` with vector `i`, and the rows
    /// are written as one batch.
    pub open spec fn metadata_read(self, metadata: Seq<Option<FileMeta>>) -> (RunView, StepView) {
        if !all_read(metadata, self.accepted as int) {
            self.batch_failed(metadata_message())
        } else {
            let rows = rows_of(self.sub_batch(), metadata);
            (
                RunView { phase: Phase::Inserting, rows, ..self },
                StepView { events: Seq::empty(), action: ActionView::Insert(rows) },
            )
        }
    }

    /// The rows were written: their files are known to be indexed.
    pub open spec fn inserted(self) -> (RunView, StepView) {
        RunView { indexed: self.indexed.union(self.sub_batch().to_set()), ..self }.batch_written()
    }

    /// What a report does to the run: the run afterwards, the events to pass
    /// on and the next action. A report that does not answer the pending
    /// action ends the run as failed; a run that is over, or has not begun,
    /// stays as it is.
    pub open spec fn next(self, outcome: OutcomeView) -> (RunView, StepView) {
        match self.phase {
            Phase::Idle | Phase::Done => (
                self,
                StepView { events: Seq::empty(), action: ActionView::Finish },
            ),
            Phase::LoadingVision => match outcome {
                OutcomeView::ModelLoaded => {
                    let announced = EventView::ModelAcquisitionProgress(2, 2, text_label());
                    (
                        RunView {
                            phase: Phase::LoadingText,
                            trace: self.trace.push(announced),
                            ..self
                        },
                        StepView { events: seq![announced], action: ActionView::LoadTextModel },
                    )
                },
                OutcomeView::ModelFailed(message) => self.finish_with(
                    EventView::ModelAcquisitionFailed(message),
                ),
                _ => self.stray(),
            },
            Phase::LoadingText => match outcome {
                OutcomeView::ModelLoaded => (
                    RunView {
                        phase: Phase::OpeningStore,
                        trace: self.trace.push(EventView::ModelAcquisitionCompleted),
                        ..self
                    },
                    StepView {
                        events: seq![EventView::ModelAcquisitionCompleted],
                        action: ActionView::OpenStore(self.store),
                    },
                ),
                OutcomeView::ModelFailed(message) => self.finish_with(
                    EventView::ModelAcquisitionFailed(message),
                ),
                _ => self.stray(),
            },
            Phase::OpeningStore => match outcome {
                OutcomeView::StoreOpened => if self.force_all {
                    self.begin_scan()
                } else {
                    (
                        RunView { phase: Phase::LoadingIndex, ..self },
                        StepView { events: Seq::empty(), action: ActionView::LoadIndexedPaths },
                    )
                },
                OutcomeView::StoreFailed(message) => self.finish_with(EventView::Failed(message)),
                _ => self.stray(),
            },
            Phase::LoadingIndex => match outcome {
                OutcomeView::IndexLoaded(paths) => RunView {
                    indexed: paths.to_set(),
                    ..self
                }.begin_scan(),
                OutcomeView::StoreFailed(message) => self.finish_with(EventView::Failed(message)),
                _ => self.stray(),
            },
            Phase::Scanning => match outcome {
                OutcomeView::DirListing(entries) => self.scanned(entries),
                OutcomeView::DirUnreadable => self.scanned(Seq::empty()),
                _ => self.stray(),
            },
            Phase::Embedding => match outcome {
                OutcomeView::Embedded(lengths) => self.embedded(lengths),
                OutcomeView::EmbedFailed(message) => self.batch_failed(message),
                _ => self.stray(),
            },
            Phase::Removing => match outcome {
                OutcomeView::Removed => self.rows_removed(),
                OutcomeView::RemoveFailed(message) => self.batch_failed(message),
                _ => self.stray(),
            },
            Phase::ReadingMetadata => match outcome {
                OutcomeView::Metadata(metadata) => self.metadata_read(metadata),
                _ => self.stray(),
            },
            Phase::Inserting => match outcome {
                OutcomeView::Inserted => self.inserted(),
                OutcomeView::InsertFailed(message) => self.batch_failed(message),
                _ => self.stray(),
            },
            Phase::Sleeping => match outcome {
                OutcomeView::Slept => self.next_batch(Seq::empty()),
                _ => self.stray(),
            },
        }
    }
}

/// A trace stays monotone when an event that is no progress report joins it.
pub proof fn lemma_push_other(trace: Seq<EventView>, event: EventView)
    requires
        progress_monotone(trace),
        !(event is Progress),
    ensures
        progress_monotone(trace.push(event)),
{
    let longer = trace.push(event);
    assert forall|i: int, j: int|
        0 <= i <= j < longer.len() && #[trigger] longer[i] is Progress && #[trigger] longer[j]
            is Progress implies longer[i]->Progress_0 <= longer[j]->Progress_0
        && longer[i]->Progress_1 == longer[j]->Progress_1 by {
        assert(longer[i] == trace[i]);
        assert(longer[j] == trace[j]);
    }
}

/// A trace stays monotone when a progress report joins it that counts at
/// least as many files as every report before it, under the same total.
pub proof fn lemma_push_progress(trace: Seq<EventView>, event: EventView)
    requires
        progress_monotone(trace),
        event is Progress,
        forall|i: int|
            0 <= i < trace.len() && #[trigger] trace[i] is Progress ==> trace[i]->Progress_0
                <= event->Progress_0 && trace[i]->Progress_1 == event->Progress_1,
    ensures
        progress_monotone(trace.push(event)),
{
    let longer = trace.push(event);
    assert forall|i: int, j: int|
        0 <= i <= j < longer.len() && #[trigger] longer[i] is Progress && #[trigger] longer[j]
            is Progress implies longer[i]->Progress_0 <= longer[j]->Progress_0
        && longer[i]->Progress_1 == longer[j]->Progress_1 by {
        if j < trace.len() {
            assert(longer[i] == trace[i]);
            assert(longer[j] == trace[j]);
        } else if i < trace.len() {
            assert(longer[i] == trace[i]);
        }
    }
}

proof fn lemma_finish_with(v: RunView, event: EventView)
    requires
        v.wf(),
        v.phase != Phase::Done,
        is_terminal(event),
        v.files.len() > 0 ==> !(event is ModelAcquisitionFailed),
        event is Completed ==> event->Completed_0 == v.stored.len(),
    ensures
        v.finish_with(event).0.wf(),
        v.finish_with(event).0.trace == v.trace + v.finish_with(event).1.events,
{
    let after = v.finish_with(event).0;
    lemma_push_other(v.trace, event);
    assert(v.trace.push(event) =~= v.trace + seq![event]);
    assert forall|i: int| 0 <= i < v.trace.len() implies after.trace[i] == v.trace[i] by {}
    assert(after.body() == v.body());
    assert(after.shaped());
}

proof fn lemma_next_batch(v: RunView, events: Seq<EventView>)
    requires
        v.wf(),
        v.phase == Phase::Sleeping,
    ensures
        v.next_batch(events).0.wf(),
        v.next_batch(events).1.events.len() >= events.len(),
        v.next_batch(events).1.events == events + v.next_batch(events).1.events.skip(
            events.len() as int,
        ),
        v.next_batch(events).0.trace == v.trace + v.next_batch(events).1.events.skip(
            events.len() as int,
        ),
        v.next_batch(events).1.action is Embed ==> v.next_batch(events).1.action->Embed_0
            == v.next_batch(events).0.files.subrange(
            v.next_batch(events).0.cursor as int,
            v.next_batch(events).0.batch_end as int,
        ),
        !(v.next_batch(events).1.action is Insert),
{
    let after = v.next_batch(events).0;
    if v.cursor >= v.files.len() {
        let done = EventView::Completed(v.indexed_count);
        lemma_push_other(v.trace, done);
        assert(events.push(done).skip(events.len() as int) =~= seq![done]);
        assert(events.push(done) =~= events + seq![done]);
        assert(v.trace.push(done) =~= v.trace + seq![done]);
        assert forall|i: int| 0 <= i < v.trace.len() implies after.trace[i] == v.trace[i] by {}
        assert(after.body() == v.body());
        assert(after.shaped());
    } else {
        assert(events.skip(events.len() as int) =~= Seq::<EventView>::empty());
        assert(events =~= events + Seq::<EventView>::empty());
        assert(after.trace =~= v.trace + Seq::<EventView>::empty());
    }
}

proof fn lemma_batch_written(v: RunView)
    requires
        v.wf(),
        v.in_batch(),
        v.accepted <= v.batch_end - v.cursor,
        v.rows.len() == v.accepted,
        v.lossless ==> v.accepted == v.batch_end - v.cursor,
        forall|i: int|
            0 <= i < v.rows.len() ==> (#[trigger] v.rows[i]).file_path == v.files[v.cursor + i],
        forall|i: int| 0 <= i < v.accepted ==> v.indexed.contains(#[trigger] v.files[v.cursor + i]),
        v.force_all ==> forall|i: int|
            0 <= i < v.accepted ==> v.removed.contains(#[trigger] v.files[v.cursor + i]),
    ensures
        v.batch_written().0.wf(),
        v.batch_written().0.trace == v.trace + v.batch_written().1.events,
        v.batch_written().1.action is Embed ==> v.batch_written().1.action->Embed_0
            == v.batch_written().0.files.subrange(
            v.batch_written().0.cursor as int,
            v.batch_written().0.batch_end as int,
        ),
        !(v.batch_written().1.action is Insert),
{
    let count = (v.indexed_count + v.rows.len()) as usize;
    let progress = EventView::Progress(
        count,
        v.files.len() as usize,
        label_of(v.files[v.cursor as int]),
    );
    let sleeping = RunView {
        phase: Phase::Sleeping,
        cursor: v.batch_end,
        indexed_count: count,
        trace: v.trace.push(progress),
        stored: v.stored + kept(v.rows),
        ..v
    };
    lemma_push_progress(v.trace, progress);
    assert forall|i: int| 0 <= i < v.trace.len() implies sleeping.trace[i] == v.trace[i] by {}
    let before = v.files.subrange(0, v.cursor as int);
    let upto = v.files.subrange(0, v.batch_end as int);
    assert forall|i: int| 0 <= i < sleeping.stored.len() implies {
        &&& i < v.stored.len() ==> (#[trigger] sleeping.stored[i]) == v.stored[i]
        &&& i >= v.stored.len() ==> sleeping.stored[i].file_path == v.files[v.cursor + (i
            - v.stored.len())]
        &&& upto.contains(sleeping.stored[i].file_path)
        &&& sleeping.indexed.contains(sleeping.stored[i].file_path)
        &&& v.force_all ==> sleeping.removed.contains(sleeping.stored[i].file_path)
    } by {
        if i < v.stored.len() {
            assert(sleeping.stored[i] == v.stored[i]);
            let p = v.stored[i].file_path;
            assert(before.contains(p));
            let m = choose|m: int| 0 <= m < before.len() && before[m] == p;
            assert(upto[m] == p);
        } else {
            let k = i - v.stored.len();
            assert(sleeping.stored[i] == kept(v.rows)[k]);
            assert(v.rows[k].file_path == v.files[v.cursor + k]);
            assert(upto[v.cursor + k] == v.files[v.cursor + k]);
        }
    }
    assert forall|i: int, j: int| 0 <= i < j < sleeping.stored.len() implies (
    #[trigger] sleeping.stored[i]).file_path != (#[trigger] sleeping.stored[j]).file_path by {
        if j < v.stored.len() {
            assert(sleeping.stored[i] == v.stored[i]);
            assert(sleeping.stored[j] == v.stored[j]);
        } else if i >= v.stored.len() {
            let a = v.cursor + (i - v.stored.len());
            let b = v.cursor + (j - v.stored.len());
            assert(sleeping.stored[i].file_path == v.files[a]);
            assert(sleeping.stored[j].file_path == v.files[b]);
            assert(v.files[a] != v.files[b]);
        } else {
            let p = v.stored[i].file_path;
            assert(sleeping.stored[i] == v.stored[i]);
            assert(before.contains(p));
            let m = choose|m: int| 0 <= m < before.len() && before[m] == p;
            let b = v.cursor + (j - v.stored.len());
            assert(sleeping.stored[j].file_path == v.files[b]);
            assert(v.files[m] == p);
            assert(v.files[m] != v.files[b]);
        }
    }
    assert(sleeping.shaped());
    assert(sleeping.kept_track());
    assert(sleeping.wf());
    assert(v.trace.push(progress) =~= v.trace + seq![progress]);
    if v.mode.spec_delay_ms() > 0 {
        assert(v.batch_written().0 == sleeping);
    } else {
        lemma_next_batch(sleeping, seq![progress]);
        let step = sleeping.next_batch(seq![progress]);
        assert(v.batch_written() == step);
        let tail = step.1.events.skip(1);
        assert(step.0.trace =~= v.trace + (seq![progress] + tail));
    }
}

proof fn lemma_begin_batches(v: RunView)
    requires
        v.counted(),
        v.shaped(),
        v.kept_track(),
        v.walked(),
        v.phase == Phase::Scanning,
        v.indexed == v.known,
        v.found == gathered(v.listings, v.known, !v.force_all),
        v.asked.len() == v.listings.len(),
        v.asked.to_multiset() == seq![v.root].to_multiset().add(
            all_directories(v.listings).to_multiset(),
        ),
    ensures
        v.begin_batches().0.wf(),
        v.begin_batches().0.trace == v.trace + v.begin_batches().1.events,
        v.begin_batches().1.action is Embed ==> v.begin_batches().1.action->Embed_0
            == v.begin_batches().0.files.subrange(
            v.begin_batches().0.cursor as int,
            v.begin_batches().0.batch_end as int,
        ),
        !(v.begin_batches().1.action is Insert),
{
    lemma_distinct(v.found);
    if v.found.len() == 0 {
        let after = v.begin_batches().0;
        let done = EventView::Completed(0);
        assert(v.files =~= Seq::<Seq<char>>::empty());
        assert(v.found =~= Seq::<Seq<char>>::empty());
        assert(distinct(v.found) =~= Seq::<Seq<char>>::empty());
        lemma_push_other(v.trace, done);
        assert(v.trace.push(done) =~= v.trace + seq![done]);
        assert forall|i: int| 0 <= i < v.trace.len() implies after.trace[i] == v.trace[i] by {}
        assert(after.shaped());
        assert(after.kept_track());
    } else {
        let after = v.begin_batches().0;
        let started = EventView::Started(distinct(v.found).len() as usize);
        lemma_push_other(v.trace, started);
        assert(v.trace.push(started) =~= v.trace + seq![started]);
        assert forall|i: int| 0 <= i < v.trace.len() implies after.trace[i] == v.trace[i]
            && is_loading(v.trace[i]) by {}
        assert(after.shaped());
        if !v.force_all {
            lemma_gathered_are_new(v.listings, v.known);
            assert forall|i: int| 0 <= i < after.files.len() implies !v.known.contains(
                #[trigger] after.files[i],
            ) by {
                assert(after.files.contains(after.files[i]));
                assert(v.found.contains(after.files[i]));
            }
        }
        assert(after.kept_track());
    }
}

/// A sequence without items has no item in its multiset.
proof fn lemma_empty_multiset(items: Seq<Seq<char>>)
    requires
        items.len() == 0,
    ensures
        items.to_multiset() == vstd::multiset::Multiset::<Seq<char>>::empty(),
{
    assert forall|a: Seq<char>| items.to_multiset().count(a) == 0 by {
        vstd::seq_lib::to_multiset_contains(items, a);
    }
    assert(items.to_multiset() =~= vstd::multiset::Multiset::<Seq<char>>::empty());
}

proof fn lemma_scanned(v: RunView, entries: Seq<DirEntryView>)
    requires
        v.wf(),
        v.phase == Phase::Scanning,
        (v.found + qualifying(entries, v.indexed, !v.force_all)).len() <= usize::MAX,
    ensures
        v.scanned(entries).0.wf(),
        v.scanned(entries).0.trace == v.trace + v.scanned(entries).1.events,
        v.scanned(entries).1.action is Embed ==> v.scanned(entries).1.action->Embed_0
            == v.scanned(entries).0.files.subrange(
            v.scanned(entries).0.cursor as int,
            v.scanned(entries).0.batch_end as int,
        ),
        !(v.scanned(entries).1.action is Insert),
{
    let pending = v.pending + directories(entries);
    let found = v.found + qualifying(entries, v.indexed, !v.force_all);
    let listings = v.listings.push(entries);
    let root = seq![v.root].to_multiset();
    assert(listings.drop_last() =~= v.listings);
    assert(listings.last() == entries);
    assert(gathered(listings, v.known, !v.force_all) == found);
    assert(all_directories(listings) == all_directories(v.listings) + directories(entries));
    vstd::seq_lib::lemma_multiset_commutative(v.pending, directories(entries));
    vstd::seq_lib::lemma_multiset_commutative(all_directories(v.listings), directories(entries));
    if pending.len() > 0 {
        assert(v.trace =~= v.trace + Seq::<EventView>::empty());
        let after = v.scanned(entries).0;
        assert(after.shaped());
        assert(pending.drop_last().push(pending.last()) =~= pending);
        vstd::seq_lib::to_multiset_build(pending.drop_last(), pending.last());
        vstd::seq_lib::to_multiset_build(v.asked, pending.last());
        assert(after.asked.to_multiset().add(after.pending.to_multiset()) =~= root.add(
            all_directories(listings).to_multiset(),
        )) by {
            let last = pending.last();
            assert(after.asked.to_multiset() =~= v.asked.to_multiset().insert(last));
            assert(pending.to_multiset() =~= pending.drop_last().to_multiset().insert(last));
            assert(v.asked.to_multiset().insert(last).add(pending.drop_last().to_multiset())
                =~= v.asked.to_multiset().add(
                pending.drop_last().to_multiset().insert(last),
            ));
            assert(v.asked.to_multiset().add(pending.to_multiset()) =~= v.asked.to_multiset().add(
                v.pending.to_multiset(),
            ).add(directories(entries).to_multiset()));
            assert(root.add(all_directories(v.listings).to_multiset()).add(
                directories(entries).to_multiset(),
            ) =~= root.add(all_directories(listings).to_multiset()));
        }
    } else {
        let ready = RunView { pending, found, listings, ..v };
        assert(ready.shaped());
        assert(pending =~= Seq::<Seq<char>>::empty());
        assert(v.pending =~= Seq::<Seq<char>>::empty());
        assert(directories(entries) =~= Seq::<Seq<char>>::empty());
        assert(all_directories(listings) =~= all_directories(v.listings));
        lemma_empty_multiset(v.pending);
        lemma_empty_multiset(directories(entries));
        assert(v.asked.to_multiset().add(v.pending.to_multiset()) =~= v.asked.to_multiset());
        lemma_begin_batches(ready);
    }
}

proof fn lemma_batch_failed(v: RunView, message: Seq<char>)
    requires
        v.wf(),
        v.in_batch(),
    ensures
        v.batch_failed(message).0.wf(),
        v.batch_failed(message).0.trace == v.trace + v.batch_failed(message).1.events,
{
    if v.indexed_count == 0 {
        lemma_finish_with(v, EventView::Failed(message));
    } else {
        lemma_finish_with(v, EventView::Completed(v.indexed_count));
    }
}

proof fn lemma_embedded(v: RunView, lengths: Seq<usize>)
    requires
        v.wf(),
        v.phase == Phase::Embedding,
    ensures
        v.embedded(lengths).0.wf(),
        v.embedded(lengths).0.trace == v.trace + v.embedded(lengths).1.events,
        v.embedded(lengths).1.action is Embed ==> v.embedded(lengths).1.action->Embed_0
            == v.embedded(lengths).0.files.subrange(
            v.embedded(lengths).0.cursor as int,
            v.embedded(lengths).0.batch_end as int,
        ),
        !(v.embedded(lengths).1.action is Insert),
{
    let len = v.batch_end - v.cursor;
    if lengths.len() > len {
        lemma_batch_failed(v, mismatch_message());
    } else if !all_of_dimension(lengths) {
        lemma_batch_failed(v, dimension_message());
    } else {
        let taken = RunView {
            accepted: lengths.len() as usize,
            rows: Seq::empty(),
            lossless: v.lossless && lengths.len() == len,
            ..v
        };
        assert(taken.shaped());
        assert(taken.wf());
        if lengths.len() == 0 {
            lemma_batch_written(taken);
        } else {
            assert(v.trace =~= v.trace + Seq::<EventView>::empty());
            let after = v.embedded(lengths).0;
            assert(after.shaped());
        }
    }
}

proof fn lemma_rows_removed(v: RunView)
    requires
        v.wf(),
        v.phase == Phase::Removing,
    ensures
        v.rows_removed().0.wf(),
        v.rows_removed().0.trace == v.trace + v.rows_removed().1.events,
{
    let after = v.rows_removed().0;
    assert(v.trace =~= v.trace + Seq::<EventView>::empty());
    assert(after.shaped());
    assert forall|i: int| 0 <= i < v.accepted implies after.removed.contains(
        #[trigger] v.files[v.cursor + i],
    ) by {
        assert(v.sub_batch()[i] == v.files[v.cursor + i]);
        assert(v.sub_batch().contains(v.files[v.cursor + i]));
    }
}

proof fn lemma_metadata_read(v: RunView, metadata: Seq<Option<FileMeta>>)
    requires
        v.wf(),
        v.phase == Phase::ReadingMetadata,
    ensures
        v.metadata_read(metadata).0.wf(),
        v.metadata_read(metadata).0.trace == v.trace + v.metadata_read(metadata).1.events,
        v.metadata_read(metadata).1.action is Insert ==> v.metadata_read(metadata).0.phase
            == Phase::Inserting && v.metadata_read(metadata).1.action->Insert_0
            == v.metadata_read(metadata).0.rows,
        !(v.metadata_read(metadata).1.action is Embed),
{
    if !all_read(metadata, v.accepted as int) {
        lemma_batch_failed(v, metadata_message());
    } else {
        assert(v.trace =~= v.trace + Seq::<EventView>::empty());
        let after = v.metadata_read(metadata).0;
        assert(after.shaped());
        assert forall|i: int| 0 <= i < after.rows.len() implies (
        #[trigger] after.rows[i]).file_path == v.files[v.cursor + i] && after.rows[i].vector
            == i by {
            assert(v.sub_batch()[i] == v.files[v.cursor + i]);
        }
    }
}

proof fn lemma_inserted(v: RunView)
    requires
        v.wf(),
        v.phase == Phase::Inserting,
    ensures
        v.inserted().0.wf(),
        v.inserted().0.trace == v.trace + v.inserted().1.events,
        v.inserted().1.action is Embed ==> v.inserted().1.action->Embed_0
            == v.inserted().0.files.subrange(
            v.inserted().0.cursor as int,
            v.inserted().0.batch_end as int,
        ),
        !(v.inserted().1.action is Insert),
{
    let known = RunView { indexed: v.indexed.union(v.sub_batch().to_set()), ..v };
    assert forall|i: int| 0 <= i < v.accepted implies known.indexed.contains(
        #[trigger] v.files[v.cursor + i],
    ) by {
        assert(v.sub_batch()[i] == v.files[v.cursor + i]);
        assert(v.sub_batch().contains(v.files[v.cursor + i]));
    }
    assert(known.shaped());
    assert(known.wf());
    lemma_batch_written(known);
}

proof fn lemma_begin_scan(v: RunView)
    ensures
        v.begin_scan().0.walking(),
{
    let after = v.begin_scan().0;
    assert(all_directories(after.listings) =~= Seq::<Seq<char>>::empty());
    assert(gathered(after.listings, after.known, !after.force_all) =~= Seq::<Seq<char>>::empty());
    lemma_empty_multiset(after.pending);
    lemma_empty_multiset(all_directories(after.listings));
    assert(after.asked.to_multiset().add(after.pending.to_multiset()) =~= seq![
        after.root,
    ].to_multiset().add(all_directories(after.listings).to_multiset()));
}

proof fn lemma_loading(v: RunView, event: EventView, phase: Phase)
    requires
        v.wf(),
        v.phase == Phase::LoadingVision || v.phase == Phase::LoadingText,
        phase == Phase::LoadingText || phase == Phase::OpeningStore,
        is_loading(event),
    ensures
        (RunView { phase, trace: v.trace.push(event), ..v }).wf(),
        v.trace.push(event) == v.trace + seq![event],
{
    let after = RunView { phase, trace: v.trace.push(event), ..v };
    lemma_push_other(v.trace, event);
    assert(v.trace.push(event) =~= v.trace + seq![event]);
    assert forall|i: int| 0 <= i < v.trace.len() implies after.trace[i] == v.trace[i] by {}
    assert(after.shaped());
}

/// Every report that a run can take in leaves it well formed, and the events
/// handed out are exactly what joins the trace. A batch handed to the
/// embedding is the stretch of the worklist between cursor and batch end; a
/// batch of rows handed to the store is the rows of the state.
pub proof fn lemma_next_preserves_wf(v: RunView, outcome: OutcomeView)
    requires
        v.wf(),
        v.admits(outcome),
    ensures
        v.next(outcome).0.wf(),
        v.next(outcome).0.trace == v.trace + v.next(outcome).1.events,
        v.next(outcome).1.action is Embed ==> v.next(outcome).0.phase == Phase::Embedding
            && v.next(outcome).1.action->Embed_0 == v.next(outcome).0.files.subrange(
            v.next(outcome).0.cursor as int,
            v.next(outcome).0.batch_end as int,
        ),
        v.next(outcome).1.action is Insert ==> v.next(outcome).0.phase == Phase::Inserting
            && v.next(outcome).1.action->Insert_0 == v.next(outcome).0.rows,
{
    let stray = EventView::Failed(stray_message());
    match v.phase {
        Phase::Idle | Phase::Done => {
            assert(v.trace =~= v.trace + Seq::<EventView>::empty());
        },
        Phase::LoadingVision => match outcome {
            OutcomeView::ModelLoaded => {
                lemma_loading(
                    v,
                    EventView::ModelAcquisitionProgress(2, 2, text_label()),
                    Phase::LoadingText,
                );
            },
            OutcomeView::ModelFailed(message) => {
                lemma_finish_with(v, EventView::ModelAcquisitionFailed(message));
            },
            _ => {
                lemma_finish_with(v, stray);
            },
        },
        Phase::LoadingText => match outcome {
            OutcomeView::ModelLoaded => {
                lemma_loading(v, EventView::ModelAcquisitionCompleted, Phase::OpeningStore);
            },
            OutcomeView::ModelFailed(message) => {
                lemma_finish_with(v, EventView::ModelAcquisitionFailed(message));
            },
            _ => {
                lemma_finish_with(v, stray);
            },
        },
        Phase::OpeningStore => match outcome {
            OutcomeView::StoreOpened => {
                assert(v.trace =~= v.trace + Seq::<EventView>::empty());
                assert(v.next(outcome).0.shaped());
                lemma_begin_scan(v);
            },
            OutcomeView::StoreFailed(message) => {
                lemma_finish_with(v, EventView::Failed(message));
            },
            _ => {
                lemma_finish_with(v, stray);
            },
        },
        Phase::LoadingIndex => match outcome {
            OutcomeView::IndexLoaded(paths) => {
                assert(v.trace =~= v.trace + Seq::<EventView>::empty());
                assert(v.next(outcome).0.shaped());
                lemma_begin_scan(RunView { indexed: paths.to_set(), ..v });
            },
            OutcomeView::StoreFailed(message) => {
                lemma_finish_with(v, EventView::Failed(message));
            },
            _ => {
                lemma_finish_with(v, stray);
            },
        },
        Phase::Scanning => match outcome {
            OutcomeView::DirListing(entries) => {
                lemma_scanned(v, entries);
            },
            OutcomeView::DirUnreadable => {
                assert(v.found + qualifying(
                    Seq::<DirEntryView>::empty(),
                    v.indexed,
                    !v.force_all,
                ) =~= v.found);
                lemma_scanned(v, Seq::empty());
            },
            _ => {
                lemma_finish_with(v, stray);
            },
        },
        Phase::Embedding => match outcome {
            OutcomeView::Embedded(lengths) => {
                lemma_embedded(v, lengths);
            },
            OutcomeView::EmbedFailed(message) => {
                lemma_batch_failed(v, message);
            },
            _ => {
                lemma_finish_with(v, stray);
            },
        },
        Phase::Removing => match outcome {
            OutcomeView::Removed => {
                lemma_rows_removed(v);
            },
            OutcomeView::RemoveFailed(message) => {
                lemma_batch_failed(v, message);
            },
            _ => {
                lemma_finish_with(v, stray);
            },
        },
        Phase::ReadingMetadata => match outcome {
            OutcomeView::Metadata(metadata) => {
                lemma_metadata_read(v, metadata);
            },
            _ => {
                lemma_finish_with(v, stray);
            },
        },
        Phase::Inserting => match outcome {
            OutcomeView::Inserted => {
                lemma_inserted(v);
            },
            OutcomeView::InsertFailed(message) => {
                lemma_batch_failed(v, message);
            },
            _ => {
                lemma_finish_with(v, stray);
            },
        },
        Phase::Sleeping => match outcome {
            OutcomeView::Slept => {
                lemma_next_batch(v, Seq::empty());
                let step = v.next_batch(Seq::empty());
                assert(step.1.events.skip(0) =~= step.1.events);
            },
            _ => {
                lemma_finish_with(v, stray);
            },
        },
    }
}

/// Progress never steps back: of two progress reports of one run, the later
/// one counts at least as many files, and both give the same total, the
/// length of the worklist.
pub proof fn lemma_progress_monotone(v: RunView)
    requires
        v.wf(),
    ensures
        progress_monotone(v.trace),
        forall|i: int|
            0 <= i < v.trace.len() && #[trigger] v.trace[i] is Progress ==> v.trace[i]->Progress_1
                == v.files.len() && v.trace[i]->Progress_0 <= v.indexed_count,
{
}

/// The count is of rows written: the number of files indexed so far is the
/// number of rows that the store received, no progress report counts more
/// than that, and a run that completed reports exactly that number.
pub proof fn lemma_count_is_rows_written(v: RunView)
    requires
        v.wf(),
    ensures
        v.indexed_count == v.stored.len(),
        forall|i: int|
            0 <= i < v.trace.len() && #[trigger] v.trace[i] is Progress ==> v.trace[i]->Progress_0
                <= v.stored.len(),
        v.phase == Phase::Done && v.trace.last() is Completed ==> v.trace.last()->Completed_0
            == v.stored.len(),
{
}

/// Batch pairing: whenever rows are handed to the store, there are as many
/// rows as vectors came back for the batch, at most as many as files were
/// handed to the embedding, and row `i` is of the `i`-th file of the batch
/// and names vector `i`.
pub proof fn lemma_insert_is_positional(v: RunView, outcome: OutcomeView)
    requires
        v.wf(),
        v.admits(outcome),
        v.next(outcome).1.action is Insert,
    ensures
        ({
            let after = v.next(outcome).0;
            let rows = v.next(outcome).1.action->Insert_0;
            &&& rows.len() == after.accepted
            &&& after.accepted <= after.batch_end - after.cursor
            &&& forall|i: int|
                0 <= i < rows.len() ==> (#[trigger] rows[i]).file_path == after.files[after.cursor
                    + i] && rows[i].vector == i
        }),
{
    lemma_next_preserves_wf(v, outcome);
}

/// The shape of every trace: reports of the models being loaded come first;
/// a run with files to embed reports exactly once that it started, with
/// their number, before any progress; the end of a run is reported once,
/// last of all, and only by a run that is over.
pub proof fn lemma_trace_shape(v: RunView)
    requires
        v.wf(),
    ensures
        v.shaped(),
        forall|i: int|
            0 <= i < v.trace.len() && #[trigger] v.trace[i] is Started ==> v.files.len() > 0 && i
                == v.started_at && v.trace[i]->Started_0 == v.files.len(),
        forall|i: int|
            0 <= i < v.trace.len() && #[trigger] v.trace[i] is Progress ==> v.files.len() > 0
                && v.started_at < i,
        forall|i: int|
            0 <= i < v.trace.len() && is_terminal(#[trigger] v.trace[i]) ==> v.phase == Phase::Done
                && i == v.trace.len() - 1,
{
    assert forall|i: int| 0 <= i < v.trace.len() && is_terminal(#[trigger] v.trace[i]) implies 
        v.phase == Phase::Done && i == v.trace.len() - 1 by {
        if i < v.body() {
            if v.files.len() > 0 {
                if i < v.started_at {
                    assert(is_loading(v.trace[i]));
                } else if i > v.started_at {
                    assert(v.trace[i] is Progress);
                }
            } else {
                assert(is_loading(v.trace[i]));
            }
        }
    }
    assert forall|i: int| 0 <= i < v.trace.len() && #[trigger] v.trace[i] is Started implies 
        v.files.len() > 0 && i == v.started_at && v.trace[i]->Started_0 == v.files.len() by {
        if i < v.body() {
            if v.files.len() > 0 {
                if i < v.started_at {
                    assert(is_loading(v.trace[i]));
                } else if i > v.started_at {
                    assert(v.trace[i] is Progress);
                }
            } else {
                assert(is_loading(v.trace[i]));
            }
        } else {
            assert(is_terminal(v.trace.last()));
        }
    }
    assert forall|i: int| 0 <= i < v.trace.len() && #[trigger] v.trace[i] is Progress implies 
        v.files.len() > 0 && v.started_at < i by {
        if i < v.body() {
            if v.files.len() > 0 {
                if i < v.started_at {
                    assert(is_loading(v.trace[i]));
                }
            } else {
                assert(is_loading(v.trace[i]));
            }
        } else {
            assert(is_terminal(v.trace.last()));
        }
    }
}

/// Acquisition is reported step by step: a run that has to load its models
/// announces the image model as the first of two, then the text model as
/// the second, then that both are loaded, and only then opens the store. A
/// model that fails to load ends the run with that failure as its only
/// further report.
pub proof fn lemma_acquisition_reports(
    mode: CpuMode,
    root: Seq<char>,
    store: Seq<char>,
    force_all: bool,
    message: Seq<char>,
)
    ensures
        ({
            let asked = RunView::idle(mode, root, store).begin_acquisition(force_all);
            let vision = asked.0.next(OutcomeView::ModelLoaded);
            let text = vision.0.next(OutcomeView::ModelLoaded);
            &&& asked.1.action == ActionView::LoadVisionModel
            &&& vision.1.action == ActionView::LoadTextModel
            &&& text.1.action == ActionView::OpenStore(store)
            &&& text.0.trace == seq![
                EventView::ModelAcquisitionProgress(1, 2, vision_label()),
                EventView::ModelAcquisitionProgress(2, 2, text_label()),
                EventView::ModelAcquisitionCompleted,
            ]
            &&& asked.0.next(OutcomeView::ModelFailed(message)).1 == (StepView {
                events: seq![EventView::ModelAcquisitionFailed(message)],
                action: ActionView::Finish,
            })
            &&& vision.0.next(OutcomeView::ModelFailed(message)).1 == (StepView {
                events: seq![EventView::ModelAcquisitionFailed(message)],
                action: ActionView::Finish,
            })
            &&& asked.0.wf()
        }),
{
    let asked = RunView::idle(mode, root, store).begin_acquisition(force_all);
    let vision = asked.0.next(OutcomeView::ModelLoaded);
    let text = vision.0.next(OutcomeView::ModelLoaded);
    assert(text.0.trace =~= seq![
        EventView::ModelAcquisitionProgress(1, 2, vision_label()),
        EventView::ModelAcquisitionProgress(2, 2, text_label()),
        EventView::ModelAcquisitionCompleted,
    ]);
}

/// An empty corpus: when the last directory is read and no file has to be
/// embedded, the run completes at once with a count of zero, and no start
/// and no progress was ever reported.
pub proof fn lemma_empty_corpus_completes_at_once(v: RunView, entries: Seq<DirEntryView>)
    requires
        v.wf(),
        v.phase == Phase::Scanning,
        v.pending.len() == 0,
        directories(entries).len() == 0,
        v.found.len() == 0,
        qualifying(entries, v.indexed, !v.force_all).len() == 0,
    ensures
        v.next(OutcomeView::DirListing(entries)).1 == (StepView {
            events: seq![EventView::Completed(0)],
            action: ActionView::Finish,
        }),
        v.next(OutcomeView::DirListing(entries)).0.phase == Phase::Done,
        forall|i: int|
            0 <= i < v.next(OutcomeView::DirListing(entries)).0.trace.len() ==> !(
            #[trigger] v.next(OutcomeView::DirListing(entries)).0.trace[i] is Started) && !(v.next(
                OutcomeView::DirListing(entries),
            ).0.trace[i] is Progress),
{
    let after = v.next(OutcomeView::DirListing(entries)).0;
    assert(v.pending + directories(entries) =~= Seq::<Seq<char>>::empty());
    assert(v.found + qualifying(entries, v.indexed, !v.force_all) =~= Seq::<Seq<char>>::empty());
    assert(after.trace == v.trace.push(EventView::Completed(0)));
    assert forall|i: int| 0 <= i < after.trace.len() implies !(#[trigger] after.trace[i]
        is Started) && !(after.trace[i] is Progress) by {
        if i < v.trace.len() {
            assert(after.trace[i] == v.trace[i]);
            assert(is_loading(v.trace[i]));
        }
    }
}

/// Every batch handed to the embedding is a stretch of the worklist with at
/// least one file and at most as many as the mode's batch size.
pub proof fn lemma_embed_batches_are_bounded(v: RunView, outcome: OutcomeView)
    requires
        v.wf(),
        v.admits(outcome),
        v.next(outcome).1.action is Embed,
    ensures
        1 <= v.next(outcome).1.action->Embed_0.len() <= v.mode.spec_batch_size(),
        v.next(outcome).0.phase == Phase::Embedding,
        v.next(outcome).1.action->Embed_0 == v.next(outcome).0.files.subrange(
            v.next(outcome).0.cursor as int,
            v.next(outcome).0.batch_end as int,
        ),
{
    lemma_next_preserves_wf(v, outcome);
}

/// The walk is complete: once the scan is over, the worklist holds exactly
/// the files of the reported listings that had to be embedded, in the order
/// of the reports, each path once: a path is on it exactly where some
/// listing holds a regular file at that path with an image extension that,
/// in an incremental run, the index as loaded lacks; the directories that the caller was
/// asked to read are the root and every directory that a listing held, each
/// as often as it was listed; and each of them was reported on, readable or
/// not.
pub proof fn lemma_scan_is_complete(v: RunView)
    requires
        v.wf(),
        v.scan_done,
    ensures
        v.files == distinct(gathered(v.listings, v.known, !v.force_all)),
        v.files.no_duplicates(),
        forall|p: Seq<char>|
            v.files.contains(p) <==> listed_to_embed(v.listings, v.known, !v.force_all, p),
        v.asked.len() == v.listings.len(),
        v.asked.to_multiset() == seq![v.root].to_multiset().add(
            all_directories(v.listings).to_multiset(),
        ),
        v.known.subset_of(v.indexed),
{
    lemma_distinct(gathered(v.listings, v.known, !v.force_all));
    lemma_gathered_characterized(v.listings, v.known, !v.force_all);
}

/// A run that completed in full wrote a row for every file of its worklist,
/// in order.
pub proof fn lemma_full_run_stores_worklist(v: RunView)
    requires
        v.wf(),
        v.completed_in_full(),
    ensures
        v.stored.len() == v.files.len(),
        forall|i: int| 0 <= i < v.files.len() ==> (#[trigger] v.stored[i]).file_path == v.files[i],
{
}

/// What was stored is known as indexed: the path of every row that reached
/// the store is in the set of indexed paths, so that a later scan that
/// diffs against this set leaves the file out.
pub proof fn lemma_stored_paths_are_indexed(v: RunView)
    requires
        v.wf(),
    ensures
        forall|i: int|
            0 <= i < v.stored.len() ==> v.indexed.contains((#[trigger] v.stored[i]).file_path),
{
}

/// No path gets a second row. The rows that a run writes are of pairwise
/// different paths. In an incremental run none of these paths was in the
/// index as loaded from the store. In a run that embeds everything again,
/// the store was asked to remove the rows of each path, and did, before the
/// path's new row was written.
pub proof fn lemma_no_second_row(v: RunView)
    requires
        v.wf(),
    ensures
        forall|i: int, j: int|
            0 <= i < j < v.stored.len() ==> (#[trigger] v.stored[i]).file_path != (
            #[trigger] v.stored[j]).file_path,
        !v.force_all ==> forall|i: int|
            0 <= i < v.stored.len() ==> !v.known.contains((#[trigger] v.stored[i]).file_path),
        v.force_all ==> forall|i: int|
            0 <= i < v.stored.len() ==> v.removed.contains((#[trigger] v.stored[i]).file_path),
        v.phase == Phase::Inserting ==> forall|i: int|
            0 <= i < v.rows.len() ==> if v.force_all {
                v.removed.contains((#[trigger] v.rows[i]).file_path)
            } else {
                !v.known.contains(v.rows[i].file_path)
            },
{
    if !v.force_all {
        assert forall|i: int| 0 <= i < v.stored.len() implies !v.known.contains(
            (#[trigger] v.stored[i]).file_path,
        ) by {
            let p = v.stored[i].file_path;
            let before = v.files.subrange(0, v.cursor as int);
            assert(before.contains(p));
            let m = choose|m: int| 0 <= m < before.len() && before[m] == p;
            assert(v.files[m] == p);
        }
    }
    if v.phase == Phase::Inserting {
        assert forall|i: int| 0 <= i < v.rows.len() implies if v.force_all {
            v.removed.contains((#[trigger] v.rows[i]).file_path)
        } else {
            !v.known.contains(v.rows[i].file_path)
        } by {
            assert(v.rows[i].file_path == v.files[v.cursor + i]);
        }
    }
}

/// Incremental indexing is idempotent. Let a first run complete in full, so
/// that every file of its worklist reached the store. A second, incremental
/// run that is told the same listings and loads at least what the first run
/// knew as indexed has an empty worklist: it indexes nothing.
pub proof fn lemma_rerun_indexes_nothing(first: RunView, second: RunView)
    requires
        first.wf(),
        first.completed_in_full(),
        second.wf(),
        second.scan_done,
        !second.force_all,
        second.listings == first.listings,
        first.indexed.subset_of(second.known),
    ensures
        second.files == Seq::<Seq<char>>::empty(),
{
    let listings = first.listings;
    let found = gathered(listings, first.known, !first.force_all);
    lemma_gathered_members(listings, first.known, !first.force_all);
    lemma_distinct(found);
    assert forall|k: int| 0 <= k < listings.len() implies qualifying(
        #[trigger] listings[k],
        second.known,
        true,
    ) == Seq::<Seq<char>>::empty() by {
        assert forall|i: int|
            0 <= i < listings[k].len() && is_image_entry(
                #[trigger] listings[k][i],
            ) implies second.known.contains(listings[k][i].path) by {
            let path = listings[k][i].path;
            if qualifies(listings[k][i], first.known, !first.force_all) {
                assert(found.contains(path));
                assert(first.files.contains(path));
                let j = choose|j: int| 0 <= j < first.files.len() && first.files[j] == path;
                assert(first.stored[j].file_path == path);
                assert(first.indexed.contains(path));
            } else {
                assert(first.known.contains(path));
                assert(first.indexed.contains(path));
            }
        }
        lemma_nothing_qualifies(listings[k], second.known);
    }
    lemma_nothing_gathered(listings, second.known);
    assert(distinct(gathered(listings, second.known, true)) =~= Seq::<Seq<char>>::empty());
}

/// The mode affects batching only: two runs over the same worklist that
/// completed in full, and were told the same metadata of each file, left
/// the same rows in the store, in the same order, whatever their modes.
pub proof fn lemma_mode_affects_batching_only(a: RunView, b: RunView)
    requires
        a.wf(),
        b.wf(),
        a.completed_in_full(),
        b.completed_in_full(),
        a.files == b.files,
        forall|i: int|
            0 <= i < a.files.len() ==> (#[trigger] a.stored[i]).file_size == b.stored[i].file_size
                && a.stored[i].modified_time == b.stored[i].modified_time,
    ensures
        a.stored == b.stored,
{
    lemma_full_run_stores_worklist(a);
    lemma_full_run_stores_worklist(b);
    assert(a.stored =~= b.stored) by {
        assert forall|i: int| 0 <= i < a.stored.len() implies a.stored[i] == b.stored[i] by {
            assert(a.stored[i].file_path == a.files[i]);
            assert(b.stored[i].file_path == b.files[i]);
        }
    }
}

} // verus!
