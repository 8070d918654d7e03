//! What a run tells its caller.

use vstd::prelude::*;

verus! {

/// One report of an indexing run or of the acquisition of the embedding
/// models.
#[derive(Clone, Debug, PartialEq, Eq)]
pub enum ProgressEvent {
    /// Indexing begins; the number of files to embed.
    Started(usize),
    /// A batch is dealt with: files indexed so far, files in all, and the
    /// label of the batch's first file.
    Progress(usize, usize, String),
    /// The run is over; the number of files it indexed.
    Completed(usize),
    /// The run ended on an error before it indexed any file.
    Failed(String),
    /// A model is being loaded: which of how many, and its label.
    ModelAcquisitionProgress(usize, usize, String),
    /// Both models are loaded.
    ModelAcquisitionCompleted,
    /// A model could not be loaded.
    ModelAcquisitionFailed(String),
}

/// A report as contracts speak of it.
pub enum EventView {
    Started(usize),
    Progress(usize, usize, Seq<char>),
    Completed(usize),
    Failed(Seq<char>),
    ModelAcquisitionProgress(usize, usize, Seq<char>),
    ModelAcquisitionCompleted,
    ModelAcquisitionFailed(Seq<char>),
}

impl View for ProgressEvent {
    type V = EventView;

    open spec fn view(&self) -> EventView {
        match self {
            ProgressEvent::Started(total) => EventView::Started(*total),
            ProgressEvent::Progress(current, total, label) => EventView::Progress(
                *current,
                *total,
                label@,
            ),
            ProgressEvent::Completed(count) => EventView::Completed(*count),
            ProgressEvent::Failed(message) => EventView::Failed(message@),
            ProgressEvent::ModelAcquisitionProgress(current, total, label) => {
                EventView::ModelAcquisitionProgress(*current, *total, label@)
            },
            ProgressEvent::ModelAcquisitionCompleted => EventView::ModelAcquisitionCompleted,
            ProgressEvent::ModelAcquisitionFailed(message) => EventView::ModelAcquisitionFailed(
                message@,
            ),
        }
    }
}

/// The views of a sequence of reports, item by item.
pub open spec fn reports(events: Seq<ProgressEvent>) -> Seq<EventView> {
    events.map_values(|e: ProgressEvent| e@)
}

/// Whether a report says that a model is being loaded or that both are.
pub open spec fn is_loading(event: EventView) -> bool {
    event is ModelAcquisitionProgress || event is ModelAcquisitionCompleted
}

/// Whether a report says how a run ended.
pub open spec fn is_terminal(event: EventView) -> bool {
    event is Completed || event is Failed || event is ModelAcquisitionFailed
}

/// The progress reports of a trace never step back and agree on the total:
/// of two of them, the later one counts at least as many files.
pub open spec fn progress_monotone(trace: Seq<EventView>) -> bool {
    forall|i: int, j: int|
        0 <= i <= j < trace.len() && #[trigger] trace[i] is Progress && #[trigger] trace[j]
            is Progress ==> trace[i]->Progress_0 <= trace[j]->Progress_0 && trace[i]->Progress_1
            == trace[j]->Progress_1
}

} // verus!
