//! Session configuration and the throughput mode.

use vstd::prelude::*;
use crate::text::str_equal;

verus! {

/// How hard an indexing run may press the machine.
#[derive(Clone, Copy, Debug, PartialEq, Eq, Structural)]
pub enum CpuMode {
    /// Small batches with a pause between them, to leave the processor to
    /// interactive work.
    Normal,
    /// Large batches without pauses.
    Fast,
}

impl CpuMode {
    /// Number of files embedded per batch.
    pub open spec fn spec_batch_size(self) -> nat {
        match self {
            CpuMode::Normal => 8,
            CpuMode::Fast => 32,
        }
    }

    /// Pause between two batches, in milliseconds.
    pub open spec fn spec_delay_ms(self) -> nat {
        match self {
            CpuMode::Normal => 25,
            CpuMode::Fast => 0,
        }
    }

    /// The mode that a settings value selects: `"fast"` selects
    /// [`CpuMode::Fast`], any other text [`CpuMode::Normal`].
    pub open spec fn spec_from_setting(value: Seq<char>) -> CpuMode {
        if value == "fast"@ {
            CpuMode::Fast
        } else {
            CpuMode::Normal
        }
    }

    /// Number of files embedded per batch.
    pub fn batch_size(&self) -> (n: usize)
        ensures
            n == self.spec_batch_size(),
            n >= 1,
    {
        match self {
            CpuMode::Normal => 8,
            CpuMode::Fast => 32,
        }
    }

    /// Pause between two batches, in milliseconds.
    pub fn delay_ms(&self) -> (ms: u64)
        ensures
            ms == self.spec_delay_ms(),
    {
        match self {
            CpuMode::Normal => 25,
            CpuMode::Fast => 0,
        }
    }

    /// Reads the mode from its settings value.
    pub fn from_setting(value: &str) -> (mode: CpuMode)
        ensures
            mode == Self::spec_from_setting(value@),
    {
        if str_equal(value, "fast") {
            CpuMode::Fast
        } else {
            CpuMode::Normal
        }
    }
}

/// One indexing or search session: where the store lives, how hard to work,
/// and which directory tree holds the corpus.
#[derive(Clone, Debug)]
pub struct IndexConfig {
    /// Directory of the vector store.
    pub db_path: String,
    /// Throughput mode of the run.
    pub cpu_mode: CpuMode,
    /// Root of the corpus.
    pub screenshot_dir: String,
}

} // verus!
