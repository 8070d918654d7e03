//! Pairing the files of a batch with their vectors and their metadata.

use vstd::prelude::*;
use crate::store::EMBEDDING_DIM;
use crate::text::texts;

verus! {

/// What the file system says of a file.
#[derive(Clone, Copy, Debug, PartialEq, Eq, Structural)]
pub struct FileMeta {
    /// Length in bytes.
    pub size: u64,
    /// Time of the last change, in seconds since the Unix epoch.
    pub modified_secs: u64,
}

/// A row for the store. The vector itself stays with the caller: the row
/// names it by its position among the vectors that the batch's embedding
/// returned.
#[derive(Clone, Debug, PartialEq, Eq)]
pub struct IndexedRecord {
    /// The file's path, the key of the row.
    pub file_path: String,
    /// Length of the file in bytes.
    pub file_size: u64,
    /// Time of the file's last change, in Unix seconds.
    pub modified_time: i64,
    /// Position of the row's vector among the batch's vectors.
    pub vector: usize,
}

/// A row as contracts speak of it.
pub struct RecordView {
    pub file_path: Seq<char>,
    pub file_size: u64,
    pub modified_time: i64,
    pub vector: nat,
}

impl View for IndexedRecord {
    type V = RecordView;

    open spec fn view(&self) -> RecordView {
        RecordView {
            file_path: self.file_path@,
            file_size: self.file_size,
            modified_time: self.modified_time,
            vector: self.vector as nat,
        }
    }
}

/// The views of a sequence of rows, item by item.
pub open spec fn records(rows: Seq<IndexedRecord>) -> Seq<RecordView> {
    rows.map_values(|r: IndexedRecord| r@)
}

/// A row as the store keeps it, the vector left aside: the vector of a kept
/// row is the embedding of the file at the row's path.
pub struct StoredRow {
    pub file_path: Seq<char>,
    pub file_size: u64,
    pub modified_time: i64,
}

/// A row without its vector's position.
pub open spec fn stored(row: RecordView) -> StoredRow {
    StoredRow {
        file_path: row.file_path,
        file_size: row.file_size,
        modified_time: row.modified_time,
    }
}

/// Rows without their vectors' positions.
pub open spec fn kept(rows: Seq<RecordView>) -> Seq<StoredRow> {
    rows.map_values(|r: RecordView| stored(r))
}

/// Seconds since the epoch as the store's signed column holds them: the
/// same 64 bits read as a signed number.
pub open spec fn unix_seconds(secs: u64) -> i64 {
    if secs <= 0x7fff_ffff_ffff_ffff {
        secs as i64
    } else {
        (secs - 0x1_0000_0000_0000_0000) as i64
    }
}

/// Why a batch cannot go on to the store.
#[derive(Clone, Copy, Debug, PartialEq, Eq, Structural)]
pub enum BatchError {
    /// The embedding returned more vectors than files were handed to it.
    CountMismatch,
    /// A vector has another number of components than the store takes.
    WrongDimension,
    /// The metadata of a file could not be read.
    MetadataUnreadable,
}

/// The metadata reported for position `i`; a position past the end of the
/// report counts as unreadable.
pub open spec fn meta_at(metadata: Seq<Option<FileMeta>>, i: int) -> Option<FileMeta> {
    if 0 <= i < metadata.len() {
        metadata[i]
    } else {
        None
    }
}

/// Whether the metadata of each of the first `n` files could be read.
pub open spec fn all_read(metadata: Seq<Option<FileMeta>>, n: int) -> bool {
    forall|i: int| 0 <= i < n ==> (#[trigger] meta_at(metadata, i)) is Some
}

/// Whether every vector has the number of components that the store takes.
pub open spec fn all_of_dimension(lengths: Seq<usize>) -> bool {
    forall|i: int| 0 <= i < lengths.len() ==> #[trigger] lengths[i] == EMBEDDING_DIM
}

/// The row of the file at position `i` of a sub-batch: the file's path and
/// metadata, and the vector at the same position.
pub open spec fn row_at(paths: Seq<Seq<char>>, metadata: Seq<Option<FileMeta>>, i: int) -> RecordView {
    RecordView {
        file_path: paths[i],
        file_size: meta_at(metadata, i)->0.size,
        modified_time: unix_seconds(meta_at(metadata, i)->0.modified_secs),
        vector: i as nat,
    }
}

/// The rows of a sub-batch: one for each file, in the order of the files,
/// row `i` made of file `i`, its metadata and vector `i`.
pub open spec fn rows_of(paths: Seq<Seq<char>>, metadata: Seq<Option<FileMeta>>) -> Seq<
    RecordView,
> {
    Seq::new(paths.len(), |i: int| row_at(paths, metadata, i))
}

/// Whether the model has to be called to embed `inputs` inputs: an empty
/// list is answered with an empty result, without the model.
pub fn model_is_needed(inputs: usize) -> (needed: bool)
    ensures
        needed == (inputs > 0),
{
    inputs > 0
}

/// Reads seconds since the epoch as the signed number that the store holds.
pub fn to_unix_seconds(secs: u64) -> (t: i64)
    ensures
        t == unix_seconds(secs),
{
    if secs <= 0x7fff_ffff_ffff_ffff {
        secs as i64
    } else {
        let low: u64 = secs - 0x8000_0000_0000_0000;
        (low as i64) + i64::MIN
    }
}

/// How many files of a batch go on to the store, given how many were handed
/// to the embedding and how many vectors it returned. Vector `i` belongs to
/// file `i`, so the first `returned` files go on; more vectors than files
/// cannot be paired.
pub fn sub_batch_len(requested: usize, returned: usize) -> (len: Result<usize, BatchError>)
    ensures
        returned <= requested ==> len == Ok::<usize, BatchError>(returned),
        returned > requested ==> len == Err::<usize, BatchError>(BatchError::CountMismatch),
{
    if returned <= requested {
        Ok(returned)
    } else {
        Err(BatchError::CountMismatch)
    }
}

/// What an embedding's answer allows: `lengths` holds the number of
/// components of each vector returned for a batch of `requested` files.
/// More vectors than files cannot be paired; a vector of another length
/// than [`EMBEDDING_DIM`] cannot be stored. Otherwise the first
/// `lengths.len()` files of the batch go on.
pub fn check_vectors(requested: usize, lengths: &Vec<usize>) -> (len: Result<usize, BatchError>)
    ensures
        lengths@.len() > requested ==> len == Err::<usize, BatchError>(BatchError::CountMismatch),
        lengths@.len() <= requested && !all_of_dimension(lengths@) ==> len == Err::<
            usize,
            BatchError,
        >(BatchError::WrongDimension),
        lengths@.len() <= requested && all_of_dimension(lengths@) ==> len == Ok::<
            usize,
            BatchError,
        >(lengths@.len() as usize),
{
    match sub_batch_len(requested, lengths.len()) {
        Err(e) => Err(e),
        Ok(n) => {
            let mut i: usize = 0;
            while i < n
                invariant
                    n == lengths@.len(),
                    n <= requested,
                    i <= n,
                    forall|j: int| 0 <= j < i ==> #[trigger] lengths@[j] == EMBEDDING_DIM,
                decreases n - i,
            {
                if lengths[i] != EMBEDDING_DIM {
                    return Err(BatchError::WrongDimension);
                }
                i += 1;
            }
            Ok(n)
        },
    }
}

/// Builds the rows of a sub-batch: `paths` are its files, and `metadata`
/// holds, position by position, what could be read of each. There is one
/// row for each file, in the order of the files, row `i` naming vector `i`.
/// Where the metadata of a file could not be read, no row is built at all.
pub fn pair_records(paths: &Vec<String>, metadata: &Vec<Option<FileMeta>>) -> (rows: Result<
    Vec<IndexedRecord>,
    BatchError,
>)
    ensures
        all_read(metadata@, paths@.len() as int) ==> rows is Ok && records(rows->Ok_0@) == rows_of(
            texts(paths@),
            metadata@,
        ),
        !all_read(metadata@, paths@.len() as int) ==> rows == Err::<
            Vec<IndexedRecord>,
            BatchError,
        >(BatchError::MetadataUnreadable),
{
    let mut rows: Vec<IndexedRecord> = Vec::new();
    let mut i: usize = 0;
    while i < paths.len()
        invariant
            i <= paths@.len(),
            rows@.len() == i,
            all_read(metadata@, i as int),
            forall|j: int|
                0 <= j < i ==> (#[trigger] rows@[j])@ == row_at(texts(paths@), metadata@, j),
        decreases paths@.len() - i,
    {
        if i >= metadata.len() {
            proof {
                assert(meta_at(metadata@, i as int) is None);
            }
            return Err(BatchError::MetadataUnreadable);
        }
        match metadata[i] {
            Some(m) => {
                rows.push(
                    IndexedRecord {
                        file_path: paths[i].clone(),
                        file_size: m.size,
                        modified_time: to_unix_seconds(m.modified_secs),
                        vector: i,
                    },
                );
                proof {
                    assert(meta_at(metadata@, i as int) == Some(m));
                    assert(texts(paths@)[i as int] == paths@[i as int]@);
                }
            },
            None => {
                proof {
                    assert(meta_at(metadata@, i as int) is None);
                }
                return Err(BatchError::MetadataUnreadable);
            },
        }
        i += 1;
    }
    proof {
        assert(records(rows@) =~= rows_of(texts(paths@), metadata@));
    }
    Ok(rows)
}

/// Rows keep the number, the order and the pairing of the files they were
/// made from: there are as many rows as files, and row `i` carries the path
/// of file `i`, what was read of file `i`, and the position `i` of its
/// vector.
pub proof fn lemma_rows_are_positional(paths: Seq<Seq<char>>, metadata: Seq<Option<FileMeta>>)
    ensures
        rows_of(paths, metadata).len() == paths.len(),
        forall|i: int|
            0 <= i < paths.len() ==> {
                let row = #[trigger] rows_of(paths, metadata)[i];
                &&& row.file_path == paths[i]
                &&& row.vector == i
                &&& meta_at(metadata, i) is Some ==> row.file_size == meta_at(metadata, i)->0.size
                    && row.modified_time == unix_seconds(meta_at(metadata, i)->0.modified_secs)
            },
{
}

} // verus!
