//! The vector store's one table: its name, its columns, and the decisions
//! that surround each operation on it.

use vstd::prelude::*;
use crate::text::str_equal;
use crate::text::texts;

verus! {

/// Number of components of every stored vector.
pub const EMBEDDING_DIM: usize = 768;

/// Name of the table.
pub open spec fn table_name() -> Seq<char> {
    "images"@
}

/// What a column holds.
#[derive(Clone, Copy, Debug, PartialEq, Eq, Structural)]
pub enum ColumnKind {
    /// Text.
    Utf8,
    /// Unsigned 64-bit numbers.
    UInt64,
    /// Signed 64-bit numbers.
    Int64,
    /// Lists of this many 32-bit floating-point numbers, each of which may
    /// be missing.
    Vector(usize),
}

/// One column of the table.
#[derive(Clone, Debug, PartialEq, Eq)]
pub struct ColumnSpec {
    /// The column's name.
    pub name: String,
    /// What it holds.
    pub kind: ColumnKind,
    /// Whether a row may lack a value.
    pub nullable: bool,
}

/// A column as contracts speak of it.
pub struct ColumnView {
    pub name: Seq<char>,
    pub kind: ColumnKind,
    pub nullable: bool,
}

impl View for ColumnSpec {
    type V = ColumnView;

    open spec fn view(&self) -> ColumnView {
        ColumnView { name: self.name@, kind: self.kind, nullable: self.nullable }
    }
}

/// The table's columns, in order: the path, the size, the time of the last
/// change, and the vector.
pub open spec fn schema() -> Seq<ColumnView> {
    seq![
        ColumnView { name: "file_path"@, kind: ColumnKind::Utf8, nullable: false },
        ColumnView { name: "file_size"@, kind: ColumnKind::UInt64, nullable: false },
        ColumnView { name: "modified_time"@, kind: ColumnKind::Int64, nullable: false },
        ColumnView { name: "vector"@, kind: ColumnKind::Vector(768), nullable: true },
    ]
}

/// Builds the description of the table's columns.
pub fn create_schema() -> (columns: Vec<ColumnSpec>)
    ensures
        columns@.map_values(|c: ColumnSpec| c@) == schema(),
{
    let mut columns: Vec<ColumnSpec> = Vec::new();
    columns.push(
        ColumnSpec { name: String::from_str("file_path"), kind: ColumnKind::Utf8, nullable: false },
    );
    columns.push(
        ColumnSpec {
            name: String::from_str("file_size"),
            kind: ColumnKind::UInt64,
            nullable: false,
        },
    );
    columns.push(
        ColumnSpec {
            name: String::from_str("modified_time"),
            kind: ColumnKind::Int64,
            nullable: false,
        },
    );
    columns.push(
        ColumnSpec {
            name: String::from_str("vector"),
            kind: ColumnKind::Vector(EMBEDDING_DIM),
            nullable: true,
        },
    );
    proof {
        assert(columns@.map_values(|c: ColumnSpec| c@) =~= schema());
    }
    columns
}

/// Whether the store, whose tables are `names`, has the table of images.
/// Without it the index is empty: nothing to load, to search, to count or
/// to delete, and the first insertion creates it.
pub fn has_images_table(names: &Vec<String>) -> (present: bool)
    ensures
        present == texts(names@).contains(table_name()),
{
    let mut i: usize = 0;
    while i < names.len()
        invariant
            i <= names@.len(),
            forall|j: int| 0 <= j < i ==> texts(names@)[j] != table_name(),
        decreases names@.len() - i,
    {
        if str_equal(names[i].as_str(), "images") {
            proof {
                assert(texts(names@)[i as int] == table_name());
            }
            return true;
        }
        i += 1;
    }
    false
}

/// How a batch of rows reaches the store.
#[derive(Clone, Copy, Debug, PartialEq, Eq, Structural)]
pub enum InsertMode {
    /// The table is created with the batch as its first rows.
    CreateTable,
    /// The batch is appended to the table.
    Append,
}

/// How rows reach a store whose tables are `names`.
pub fn insert_mode(names: &Vec<String>) -> (mode: InsertMode)
    ensures
        mode == if texts(names@).contains(table_name()) {
            InsertMode::Append
        } else {
            InsertMode::CreateTable
        },
{
    if has_images_table(names) {
        InsertMode::Append
    } else {
        InsertMode::CreateTable
    }
}

/// What to do about a store that is to be opened.
#[derive(Clone, Copy, Debug, PartialEq, Eq, Structural)]
pub enum OpenStep {
    /// Connect to the store.
    Connect,
    /// The store is taken for corrupt: delete its directory, then connect.
    WipeAndConnect,
    /// Report the last error.
    GiveUp,
}

/// What to do after `failures` failed attempts to connect: the first
/// attempt connects, one failure wipes the store and connects again, a
/// second failure is final.
pub fn next_open_step(failures: usize) -> (step: OpenStep)
    ensures
        failures == 0 ==> step == OpenStep::Connect,
        failures == 1 ==> step == OpenStep::WipeAndConnect,
        failures >= 2 ==> step == OpenStep::GiveUp,
{
    if failures == 0 {
        OpenStep::Connect
    } else if failures == 1 {
        OpenStep::WipeAndConnect
    } else {
        OpenStep::GiveUp
    }
}

/// `path` as it stands inside a quoted literal of the store's filter
/// language: every single quote doubled, everything else as it is.
pub open spec fn escaped(path: Seq<char>) -> Seq<char>
    decreases path.len(),
{
    if path.len() == 0 {
        Seq::empty()
    } else {
        let earlier = escaped(path.drop_last());
        if path.last() == '\'' {
            earlier.push('\'').push('\'')
        } else {
            earlier.push(path.last())
        }
    }
}

/// The filter that selects the rows whose key is `path`.
pub open spec fn delete_filter(path: Seq<char>) -> Seq<char> {
    "file_path = '"@ + escaped(path) + "'"@
}

/// Writes the filter that selects the rows whose key is `path`, for the
/// store's delete operation. The path stands in a quoted literal, its own
/// quotes doubled, so that the filter compares the key with `path` and with
/// nothing else, whatever characters the path holds.
pub fn delete_predicate(path: &str) -> (filter: String)
    ensures
        filter@ == delete_filter(path@),
{
    let mut filter = String::from_str("file_path = '");
    let n = path.unicode_len();
    let mut i: usize = 0;
    proof {
        assert(path@.subrange(0, 0) =~= Seq::<char>::empty());
        assert(filter@ =~= "file_path = '"@ + escaped(path@.subrange(0, 0)));
    }
    while i < n
        invariant
            n == path@.len(),
            i <= n,
            filter@ == "file_path = '"@ + escaped(path@.subrange(0, i as int)),
        decreases n - i,
    {
        let ghost seen = path@.subrange(0, i as int);
        let ghost more = path@.subrange(0, i as int + 1);
        proof {
            assert(more.drop_last() =~= seen);
            assert(more.last() == path@[i as int]);
        }
        let c = path.get_char(i);
        if c == '\'' {
            proof {
                reveal_strlit("''");
                assert("''"@ =~= seq!['\'', '\'']);
            }
            filter.append("''");
            proof {
                assert(filter@ =~= "file_path = '"@ + escaped(more));
            }
        } else {
            let one = path.substring_char(i, i + 1);
            proof {
                assert(one@ =~= seq![c]);
            }
            filter.append(one);
            proof {
                assert(filter@ =~= "file_path = '"@ + escaped(more));
            }
        }
        i += 1;
    }
    proof {
        assert(path@.subrange(0, n as int) =~= path@);
    }
    filter.append("'");
    filter
}

} // verus!
