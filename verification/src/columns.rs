//! Reading the columns that the vector store hands out.

use vstd::prelude::*;
use arrow_array::Array;
use arrow_array::StringArray;
use crate::text::texts;

verus! {

/// A column of texts as the vector store hands it out: an Arrow array of
/// strings, each row of which may be null.
///
/// Trusted: the verifier does not look inside. What the column holds is
/// spoken of through [`text_rows`], and read through the three functions
/// below, each of which calls the array's method of the same purpose.
#[verifier::external_body]
pub struct TextColumn {
    /// The array itself.
    pub values: StringArray,
}

/// The rows of the column, in order; `None` stands for a null row.
pub uninterp spec fn text_rows(column: TextColumn) -> Seq<Option<Seq<char>>>;

/// Calls `arrow_array::Array::len` on the column's array.
///
/// Trusted: the result is the number of rows of the column.
#[verifier::external_body]
fn row_count(column: &TextColumn) -> (n: usize)
    ensures
        n == text_rows(*column).len(),
{
    column.values.len()
}

/// Calls `arrow_array::Array::is_null` on the column's array.
///
/// Trusted: for a row inside the column, the result says whether the row is
/// null.
#[verifier::external_body]
fn row_is_null(column: &TextColumn, i: usize) -> (null: bool)
    requires
        i < text_rows(*column).len(),
    ensures
        null == (text_rows(*column)[i as int] is None),
{
    column.values.is_null(i)
}

/// Calls `arrow_array::GenericByteArray::value` on the column's array and
/// copies the text.
///
/// Trusted: for a row inside the column that is not null, the result is the
/// row's text. Of a null row nothing is claimed.
#[verifier::external_body]
fn row_text(column: &TextColumn, i: usize) -> (text: String)
    requires
        i < text_rows(*column).len(),
    ensures
        text_rows(*column)[i as int] is Some ==> text@ == text_rows(*column)[i as int]->0,
{
    column.values.value(i).to_string()
}

/// The texts of the rows that are not null, in row order.
pub open spec fn present(rows: Seq<Option<Seq<char>>>) -> Seq<Seq<char>>
    decreases rows.len(),
{
    if rows.len() == 0 {
        Seq::empty()
    } else {
        let earlier = present(rows.drop_last());
        match rows.last() {
            Some(text) => earlier.push(text),
            None => earlier,
        }
    }
}

/// Copies out the texts of a column, null rows left out: the paths of a
/// batch of rows, be it to learn what is indexed or to take in the
/// candidates of a search. `out` keeps what it held and gains the texts in
/// row order.
pub fn collect_texts(column: &TextColumn, out: &mut Vec<String>)
    ensures
        texts(final(out)@) == texts(old(out)@) + present(text_rows(*column)),
{
    let n = row_count(column);
    let ghost rows = text_rows(*column);
    let mut i: usize = 0;
    proof {
        assert(rows.subrange(0, 0) =~= Seq::<Option<Seq<char>>>::empty());
        assert(texts(out@) =~= texts(old(out)@) + present(rows.subrange(0, 0)));
    }
    while i < n
        invariant
            n == rows.len(),
            rows == text_rows(*column),
            i <= n,
            texts(out@) == texts(old(out)@) + present(rows.subrange(0, i as int)),
        decreases n - i,
    {
        let ghost before = out@;
        let ghost more = rows.subrange(0, i as int + 1);
        proof {
            assert(more.drop_last() =~= rows.subrange(0, i as int));
            assert(more.last() == rows[i as int]);
        }
        if !row_is_null(column, i) {
            let text = row_text(column, i);
            out.push(text);
            proof {
                assert(texts(out@) =~= texts(before).push(rows[i as int]->0));
            }
        }
        proof {
            assert(texts(out@) =~= texts(old(out)@) + present(more));
        }
        i += 1;
    }
    proof {
        assert(rows.subrange(0, n as int) =~= rows);
    }
}

/// The total of the file sizes of a batch of rows added to `total`, or
/// `None` where the sum passes what 64 bits hold.
pub fn add_sizes(total: u64, sizes: &Vec<u64>) -> (sum: Option<u64>)
    ensures
        match sum {
            Some(s) => s == total + total_of(sizes@),
            None => total + total_of(sizes@) > u64::MAX,
        },
{
    let mut sum: u64 = total;
    let mut i: usize = 0;
    proof {
        assert(sizes@.subrange(0, 0) =~= Seq::<u64>::empty());
    }
    while i < sizes.len()
        invariant
            i <= sizes@.len(),
            sum == total + total_of(sizes@.subrange(0, i as int)),
        decreases sizes@.len() - i,
    {
        proof {
            assert(sizes@.subrange(0, i as int + 1).drop_last() =~= sizes@.subrange(0, i as int));
            lemma_total_grows(sizes@, i as int + 1);
        }
        if sizes[i] > u64::MAX - sum {
            return None;
        }
        sum = sum + sizes[i];
        i += 1;
    }
    proof {
        assert(sizes@.subrange(0, sizes@.len() as int) =~= sizes@);
    }
    Some(sum)
}

/// The sum of a sequence of sizes.
pub open spec fn total_of(sizes: Seq<u64>) -> nat
    decreases sizes.len(),
{
    if sizes.len() == 0 {
        0
    } else {
        total_of(sizes.drop_last()) + sizes.last() as nat
    }
}

/// The sum of a prefix is at most the sum of the whole.
pub proof fn lemma_total_grows(sizes: Seq<u64>, n: int)
    requires
        0 <= n <= sizes.len(),
    ensures
        total_of(sizes.subrange(0, n)) <= total_of(sizes),
    decreases sizes.len() - n,
{
    if n == sizes.len() {
        assert(sizes.subrange(0, n) =~= sizes);
    } else {
        lemma_total_grows(sizes, n + 1);
        assert(sizes.subrange(0, n + 1).drop_last() =~= sizes.subrange(0, n));
    }
}

} // verus!
