//! Walking the corpus: which directories are still to be read, and which of
//! the files seen so far have to be embedded.

use vstd::prelude::*;
use vstd::hash_set::StringHashSet;
use crate::paths::has_image_extension;
use crate::paths::names_image;
use crate::paths::path_extension;
use crate::text::texts;

verus! {

/// The paths that the store already holds a row for.
pub struct IndexedPaths {
    set: StringHashSet,
}

impl View for IndexedPaths {
    type V = Set<Seq<char>>;

    closed spec fn view(&self) -> Set<Seq<char>> {
        self.set@
    }
}

impl IndexedPaths {
    /// The empty set: the state of a store without a table.
    pub fn new() -> (paths: Self)
        ensures
            paths@ == Set::<Seq<char>>::empty(),
    {
        IndexedPaths { set: StringHashSet::new() }
    }

    /// Adds `path`; returns whether it was new.
    pub fn insert(&mut self, path: String) -> (fresh: bool)
        ensures
            final(self)@ == old(self)@.insert(path@),
            fresh == !old(self)@.contains(path@),
    {
        self.set.insert(path)
    }

    /// Whether `path` is in the set.
    pub fn contains(&self, path: &str) -> (found: bool)
        ensures
            found == self@.contains(path@),
    {
        self.set.contains(path)
    }

    /// Adds every path of `paths`.
    pub fn extend(&mut self, paths: &Vec<String>)
        ensures
            final(self)@ == old(self)@.union(texts(paths@).to_set()),
    {
        let mut i: usize = 0;
        while i < paths.len()
            invariant
                i <= paths@.len(),
                self@ == old(self)@.union(texts(paths@).subrange(0, i as int).to_set()),
            decreases paths@.len() - i,
        {
            let ghost before = self@;
            self.set.insert(paths[i].clone());
            proof {
                let all = texts(paths@);
                assert(all[i as int] == paths@[i as int]@);
                assert(all.subrange(0, i as int + 1) =~= all.subrange(0, i as int).push(
                    all[i as int],
                ));
                lemma_push_to_set(all.subrange(0, i as int), all[i as int]);
                assert(self@ =~= old(self)@.union(all.subrange(0, i as int + 1).to_set()));
            }
            i += 1;
        }
        proof {
            assert(texts(paths@).subrange(0, paths@.len() as int) =~= texts(paths@));
        }
    }
}

/// The set of a sequence with one more item is the set of the sequence with
/// that item added.
pub proof fn lemma_push_to_set(items: Seq<Seq<char>>, item: Seq<char>)
    ensures
        items.push(item).to_set() == items.to_set().insert(item),
{
    let longer = items.push(item);
    assert forall|x: Seq<char>| longer.to_set().contains(x) <==> items.to_set().insert(
        item,
    ).contains(x) by {
        if longer.to_set().contains(x) {
            let j = choose|j: int| 0 <= j < longer.len() && longer[j] == x;
            if j < items.len() {
                assert(items[j] == x);
                assert(items.contains(x));
            }
        }
        if items.to_set().contains(x) {
            let j = choose|j: int| 0 <= j < items.len() && items[j] == x;
            assert(longer[j] == x);
            assert(longer.contains(x));
        }
        if x == item {
            assert(longer[items.len() as int] == x);
            assert(longer.contains(x));
        }
    }
    assert(longer.to_set() =~= items.to_set().insert(item));
}

/// What is found at a path inside a directory, links followed.
#[derive(Clone, Copy, Debug, PartialEq, Eq, Structural)]
pub enum EntryKind {
    /// A directory.
    Directory,
    /// A regular file.
    File,
    /// Anything else, a link that leads nowhere among them.
    Other,
}

/// One entry of a directory listing.
#[derive(Clone, Debug, PartialEq, Eq)]
pub struct DirEntry {
    /// The entry's full path.
    pub path: String,
    /// What is found there.
    pub kind: EntryKind,
}

/// A directory entry as contracts speak of it.
pub struct DirEntryView {
    pub path: Seq<char>,
    pub kind: EntryKind,
}

impl View for DirEntry {
    type V = DirEntryView;

    open spec fn view(&self) -> DirEntryView {
        DirEntryView { path: self.path@, kind: self.kind }
    }
}

/// The views of a listing, entry by entry.
pub open spec fn listing(entries: Seq<DirEntry>) -> Seq<DirEntryView> {
    entries.map_values(|e: DirEntry| e@)
}

/// Whether an entry has to be embedded: a regular file with an image
/// extension that, when the scan diffs against the index, the index lacks.
pub open spec fn qualifies(entry: DirEntryView, indexed: Set<Seq<char>>, diff: bool) -> bool {
    &&& entry.kind == EntryKind::File
    &&& names_image(path_extension(entry.path))
    &&& (diff ==> !indexed.contains(entry.path))
}

/// The paths of the entries that have to be embedded, in listing order.
pub open spec fn qualifying(
    entries: Seq<DirEntryView>,
    indexed: Set<Seq<char>>,
    diff: bool,
) -> Seq<Seq<char>>
    decreases entries.len(),
{
    if entries.len() == 0 {
        Seq::empty()
    } else {
        let earlier = qualifying(entries.drop_last(), indexed, diff);
        if qualifies(entries.last(), indexed, diff) {
            earlier.push(entries.last().path)
        } else {
            earlier
        }
    }
}

/// The paths of the entries that are directories, in listing order.
pub open spec fn directories(entries: Seq<DirEntryView>) -> Seq<Seq<char>>
    decreases entries.len(),
{
    if entries.len() == 0 {
        Seq::empty()
    } else {
        let earlier = directories(entries.drop_last());
        if entries.last().kind == EntryKind::Directory {
            earlier.push(entries.last().path)
        } else {
            earlier
        }
    }
}

/// Sorts the entries of one directory: the directories join `pending`, and
/// the files that have to be embedded join `found`, each in listing order.
pub fn record_listing(
    entries: &Vec<DirEntry>,
    indexed: &IndexedPaths,
    diff: bool,
    pending: &mut Vec<String>,
    found: &mut Vec<String>,
)
    ensures
        texts(final(pending)@) == texts(old(pending)@) + directories(listing(entries@)),
        texts(final(found)@) == texts(old(found)@) + qualifying(listing(entries@), indexed@, diff),
{
    let mut i: usize = 0;
    proof {
        assert(listing(entries@).subrange(0, 0) =~= Seq::<DirEntryView>::empty());
        assert(texts(pending@) =~= texts(old(pending)@) + directories(
            listing(entries@).subrange(0, 0),
        ));
        assert(texts(found@) =~= texts(old(found)@) + qualifying(
            listing(entries@).subrange(0, 0),
            indexed@,
            diff,
        ));
    }
    while i < entries.len()
        invariant
            i <= entries@.len(),
            texts(pending@) == texts(old(pending)@) + directories(
                listing(entries@).subrange(0, i as int),
            ),
            texts(found@) == texts(old(found)@) + qualifying(
                listing(entries@).subrange(0, i as int),
                indexed@,
                diff,
            ),
        decreases entries@.len() - i,
    {
        let entry = &entries[i];
        let ghost seen = listing(entries@).subrange(0, i as int);
        let ghost more = listing(entries@).subrange(0, i as int + 1);
        let ghost pending_before = pending@;
        let ghost found_before = found@;
        proof {
            assert(more.drop_last() =~= seen);
            assert(more.last() == entry@);
        }
        match entry.kind {
            EntryKind::Directory => {
                pending.push(entry.path.clone());
                proof {
                    assert(texts(pending@) =~= texts(pending_before).push(entry.path@));
                }
            },
            EntryKind::File => {
                if has_image_extension(entry.path.as_str()) && (!diff || !indexed.contains(
                    entry.path.as_str(),
                )) {
                    found.push(entry.path.clone());
                    proof {
                        assert(texts(found@) =~= texts(found_before).push(entry.path@));
                    }
                }
            },
            EntryKind::Other => {},
        }
        proof {
            assert(texts(pending@) =~= texts(old(pending)@) + directories(more));
            assert(texts(found@) =~= texts(old(found)@) + qualifying(more, indexed@, diff));
        }
        i += 1;
    }
    proof {
        assert(listing(entries@).subrange(0, entries@.len() as int) =~= listing(entries@));
    }
}

/// A walk over the corpus tree in progress. The caller reads one directory
/// at a time, the one that [`CorpusScan::next_directory`] hands out, and
/// reports its entries to [`CorpusScan::record`]. A directory that cannot be
/// read is reported with no entries: the walk goes on without it.
pub struct CorpusScan {
    diff: bool,
    pending: Vec<String>,
    found: Vec<String>,
}

impl CorpusScan {
    /// Whether files that the index already holds are left out.
    pub closed spec fn diff_against_index(&self) -> bool {
        self.diff
    }

    /// The directories that are still to be read; the last one comes next.
    pub closed spec fn pending(&self) -> Seq<Seq<char>> {
        texts(self.pending@)
    }

    /// The files found so far that have to be embedded.
    pub closed spec fn found(&self) -> Seq<Seq<char>> {
        texts(self.found@)
    }

    /// Starts a walk at `root`. With `diff_against_index` the walk leaves
    /// out the files that the index holds; without it, it takes every image.
    pub fn new(root: String, diff_against_index: bool) -> (scan: Self)
        ensures
            scan.diff_against_index() == diff_against_index,
            scan.pending() == seq![root@],
            scan.found() == Seq::<Seq<char>>::empty(),
    {
        let mut pending: Vec<String> = Vec::new();
        pending.push(root);
        let scan = CorpusScan { diff: diff_against_index, pending, found: Vec::new() };
        proof {
            assert(scan.pending() =~= seq![root@]);
            assert(scan.found() =~= Seq::<Seq<char>>::empty());
        }
        scan
    }

    /// Hands out the next directory to read, or `None` when the walk is
    /// over.
    pub fn next_directory(&mut self) -> (dir: Option<String>)
        ensures
            final(self).diff_against_index() == old(self).diff_against_index(),
            final(self).found() == old(self).found(),
            old(self).pending().len() == 0 ==> dir is None && final(self).pending() == old(
                self,
            ).pending(),
            old(self).pending().len() > 0 ==> dir is Some && dir->0@ == old(self).pending().last()
                && final(self).pending() == old(self).pending().drop_last(),
    {
        let dir = self.pending.pop();
        proof {
            if old(self).pending@.len() > 0 {
                assert(texts(self.pending@) =~= texts(old(self).pending@).drop_last());
            }
        }
        dir
    }

    /// Takes in the listing of the directory handed out last: its
    /// directories are read later, and its files that have to be embedded
    /// join the files found, in listing order.
    pub fn record(&mut self, entries: &Vec<DirEntry>, indexed: &IndexedPaths)
        ensures
            final(self).diff_against_index() == old(self).diff_against_index(),
            final(self).pending() == old(self).pending() + directories(listing(entries@)),
            final(self).found() == old(self).found() + qualifying(
                listing(entries@),
                indexed@,
                old(self).diff_against_index(),
            ),
    {
        record_listing(entries, indexed, self.diff, &mut self.pending, &mut self.found);
    }

    /// Ends the walk and hands out the files found.
    pub fn finish(self) -> (files: Vec<String>)
        ensures
            texts(files@) == self.found(),
    {
        self.found
    }
}

/// Every path that a scan finds names an image file among the entries, and
/// one that the index lacks when the scan diffs against it.
pub proof fn lemma_qualifying_members(
    entries: Seq<DirEntryView>,
    indexed: Set<Seq<char>>,
    diff: bool,
)
    ensures
        forall|p: Seq<char>| #[trigger]
            qualifying(entries, indexed, diff).contains(p) ==> (diff ==> !indexed.contains(p))
                && names_image(path_extension(p)),
        forall|i: int|
            0 <= i < entries.len() && qualifies(#[trigger] entries[i], indexed, diff)
                ==> qualifying(entries, indexed, diff).contains(entries[i].path),
    decreases entries.len(),
{
    if entries.len() > 0 {
        lemma_qualifying_members(entries.drop_last(), indexed, diff);
        let earlier = qualifying(entries.drop_last(), indexed, diff);
        let all = qualifying(entries, indexed, diff);
        assert forall|p: Seq<char>| #[trigger] all.contains(p) implies (diff
            ==> !indexed.contains(p)) && names_image(path_extension(p)) by {
            let j = choose|j: int| 0 <= j < all.len() && all[j] == p;
            if j < earlier.len() {
                assert(earlier[j] == p);
                assert(earlier.contains(p));
            }
        }
        assert forall|i: int|
            0 <= i < entries.len() && qualifies(
                #[trigger] entries[i],
                indexed,
                diff,
            ) implies all.contains(entries[i].path) by {
            if i < entries.len() - 1 {
                assert(entries.drop_last()[i] == entries[i]);
                let j = choose|j: int|
                    0 <= j < earlier.len() && earlier[j] == entries[i].path;
                assert(all[j] == entries[i].path);
            } else {
                assert(all[all.len() - 1] == entries[i].path);
            }
        }
    }
}

/// Incremental indexing is idempotent: once the index holds every file that
/// a diffing scan of a listing found, besides what it held before, a second
/// diffing scan of the same listing finds nothing.
pub proof fn lemma_rescan_finds_nothing(
    entries: Seq<DirEntryView>,
    indexed: Set<Seq<char>>,
    later: Set<Seq<char>>,
)
    requires
        indexed.subset_of(later),
        qualifying(entries, indexed, true).to_set().subset_of(later),
    ensures
        qualifying(entries, later, true) == Seq::<Seq<char>>::empty(),
    decreases entries.len(),
{
    if entries.len() > 0 {
        let first = qualifying(entries, indexed, true);
        let earlier = qualifying(entries.drop_last(), indexed, true);
        assert forall|p: Seq<char>| earlier.to_set().contains(p) implies later.contains(p) by {
            let j = choose|j: int| 0 <= j < earlier.len() && earlier[j] == p;
            assert(first[j] == p);
            assert(first.contains(p));
            assert(first.to_set().contains(p));
        }
        lemma_rescan_finds_nothing(entries.drop_last(), indexed, later);
        if qualifies(entries.last(), indexed, true) {
            assert(first[first.len() - 1] == entries.last().path);
            assert(first.contains(entries.last().path));
            assert(first.to_set().contains(entries.last().path));
        }
    }
}

/// The files that have to be embedded among the entries of several
/// listings, listing after listing.
pub open spec fn gathered(
    listings: Seq<Seq<DirEntryView>>,
    indexed: Set<Seq<char>>,
    diff: bool,
) -> Seq<Seq<char>>
    decreases listings.len(),
{
    if listings.len() == 0 {
        Seq::empty()
    } else {
        gathered(listings.drop_last(), indexed, diff) + qualifying(listings.last(), indexed, diff)
    }
}

/// The directories among the entries of several listings, listing after
/// listing.
pub open spec fn all_directories(listings: Seq<Seq<DirEntryView>>) -> Seq<Seq<char>>
    decreases listings.len(),
{
    if listings.len() == 0 {
        Seq::empty()
    } else {
        all_directories(listings.drop_last()) + directories(listings.last())
    }
}

/// Whether an entry is an image file, whatever the index holds.
pub open spec fn is_image_entry(entry: DirEntryView) -> bool {
    entry.kind == EntryKind::File && names_image(path_extension(entry.path))
}

/// Every entry of every listing that has to be embedded is among the files
/// gathered.
pub proof fn lemma_gathered_members(
    listings: Seq<Seq<DirEntryView>>,
    indexed: Set<Seq<char>>,
    diff: bool,
)
    ensures
        forall|k: int, i: int|
            0 <= k < listings.len() && 0 <= i < listings[k].len() && qualifies(
                #[trigger] listings[k][i],
                indexed,
                diff,
            ) ==> gathered(listings, indexed, diff).contains(listings[k][i].path),
    decreases listings.len(),
{
    if listings.len() > 0 {
        let earlier = gathered(listings.drop_last(), indexed, diff);
        let last = qualifying(listings.last(), indexed, diff);
        let all = gathered(listings, indexed, diff);
        lemma_gathered_members(listings.drop_last(), indexed, diff);
        lemma_qualifying_members(listings.last(), indexed, diff);
        assert forall|k: int, i: int|
            0 <= k < listings.len() && 0 <= i < listings[k].len() && qualifies(
                #[trigger] listings[k][i],
                indexed,
                diff,
            ) implies all.contains(listings[k][i].path) by {
            let path = listings[k][i].path;
            if k < listings.len() - 1 {
                assert(listings.drop_last()[k] == listings[k]);
                assert(earlier.contains(path));
                let j = choose|j: int| 0 <= j < earlier.len() && earlier[j] == path;
                assert(all[j] == path);
            } else {
                assert(last.contains(path));
                let j = choose|j: int| 0 <= j < last.len() && last[j] == path;
                assert(all[earlier.len() + j] == path);
            }
        }
    }
}

/// Where the index holds every image file of a listing, a diffing scan of
/// the listing finds nothing.
pub proof fn lemma_nothing_qualifies(entries: Seq<DirEntryView>, indexed: Set<Seq<char>>)
    requires
        forall|i: int|
            0 <= i < entries.len() && is_image_entry(#[trigger] entries[i]) ==> indexed.contains(
                entries[i].path,
            ),
    ensures
        qualifying(entries, indexed, true) == Seq::<Seq<char>>::empty(),
    decreases entries.len(),
{
    if entries.len() > 0 {
        assert forall|i: int|
            0 <= i < entries.drop_last().len() && is_image_entry(
                #[trigger] entries.drop_last()[i],
            ) implies indexed.contains(entries.drop_last()[i].path) by {
            assert(entries.drop_last()[i] == entries[i]);
        }
        lemma_nothing_qualifies(entries.drop_last(), indexed);
        assert(entries.last() == entries[entries.len() - 1]);
    }
}

/// Where a diffing scan finds nothing in any of the listings, nothing is
/// gathered.
pub proof fn lemma_nothing_gathered(listings: Seq<Seq<DirEntryView>>, indexed: Set<Seq<char>>)
    requires
        forall|k: int|
            0 <= k < listings.len() ==> qualifying(#[trigger] listings[k], indexed, true)
                == Seq::<Seq<char>>::empty(),
    ensures
        gathered(listings, indexed, true) == Seq::<Seq<char>>::empty(),
    decreases listings.len(),
{
    if listings.len() > 0 {
        assert forall|k: int| 0 <= k < listings.drop_last().len() implies qualifying(
            #[trigger] listings.drop_last()[k],
            indexed,
            true,
        ) == Seq::<Seq<char>>::empty() by {
            assert(listings.drop_last()[k] == listings[k]);
        }
        lemma_nothing_gathered(listings.drop_last(), indexed);
        assert(listings.last() == listings[listings.len() - 1]);
        assert(gathered(listings, indexed, true) =~= Seq::<Seq<char>>::empty());
    }
}

/// The items of a sequence in order, each at its first occurrence only.
pub open spec fn distinct(items: Seq<Seq<char>>) -> Seq<Seq<char>>
    decreases items.len(),
{
    if items.len() == 0 {
        Seq::empty()
    } else {
        let earlier = distinct(items.drop_last());
        if earlier.contains(items.last()) {
            earlier
        } else {
            earlier.push(items.last())
        }
    }
}

/// `distinct` keeps exactly the items of the sequence, none of them twice.
pub proof fn lemma_distinct(items: Seq<Seq<char>>)
    ensures
        distinct(items).no_duplicates(),
        distinct(items).len() <= items.len(),
        items.len() > 0 ==> distinct(items).len() > 0,
        forall|p: Seq<char>| distinct(items).contains(p) <==> items.contains(p),
    decreases items.len(),
{
    if items.len() > 0 {
        let shorter = items.drop_last();
        let earlier = distinct(shorter);
        let all = distinct(items);
        let last = items.last();
        lemma_distinct(shorter);
        assert forall|p: Seq<char>| all.contains(p) <==> items.contains(p) by {
            if all.contains(p) {
                let j = choose|j: int| 0 <= j < all.len() && all[j] == p;
                if j < earlier.len() {
                    assert(earlier[j] == p);
                    assert(earlier.contains(p));
                    assert(shorter.contains(p));
                    let k = choose|k: int| 0 <= k < shorter.len() && shorter[k] == p;
                    assert(items[k] == p);
                } else {
                    assert(items[items.len() - 1] == p);
                }
            }
            if items.contains(p) {
                let k = choose|k: int| 0 <= k < items.len() && items[k] == p;
                if k < shorter.len() {
                    assert(shorter[k] == p);
                    assert(shorter.contains(p));
                    assert(earlier.contains(p));
                    let j = choose|j: int| 0 <= j < earlier.len() && earlier[j] == p;
                    assert(all[j] == p);
                } else if earlier.contains(last) {
                } else {
                    assert(all[all.len() - 1] == p);
                }
            }
        }
        if !earlier.contains(last) {
            assert forall|i: int, j: int| 0 <= i < all.len() && 0 <= j < all.len() && i
                != j implies all[i] != all[j] by {
                if i < earlier.len() && j < earlier.len() {
                    assert(earlier[i] != earlier[j]);
                } else if i < earlier.len() {
                    assert(earlier[i] == all[i]);
                    assert(earlier.contains(all[i]));
                } else {
                    assert(earlier[j] == all[j]);
                    assert(earlier.contains(all[j]));
                }
            }
            assert(all[all.len() - 1] == last);
        } else {
            assert(earlier.len() > 0);
        }
    }
}

/// Copies the paths of `items` in order, each at its first occurrence only.
pub fn distinct_paths(items: &Vec<String>) -> (out: Vec<String>)
    ensures
        texts(out@) == distinct(texts(items@)),
{
    let mut out: Vec<String> = Vec::new();
    let mut seen = IndexedPaths::new();
    let mut i: usize = 0;
    let ghost all = texts(items@);
    proof {
        assert(all.subrange(0, 0) =~= Seq::<Seq<char>>::empty());
        assert(texts(out@) =~= distinct(all.subrange(0, 0)));
    }
    while i < items.len()
        invariant
            i <= items@.len(),
            all == texts(items@),
            texts(out@) == distinct(all.subrange(0, i as int)),
            forall|p: Seq<char>| seen@.contains(p) <==> texts(out@).contains(p),
        decreases items@.len() - i,
    {
        let ghost before = out@;
        let ghost more = all.subrange(0, i as int + 1);
        proof {
            assert(more.drop_last() =~= all.subrange(0, i as int));
            assert(more.last() == items@[i as int]@);
        }
        if seen.insert(items[i].clone()) {
            out.push(items[i].clone());
            proof {
                let item = items@[i as int]@;
                assert(texts(out@) =~= texts(before).push(item));
                assert forall|p: Seq<char>| seen@.contains(p) <==> texts(out@).contains(p) by {
                    if texts(out@).contains(p) {
                        let j = choose|j: int| 0 <= j < texts(out@).len() && texts(out@)[j] == p;
                        if j < before.len() {
                            assert(texts(before)[j] == p);
                            assert(texts(before).contains(p));
                        }
                    }
                    if texts(before).contains(p) {
                        let j = choose|j: int| 0 <= j < texts(before).len() && texts(before)[j]
                            == p;
                        assert(texts(out@)[j] == p);
                    }
                    if p == item {
                        assert(texts(out@)[before.len() as int] == p);
                    }
                }
            }
        }
        i += 1;
    }
    proof {
        assert(all.subrange(0, items@.len() as int) =~= all);
    }
    out
}

/// Every file gathered by a diffing scan is one that the index lacks.
pub proof fn lemma_gathered_are_new(listings: Seq<Seq<DirEntryView>>, indexed: Set<Seq<char>>)
    ensures
        forall|p: Seq<char>| #[trigger]
            gathered(listings, indexed, true).contains(p) ==> !indexed.contains(p),
    decreases listings.len(),
{
    if listings.len() > 0 {
        let earlier = gathered(listings.drop_last(), indexed, true);
        let last = qualifying(listings.last(), indexed, true);
        let all = gathered(listings, indexed, true);
        lemma_gathered_are_new(listings.drop_last(), indexed);
        lemma_qualifying_members(listings.last(), indexed, true);
        assert forall|p: Seq<char>| #[trigger] all.contains(p) implies !indexed.contains(p) by {
            let j = choose|j: int| 0 <= j < all.len() && all[j] == p;
            if j < earlier.len() {
                assert(earlier[j] == p);
                assert(earlier.contains(p));
            } else {
                assert(last[j - earlier.len()] == p);
                assert(last.contains(p));
            }
        }
    }
}

/// Whether the listing holds an entry at `path` that has to be embedded.
pub open spec fn holds_wanted(
    entries: Seq<DirEntryView>,
    indexed: Set<Seq<char>>,
    diff: bool,
    path: Seq<char>,
) -> bool {
    exists|i: int|
        0 <= i < entries.len() && (#[trigger] entries[i]).path == path && qualifies(
            entries[i],
            indexed,
            diff,
        )
}

/// Whether one of the listings holds an entry at `path` that has to be
/// embedded: a regular file with an image extension that, when the scan
/// diffs against the index, the index lacks.
pub open spec fn listed_to_embed(
    listings: Seq<Seq<DirEntryView>>,
    indexed: Set<Seq<char>>,
    diff: bool,
    path: Seq<char>,
) -> bool {
    exists|k: int| 0 <= k < listings.len() && holds_wanted(#[trigger] listings[k], indexed, diff, path)
}

/// A scan of a listing finds a path exactly where the listing holds an
/// entry at that path that has to be embedded.
pub proof fn lemma_qualifying_characterized(
    entries: Seq<DirEntryView>,
    indexed: Set<Seq<char>>,
    diff: bool,
)
    ensures
        forall|p: Seq<char>|
            qualifying(entries, indexed, diff).contains(p) <==> holds_wanted(
                entries,
                indexed,
                diff,
                p,
            ),
    decreases entries.len(),
{
    let all = qualifying(entries, indexed, diff);
    if entries.len() == 0 {
        assert forall|p: Seq<char>| all.contains(p) <==> holds_wanted(
            entries,
            indexed,
            diff,
            p,
        ) by {}
    } else {
        let shorter = entries.drop_last();
        let earlier = qualifying(shorter, indexed, diff);
        lemma_qualifying_characterized(shorter, indexed, diff);
        lemma_qualifying_members(entries, indexed, diff);
        assert forall|p: Seq<char>| all.contains(p) <==> holds_wanted(
            entries,
            indexed,
            diff,
            p,
        ) by {
            if all.contains(p) {
                let j = choose|j: int| 0 <= j < all.len() && all[j] == p;
                if j < earlier.len() {
                    assert(earlier[j] == p);
                    assert(earlier.contains(p));
                    assert(holds_wanted(shorter, indexed, diff, p));
                    let i = choose|i: int|
                        0 <= i < shorter.len() && (#[trigger] shorter[i]).path == p && qualifies(
                            shorter[i],
                            indexed,
                            diff,
                        );
                    assert(entries[i] == shorter[i]);
                } else {
                    assert(entries[entries.len() - 1].path == p);
                }
            }
            if holds_wanted(entries, indexed, diff, p) {
                let i = choose|i: int|
                    0 <= i < entries.len() && (#[trigger] entries[i]).path == p && qualifies(
                        entries[i],
                        indexed,
                        diff,
                    );
                assert(all.contains(entries[i].path));
            }
        }
    }
}

/// A scan of several listings gathers a path exactly where one of the
/// listings holds an entry at that path that has to be embedded.
pub proof fn lemma_gathered_characterized(
    listings: Seq<Seq<DirEntryView>>,
    indexed: Set<Seq<char>>,
    diff: bool,
)
    ensures
        forall|p: Seq<char>|
            gathered(listings, indexed, diff).contains(p) <==> listed_to_embed(
                listings,
                indexed,
                diff,
                p,
            ),
    decreases listings.len(),
{
    let all = gathered(listings, indexed, diff);
    if listings.len() == 0 {
        assert forall|p: Seq<char>| all.contains(p) <==> listed_to_embed(
            listings,
            indexed,
            diff,
            p,
        ) by {}
    } else {
        let shorter = listings.drop_last();
        let earlier = gathered(shorter, indexed, diff);
        let last = qualifying(listings.last(), indexed, diff);
        lemma_gathered_characterized(shorter, indexed, diff);
        lemma_qualifying_characterized(listings.last(), indexed, diff);
        assert forall|p: Seq<char>| all.contains(p) <==> listed_to_embed(
            listings,
            indexed,
            diff,
            p,
        ) by {
            if all.contains(p) {
                let j = choose|j: int| 0 <= j < all.len() && all[j] == p;
                if j < earlier.len() {
                    assert(earlier[j] == p);
                    assert(earlier.contains(p));
                    assert(listed_to_embed(shorter, indexed, diff, p));
                    let k = choose|k: int|
                        0 <= k < shorter.len() && holds_wanted(
                            #[trigger] shorter[k],
                            indexed,
                            diff,
                            p,
                        );
                    assert(listings[k] == shorter[k]);
                } else {
                    assert(last[j - earlier.len()] == p);
                    assert(last.contains(p));
                    assert(holds_wanted(listings[listings.len() - 1], indexed, diff, p));
                }
            }
            if listed_to_embed(listings, indexed, diff, p) {
                let k = choose|k: int|
                    0 <= k < listings.len() && holds_wanted(
                        #[trigger] listings[k],
                        indexed,
                        diff,
                        p,
                    );
                if k < shorter.len() {
                    assert(shorter[k] == listings[k]);
                    assert(listed_to_embed(shorter, indexed, diff, p));
                    assert(earlier.contains(p));
                    let j = choose|j: int| 0 <= j < earlier.len() && earlier[j] == p;
                    assert(all[j] == p);
                } else {
                    assert(last.contains(p));
                    let j = choose|j: int| 0 <= j < last.len() && last[j] == p;
                    assert(all[earlier.len() + j] == p);
                }
            }
        }
    }
}

} // verus!
