//! Turning the store's ranked candidates into search results.

use vstd::prelude::*;
use crate::store::has_images_table;
use crate::store::table_name;
use crate::text::clone_range;
use crate::text::texts;

verus! {

/// Number of results asked for where the caller names none.
pub const DEFAULT_LIMIT: usize = 100;

/// Whether the file of candidate `i` was found on disk; a position that the
/// report does not cover counts as missing.
pub open spec fn exists_at(exists: Seq<bool>, i: int) -> bool {
    0 <= i < exists.len() && exists[i]
}

/// The candidates whose files were found on disk, in the store's order.
pub open spec fn existing(candidates: Seq<Seq<char>>, exists: Seq<bool>) -> Seq<Seq<char>>
    decreases candidates.len(),
{
    if candidates.len() == 0 {
        Seq::empty()
    } else {
        let earlier = existing(candidates.drop_last(), exists);
        if exists_at(exists, candidates.len() - 1) {
            earlier.push(candidates.last())
        } else {
            earlier
        }
    }
}

/// The results of a search: the first `limit` candidates whose files were
/// found on disk, in the store's order.
pub open spec fn results(candidates: Seq<Seq<char>>, exists: Seq<bool>, limit: nat) -> Seq<
    Seq<char>,
> {
    let all = existing(candidates, exists);
    if limit < all.len() {
        all.take(limit as int)
    } else {
        all
    }
}

/// Whether `path` is a candidate at position `from` or later whose file was
/// found on disk.
pub open spec fn found_from(
    candidates: Seq<Seq<char>>,
    exists: Seq<bool>,
    from: int,
    path: Seq<char>,
) -> bool {
    exists|i: int|
        from <= i < candidates.len() && exists_at(exists, i) && #[trigger] candidates[i] == path
}

/// Everything in `existing` is a candidate whose file was found, and the
/// candidates keep their order.
pub proof fn lemma_existing_members(candidates: Seq<Seq<char>>, exists: Seq<bool>)
    ensures
        existing(candidates, exists).len() <= candidates.len(),
        forall|k: int|
            0 <= k < existing(candidates, exists).len() ==> found_from(
                candidates,
                exists,
                k,
                #[trigger] existing(candidates, exists)[k],
            ),
    decreases candidates.len(),
{
    if candidates.len() > 0 {
        let shorter = candidates.drop_last();
        lemma_existing_members(shorter, exists);
        let earlier = existing(shorter, exists);
        let all = existing(candidates, exists);
        assert forall|k: int| 0 <= k < all.len() implies found_from(
            candidates,
            exists,
            k,
            #[trigger] all[k],
        ) by {
            if k < earlier.len() {
                assert(all[k] == earlier[k]);
                assert(found_from(shorter, exists, k, earlier[k]));
                let i = choose|i: int|
                    k <= i < shorter.len() && exists_at(exists, i) && #[trigger] shorter[i]
                        == earlier[k];
                assert(candidates[i] == all[k]);
            } else {
                assert(candidates[candidates.len() - 1] == all[k]);
            }
        }
    }
}

/// Chooses the search results among the store's candidates: `exists` says,
/// position by position, whether the candidate's file is still on disk. The
/// first `limit` candidates that are come back, in the store's order.
pub fn select_existing(candidates: &Vec<String>, exists: &Vec<bool>, limit: usize) -> (found: Vec<
    String,
>)
    ensures
        texts(found@) == results(texts(candidates@), exists@, limit as nat),
{
    let mut found: Vec<String> = Vec::new();
    let mut i: usize = 0;
    let ghost all = texts(candidates@);
    proof {
        assert(all.subrange(0, 0) =~= Seq::<Seq<char>>::empty());
        assert(texts(found@) =~= existing(all.subrange(0, 0), exists@));
    }
    while i < candidates.len() && found.len() < limit
        invariant
            i <= candidates@.len(),
            all == texts(candidates@),
            found@.len() <= limit,
            texts(found@) == existing(all.subrange(0, i as int), exists@),
        decreases candidates@.len() - i,
    {
        let ghost before = found@;
        proof {
            assert(all.subrange(0, i as int + 1).drop_last() =~= all.subrange(0, i as int));
            assert(all.subrange(0, i as int + 1).last() == candidates@[i as int]@);
        }
        if i < exists.len() && exists[i] {
            found.push(candidates[i].clone());
            proof {
                assert(texts(found@) =~= texts(before).push(candidates@[i as int]@));
            }
        }
        i += 1;
    }
    proof {
        lemma_existing_prefix(all, exists@, i as int);
        let whole = existing(all, exists@);
        if i < candidates@.len() {
            assert(texts(found@).len() == limit);
            assert(whole.take(limit as int) =~= texts(found@));
        } else {
            assert(all.subrange(0, i as int) =~= all);
        }
    }
    found
}

/// What is found among the first `n` candidates begins what is found among
/// all of them.
pub proof fn lemma_existing_prefix(candidates: Seq<Seq<char>>, exists: Seq<bool>, n: int)
    requires
        0 <= n <= candidates.len(),
    ensures
        existing(candidates.subrange(0, n), exists).len() <= existing(candidates, exists).len(),
        existing(candidates, exists).take(
            existing(candidates.subrange(0, n), exists).len() as int,
        ) == existing(candidates.subrange(0, n), exists),
    decreases candidates.len() - n,
{
    let part = existing(candidates.subrange(0, n), exists);
    let whole = existing(candidates, exists);
    if n == candidates.len() {
        assert(candidates.subrange(0, n) =~= candidates);
        assert(whole.take(whole.len() as int) =~= whole);
    } else {
        lemma_existing_prefix(candidates, exists, n + 1);
        let more = existing(candidates.subrange(0, n + 1), exists);
        assert(candidates.subrange(0, n + 1).drop_last() =~= candidates.subrange(0, n));
        assert(whole.take(part.len() as int) =~= whole.take(more.len() as int).take(
            part.len() as int,
        ));
        assert(more.take(part.len() as int) =~= part);
    }
}

/// Stale rows are filtered: every result is a candidate whose file was
/// found on disk, and there are at most `limit` results.
pub proof fn lemma_results_exist(candidates: Seq<Seq<char>>, exists: Seq<bool>, limit: nat)
    ensures
        results(candidates, exists, limit).len() <= limit,
        forall|k: int|
            0 <= k < results(candidates, exists, limit).len() ==> found_from(
                candidates,
                exists,
                0,
                #[trigger] results(candidates, exists, limit)[k],
            ),
{
    lemma_existing_members(candidates, exists);
    let all = existing(candidates, exists);
    let out = results(candidates, exists, limit);
    assert forall|k: int| 0 <= k < out.len() implies found_from(
        candidates,
        exists,
        0,
        #[trigger] out[k],
    ) by {
        assert(out[k] == all[k]);
        assert(found_from(candidates, exists, k, all[k]));
        let i = choose|i: int|
            k <= i < candidates.len() && exists_at(exists, i) && #[trigger] candidates[i]
                == all[k];
        assert(candidates[i] == out[k]);
    }
}

/// A path that the store no longer returns is never a result: once a row is
/// deleted, no search brings its path back.
pub proof fn lemma_results_are_candidates(
    candidates: Seq<Seq<char>>,
    exists: Seq<bool>,
    limit: nat,
    path: Seq<char>,
)
    requires
        !candidates.contains(path),
    ensures
        !results(candidates, exists, limit).contains(path),
{
    lemma_results_exist(candidates, exists, limit);
    let out = results(candidates, exists, limit);
    if out.contains(path) {
        let k = choose|k: int| 0 <= k < out.len() && out[k] == path;
        assert(found_from(candidates, exists, 0, out[k]));
        let i = choose|i: int|
            0 <= i < candidates.len() && exists_at(exists, i) && #[trigger] candidates[i]
                == out[k];
        assert(candidates.contains(path));
    }
}

/// Where a search stands: what the caller has been asked to do.
#[derive(Clone, Copy, Debug, PartialEq, Eq, Structural)]
pub enum SearchPhase {
    /// The query is being embedded.
    Embedding,
    /// The store is being opened.
    Opening,
    /// The store's tables are being listed.
    Listing,
    /// The nearest rows are being asked for.
    Querying,
    /// The candidates' files are being looked for on disk.
    Checking,
    /// The search is over.
    Done,
}

/// What the caller of a search is asked to do next.
#[derive(Clone, Debug, PartialEq, Eq)]
pub enum SearchAction {
    /// Embed this one query, then report `Embedded` or `Failed`.
    EmbedQuery(String),
    /// Open the store, then report `StoreOpened` or `Failed`.
    OpenStore,
    /// List the store's tables, then report `Tables` or `Failed`.
    ListTables,
    /// Ask the table for the paths of at most this many rows nearest to the
    /// first vector of the query, nearest first, then report `Candidates`
    /// or `Failed`.
    Query(usize),
    /// Look on disk for each of these files, then report `Existence`.
    CheckFiles(Vec<String>),
    /// The search is over; its results, best first.
    Finish(Vec<String>),
}

/// What the caller of a search reports.
#[derive(Clone, Debug, PartialEq, Eq)]
pub enum SearchOutcome {
    /// The embedding returned this many vectors.
    Embedded(usize),
    /// The store is open.
    StoreOpened,
    /// The names of the store's tables.
    Tables(Vec<String>),
    /// The paths that the store returned, nearest first.
    Candidates(Vec<String>),
    /// Whether each candidate's file is on disk, position by position.
    Existence(Vec<bool>),
    /// The action failed.
    Failed,
}

/// A search action as contracts speak of it.
pub enum SearchActionView {
    EmbedQuery(Seq<char>),
    OpenStore,
    ListTables,
    Query(usize),
    CheckFiles(Seq<Seq<char>>),
    Finish(Seq<Seq<char>>),
}

/// A search report as contracts speak of it.
pub enum SearchOutcomeView {
    Embedded(usize),
    StoreOpened,
    Tables(Seq<Seq<char>>),
    Candidates(Seq<Seq<char>>),
    Existence(Seq<bool>),
    Failed,
}

impl View for SearchAction {
    type V = SearchActionView;

    open spec fn view(&self) -> SearchActionView {
        match self {
            SearchAction::EmbedQuery(query) => SearchActionView::EmbedQuery(query@),
            SearchAction::OpenStore => SearchActionView::OpenStore,
            SearchAction::ListTables => SearchActionView::ListTables,
            SearchAction::Query(limit) => SearchActionView::Query(*limit),
            SearchAction::CheckFiles(paths) => SearchActionView::CheckFiles(texts(paths@)),
            SearchAction::Finish(paths) => SearchActionView::Finish(texts(paths@)),
        }
    }
}

impl View for SearchOutcome {
    type V = SearchOutcomeView;

    open spec fn view(&self) -> SearchOutcomeView {
        match self {
            SearchOutcome::Embedded(vectors) => SearchOutcomeView::Embedded(*vectors),
            SearchOutcome::StoreOpened => SearchOutcomeView::StoreOpened,
            SearchOutcome::Tables(names) => SearchOutcomeView::Tables(texts(names@)),
            SearchOutcome::Candidates(paths) => SearchOutcomeView::Candidates(texts(paths@)),
            SearchOutcome::Existence(exists) => SearchOutcomeView::Existence(exists@),
            SearchOutcome::Failed => SearchOutcomeView::Failed,
        }
    }
}

/// A search as contracts speak of it.
pub struct SearchView {
    pub phase: SearchPhase,
    /// Most results wanted.
    pub limit: usize,
    /// What the store returned, once it did.
    pub candidates: Seq<Seq<char>>,
}

impl SearchView {
    /// The search ends with `found`.
    pub open spec fn finish(self, found: Seq<Seq<char>>) -> (SearchView, SearchActionView) {
        (SearchView { phase: SearchPhase::Done, ..self }, SearchActionView::Finish(found))
    }

    /// What a report does to the search. A query without a vector, a store
    /// without the table, and every failure end the search with no result;
    /// so does a report that does not answer the pending action.
    pub open spec fn next(self, outcome: SearchOutcomeView) -> (SearchView, SearchActionView) {
        match (self.phase, outcome) {
            (SearchPhase::Embedding, SearchOutcomeView::Embedded(vectors)) => if vectors == 0 {
                self.finish(Seq::empty())
            } else {
                (SearchView { phase: SearchPhase::Opening, ..self }, SearchActionView::OpenStore)
            },
            (SearchPhase::Opening, SearchOutcomeView::StoreOpened) => (
                SearchView { phase: SearchPhase::Listing, ..self },
                SearchActionView::ListTables,
            ),
            (SearchPhase::Listing, SearchOutcomeView::Tables(names)) => if names.contains(
                table_name(),
            ) {
                (
                    SearchView { phase: SearchPhase::Querying, ..self },
                    SearchActionView::Query(self.limit),
                )
            } else {
                self.finish(Seq::empty())
            },
            (SearchPhase::Querying, SearchOutcomeView::Candidates(paths)) => (
                SearchView { phase: SearchPhase::Checking, candidates: paths, ..self },
                SearchActionView::CheckFiles(paths),
            ),
            (SearchPhase::Checking, SearchOutcomeView::Existence(exists)) => self.finish(
                results(self.candidates, exists, self.limit as nat),
            ),
            _ => self.finish(Seq::empty()),
        }
    }
}

/// A search in progress. It is made by [`search_images`] and moved on by
/// [`SearchState::advance`] with each report of the caller.
pub struct SearchState {
    phase: SearchPhase,
    limit: usize,
    candidates: Vec<String>,
}

impl View for SearchState {
    type V = SearchView;

    closed spec fn view(&self) -> SearchView {
        SearchView { phase: self.phase, limit: self.limit, candidates: texts(self.candidates@) }
    }
}

impl SearchState {
    /// Whether the search is over.
    pub fn is_done(&self) -> (done: bool)
        ensures
            done == (self@.phase == SearchPhase::Done),
    {
        self.phase == SearchPhase::Done
    }

    /// Takes in the caller's report on the action asked for last, and
    /// answers with the next action.
    pub fn advance(self, outcome: SearchOutcome) -> (next: (SearchState, SearchAction))
        ensures
            (next.0@, next.1@) == self@.next(outcome@),
    {
        let mut state = self;
        let ghost none = Seq::<Seq<char>>::empty();
        let action = match (state.phase, outcome) {
            (SearchPhase::Embedding, SearchOutcome::Embedded(vectors)) => if vectors == 0 {
                state.phase = SearchPhase::Done;
                SearchAction::Finish(no_paths())
            } else {
                state.phase = SearchPhase::Opening;
                SearchAction::OpenStore
            },
            (SearchPhase::Opening, SearchOutcome::StoreOpened) => {
                state.phase = SearchPhase::Listing;
                SearchAction::ListTables
            },
            (SearchPhase::Listing, SearchOutcome::Tables(names)) => if has_images_table(&names) {
                state.phase = SearchPhase::Querying;
                SearchAction::Query(state.limit)
            } else {
                state.phase = SearchPhase::Done;
                SearchAction::Finish(no_paths())
            },
            (SearchPhase::Querying, SearchOutcome::Candidates(paths)) => {
                let copy = clone_range(&paths, 0, paths.len());
                proof {
                    assert(texts(paths@).subrange(0, paths@.len() as int) =~= texts(paths@));
                }
                state.phase = SearchPhase::Checking;
                state.candidates = paths;
                SearchAction::CheckFiles(copy)
            },
            (SearchPhase::Checking, SearchOutcome::Existence(exists)) => {
                let found = select_existing(&state.candidates, &exists, state.limit);
                state.phase = SearchPhase::Done;
                SearchAction::Finish(found)
            },
            _ => {
                state.phase = SearchPhase::Done;
                SearchAction::Finish(no_paths())
            },
        };
        (state, action)
    }
}

fn no_paths() -> (paths: Vec<String>)
    ensures
        texts(paths@) == Seq::<Seq<char>>::empty(),
{
    let paths: Vec<String> = Vec::new();
    proof {
        assert(texts(paths@) =~= Seq::<Seq<char>>::empty());
    }
    paths
}

/// Starts a search for the images nearest to `query`, for at most `limit`
/// results: the query is embedded first.
pub fn search_images(query: String, limit: usize) -> (next: (SearchState, SearchAction))
    ensures
        next.0@ == (SearchView {
            phase: SearchPhase::Embedding,
            limit,
            candidates: Seq::empty(),
        }),
        next.1@ == SearchActionView::EmbedQuery(query@),
{
    let state = SearchState { phase: SearchPhase::Embedding, limit, candidates: no_paths() };
    (state, SearchAction::EmbedQuery(query))
}

/// A search in an empty store has no result: without the table, whatever
/// the query, the search ends with none.
pub proof fn lemma_empty_store_has_no_result(search: SearchView, names: Seq<Seq<char>>)
    requires
        search.phase == SearchPhase::Listing,
        !names.contains(table_name()),
    ensures
        search.next(SearchOutcomeView::Tables(names)).1 == SearchActionView::Finish(
            Seq::<Seq<char>>::empty(),
        ),
        search.next(SearchOutcomeView::Tables(names)).0.phase == SearchPhase::Done,
{
}

} // verus!
