//! The storage capability that both story collections offer, so that callers can fill and read
//! either one without knowing which it is.

use vstd::prelude::*;
use crate::date::StoryDate;
use crate::evaluator::StoryScorer;
use crate::index::{
    count_of, counts_shards, frontpage_of, frontpage_view, search_of, search_outcome,
    QueryError, StorageSummary, StoryIndex,
};
use crate::memindex::{insert_all, MemIndex};
use crate::scrapers::TypedScrape;
use crate::story::{views, Story, StoryView};

verus! {

/// Read access to stored stories.
pub trait Storage {
    /// The store's own consistency condition.
    spec fn consistent(&self) -> bool;

    /// The stories stored, as values.
    spec fn spec_stories(&self) -> Seq<StoryView>;

    fn total_stories(&self) -> (r: u128)
        requires
            self.consistent(),
        ensures
            r == self.spec_stories().len(),
    ;

    /// How many stories each shard holds, and in all.
    fn story_count(&self) -> (r: StorageSummary)
        requires
            self.consistent(),
        ensures
            counts_shards(self.spec_stories(), r),
    ;

    /// The front page at `now`: see `frontpage_view`.
    fn query_frontpage(&self, scorer: &StoryScorer, now: StoryDate, max_count: usize) -> (r: Vec<Story>)
        requires
            self.consistent(),
            scorer.config.wf(),
        ensures
            views(r@) == frontpage_view(self.spec_stories(), scorer.config, now, max_count),
    ;

    /// A search: see `search_outcome`.
    fn query_search(&self, query: &str, max_count: usize) -> (r: Result<Vec<Story>, QueryError>)
        requires
            self.consistent(),
        ensures
            search_outcome(self.spec_stories(), query@, max_count, r),
    ;
}

/// Write access: inserting scrapes merges them into stored stories.
pub trait StorageWriter: Storage + Sized {
    /// What the store holds after inserting `scrapes` into `before`.
    spec fn spec_inserted(before: Self, scrapes: Seq<TypedScrape>, after: Self) -> bool;

    fn insert_all(&mut self, scrapes: Vec<TypedScrape>)
        requires
            old(self).consistent(),
            forall|i: int| 0 <= i < scrapes@.len() ==> (#[trigger] scrapes@[i]).wf(),
        ensures
            final(self).consistent(),
            Self::spec_inserted(*old(self), scrapes@, *final(self)),
    ;
}

impl Storage for MemIndex {
    open spec fn consistent(&self) -> bool {
        self.wf()
    }

    open spec fn spec_stories(&self) -> Seq<StoryView> {
        self.spec_view()
    }

    fn total_stories(&self) -> (r: u128) {
        self.stories.len() as u128
    }

    fn story_count(&self) -> (r: StorageSummary) {
        count_of(&self.stories)
    }

    fn query_frontpage(&self, scorer: &StoryScorer, now: StoryDate, max_count: usize) -> (r: Vec<Story>) {
        frontpage_of(&self.stories, scorer, now, max_count)
    }

    fn query_search(&self, query: &str, max_count: usize) -> (r: Result<Vec<Story>, QueryError>) {
        search_of(&self.stories, query, max_count)
    }
}

impl StorageWriter for MemIndex {
    open spec fn spec_inserted(before: Self, scrapes: Seq<TypedScrape>, after: Self) -> bool {
        after.spec_view() == insert_all(before.spec_view(), scrapes)
    }

    fn insert_all(&mut self, scrapes: Vec<TypedScrape>) {
        self.insert_scrapes(scrapes);
    }
}

impl Storage for StoryIndex {
    open spec fn consistent(&self) -> bool {
        self.wf()
    }

    open spec fn spec_stories(&self) -> Seq<StoryView> {
        self.spec_view()
    }

    fn total_stories(&self) -> (r: u128) {
        self.stories.len() as u128
    }

    fn story_count(&self) -> (r: StorageSummary) {
        count_of(&self.stories)
    }

    fn query_frontpage(&self, scorer: &StoryScorer, now: StoryDate, max_count: usize) -> (r: Vec<Story>) {
        frontpage_of(&self.stories, scorer, now, max_count)
    }

    fn query_search(&self, query: &str, max_count: usize) -> (r: Result<Vec<Story>, QueryError>) {
        search_of(&self.stories, query, max_count)
    }
}

impl StorageWriter for StoryIndex {
    open spec fn spec_inserted(before: Self, scrapes: Seq<TypedScrape>, after: Self) -> bool {
        after.spec_view() == insert_all(before.spec_view(), scrapes)
    }

    fn insert_all(&mut self, scrapes: Vec<TypedScrape>) {
        self.insert_scrapes(scrapes);
    }
}

} // verus!
