//! The story index: stories kept by identifier, partitioned into shards by the month of their
//! identifier, with front-page ranking, search, point reads and counts.

use vstd::prelude::*;
use crate::date::StoryDate;
use crate::evaluator::{
    hotness_key, lemma_ranked_by_sorted, lemma_ranked_sorted, lemma_ranked_views,
    lemma_sorted_prefix, ranked_by, sort_by_keys, sorted_by, sorted_by_hotness,
    view_hotness_key, StoryScoreConfig, StoryScorer,
};
use crate::memindex::{insert_all, insert_into, stories_wf, keys_disjoint};
use crate::scrapers::{ScrapeKey, TypedScrape};
use crate::story::{earliest_date, has_key, views, Story, StoryIdentifier, StoryView};
use crate::text::{ascii_lower, chars_of, contains_sub, find_sub, lowercase_of};
use crate::url::{find_char, scan_char};

verus! {

/// A shard key: year and month.
pub type ShardKey = (u16, u8);

/// The shard of a story: the year and month of its identifier.
pub open spec fn view_shard(v: StoryView) -> ShardKey {
    (v.0.0.0, v.0.0.1)
}

/// The stories of shard `k`, in stored order.
pub open spec fn shard_stories(v: Seq<StoryView>, k: ShardKey) -> Seq<StoryView>
    decreases v.len(),
{
    if v.len() == 0 {
        v
    } else if view_shard(v.last()) == k {
        shard_stories(v.drop_last(), k).push(v.last())
    } else {
        shard_stories(v.drop_last(), k)
    }
}

proof fn lemma_shard_stories(v: Seq<StoryView>, k: ShardKey)
    ensures
        forall|m: int|
            0 <= m < shard_stories(v, k).len() ==> exists|j: int|
                0 <= j < v.len() && #[trigger] shard_stories(v, k)[m] == v[j] && view_shard(v[j]) == k,
        forall|j: int| 0 <= j < v.len() && view_shard(v[j]) == k ==> shard_stories(v, k).contains(
            #[trigger] v[j],
        ),
    decreases v.len(),
{
    if v.len() > 0 {
        let d = v.drop_last();
        lemma_shard_stories(d, k);
        let r = shard_stories(v, k);
        assert forall|m: int| 0 <= m < r.len() implies exists|j: int|
            0 <= j < v.len() && #[trigger] r[m] == v[j] && view_shard(v[j]) == k by {
            if m < shard_stories(d, k).len() {
                let j = choose|j: int| 0 <= j < d.len() && #[trigger] shard_stories(d, k)[m] == d[j] && view_shard(d[j]) == k;
                assert(r[m] == v[j]);
            } else {
                assert(r[m] == v[v.len() - 1]);
            }
        }
        assert forall|j: int| 0 <= j < v.len() && view_shard(v[j]) == k implies r.contains(#[trigger] v[j]) by {
            if j < d.len() {
                assert(d[j] == v[j]);
                let m = choose|m: int| 0 <= m < shard_stories(d, k).len() && shard_stories(d, k)[m] == d[j];
                assert(r[m] == v[j]);
            } else {
                assert(r[r.len() - 1] == v[j]);
            }
        }
    }
}

/// At most `n` leading items of `s`.
pub open spec fn take_at_most<T>(s: Seq<T>, n: int) -> Seq<T> {
    if s.len() <= n {
        s
    } else {
        s.take(n)
    }
}

/// How many candidates the front page considers for `max_count` stories.
pub open spec fn frontpage_limit(max_count: usize) -> int {
    if max_count > usize::MAX / 20 {
        usize::MAX as int
    } else {
        max_count * 20
    }
}

/// The scrapes of stories `s`, story after story.
pub open spec fn all_scrapes(s: Seq<Story>) -> Seq<TypedScrape>
    decreases s.len(),
{
    if s.len() == 0 {
        Seq::empty()
    } else {
        all_scrapes(s.drop_last()) + s.last().scrapes@
    }
}

proof fn lemma_insert_all_append(v: Seq<StoryView>, a: Seq<TypedScrape>, b: Seq<TypedScrape>)
    ensures
        insert_all(v, a + b) == insert_all(insert_all(v, a), b),
    decreases b.len(),
{
    if b.len() == 0 {
        assert(a + b =~= a);
    } else {
        lemma_insert_all_append(v, a, b.drop_last());
        assert((a + b).drop_last() =~= a + b.drop_last());
        assert((a + b).last() == b.last());
    }
}

pub open spec fn terms_from(q: Seq<char>, i: int, acc: Seq<Seq<char>>) -> Seq<Seq<char>>
    decreases q.len() + 1 - i,
{
    if i > q.len() || i < 0 {
        acc
    } else {
        let j = find_char(q, i, ' ');
        if j < i || j > q.len() {
            acc
        } else {
            let w = q.subrange(i, j);
            terms_from(q, j + 1, if w.len() > 0 { acc.push(ascii_lower(w)) } else { acc })
        }
    }
}

pub open spec fn query_terms(q: Seq<char>) -> Seq<Seq<char>> {
    terms_from(q, 0, Seq::empty())
}

/// The searchable text of a scrape, in lower case: its title, and for Reddit its subreddit
/// and flair.
pub open spec fn scrape_fields(x: TypedScrape) -> Seq<Seq<char>> {
    match x {
        TypedScrape::Reddit(r) => seq![
            ascii_lower(r.core.title@),
            ascii_lower(r.data.subreddit@),
            ascii_lower(r.data.flair@),
        ],
        _ => seq![ascii_lower(x.spec_core().title@)],
    }
}

/// The searchable text of scrapes `s`, scrape after scrape.
pub open spec fn story_fields(s: Seq<TypedScrape>) -> Seq<Seq<char>>
    decreases s.len(),
{
    if s.len() == 0 {
        Seq::empty()
    } else {
        story_fields(s.drop_last()) + scrape_fields(s.last())
    }
}

/// Whether term `t` occurs in one of `fields`.
pub open spec fn in_fields(fields: Seq<Seq<char>>, t: Seq<char>) -> bool
    decreases fields.len(),
{
    if fields.len() == 0 {
        false
    } else {
        in_fields(fields.drop_last(), t) || contains_sub(fields.last(), t)
    }
}

/// How many of the terms occur in the story's searchable text.
pub open spec fn relevance(v: StoryView, terms: Seq<Seq<char>>) -> int
    decreases terms.len(),
{
    if terms.len() == 0 {
        0
    } else {
        relevance(v, terms.drop_last()) + if in_fields(story_fields(v.1), terms.last()) {
            1int
        } else {
            0int
        }
    }
}

/// The stories among `s` that match at least one term, in order.
pub open spec fn matching(s: Seq<StoryView>, terms: Seq<Seq<char>>) -> Seq<StoryView>
    decreases s.len(),
{
    if s.len() == 0 {
        s
    } else if relevance(s.last(), terms) > 0 {
        matching(s.drop_last(), terms).push(s.last())
    } else {
        matching(s.drop_last(), terms)
    }
}

/// Seconds that a search key gives to one matched term: more than any date.
pub const RELEVANCE_UNIT: u64 = 0x10000000000;

/// The search order: relevance first, then recency.
pub open spec fn search_key(terms: Seq<Seq<char>>) -> spec_fn(StoryView) -> int {
    |v: StoryView| relevance(v, terms) * (RELEVANCE_UNIT as int) + earliest_date(v.1).spec_seconds()
}

pub open spec fn story_search_key(terms: Seq<Seq<char>>) -> spec_fn(Story) -> int {
    |s: Story| relevance(s.view_of(), terms) * (RELEVANCE_UNIT as int) + s.spec_date().spec_seconds()
}

pub open spec fn view_recency_key() -> spec_fn(StoryView) -> int {
    |v: StoryView| earliest_date(v.1).spec_seconds()
}

pub open spec fn recency_key() -> spec_fn(Story) -> int {
    |s: Story| s.spec_date().spec_seconds()
}

fn split_terms(q: &str) -> (r: Vec<Vec<char>>)
    ensures
        r@.len() == query_terms(q@).len(),
        forall|k: int| 0 <= k < r@.len() ==> (#[trigger] r@[k])@ == query_terms(q@)[k],
{
    let cs = chars_of(q);
    let mut out: Vec<Vec<char>> = Vec::new();
    let ghost mut acc: Seq<Seq<char>> = Seq::empty();
    let mut i: usize = 0;
    loop
        invariant
            i <= cs@.len(),
            cs@ == q@,
            out@.len() == acc.len(),
            forall|k: int| 0 <= k < out@.len() ==> (#[trigger] out@[k])@ == acc[k],
            terms_from(cs@, i as int, acc) == query_terms(q@),
        decreases cs@.len() - i,
    {
        let j = scan_char(&cs, i, ' ');
        if j > i {
            let w = lowercase_of(&cs, i, j);
            let wv = chars_of(w.as_str());
            out.push(wv);
            proof {
                acc = acc.push(ascii_lower(cs@.subrange(i as int, j as int)));
            }
        }
        if j == cs.len() {
            assert(terms_from(cs@, j + 1, acc) == acc);
            return out;
        }
        i = j + 1;
    }
}

fn lower_chars(s: &String) -> (r: Vec<char>)
    ensures
        r@ == ascii_lower(s@),
{
    let cs = chars_of(s.as_str());
    assert(cs@.subrange(0, cs@.len() as int) =~= cs@);
    let lower = lowercase_of(&cs, 0, cs.len());
    chars_of(lower.as_str())
}

fn fields_of(st: &Story) -> (r: Vec<Vec<char>>)
    ensures
        r@.len() == story_fields(st.scrapes@).len(),
        forall|k: int| 0 <= k < r@.len() ==> (#[trigger] r@[k])@ == story_fields(st.scrapes@)[k],
{
    let mut r: Vec<Vec<char>> = Vec::new();
    let mut i: usize = 0;
    while i < st.scrapes.len()
        invariant
            i <= st.scrapes@.len(),
            r@.len() == story_fields(st.scrapes@.subrange(0, i as int)).len(),
            forall|k: int| 0 <= k < r@.len() ==> (#[trigger] r@[k])@ == story_fields(st.scrapes@.subrange(0, i as int))[k],
        decreases st.scrapes@.len() - i,
    {
        let ghost before = story_fields(st.scrapes@.subrange(0, i as int));
        let ghost f = scrape_fields(st.scrapes@[i as int]);
        let ghost r0 = r@;
        match &st.scrapes[i] {
            TypedScrape::Reddit(x) => {
                r.push(lower_chars(&x.core.title));
                r.push(lower_chars(&x.data.subreddit));
                r.push(lower_chars(&x.data.flair));
            },
            other => {
                r.push(lower_chars(&other.shared().title));
            },
        }
        proof {
            assert(st.scrapes@.subrange(0, i + 1).drop_last() =~= st.scrapes@.subrange(0, i as int));
            assert(story_fields(st.scrapes@.subrange(0, i + 1)) == before + f);
            assert forall|k: int| 0 <= k < r@.len() implies (#[trigger] r@[k])@ == (before + f)[k] by {
                if k < r0.len() {
                    assert(r@[k] == r0[k]);
                }
            }
        }
        i = i + 1;
    }
    assert(st.scrapes@.subrange(0, i as int) =~= st.scrapes@);
    r
}

fn fields_hold(fields: &Vec<Vec<char>>, t: &Vec<char>) -> (r: bool)
    ensures
        r == in_fields(fields@.map_values(|f: Vec<char>| f@), t@),
{
    let ghost fv = fields@.map_values(|f: Vec<char>| f@);
    let mut found = false;
    let mut i: usize = 0;
    while i < fields.len()
        invariant
            i <= fields@.len(),
            fv == fields@.map_values(|f: Vec<char>| f@),
            found == in_fields(fv.subrange(0, i as int), t@),
        decreases fields@.len() - i,
    {
        assert(fv.subrange(0, i + 1).drop_last() =~= fv.subrange(0, i as int));
        let c = find_sub(&fields[i], t);
        found = found || c;
        i = i + 1;
    }
    assert(fv.subrange(0, i as int) =~= fv);
    found
}

fn search_relevance(st: &Story, terms: &Vec<Vec<char>>, Ghost(tv): Ghost<Seq<Seq<char>>>) -> (r: u64)
    requires
        terms@.len() == tv.len(),
        forall|k: int| 0 <= k < terms@.len() ==> (#[trigger] terms@[k])@ == tv[k],
    ensures
        r == relevance(st.view_of(), tv),
        r <= tv.len(),
{
    let fields = fields_of(st);
    assert(fields@.map_values(|f: Vec<char>| f@) =~= story_fields(st.scrapes@));
    let mut n: u64 = 0;
    let mut k: usize = 0;
    while k < terms.len()
        invariant
            k <= terms@.len(),
            terms@.len() == tv.len(),
            forall|m: int| 0 <= m < terms@.len() ==> (#[trigger] terms@[m])@ == tv[m],
            fields@.map_values(|f: Vec<char>| f@) == story_fields(st.scrapes@),
            n == relevance(st.view_of(), tv.subrange(0, k as int)),
            n <= k,
        decreases terms@.len() - k,
    {
        let found = fields_hold(&fields, &terms[k]);
        proof {
            let sub = tv.subrange(0, k + 1);
            assert(sub.drop_last() =~= tv.subrange(0, k as int));
            assert(sub.last() == terms@[k as int]@);
        }
        if found {
            n = n + 1;
        }
        k = k + 1;
    }
    assert(tv.subrange(0, k as int) =~= tv);
    n
}

/// Some entry of `by` counts shard `k`.
pub open spec fn shard_listed(by: Seq<(ShardKey, usize)>, k: ShardKey) -> bool {
    exists|a: int| 0 <= a < by.len() && (#[trigger] by[a]).0 == k
}

/// The front page of stories `v`: the most recent ones, up to `frontpage_limit(max_count)`,
/// ranked by hotness at `now`, of which at most `max_count` lead.
pub open spec fn frontpage_view(v: Seq<StoryView>, cfg: StoryScoreConfig, now: StoryDate, max_count: usize) -> Seq<StoryView> {
    take_at_most(
        ranked_by(
            view_hotness_key(cfg, now),
            take_at_most(ranked_by(view_recency_key(), v), frontpage_limit(max_count)),
        ),
        max_count as int,
    )
}

/// What a search of stories `v` for query `q` gives: a refusal for a query without terms or
/// with too many, else the matching stories by relevance and then recency, at most
/// `max_count` of them.
pub open spec fn search_outcome(
    v: Seq<StoryView>,
    q: Seq<char>,
    max_count: usize,
    r: Result<Vec<Story>, QueryError>,
) -> bool {
    let terms = query_terms(q);
    if terms.len() == 0 {
        r == Err::<Vec<Story>, QueryError>(QueryError::Empty)
    } else if terms.len() > MAX_TERMS {
        r == Err::<Vec<Story>, QueryError>(QueryError::TooManyTerms)
    } else {
        r is Ok && views(r->Ok_0@) == take_at_most(
            ranked_by(search_key(terms), matching(v, terms)),
            max_count as int,
        )
    }
}

/// `r` counts stories `v`: the total, and one entry per shard that holds stories, with the
/// number it holds.
pub open spec fn counts_shards(v: Seq<StoryView>, r: StorageSummary) -> bool {
    &&& r.total == v.len()
    &&& forall|a: int, b: int|
        0 <= a < b < r.by_shard@.len() ==> (#[trigger] r.by_shard@[a]).0 != (
        #[trigger] r.by_shard@[b]).0
    &&& forall|a: int|
        0 <= a < r.by_shard@.len() ==> (#[trigger] r.by_shard@[a]).1 == shard_stories(
            v,
            r.by_shard@[a].0,
        ).len()
    &&& forall|i: int| 0 <= i < v.len() ==> shard_listed(r.by_shard@, view_shard(#[trigger] v[i]))
}

/// How many stories the index holds, in all and per shard.
#[derive(Debug)]
pub struct StorageSummary {
    pub total: usize,
    pub by_shard: Vec<(ShardKey, usize)>,
}

/// Why a search could not run.
#[derive(Clone, Copy, Debug, PartialEq, Eq, Structural)]
pub enum QueryError {
    /// The query holds no search term.
    Empty,
    /// The query holds more than `MAX_TERMS` terms.
    TooManyTerms,
}

/// The most terms a query may hold.
pub const MAX_TERMS: usize = 1000;

/// The sharded, searchable story index, held in memory. Stories are kept by identifier; a
/// shard is the set of stories whose identifier falls in one month.
#[derive(Debug)]
pub struct StoryIndex {
    pub stories: Vec<Story>,
}

impl StoryIndex {
    pub open spec fn spec_view(&self) -> Seq<StoryView> {
        views(self.stories@)
    }

    /// Stories are well formed, identifiers are unique and no scrape key is held twice.
    pub open spec fn wf(&self) -> bool {
        stories_wf(self.stories@)
    }

    pub fn new() -> (r: StoryIndex)
        ensures
            r.wf(),
            r.spec_view() == Seq::<StoryView>::empty(),
    {
        let r = StoryIndex { stories: Vec::new() };
        assert(r.spec_view() =~= Seq::<StoryView>::empty());
        r
    }

    /// Inserts one scrape: merged with the stored scrape of the same key wherever it is (the
    /// story moves when its day changes), or into the story with its identifier, or as a new
    /// story.
    pub fn insert_scrape(&mut self, x: TypedScrape)
        requires
            old(self).wf(),
            x.wf(),
        ensures
            final(self).wf(),
            keys_disjoint(final(self).stories@),
            final(self).spec_view() == crate::memindex::insert_view(old(self).spec_view(), x),
    {
        insert_into(&mut self.stories, x);
    }

    /// Inserts the scrapes in order.
    pub fn insert_scrapes(&mut self, scrapes: Vec<TypedScrape>)
        requires
            old(self).wf(),
            forall|i: int| 0 <= i < scrapes@.len() ==> (#[trigger] scrapes@[i]).wf(),
        ensures
            final(self).wf(),
            keys_disjoint(final(self).stories@),
            final(self).spec_view() == insert_all(old(self).spec_view(), scrapes@),
    {
        let ghost v0 = self.spec_view();
        let ghost xs = scrapes@;
        let mut input = scrapes;
        let ghost mut i: int = 0;
        while input.len() > 0
            invariant
                0 <= i <= xs.len(),
                input@ == xs.subrange(i, xs.len() as int),
                self.wf(),
                self.spec_view() == insert_all(v0, xs.subrange(0, i)),
                forall|j: int| 0 <= j < xs.len() ==> (#[trigger] xs[j]).wf(),
            decreases input@.len(),
        {
            assert(input@.len() == xs.len() - i);
            let x = input.remove(0);
            assert(x == xs[i]);
            self.insert_scrape(x);
            proof {
                assert(xs.subrange(0, i + 1).drop_last() =~= xs.subrange(0, i));
                i = i + 1;
            }
            assert(input@ =~= xs.subrange(i, xs.len() as int));
        }
        assert(xs.subrange(0, i) =~= xs);
    }

    /// Takes over whole stories, such as those a memory index built: their scrapes are inserted
    /// story after story.
    pub fn insert_stories(&mut self, stories: Vec<Story>)
        requires
            old(self).wf(),
            forall|i: int| 0 <= i < stories@.len() ==> (#[trigger] stories@[i]).wf(),
        ensures
            final(self).wf(),
            final(self).spec_view() == insert_all(old(self).spec_view(), all_scrapes(stories@)),
    {
        let ghost v0 = self.spec_view();
        let ghost ss = stories@;
        let mut input = stories;
        let ghost mut i: int = 0;
        while input.len() > 0
            invariant
                0 <= i <= ss.len(),
                input@ == ss.subrange(i, ss.len() as int),
                self.wf(),
                self.spec_view() == insert_all(v0, all_scrapes(ss.subrange(0, i))),
                forall|j: int| 0 <= j < ss.len() ==> (#[trigger] ss[j]).wf(),
            decreases input@.len(),
        {
            assert(input@.len() == ss.len() - i);
            let story = input.remove(0);
            assert(story == ss[i]);
            assert(story.wf());
            proof {
                assert forall|k: int| 0 <= k < story.scrapes@.len() implies (#[trigger] story.scrapes@[k]).wf() by {
                    assert(crate::story::all_wf(story.scrapes@));
                }
            }
            let Story { id: _, scrapes } = story;
            self.insert_scrapes(scrapes);
            proof {
                assert(ss.subrange(0, i + 1).drop_last() =~= ss.subrange(0, i));
                lemma_insert_all_append(v0, all_scrapes(ss.subrange(0, i)), ss[i].scrapes@);
                i = i + 1;
            }
            assert(input@ =~= ss.subrange(i, ss.len() as int));
        }
        assert(ss.subrange(0, i) =~= ss);
    }

    /// The front page: at most `max_count` stories, ordered by descending hotness at `now`.
    /// The candidates are the most recent stories, up to twenty times `max_count`; the scorer
    /// ranks them and the front page keeps the leading ones.
    pub fn query_frontpage(&self, scorer: &StoryScorer, now: StoryDate, max_count: usize) -> (r: Vec<Story>)
        requires
            self.wf(),
            scorer.config.wf(),
        ensures
            views(r@) == frontpage_view(self.spec_view(), scorer.config, now, max_count),
            r@.len() <= max_count,
            sorted_by_hotness(scorer.config, now, r@),
            max_count > 0 && self.stories@.len() > 0 ==> r@.len() > 0,
    {
        frontpage_of(&self.stories, scorer, now, max_count)
    }

    /// Search: the stories whose searchable text (every scrape's title, and the subreddit and
    /// flair of Reddit scrapes) holds at least one term of `query`; the most relevant first
    /// (more terms found), and among equally relevant ones the most recent first; at most
    /// `max_count` of them. A query without terms, or with more than `MAX_TERMS`, is refused.
    pub fn query_search(&self, query: &str, max_count: usize) -> (r: Result<Vec<Story>, QueryError>)
        requires
            self.wf(),
        ensures
            search_outcome(self.spec_view(), query@, max_count, r),
            r is Ok ==> sorted_by(story_search_key(query_terms(query@)), r->Ok_0@),
    {
        search_of(&self.stories, query, max_count)
    }

    /// The stories of shard `shard`: those whose identifier falls in that month, in stored
    /// order.
    pub fn stories_by_shard(&self, shard: ShardKey) -> (r: Vec<Story>)
        requires
            self.wf(),
        ensures
            views(r@) == shard_stories(self.spec_view(), shard),
    {
        shard_of_stories(&self.stories, shard)
    }

    /// How many stories each shard holds, shards in order of their first story, and in all.
    pub fn story_count(&self) -> (r: StorageSummary)
        ensures
            counts_shards(self.spec_view(), r),
    {
        count_of(&self.stories)
    }

    /// The story with identifier `id`, if the index holds one.
    pub fn get_story(&self, id: &StoryIdentifier) -> (r: Option<&Story>)
        ensures
            r is Some <==> exists|i: int|
                0 <= i < self.stories@.len() && (#[trigger] self.stories@[i]).id.key() == id.key(),
            r is Some ==> r->0.id.key() == id.key(),
    {
        let mut i: usize = 0;
        while i < self.stories.len()
            invariant
                i <= self.stories@.len(),
                forall|a: int| 0 <= a < i ==> (#[trigger] self.stories@[a]).id.key() != id.key(),
            decreases self.stories@.len() - i,
        {
            if self.stories[i].id.same_as(id) {
                return Some(&self.stories[i]);
            }
            i = i + 1;
        }
        None
    }


}

fn copies(stories: &Vec<Story>) -> (r: Vec<Story>)
    requires
        stories_wf(stories@),
    ensures
        views(r@) == views(stories@),
        forall|i: int| 0 <= i < r@.len() ==> (#[trigger] r@[i]).scrapes@.len() > 0,
{
    let mut r: Vec<Story> = Vec::new();
    let mut i: usize = 0;
    while i < stories.len()
        invariant
            i <= stories@.len(),
            stories_wf(stories@),
            views(r@) == views(stories@.subrange(0, i as int)),
            forall|j: int| 0 <= j < r@.len() ==> (#[trigger] r@[j]).scrapes@.len() > 0,
        decreases stories@.len() - i,
    {
        let c = stories[i].clone();
        assert(stories@[i as int].wf());
        let ghost before = r@;
        r.push(c);
        assert(views(r@) =~= views(before).push(c.view_of()));
        assert(stories@.subrange(0, i + 1) =~= stories@.subrange(0, i as int).push(stories@[i as int]));
        assert(views(stories@.subrange(0, i + 1)) =~= views(stories@.subrange(0, i as int)).push(stories@[i as int].view_of()));
        i = i + 1;
    }
    assert(stories@.subrange(0, i as int) =~= stories@);
    r
}

/// The front page: at most `max_count` stories, ordered by descending hotness at `now`.
/// The candidates are the most recent stories, up to twenty times `max_count`; the scorer
/// ranks them and the front page keeps the leading ones.
pub(crate) fn frontpage_of(stories: &Vec<Story>, scorer: &StoryScorer, now: StoryDate, max_count: usize) -> (r: Vec<Story>)
    requires
        stories_wf(stories@),
        scorer.config.wf(),
    ensures
        views(r@) == frontpage_view(views(stories@), scorer.config, now, max_count),
        r@.len() <= max_count,
        sorted_by_hotness(scorer.config, now, r@),
        max_count > 0 && stories@.len() > 0 ==> r@.len() > 0,
{
    let limit: usize = if max_count > usize::MAX / 20 {
        usize::MAX
    } else {
        max_count * 20
    };
    let all = copies(stories);
    let mut keys: Vec<u64> = Vec::new();
    let mut i: usize = 0;
    while i < all.len()
        invariant
            i <= all@.len(),
            keys@.len() == i,
            forall|j: int| 0 <= j < all@.len() ==> (#[trigger] all@[j]).scrapes@.len() > 0,
            forall|j: int| 0 <= j < i ==> keys@[j] == (#[trigger] all@[j]).spec_date().spec_seconds(),
        decreases all@.len() - i,
    {
        let d = all[i].date();
        keys.push(d.seconds() as u64);
        i = i + 1;
    }
    let ghost all_v = all@;
    let mut cands = sort_by_keys(all, keys, Ghost(recency_key()));
    proof {
        lemma_ranked_by_sorted(recency_key(), all_v);
        lemma_ranked_views(recency_key(), view_recency_key(), all_v);
        assert forall|j: int| 0 <= j < cands@.len() implies (#[trigger] cands@[j]).scrapes@.len() > 0 by {
            vstd::seq_lib::to_multiset_contains(cands@, cands@[j]);
            assert(cands@.contains(cands@[j]));
            vstd::seq_lib::to_multiset_contains(all_v, cands@[j]);
            let k = choose|k: int| 0 <= k < all_v.len() && all_v[k] == cands@[j];
        }
    }
    let ghost recent = cands@;
    cands.truncate(limit);
    assert(cands@ =~= take_at_most(recent, limit as int));
    assert(views(cands@) =~= take_at_most(views(recent), limit as int));
    let ghost before = cands@;
    scorer.resort_stories(now, &mut cands);
    proof {
        lemma_ranked_sorted(scorer.config, now, before);
        lemma_ranked_views(hotness_key(scorer.config, now), view_hotness_key(scorer.config, now), before);
    }
    let ghost ranked_all = cands@;
    cands.truncate(max_count);
    proof {
        lemma_sorted_prefix(hotness_key(scorer.config, now), ranked_all, cands@.len() as int);
        assert(cands@ =~= ranked_all.subrange(0, cands@.len() as int));
        assert(views(cands@) =~= take_at_most(views(ranked_all), max_count as int));
    }
    cands
}

/// Search: the stories whose searchable text (every scrape's title, and the subreddit and
/// flair of Reddit scrapes) holds at least one term of `query`; the most relevant first
/// (more terms found), and among equally relevant ones the most recent first; at most
/// `max_count` of them. A query without terms, or with more than `MAX_TERMS`, is refused.
pub(crate) fn search_of(stories: &Vec<Story>, query: &str, max_count: usize) -> (r: Result<Vec<Story>, QueryError>)
    requires
        stories_wf(stories@),
    ensures
        search_outcome(views(stories@), query@, max_count, r),
        r is Ok ==> sorted_by(story_search_key(query_terms(query@)), r->Ok_0@),
{
    let terms = split_terms(query);
    let ghost tv = query_terms(query@);
    if terms.len() == 0 {
        return Err(QueryError::Empty);
    }
    if terms.len() > MAX_TERMS {
        return Err(QueryError::TooManyTerms);
    }
    let ghost v = views(stories@);
    let mut cands: Vec<Story> = Vec::new();
    let mut keys: Vec<u64> = Vec::new();
    let mut j: usize = 0;
    assert(views(cands@) =~= matching(v.subrange(0, 0), tv));
    while j < stories.len()
        invariant
            j <= stories@.len(),
            stories_wf(stories@),
            v == views(stories@),
            terms@.len() == tv.len(),
            terms@.len() <= MAX_TERMS,
            forall|k: int| 0 <= k < terms@.len() ==> (#[trigger] terms@[k])@ == tv[k],
            views(cands@) == matching(v.subrange(0, j as int), tv),
            keys@.len() == cands@.len(),
            forall|i: int| 0 <= i < cands@.len() ==> keys@[i] == story_search_key(tv)(#[trigger] cands@[i]),
        decreases stories@.len() - j,
    {
        let st = &stories[j];
        proof {
            assert(stories@[j as int].wf());
            assert(v[j as int] == st.view_of());
            let sub = v.subrange(0, j + 1);
            assert(sub.drop_last() =~= v.subrange(0, j as int));
        }
        let n = search_relevance(st, &terms, Ghost(tv));
        if n > 0 {
            let d = st.date();
            let c = st.clone();
            let ghost prev = cands@;
            assert(n <= 1000);
            assert(n * RELEVANCE_UNIT <= 1000 * RELEVANCE_UNIT) by (nonlinear_arith)
                requires
                    n <= 1000,
            ;
            let key = n * RELEVANCE_UNIT + d.seconds() as u64;
            cands.push(c);
            keys.push(key);
            assert(views(cands@) =~= views(prev).push(c.view_of()));
        }
        j = j + 1;
    }
    assert(v.subrange(0, j as int) =~= v);
    let ghost before = cands@;
    let mut sorted = sort_by_keys(cands, keys, Ghost(story_search_key(tv)));
    proof {
        lemma_ranked_by_sorted(story_search_key(tv), before);
        lemma_ranked_views(story_search_key(tv), search_key(tv), before);
    }
    let ghost all_sorted = sorted@;
    sorted.truncate(max_count);
    proof {
        lemma_sorted_prefix(story_search_key(tv), all_sorted, sorted@.len() as int);
        assert(sorted@ =~= all_sorted.subrange(0, sorted@.len() as int));
        assert(views(sorted@) =~= take_at_most(views(all_sorted), max_count as int));
    }
    Ok(sorted)
}

/// The stories of shard `shard`: those whose identifier falls in that month, in stored
/// order.
pub(crate) fn shard_of_stories(stories: &Vec<Story>, shard: ShardKey) -> (r: Vec<Story>)
    requires
        stories_wf(stories@),
    ensures
        views(r@) == shard_stories(views(stories@), shard),
{
    let ghost v = views(stories@);
    let mut r: Vec<Story> = Vec::new();
    let mut i: usize = 0;
    assert(views(r@) =~= shard_stories(v.subrange(0, 0), shard));
    while i < stories.len()
        invariant
            i <= stories@.len(),
            v == views(stories@),
            views(r@) == shard_stories(v.subrange(0, i as int), shard),
        decreases stories@.len() - i,
    {
        let st = &stories[i];
        proof {
            assert(v[i as int] == st.view_of());
            assert(v.subrange(0, i + 1).drop_last() =~= v.subrange(0, i as int));
        }
        let k = st.id.shard();
        if k.0 == shard.0 && k.1 == shard.1 {
            let ghost prev = r@;
            r.push(st.clone());
            assert(views(r@) =~= views(prev).push(st.view_of()));
        }
        i = i + 1;
    }
    assert(v.subrange(0, i as int) =~= v);
    r
}

/// How many stories each shard holds, shards in order of their first story, and in all.
pub(crate) fn count_of(stories: &Vec<Story>) -> (r: StorageSummary)
    ensures
        counts_shards(views(stories@), r),
{
    let ghost v = views(stories@);
    let mut by_shard: Vec<(ShardKey, usize)> = Vec::new();
    let mut i: usize = 0;
    while i < stories.len()
        invariant
            i <= stories@.len(),
            v == views(stories@),
            forall|a: int, b: int| 0 <= a < b < by_shard@.len() ==> (#[trigger] by_shard@[a]).0 != (#[trigger] by_shard@[b]).0,
            forall|a: int| 0 <= a < by_shard@.len() ==> (#[trigger] by_shard@[a]).1 == shard_stories(
                v.subrange(0, i as int),
                by_shard@[a].0,
            ).len(),
            forall|a: int| 0 <= a < by_shard@.len() ==> (#[trigger] by_shard@[a]).1 <= i,
            forall|m: int| 0 <= m < i ==> shard_listed(by_shard@, view_shard(#[trigger] v[m])),
            forall|k: ShardKey| (forall|a: int| 0 <= a < by_shard@.len() ==> (#[trigger] by_shard@[a]).0 != k)
                ==> #[trigger] shard_stories(v.subrange(0, i as int), k).len() == 0,
        decreases stories@.len() - i,
    {
        let k = stories[i].id.shard();
        let ghost pre = v.subrange(0, i as int);
        let ghost nxt = v.subrange(0, i + 1);
        proof {
            assert(v[i as int] == stories@[i as int].view_of());
            assert(nxt.drop_last() =~= pre);
            assert(nxt.last() == v[i as int]);
            assert(view_shard(v[i as int]) == k);
        }
        let mut a: usize = 0;
        while a < by_shard.len() && !(by_shard[a].0.0 == k.0 && by_shard[a].0.1 == k.1)
            invariant
                a <= by_shard@.len(),
                forall|b: int| 0 <= b < a ==> (#[trigger] by_shard@[b]).0 != k,
            decreases by_shard@.len() - a,
        {
            a = a + 1;
        }
        let ghost old_by = by_shard@;
        if a < by_shard.len() {
            let n = by_shard[a].1;
            by_shard.set(a, (k, n + 1));
            assert forall|b: int| 0 <= b < by_shard@.len() implies (#[trigger] by_shard@[b]).1 == shard_stories(
                nxt,
                by_shard@[b].0,
            ).len() by {
                assert(old_by[b].1 == shard_stories(pre, old_by[b].0).len());
            }
        } else {
            by_shard.push((k, 1));
            assert(shard_stories(pre, k).len() == 0);
            assert forall|b: int| 0 <= b < by_shard@.len() implies (#[trigger] by_shard@[b]).1 == shard_stories(
                nxt,
                by_shard@[b].0,
            ).len() by {
                if b < old_by.len() {
                    assert(old_by[b].1 == shard_stories(pre, old_by[b].0).len());
                }
            }
        }
        assert forall|m: int| 0 <= m < i + 1 implies shard_listed(by_shard@, view_shard(#[trigger] v[m])) by {
            if m < i {
                assert(shard_listed(old_by, view_shard(v[m])));
                let b = choose|b: int| 0 <= b < old_by.len() && (#[trigger] old_by[b]).0 == view_shard(v[m]);
                assert(by_shard@[b].0 == old_by[b].0);
            } else {
                assert(by_shard@[a as int].0 == k);
            }
        }
        assert forall|kk: ShardKey| (forall|b: int| 0 <= b < by_shard@.len() ==> (#[trigger] by_shard@[b]).0 != kk)
            implies #[trigger] shard_stories(nxt, kk).len() == 0 by {
            assert forall|b: int| 0 <= b < old_by.len() implies (#[trigger] old_by[b]).0 != kk by {
                assert(by_shard@[b].0 == old_by[b].0);
            }
            assert(by_shard@[a as int].0 == k);
            assert(kk != k);
            assert(shard_stories(pre, kk).len() == 0);
            assert(shard_stories(nxt, kk) == shard_stories(pre, kk));
        }
        i = i + 1;
    }
    assert(v.subrange(0, i as int) =~= v);

    StorageSummary { total: stories.len(), by_shard }
}


/// Every story sits in the shard of its identifier's month, and no listing of any shard holds
/// another story with its identifier or with one of its scrape keys.
pub proof fn lemma_shard_consistency(idx: StoryIndex, i: int)
    requires
        idx.wf(),
        0 <= i < idx.stories@.len(),
    ensures
        shard_stories(idx.spec_view(), view_shard(idx.spec_view()[i])).contains(idx.spec_view()[i]),
        forall|k: ShardKey, m: int|
            0 <= m < shard_stories(idx.spec_view(), k).len() && (#[trigger] shard_stories(idx.spec_view(), k)[m]
                != idx.spec_view()[i]) ==> shard_stories(idx.spec_view(), k)[m].0 != idx.spec_view()[i].0
                && forall|key: ScrapeKey| #[trigger] has_key(idx.spec_view()[i].1, key) ==> !has_key(
                    shard_stories(idx.spec_view(), k)[m].1,
                    key,
                ),
{
    let v = idx.spec_view();
    let s = idx.stories@;
    assert(v[i] == s[i].view_of());
    lemma_shard_stories(v, view_shard(v[i]));
    assert forall|k: ShardKey, m: int|
        0 <= m < shard_stories(v, k).len() && (#[trigger] shard_stories(v, k)[m] != v[i]) implies shard_stories(v, k)[m].0
            != v[i].0 && forall|key: ScrapeKey| #[trigger] has_key(v[i].1, key) ==> !has_key(
                shard_stories(v, k)[m].1,
                key,
            ) by {
        lemma_shard_stories(v, k);
        let j = choose|j: int| 0 <= j < v.len() && #[trigger] shard_stories(v, k)[m] == v[j] && view_shard(v[j]) == k;
        assert(j != i);
        assert(v[j] == s[j].view_of());
        assert(keys_disjoint(s));
        assert forall|key: ScrapeKey| #[trigger] has_key(v[i].1, key) implies !has_key(shard_stories(v, k)[m].1, key) by {
            assert(has_key(s[i].scrapes@, key));
        }
    }
}

} // verus!
