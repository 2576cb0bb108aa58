//! Ranking stories by hotness, and deriving their tags.

use vstd::prelude::*;
use crate::date::StoryDate;
use crate::scrapers::TypedScrape;
use crate::story::{earliest_date, views, Story, StoryView};
use crate::config::{ScrapeConfig, TaggerConfig};
use crate::tagger::StoryTagger;

verus! {

/// Engagement counts above this are treated as this.
pub const ENGAGEMENT_CAP: u64 = 1000000000;

pub const SECONDS_PER_HOUR: i64 = 3600;

/// How hotness is computed: `(engagement + 1) * scale / (age_hours + bias_hours)^2`.
#[derive(Clone, Copy, Debug, PartialEq, Eq, Structural)]
pub struct StoryScoreConfig {
    pub scale: u32,
    pub bias_hours: u32,
}

impl StoryScoreConfig {
    pub open spec fn wf(self) -> bool {
        self.bias_hours >= 1
    }

    pub fn new(scale: u32, bias_hours: u32) -> (r: Option<StoryScoreConfig>)
        ensures
            r is Some <==> bias_hours >= 1,
            r is Some ==> r->0 == (StoryScoreConfig { scale, bias_hours }),
    {
        if bias_hours >= 1 {
            Some(StoryScoreConfig { scale, bias_hours })
        } else {
            None
        }
    }
}

impl Default for StoryScoreConfig {
    fn default() -> (r: StoryScoreConfig)
        ensures
            r == (StoryScoreConfig { scale: 1000, bias_hours: 2 }),
    {
        StoryScoreConfig { scale: 1000, bias_hours: 2 }
    }
}

/// Sum of the scrapes' engagement, where the running total stops at `ENGAGEMENT_CAP`.
pub open spec fn capped_engagement(s: Seq<TypedScrape>) -> int
    decreases s.len(),
{
    if s.len() == 0 {
        0
    } else {
        let t = capped_engagement(s.drop_last()) + s.last().spec_engagement();
        if t > ENGAGEMENT_CAP as int {
            ENGAGEMENT_CAP as int
        } else {
            t
        }
    }
}

/// Whole hours from `date` to `now`, or 0 when `date` is not before `now`.
pub open spec fn age_hours(now: StoryDate, date: StoryDate) -> int {
    if now.spec_seconds() > date.spec_seconds() {
        (now.spec_seconds() - date.spec_seconds()) / (SECONDS_PER_HOUR as int)
    } else {
        0
    }
}

/// The hotness at instant `now` of a story with scrapes `v.1`.
pub open spec fn view_hotness(cfg: StoryScoreConfig, now: StoryDate, v: StoryView) -> int {
    let a = age_hours(now, earliest_date(v.1)) + cfg.bias_hours;
    (capped_engagement(v.1) + 1) * cfg.scale / (a * a)
}

/// The hotness of a story at instant `now`.
pub open spec fn hotness(cfg: StoryScoreConfig, now: StoryDate, story: Story) -> int {
    view_hotness(cfg, now, story.view_of())
}

pub open spec fn view_hotness_key(cfg: StoryScoreConfig, now: StoryDate) -> spec_fn(StoryView) -> int {
    |v: StoryView| view_hotness(cfg, now, v)
}

/// The ranking key of hotness at `now`.
pub open spec fn hotness_key(cfg: StoryScoreConfig, now: StoryDate) -> spec_fn(Story) -> int {
    |s: Story| hotness(cfg, now, s)
}

/// Where a story with key `h` goes among stories `s` ranked so far: after every story whose
/// key is at least `h`, so that stories with equal keys keep their order.
pub open spec fn insert_pos_by<T>(key: spec_fn(T) -> int, s: Seq<T>, h: int) -> int
    decreases s.len(),
{
    if s.len() == 0 {
        0
    } else if key(s[0]) >= h {
        1 + insert_pos_by(key, s.drop_first(), h)
    } else {
        0
    }
}

/// Stories `s` ordered by descending key; stories with equal keys keep their order.
pub open spec fn ranked_by<T>(key: spec_fn(T) -> int, s: Seq<T>) -> Seq<T>
    decreases s.len(),
{
    if s.len() == 0 {
        s
    } else {
        let r = ranked_by(key, s.drop_last());
        r.insert(insert_pos_by(key, r, key(s.last())), s.last())
    }
}

/// Stories `s` ordered by descending hotness at `now`; equally hot stories keep their order.
pub open spec fn ranked(cfg: StoryScoreConfig, now: StoryDate, s: Seq<Story>) -> Seq<Story> {
    ranked_by(hotness_key(cfg, now), s)
}

pub open spec fn sorted_by<T>(key: spec_fn(T) -> int, s: Seq<T>) -> bool {
    forall|i: int, j: int| 0 <= i < j < s.len() ==> key(#[trigger] s[i]) >= key(#[trigger] s[j])
}

pub open spec fn sorted_by_hotness(cfg: StoryScoreConfig, now: StoryDate, s: Seq<Story>) -> bool {
    sorted_by(hotness_key(cfg, now), s)
}

proof fn lemma_insert_pos<T>(key: spec_fn(T) -> int, s: Seq<T>, h: int, p: int)
    requires
        0 <= p <= s.len(),
        forall|j: int| 0 <= j < p ==> key(#[trigger] s[j]) >= h,
        p == s.len() || key(s[p]) < h,
    ensures
        insert_pos_by(key, s, h) == p,
    decreases s.len(),
{
    if s.len() > 0 && p > 0 {
        let t = s.drop_first();
        assert forall|j: int| 0 <= j < p - 1 implies key(#[trigger] t[j]) >= h by {
            assert(t[j] == s[j + 1]);
        }
        lemma_insert_pos(key, t, h, p - 1);
    }
}

proof fn lemma_insert_pos_bounds<T>(key: spec_fn(T) -> int, s: Seq<T>, h: int)
    ensures
        0 <= insert_pos_by(key, s, h) <= s.len(),
        forall|j: int| 0 <= j < insert_pos_by(key, s, h) ==> key(#[trigger] s[j]) >= h,
        insert_pos_by(key, s, h) < s.len() ==> key(s[insert_pos_by(key, s, h)]) < h,
    decreases s.len(),
{
    if s.len() > 0 && key(s[0]) >= h {
        let t = s.drop_first();
        lemma_insert_pos_bounds(key, t, h);
        assert forall|j: int| 0 <= j < insert_pos_by(key, s, h) implies key(#[trigger] s[j]) >= h by {
            if j > 0 {
                assert(s[j] == t[j - 1]);
            }
        }
    }
}

/// A ranking is ordered by descending key and holds the same stories.
pub proof fn lemma_ranked_by_sorted<T>(key: spec_fn(T) -> int, s: Seq<T>)
    ensures
        sorted_by(key, ranked_by(key, s)),
        ranked_by(key, s).len() == s.len(),
        ranked_by(key, s).to_multiset() == s.to_multiset(),
    decreases s.len(),
{
    if s.len() > 0 {
        let r = ranked_by(key, s.drop_last());
        lemma_ranked_by_sorted(key, s.drop_last());
        let x = s.last();
        let h = key(x);
        lemma_insert_pos_bounds(key, r, h);
        let p = insert_pos_by(key, r, h);
        let t = r.insert(p, x);
        assert forall|i: int, j: int| 0 <= i < j < t.len() implies key(#[trigger] t[i]) >= key(
            #[trigger] t[j],
        ) by {
            if j < p {
                assert(t[i] == r[i] && t[j] == r[j]);
            } else if j == p {
                assert(t[i] == r[i]);
            } else if i < p {
                assert(t[i] == r[i] && t[j] == r[j - 1]);
            } else if i == p {
                assert(t[j] == r[j - 1]);
                if p < r.len() {
                    assert(key(r[p]) >= key(r[j - 1]));
                }
            } else {
                assert(t[i] == r[i - 1] && t[j] == r[j - 1]);
            }
        }
        assert(s =~= s.drop_last().push(x));
        vstd::seq_lib::to_multiset_insert(r, p, x);
        vstd::seq_lib::to_multiset_build(s.drop_last(), x);
    }
}

/// The hotness ranking is ordered by descending hotness and holds the same stories.
pub proof fn lemma_ranked_sorted(cfg: StoryScoreConfig, now: StoryDate, s: Seq<Story>)
    ensures
        sorted_by_hotness(cfg, now, ranked(cfg, now, s)),
        ranked(cfg, now, s).len() == s.len(),
        ranked(cfg, now, s).to_multiset() == s.to_multiset(),
{
    lemma_ranked_by_sorted(hotness_key(cfg, now), s);
}

/// A prefix of a sorted sequence is sorted.
pub proof fn lemma_sorted_prefix<T>(key: spec_fn(T) -> int, s: Seq<T>, n: int)
    requires
        sorted_by(key, s),
        0 <= n <= s.len(),
    ensures
        sorted_by(key, s.subrange(0, n)),
{
    assert forall|i: int, j: int| 0 <= i < j < n implies key(#[trigger] s.subrange(0, n)[i]) >= key(
        #[trigger] s.subrange(0, n)[j],
    ) by {
        assert(s.subrange(0, n)[i] == s[i] && s.subrange(0, n)[j] == s[j]);
    }
}

proof fn lemma_insert_pos_views(
    key: spec_fn(Story) -> int,
    kv: spec_fn(StoryView) -> int,
    s: Seq<Story>,
    h: int,
)
    requires
        forall|t: Story| #[trigger] key(t) == kv(t.view_of()),
    ensures
        insert_pos_by(key, s, h) == insert_pos_by(kv, views(s), h),
    decreases s.len(),
{
    if s.len() > 0 {
        assert(views(s).drop_first() =~= views(s.drop_first()));
        assert(views(s)[0] == s[0].view_of());
        lemma_insert_pos_views(key, kv, s.drop_first(), h);
    }
}

/// Ranking stories by a key that depends on their views ranks their views the same way.
pub proof fn lemma_ranked_views(key: spec_fn(Story) -> int, kv: spec_fn(StoryView) -> int, s: Seq<Story>)
    requires
        forall|t: Story| #[trigger] key(t) == kv(t.view_of()),
    ensures
        views(ranked_by(key, s)) == ranked_by(kv, views(s)),
    decreases s.len(),
{
    if s.len() > 0 {
        let r = ranked_by(key, s.drop_last());
        lemma_ranked_views(key, kv, s.drop_last());
        lemma_insert_pos_views(key, kv, r, key(s.last()));
        lemma_insert_pos_bounds(key, r, key(s.last()));
        assert(views(s).drop_last() =~= views(s.drop_last()));
        assert(views(s).last() == s.last().view_of());
        let p = insert_pos_by(key, r, key(s.last()));
        assert(views(r.insert(p, s.last())) =~= views(r).insert(p, s.last().view_of()));
    }
}

/// Orders `items`, whose keys are `keys`, by descending key; items with equal keys keep their
/// order.
pub fn sort_by_keys(items: Vec<Story>, keys: Vec<u64>, Ghost(key): Ghost<spec_fn(Story) -> int>) -> (r: Vec<Story>)
    requires
        items@.len() == keys@.len(),
        forall|i: int| 0 <= i < items@.len() ==> keys@[i] == key(#[trigger] items@[i]),
    ensures
        r@ == ranked_by(key, items@),
{
    let ghost orig = items@;
    let ghost okeys = keys@;
    let mut input = items;
    let mut input_keys = keys;
    let mut out: Vec<Story> = Vec::new();
    let mut scores: Vec<u64> = Vec::new();
    let ghost mut i: int = 0;
    while input.len() > 0
        invariant
            input@ == orig.subrange(i, orig.len() as int),
            input_keys@ == okeys.subrange(i, orig.len() as int),
            okeys.len() == orig.len(),
            forall|j: int| 0 <= j < orig.len() ==> okeys[j] == key(#[trigger] orig[j]),
            0 <= i <= orig.len(),
            out@ == ranked_by(key, orig.subrange(0, i)),
            scores@.len() == out@.len(),
            forall|j: int| 0 <= j < out@.len() ==> scores@[j] == key(#[trigger] out@[j]),
        decreases input@.len(),
    {
        assert(input@.len() == orig.len() - i);
        let x = input.remove(0);
        let h = input_keys.remove(0);
        assert(x == orig[i] && h == okeys[i]);
        let mut p: usize = 0;
        while p < out.len() && scores[p] >= h
            invariant
                p <= out@.len(),
                scores@.len() == out@.len(),
                forall|j: int| 0 <= j < out@.len() ==> scores@[j] == key(#[trigger] out@[j]),
                forall|j: int| 0 <= j < p ==> key(#[trigger] out@[j]) >= h,
            decreases out@.len() - p,
        {
            p = p + 1;
        }
        proof {
            lemma_insert_pos(key, out@, h as int, p as int);
            assert(orig.subrange(0, i + 1).drop_last() =~= orig.subrange(0, i));
        }
        out.insert(p, x);
        scores.insert(p, h);
        proof {
            i = i + 1;
        }
        assert(input@ =~= orig.subrange(i, orig.len() as int));
        assert(input_keys@ =~= okeys.subrange(i, orig.len() as int));
    }
    assert(orig.subrange(0, i) =~= orig);
    out
}

/// Ranks stories by hotness.
#[derive(Clone, Copy, Debug)]
pub struct StoryScorer {
    pub config: StoryScoreConfig,
}

impl StoryScorer {
    /// The hotness of `story` at `now`.
    pub fn score(&self, now: StoryDate, story: &Story) -> (r: u64)
        requires
            self.config.wf(),
            story.scrapes@.len() > 0,
        ensures
            r == hotness(self.config, now, *story),
    {
        let mut eng: u64 = 0;
        let mut i: usize = 0;
        while i < story.scrapes.len()
            invariant
                i <= story.scrapes@.len(),
                eng == capped_engagement(story.scrapes@.subrange(0, i as int)),
                eng <= ENGAGEMENT_CAP,
            decreases story.scrapes@.len() - i,
        {
            assert(story.scrapes@.subrange(0, i + 1).drop_last() =~= story.scrapes@.subrange(
                0,
                i as int,
            ));
            let e = story.scrapes[i].engagement();
            eng = if e > ENGAGEMENT_CAP - eng {
                ENGAGEMENT_CAP
            } else {
                eng + e
            };
            i = i + 1;
        }
        assert(story.scrapes@.subrange(0, i as int) =~= story.scrapes@);
        let date = story.date();
        let n = now.seconds();
        let d = date.seconds();
        let age: u64 = if n > d {
            ((n - d) / SECONDS_PER_HOUR) as u64
        } else {
            0
        };
        assert(age <= 100000000);
        let a: u128 = age as u128 + self.config.bias_hours as u128;
        assert(a * a <= 0x100000000000000000000) by (nonlinear_arith)
            requires
                a <= 0x10000000000,
        ;
        assert(a * a >= 1) by (nonlinear_arith)
            requires
                a >= 1,
        ;
        let den: u128 = a * a;
        assert((eng + 1) * (self.config.scale as u128) <= 0x10000000000000000) by (nonlinear_arith)
            requires
                eng + 1 <= 0x100000000,
                self.config.scale <= 0xffffffff,
        ;
        let num: u128 = (eng as u128 + 1) * (self.config.scale as u128);
        let q = num / den;
        assert(q <= num) by (nonlinear_arith)
            requires
                den >= 1,
                q == num / den,
                num >= 0,
        ;
        assert(num <= 0xffffffffffffffff) by (nonlinear_arith)
            requires
                eng + 1 <= ENGAGEMENT_CAP + 1,
                num == (eng + 1) * (self.config.scale as u128),
                self.config.scale <= 0xffffffff,
        ;
        q as u64
    }

    /// Orders `stories` by descending hotness at `now`; equally hot stories keep their order.
    pub fn resort_stories(&self, now: StoryDate, stories: &mut Vec<Story>)
        requires
            self.config.wf(),
            forall|i: int|
                0 <= i < old(stories)@.len() ==> (#[trigger] old(stories)@[i]).scrapes@.len() > 0,
        ensures
            final(stories)@ == ranked(self.config, now, old(stories)@),
    {
        let mut input: Vec<Story> = Vec::new();
        std::mem::swap(&mut input, stories);
        let mut keys: Vec<u64> = Vec::new();
        let mut i: usize = 0;
        while i < input.len()
            invariant
                i <= input@.len(),
                keys@.len() == i,
                forall|j: int| 0 <= j < input@.len() ==> (#[trigger] input@[j]).scrapes@.len() > 0,
                forall|j: int| 0 <= j < i ==> keys@[j] == hotness(self.config, now, #[trigger] input@[j]),
                self.config.wf(),
            decreases input@.len() - i,
        {
            keys.push(self.score(now, &input[i]));
            i = i + 1;
        }
        *stories = sort_by_keys(input, keys, Ghost(hotness_key(self.config, now)));
    }
}

/// Ranks and tags stories: a scorer and a tagger built from configuration.
#[derive(Debug)]
pub struct StoryEvaluator {
    pub scorer: StoryScorer,
    pub tagger: StoryTagger,
}

impl StoryEvaluator {
    pub fn new(tagger: TaggerConfig, score: StoryScoreConfig, scrape: ScrapeConfig) -> (r: StoryEvaluator)
        ensures
            r.scorer.config == score,
            r.tagger.config == tagger,
            r.tagger.reddit == scrape.reddit,
    {
        let ScrapeConfig { hacker_news: _, reddit } = scrape;
        StoryEvaluator { scorer: StoryScorer { config: score }, tagger: StoryTagger { reddit, config: tagger } }
    }
}

} // verus!
