//! Configuration of the scrape sources and the tagger, and the URLs that a source is fetched
//! from.

use vstd::prelude::*;
use crate::text::{chars_of, push_char, push_decimal, push_range, decimal};
use crate::url::starts_with;

verus! {

/// How a subreddit contributes tags.
#[derive(Clone, Copy, Debug, Default, PartialEq, Eq, Structural)]
pub struct SubredditConfig {
    /// The subreddit's name is a tag.
    pub is_tag: bool,
    /// The flair of its posts is a tag.
    pub flair_is_tag: bool,
}

/// Reddit settings: where to fetch from, and the subreddits followed.
#[derive(Debug, Default)]
pub struct RedditConfig {
    pub api: String,
    pub subreddit_batch: usize,
    pub limit: usize,
    /// The subreddits followed, in order; where a name occurs twice, the first entry decides.
    pub subreddits: Vec<(String, SubredditConfig)>,
}

/// Hacker News settings.
#[derive(Debug, Default)]
pub struct HackerNewsConfig {
    pub homepage: String,
}

/// Settings of the scrape sources.
#[derive(Debug, Default)]
pub struct ScrapeConfig {
    pub hacker_news: HackerNewsConfig,
    pub reddit: RedditConfig,
}

/// Tag rules that do not depend on a source: a story whose URL has host `.0` gets tag `.1`.
#[derive(Debug, Default)]
pub struct TaggerConfig {
    pub host_tags: Vec<(String, String)>,
}

pub open spec fn strings_view(v: Seq<String>) -> Seq<Seq<char>> {
    v.map_values(|t: String| t@)
}

/// `s` with every occurrence of the non-empty pattern `pat` replaced by `rep`, scanning from
/// the left.
pub open spec fn replace_all(s: Seq<char>, pat: Seq<char>, rep: Seq<char>) -> Seq<char>
    decreases s.len(),
{
    if pat.len() == 0 || s.len() == 0 {
        s
    } else if starts_with(s, pat) {
        rep + replace_all(s.subrange(pat.len() as int, s.len() as int), pat, rep)
    } else {
        seq![s[0]] + replace_all(s.drop_first(), pat, rep)
    }
}

/// The names joined by `+`.
pub open spec fn join_plus(c: Seq<Seq<char>>) -> Seq<char>
    decreases c.len(),
{
    if c.len() == 0 {
        Seq::empty()
    } else if c.len() == 1 {
        c[0]
    } else {
        join_plus(c.drop_last()).push('+') + c.last()
    }
}

pub open spec fn placeholder() -> Seq<char> {
    seq!['$', '{', 's', 'u', 'b', 'r', 'e', 'd', 'd', 'i', 't', 's', '}']
}

pub open spec fn limit_suffix() -> Seq<char> {
    seq!['?', 'l', 'i', 'm', 'i', 't', '=']
}

/// The URL for one batch of subreddits: the API template with the batch joined into its
/// placeholder, and the item limit appended.
pub open spec fn batch_url(api: Seq<char>, limit: nat, batch: Seq<Seq<char>>) -> Seq<char> {
    replace_all(api, placeholder(), join_plus(batch)) + limit_suffix() + decimal(limit)
}

/// The URLs for subreddits `subs`, `size` of them per batch.
pub open spec fn batch_urls(api: Seq<char>, limit: nat, size: nat, subs: Seq<Seq<char>>) -> Seq<Seq<char>>
    decreases subs.len(),
{
    if subs.len() == 0 || size == 0 {
        Seq::empty()
    } else if subs.len() <= size {
        seq![batch_url(api, limit, subs)]
    } else {
        seq![batch_url(api, limit, subs.take(size as int))] + batch_urls(
            api,
            limit,
            size,
            subs.skip(size as int),
        )
    }
}

/// A source's configuration says what parts it has and where to fetch them from.
pub trait ScrapeConfigSource {
    spec fn spec_subsources(&self) -> Seq<Seq<char>>;

    spec fn spec_urls(&self, subsources: Seq<Seq<char>>) -> Seq<Seq<char>>;

    /// Whether the configuration can produce URLs.
    spec fn usable(&self) -> bool;

    fn subsources(&self) -> (r: Vec<String>)
        ensures
            strings_view(r@) == self.spec_subsources(),
    ;

    fn provide_urls(&self, subsources: Vec<String>) -> (r: Vec<String>)
        requires
            self.usable(),
        ensures
            strings_view(r@) == self.spec_urls(strings_view(subsources@)),
    ;
}

impl ScrapeConfigSource for HackerNewsConfig {
    open spec fn spec_subsources(&self) -> Seq<Seq<char>> {
        Seq::empty()
    }

    /// The home page, whatever subsources are asked for.
    open spec fn spec_urls(&self, subsources: Seq<Seq<char>>) -> Seq<Seq<char>> {
        seq![self.homepage@]
    }

    open spec fn usable(&self) -> bool {
        true
    }

    fn subsources(&self) -> (r: Vec<String>) {
        let r: Vec<String> = Vec::new();
        assert(strings_view(r@) =~= Seq::<Seq<char>>::empty());
        r
    }

    fn provide_urls(&self, subsources: Vec<String>) -> (r: Vec<String>) {
        let r = vec![self.homepage.clone()];
        assert(strings_view(r@) =~= seq![self.homepage@]);
        r
    }
}

fn replace_placeholder(api: &Vec<char>, rep: &Vec<char>) -> (r: String)
    ensures
        r@ == replace_all(api@, placeholder(), rep@),
{
    let pat = vec!['$', '{', 's', 'u', 'b', 'r', 'e', 'd', 'd', 'i', 't', 's', '}'];
    assert(pat@ =~= placeholder());
    let mut out = String::new();
    let mut i: usize = 0;
    assert(api@.subrange(0, api@.len() as int) =~= api@);
    while i < api.len()
        invariant
            i <= api@.len(),
            pat@ == placeholder(),
            out@ + replace_all(api@.subrange(i as int, api@.len() as int), placeholder(), rep@)
                == replace_all(api@, placeholder(), rep@),
        decreases api@.len() - i,
    {
        let ghost rest = api@.subrange(i as int, api@.len() as int);
        let ghost before = out@;
        if crate::url::has_prefix(api, i, api.len(), &pat) {
            push_range(&mut out, rep, 0, rep.len());
            assert(rep@.subrange(0, rep@.len() as int) =~= rep@);
            assert(rest.subrange(13, rest.len() as int) =~= api@.subrange(i + 13, api@.len() as int));
            i = i + 13;
            assert(out@ + replace_all(api@.subrange(i as int, api@.len() as int), placeholder(), rep@)
                =~= before + replace_all(rest, placeholder(), rep@));
        } else {
            push_char(&mut out, api[i]);
            assert(rest.drop_first() =~= api@.subrange(i + 1, api@.len() as int));
            i = i + 1;
            assert(out@ + replace_all(api@.subrange(i as int, api@.len() as int), placeholder(), rep@)
                =~= before + replace_all(rest, placeholder(), rep@));
        }
    }
    assert(replace_all(api@.subrange(i as int, api@.len() as int), placeholder(), rep@) =~= Seq::<char>::empty());
    assert(out@ + Seq::<char>::empty() =~= out@);
    out
}

impl RedditConfig {
    fn batch_url(&self, batch: &Vec<String>, from: usize, to: usize) -> (r: String)
        requires
            from <= to <= batch@.len(),
        ensures
            r@ == batch_url(self.api@, self.limit as nat, strings_view(batch@.subrange(from as int, to as int))),
    {
        let ghost names = strings_view(batch@.subrange(from as int, to as int));
        let mut joined: Vec<char> = Vec::new();
        let mut k = from;
        assert(names.subrange(0, 0) =~= Seq::<Seq<char>>::empty());
        while k < to
            invariant
                from <= k <= to <= batch@.len(),
                names == strings_view(batch@.subrange(from as int, to as int)),
                joined@ == join_plus(names.subrange(0, k - from)),
            decreases to - k,
        {
            let cs = chars_of(batch[k].as_str());
            let ghost before = joined@;
            if k > from {
                joined.push('+');
            }
            let mut m: usize = 0;
            while m < cs.len()
                invariant
                    m <= cs@.len(),
                    joined@ == (if k > from { before.push('+') } else { before }) + cs@.subrange(0, m as int),
                decreases cs@.len() - m,
            {
                joined.push(cs[m]);
                m = m + 1;
                assert(joined@ =~= (if k > from { before.push('+') } else { before }) + cs@.subrange(0, m as int));
            }
            assert(cs@.subrange(0, m as int) =~= cs@);
            let ghost sub = names.subrange(0, k + 1 - from);
            assert(sub.drop_last() =~= names.subrange(0, k - from));
            assert(sub.last() == batch@[k as int]@);
            if k > from {
                assert(joined@ =~= join_plus(sub));
            } else {
                assert(sub.len() == 1);
                assert(joined@ =~= join_plus(sub));
            }
            k = k + 1;
        }
        assert(names.subrange(0, to - from) =~= names);
        let api = chars_of(self.api.as_str());
        let mut url = replace_placeholder(&api, &joined);
        let suffix = vec!['?', 'l', 'i', 'm', 'i', 't', '='];
        assert(suffix@ =~= limit_suffix());
        push_range(&mut url, &suffix, 0, suffix.len());
        assert(suffix@.subrange(0, 7) =~= suffix@);
        push_decimal(&mut url, self.limit as u64);
        url
    }
}

impl ScrapeConfigSource for RedditConfig {
    open spec fn spec_subsources(&self) -> Seq<Seq<char>> {
        strings_view(self.subreddits@.map_values(|e: (String, SubredditConfig)| e.0))
    }

    /// One URL per batch of `subreddit_batch` subreddits.
    open spec fn spec_urls(&self, subsources: Seq<Seq<char>>) -> Seq<Seq<char>> {
        batch_urls(self.api@, self.limit as nat, self.subreddit_batch as nat, subsources)
    }

    /// Batches must hold at least one subreddit.
    open spec fn usable(&self) -> bool {
        self.subreddit_batch > 0
    }

    fn subsources(&self) -> (r: Vec<String>) {
        let mut r: Vec<String> = Vec::new();
        let mut i: usize = 0;
        while i < self.subreddits.len()
            invariant
                i <= self.subreddits@.len(),
                strings_view(r@) == self.spec_subsources().subrange(0, i as int),
            decreases self.subreddits@.len() - i,
        {
            let ghost before = strings_view(r@);
            r.push(self.subreddits[i].0.clone());
            assert(strings_view(r@) =~= before.push(self.subreddits@[i as int].0@));
            assert(self.spec_subsources()[i as int] == self.subreddits@[i as int].0@);
            i = i + 1;
            assert(strings_view(r@) =~= self.spec_subsources().subrange(0, i as int));
        }
        assert(self.spec_subsources().subrange(0, i as int) =~= self.spec_subsources());
        r
    }

    fn provide_urls(&self, subsources: Vec<String>) -> (r: Vec<String>) {
        let ghost all = strings_view(subsources@);
        let size = self.subreddit_batch;
        let mut out: Vec<String> = Vec::new();
        let mut i: usize = 0;
        assert(all.skip(0) =~= all);
        assert(strings_view(out@) + all =~= all);
        while i < subsources.len()
            invariant
                i <= subsources@.len(),
                size == self.subreddit_batch,
                size > 0,
                all == strings_view(subsources@),
                strings_view(out@) + batch_urls(self.api@, self.limit as nat, size as nat, all.skip(i as int))
                    == batch_urls(self.api@, self.limit as nat, size as nat, all),
            decreases subsources@.len() - i,
        {
            let ghost rest = all.skip(i as int);
            let end = if subsources.len() - i <= size { subsources.len() } else { i + size };
            let u = self.batch_url(&subsources, i, end);
            let ghost before = strings_view(out@);
            out.push(u);
            proof {
                assert(strings_view(out@) =~= before.push(u@));
                if subsources@.len() - i <= size {
                    assert(rest =~= strings_view(subsources@.subrange(i as int, end as int)));
                    assert(all.skip(end as int) =~= Seq::<Seq<char>>::empty());
                } else {
                    assert(rest.take(size as int) =~= strings_view(subsources@.subrange(i as int, end as int)));
                    assert(rest.skip(size as int) =~= all.skip(end as int));
                }
            }
            i = end;
        }
        assert(all.skip(i as int) =~= Seq::<Seq<char>>::empty());
        assert(strings_view(out@) + Seq::<Seq<char>>::empty() =~= strings_view(out@));
        out
    }
}

} // verus!
