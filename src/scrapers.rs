//! Scrapes: one source's observation of a story, with per-source data and merge rules.

use vstd::prelude::*;
use crate::date::StoryDate;
use crate::text::{chars_equal, chars_of, push_all, push_char, string_of};
use crate::url::{find_char, lemma_find_char_at, scan_char, StoryUrl};

verus! {

/// The sources that stories are scraped from.
#[derive(Clone, Copy, Debug, PartialEq, Eq, Structural, Hash, PartialOrd, Ord)]
pub enum ScrapeSource {
    HackerNews,
    Reddit,
    Lobsters,
    Slashdot,
    Other,
}

pub open spec fn source_name(s: ScrapeSource) -> Seq<char> {
    match s {
        ScrapeSource::HackerNews => seq!['h', 'a', 'c', 'k', 'e', 'r', 'n', 'e', 'w', 's'],
        ScrapeSource::Reddit => seq!['r', 'e', 'd', 'd', 'i', 't'],
        ScrapeSource::Lobsters => seq!['l', 'o', 'b', 's', 't', 'e', 'r', 's'],
        ScrapeSource::Slashdot => seq!['s', 'l', 'a', 's', 'h', 'd', 'o', 't'],
        ScrapeSource::Other => seq!['o', 't', 'h', 'e', 'r'],
    }
}

pub open spec fn source_of_name(n: Seq<char>) -> Option<ScrapeSource> {
    if n == source_name(ScrapeSource::HackerNews) {
        Some(ScrapeSource::HackerNews)
    } else if n == source_name(ScrapeSource::Reddit) {
        Some(ScrapeSource::Reddit)
    } else if n == source_name(ScrapeSource::Lobsters) {
        Some(ScrapeSource::Lobsters)
    } else if n == source_name(ScrapeSource::Slashdot) {
        Some(ScrapeSource::Slashdot)
    } else if n == source_name(ScrapeSource::Other) {
        Some(ScrapeSource::Other)
    } else {
        None
    }
}

impl ScrapeSource {
    /// The token that stands for this source in a scrape key.
    pub fn name(&self) -> (r: String)
        ensures
            r@ == source_name(*self),
    {
        let mut s = String::new();
        let cs = match self {
            ScrapeSource::HackerNews => vec!['h', 'a', 'c', 'k', 'e', 'r', 'n', 'e', 'w', 's'],
            ScrapeSource::Reddit => vec!['r', 'e', 'd', 'd', 'i', 't'],
            ScrapeSource::Lobsters => vec!['l', 'o', 'b', 's', 't', 'e', 'r', 's'],
            ScrapeSource::Slashdot => vec!['s', 'l', 'a', 's', 'h', 'd', 'o', 't'],
            ScrapeSource::Other => vec!['o', 't', 'h', 'e', 'r'],
        };
        let mut i: usize = 0;
        while i < cs.len()
            invariant
                i <= cs@.len(),
                s@ == cs@.subrange(0, i as int),
            decreases cs@.len() - i,
        {
            push_char(&mut s, cs[i]);
            i = i + 1;
            assert(s@ =~= cs@.subrange(0, i as int));
        }
        assert(s@ =~= source_name(*self));
        s
    }
}


fn source_from_name(a: &Vec<char>, from: usize, to: usize) -> (r: Option<ScrapeSource>)
    requires
        from <= to <= a@.len(),
    ensures
        r == source_of_name(a@.subrange(from as int, to as int)),
{
    let hn = vec!['h', 'a', 'c', 'k', 'e', 'r', 'n', 'e', 'w', 's'];
    let rd = vec!['r', 'e', 'd', 'd', 'i', 't'];
    let lb = vec!['l', 'o', 'b', 's', 't', 'e', 'r', 's'];
    let sd = vec!['s', 'l', 'a', 's', 'h', 'd', 'o', 't'];
    let ot = vec!['o', 't', 'h', 'e', 'r'];
    assert(hn@ =~= source_name(ScrapeSource::HackerNews));
    assert(rd@ =~= source_name(ScrapeSource::Reddit));
    assert(lb@ =~= source_name(ScrapeSource::Lobsters));
    assert(sd@ =~= source_name(ScrapeSource::Slashdot));
    assert(ot@ =~= source_name(ScrapeSource::Other));
    if chars_equal(a, from, to, &hn) {
        Some(ScrapeSource::HackerNews)
    } else if chars_equal(a, from, to, &rd) {
        Some(ScrapeSource::Reddit)
    } else if chars_equal(a, from, to, &lb) {
        Some(ScrapeSource::Lobsters)
    } else if chars_equal(a, from, to, &sd) {
        Some(ScrapeSource::Slashdot)
    } else if chars_equal(a, from, to, &ot) {
        Some(ScrapeSource::Other)
    } else {
        None
    }
}

pub open spec fn opt_view(o: Option<String>) -> Option<Seq<char>> {
    match o {
        Some(s) => Some(s@),
        None => None,
    }
}

/// What identifies a scrape: its source, the part of the source (a subreddit) and the
/// source's own id.
pub type ScrapeKey = (ScrapeSource, Option<Seq<char>>, Seq<char>);

/// Identifies a scrape by source and id.
#[derive(Debug)]
pub struct ScrapeId {
    pub source: ScrapeSource,
    pub subsource: Option<String>,
    pub id: String,
}

impl Clone for ScrapeId {
    fn clone(&self) -> (r: Self)
        ensures
            r == *self,
    {
        let subsource = match &self.subsource {
            Some(s) => Some(s.clone()),
            None => None,
        };
        ScrapeId { source: self.source, subsource, id: self.id.clone() }
    }
}

/// Why a scrape key could not be read.
#[derive(Clone, Copy, Debug, PartialEq, Eq, Structural)]
pub enum ScrapeIdError {
    /// No `-` separates the source from the rest.
    InvalidFormat,
    /// The source token is not one of the known sources.
    InvalidSource,
}

/// The key text of a scrape id: `<source>-<subsource>-<id>` or `<source>-<id>`.
pub open spec fn key_text(k: ScrapeKey) -> Seq<char> {
    match k.1 {
        Some(sub) => source_name(k.0).push('-') + sub.push('-') + k.2,
        None => source_name(k.0).push('-') + k.2,
    }
}

/// What reading key text `s` gives: the source is up to the first `-`, and a second `-`
/// separates the subsource from the id.
pub open spec fn parse_key_text(s: Seq<char>) -> Result<ScrapeKey, ScrapeIdError> {
    let i = find_char(s, 0, '-');
    if i >= s.len() {
        Err(ScrapeIdError::InvalidFormat)
    } else {
        match source_of_name(s.subrange(0, i)) {
            None => Err(ScrapeIdError::InvalidSource),
            Some(src) => {
                let j = find_char(s, i + 1, '-');
                if j < s.len() {
                    Ok((src, Some(s.subrange(i + 1, j)), s.subrange(j + 1, s.len() as int)))
                } else {
                    Ok((src, None, s.subrange(i + 1, s.len() as int)))
                }
            },
        }
    }
}

/// Reading the key text of an id gives the id back, when the separator `-` occurs neither in
/// the subsource nor, for an id without subsource, in the id.
pub proof fn lemma_key_round_trip(k: ScrapeKey)
    requires
        match k.1 {
            Some(sub) => !sub.contains('-'),
            None => !k.2.contains('-'),
        },
    ensures
        parse_key_text(key_text(k)) == Ok::<ScrapeKey, ScrapeIdError>(k),
{
    let n = source_name(k.0);
    let m: int = n.len() as int;
    assert(!n.contains('-')) by {
        if n.contains('-') {
            let i = choose|i: int| 0 <= i < n.len() && n[i] == '-';
            assert(n[i] != '-');
        }
    }
    assert(source_of_name(n) == Some(k.0));
    let s = key_text(k);
    assert forall|j: int| 0 <= j < m implies s[j] != '-' by {
        assert(s[j] == n[j]);
        assert(n.contains(n[j]));
    }
    lemma_find_char_at(s, 0, m, '-');
    assert(s.subrange(0, m) =~= n);
    match k.1 {
        Some(sub) => {
            let i2 = m + 1 + sub.len();
            assert forall|j: int| m + 1 <= j < i2 implies s[j] != '-' by {
                assert(s[j] == sub[j - m - 1]);
                assert(sub.contains(sub[j - m - 1]));
            }
            lemma_find_char_at(s, m + 1, i2, '-');
            assert(s.subrange(m + 1, i2) =~= sub);
            assert(s.subrange(i2 + 1, s.len() as int) =~= k.2);
        },
        None => {
            assert forall|j: int| m + 1 <= j < s.len() implies s[j] != '-' by {
                assert(s[j] == k.2[j - m - 1]);
                assert(k.2.contains(k.2[j - m - 1]));
            }
            lemma_find_char_absent(s, m + 1, '-');
            assert(s.subrange(m + 1, s.len() as int) =~= k.2);
        },
    }
}

proof fn lemma_find_char_absent(s: Seq<char>, from: int, c: char)
    requires
        0 <= from <= s.len(),
        forall|k: int| from <= k < s.len() ==> s[k] != c,
    ensures
        find_char(s, from, c) == s.len(),
    decreases s.len() - from,
{
    if from < s.len() {
        lemma_find_char_absent(s, from + 1, c);
    }
}

impl ScrapeId {
    pub open spec fn key(&self) -> ScrapeKey {
        (self.source, opt_view(self.subsource), self.id@)
    }

    pub fn new(source: ScrapeSource, subsource: Option<String>, id: String) -> (r: ScrapeId)
        ensures
            r.source == source,
            r.subsource == subsource,
            r.id == id,
    {
        ScrapeId { source, subsource, id }
    }

    /// Whether two ids name the same scrape.
    pub fn same_as(&self, other: &ScrapeId) -> (r: bool)
        ensures
            r == (self.key() == other.key()),
    {
        if self.source != other.source {
            return false;
        }
        let same_id = self.id == other.id;
        if !same_id {
            return false;
        }
        match &self.subsource {
            Some(a) => match &other.subsource {
                Some(b) => *a == *b,
                None => false,
            },
            None => other.subsource.is_none(),
        }
    }

    /// The key text of this id, as it is exposed outside the library.
    pub fn to_key(&self) -> (r: String)
        ensures
            r@ == key_text(self.key()),
    {
        let mut s = self.source.name();
        push_char(&mut s, '-');
        match &self.subsource {
            Some(sub) => {
                push_all(&mut s, sub.as_str());
                push_char(&mut s, '-');
                assert(s@ =~= source_name(self.source).push('-') + sub@.push('-'));
            },
            None => {},
        }
        push_all(&mut s, self.id.as_str());
        assert(s@ =~= key_text(self.key()));
        s
    }

    /// Reads key text back into an id.
    pub fn from_key(s: &str) -> (r: Result<ScrapeId, ScrapeIdError>)
        ensures
            match parse_key_text(s@) {
                Ok(k) => r is Ok && r->Ok_0.key() == k,
                Err(e) => r == Err::<ScrapeId, ScrapeIdError>(e),
            },
    {
        let cs = chars_of(s);
        let i = scan_char(&cs, 0, '-');
        if i == cs.len() {
            return Err(ScrapeIdError::InvalidFormat);
        }
        let source = match source_from_name(&cs, 0, i) {
            Some(src) => src,
            None => {
                return Err(ScrapeIdError::InvalidSource);
            },
        };
        let j = scan_char(&cs, i + 1, '-');
        if j < cs.len() {
            let sub = string_of(&cs, i + 1, j);
            let id = string_of(&cs, j + 1, cs.len());
            Ok(ScrapeId { source, subsource: Some(sub), id })
        } else {
            let id = string_of(&cs, i + 1, cs.len());
            Ok(ScrapeId { source, subsource: None, id })
        }
    }
}


pub open spec fn max_u32(a: u32, b: u32) -> u32 {
    if a >= b {
        a
    } else {
        b
    }
}

fn larger(a: u32, b: u32) -> (r: u32)
    ensures
        r == max_u32(a, b),
{
    if a >= b {
        a
    } else {
        b
    }
}

/// The data that one source adds to a scrape, and how two observations of it combine.
pub trait ScrapeStory: Sized {
    /// The source that this data comes from.
    spec fn spec_source() -> ScrapeSource;

    /// The data after merging a newer observation `other` into `self`.
    spec fn merged(self, other: Self) -> Self;

    fn source() -> (r: ScrapeSource)
        ensures
            r == Self::spec_source(),
    ;

    fn merge(&mut self, other: Self)
        ensures
            *final(self) == old(self).merged(other),
    ;

    fn copy_data(&self) -> (r: Self)
        ensures
            r == *self,
    ;

    /// Merging data with an identical copy of itself changes nothing.
    proof fn lemma_merge_same(self)
        ensures
            self.merged(self) == self,
    ;
}

/// Hacker News data: points, comment count and front-page position.
#[derive(Debug, Default)]
pub struct HackerNewsStory {
    pub points: u32,
    pub comments: u32,
    pub position: u32,
}

impl Clone for HackerNewsStory {
    fn clone(&self) -> (r: Self)
        ensures
            r == *self,
    {
        HackerNewsStory { points: self.points, comments: self.comments, position: self.position }
    }
}

impl ScrapeStory for HackerNewsStory {
    open spec fn spec_source() -> ScrapeSource {
        ScrapeSource::HackerNews
    }

    /// Counters take the larger value; the position stays.
    open spec fn merged(self, other: Self) -> Self {
        HackerNewsStory {
            points: max_u32(self.points, other.points),
            comments: max_u32(self.comments, other.comments),
            position: self.position,
        }
    }

    fn source() -> (r: ScrapeSource) {
        ScrapeSource::HackerNews
    }

    fn merge(&mut self, other: Self) {
        self.points = larger(self.points, other.points);
        self.comments = larger(self.comments, other.comments);
    }

    fn copy_data(&self) -> (r: Self) {
        self.clone()
    }

    proof fn lemma_merge_same(self) {
    }
}

/// Reddit data. The upvote ratio is held in thousandths.
#[derive(Debug, Default)]
pub struct RedditStory {
    pub subreddit: String,
    pub flair: String,
    pub position: u32,
    pub upvotes: u32,
    pub downvotes: u32,
    pub num_comments: u32,
    pub score: u32,
    pub upvote_ratio_thousandths: u32,
}

impl Clone for RedditStory {
    fn clone(&self) -> (r: Self)
        ensures
            r == *self,
    {
        RedditStory {
            subreddit: self.subreddit.clone(),
            flair: self.flair.clone(),
            position: self.position,
            upvotes: self.upvotes,
            downvotes: self.downvotes,
            num_comments: self.num_comments,
            score: self.score,
            upvote_ratio_thousandths: self.upvote_ratio_thousandths,
        }
    }
}

impl ScrapeStory for RedditStory {
    open spec fn spec_source() -> ScrapeSource {
        ScrapeSource::Reddit
    }

    /// The flair is replaced by the newer one; counters, position and ratio take the larger
    /// value.
    open spec fn merged(self, other: Self) -> Self {
        RedditStory {
            subreddit: self.subreddit,
            flair: other.flair,
            position: max_u32(self.position, other.position),
            upvotes: max_u32(self.upvotes, other.upvotes),
            downvotes: max_u32(self.downvotes, other.downvotes),
            num_comments: max_u32(self.num_comments, other.num_comments),
            score: max_u32(self.score, other.score),
            upvote_ratio_thousandths: max_u32(
                self.upvote_ratio_thousandths,
                other.upvote_ratio_thousandths,
            ),
        }
    }

    fn source() -> (r: ScrapeSource) {
        ScrapeSource::Reddit
    }

    fn merge(&mut self, other: Self) {
        self.flair = other.flair;
        self.position = larger(self.position, other.position);
        self.upvotes = larger(self.upvotes, other.upvotes);
        self.downvotes = larger(self.downvotes, other.downvotes);
        self.num_comments = larger(self.num_comments, other.num_comments);
        self.score = larger(self.score, other.score);
        self.upvote_ratio_thousandths = larger(
            self.upvote_ratio_thousandths,
            other.upvote_ratio_thousandths,
        );
    }

    fn copy_data(&self) -> (r: Self) {
        self.clone()
    }

    proof fn lemma_merge_same(self) {
    }
}

/// Lobsters data.
#[derive(Debug, Default, Clone, Copy, PartialEq, Eq, Structural)]
pub struct LobstersStory {
    pub num_comments: u32,
    pub position: u32,
    pub score: u32,
}

impl ScrapeStory for LobstersStory {
    open spec fn spec_source() -> ScrapeSource {
        ScrapeSource::Lobsters
    }

    /// Counters and position take the larger value.
    open spec fn merged(self, other: Self) -> Self {
        LobstersStory {
            num_comments: max_u32(self.num_comments, other.num_comments),
            position: max_u32(self.position, other.position),
            score: max_u32(self.score, other.score),
        }
    }

    fn source() -> (r: ScrapeSource) {
        ScrapeSource::Lobsters
    }

    fn merge(&mut self, other: Self) {
        self.num_comments = larger(self.num_comments, other.num_comments);
        self.position = larger(self.position, other.position);
        self.score = larger(self.score, other.score);
    }

    fn copy_data(&self) -> (r: Self) {
        LobstersStory { num_comments: self.num_comments, position: self.position, score: self.score }
    }

    proof fn lemma_merge_same(self) {
    }
}

/// Slashdot data.
#[derive(Debug, Default, Clone, Copy, PartialEq, Eq, Structural)]
pub struct SlashdotStory {
    pub num_comments: u32,
}

impl ScrapeStory for SlashdotStory {
    open spec fn spec_source() -> ScrapeSource {
        ScrapeSource::Slashdot
    }

    /// The comment count takes the larger value.
    open spec fn merged(self, other: Self) -> Self {
        SlashdotStory { num_comments: max_u32(self.num_comments, other.num_comments) }
    }

    fn source() -> (r: ScrapeSource) {
        ScrapeSource::Slashdot
    }

    fn merge(&mut self, other: Self) {
        self.num_comments = larger(self.num_comments, other.num_comments);
    }

    fn copy_data(&self) -> (r: Self) {
        SlashdotStory { num_comments: self.num_comments }
    }

    proof fn lemma_merge_same(self) {
    }
}

/// The fields that every scrape has.
#[derive(Debug)]
pub struct ScrapeCore {
    pub source: ScrapeId,
    pub title: String,
    pub url: StoryUrl,
    pub date: StoryDate,
}

impl Clone for ScrapeCore {
    fn clone(&self) -> (r: Self)
        ensures
            r == *self,
    {
        ScrapeCore {
            source: self.source.clone(),
            title: self.title.clone(),
            url: self.url.clone(),
            date: self.date,
        }
    }
}

/// One source's observation of a story: the shared fields and the source's own data.
#[derive(Debug)]
pub struct Scrape<T> {
    pub core: ScrapeCore,
    pub data: T,
}

impl<T: ScrapeStory> Clone for Scrape<T> {
    fn clone(&self) -> (r: Self)
        ensures
            r == *self,
    {
        Scrape { core: self.core.clone(), data: self.data.copy_data() }
    }
}

impl<T: ScrapeStory> Scrape<T> {
    /// Title and URL come from the newer scrape, the date is the earlier one, and the data
    /// merges by the source's rules.
    pub open spec fn merged(self, other: Self) -> Self {
        Scrape {
            core: ScrapeCore {
                source: self.core.source,
                title: other.core.title,
                url: other.core.url,
                date: StoryDate::spec_earliest(self.core.date, other.core.date),
            },
            data: self.data.merged(other.data),
        }
    }

    pub fn new(id: String, title: String, url: StoryUrl, date: StoryDate, data: T) -> (r: Self)
        ensures
            r.core.source.source == T::spec_source(),
            r.core.source.subsource is None,
            r.core.source.id == id,
            r.core.title == title,
            r.core.url == url,
            r.core.date == date,
            r.data == data,
    {
        Scrape {
            core: ScrapeCore { source: ScrapeId::new(T::source(), None, id), title, url, date },
            data,
        }
    }

    pub fn new_subsource(
        id: String,
        subsource: String,
        title: String,
        url: StoryUrl,
        date: StoryDate,
        data: T,
    ) -> (r: Self)
        ensures
            r.core.source.source == T::spec_source(),
            r.core.source.subsource == Some(subsource),
            r.core.source.id == id,
            r.core.title == title,
            r.core.url == url,
            r.core.date == date,
            r.data == data,
    {
        Scrape {
            core: ScrapeCore {
                source: ScrapeId::new(T::source(), Some(subsource), id),
                title,
                url,
                date,
            },
            data,
        }
    }

    pub fn merge(&mut self, other: Self)
        ensures
            *final(self) == old(self).merged(other),
    {
        let Scrape { core, data } = other;
        self.core.date = StoryDate::earliest(self.core.date, core.date);
        self.core.title = core.title;
        self.core.url = core.url;
        self.data.merge(data);
    }

    /// Merging a scrape with an identical copy of itself changes nothing.
    pub proof fn lemma_merge_same(self)
        ensures
            self.merged(self) == self,
    {
        self.data.lemma_merge_same();
    }
}

/// A scrape from any of the known sources.
#[derive(Debug)]
pub enum TypedScrape {
    HackerNews(Scrape<HackerNewsStory>),
    Reddit(Scrape<RedditStory>),
    Lobsters(Scrape<LobstersStory>),
    Slashdot(Scrape<SlashdotStory>),
}

impl Clone for TypedScrape {
    fn clone(&self) -> (r: Self)
        ensures
            r == *self,
    {
        match self {
            TypedScrape::HackerNews(x) => TypedScrape::HackerNews(x.clone()),
            TypedScrape::Reddit(x) => TypedScrape::Reddit(x.clone()),
            TypedScrape::Lobsters(x) => TypedScrape::Lobsters(x.clone()),
            TypedScrape::Slashdot(x) => TypedScrape::Slashdot(x.clone()),
        }
    }
}

impl TypedScrape {
    pub open spec fn spec_core(self) -> ScrapeCore {
        match self {
            TypedScrape::HackerNews(x) => x.core,
            TypedScrape::Reddit(x) => x.core,
            TypedScrape::Lobsters(x) => x.core,
            TypedScrape::Slashdot(x) => x.core,
        }
    }

    /// The source that the variant stands for.
    pub open spec fn variant_source(self) -> ScrapeSource {
        match self {
            TypedScrape::HackerNews(_) => ScrapeSource::HackerNews,
            TypedScrape::Reddit(_) => ScrapeSource::Reddit,
            TypedScrape::Lobsters(_) => ScrapeSource::Lobsters,
            TypedScrape::Slashdot(_) => ScrapeSource::Slashdot,
        }
    }

    /// The scrape's id names the source of its variant, and its URL is a parsed one.
    pub open spec fn wf(self) -> bool {
        &&& self.spec_core().source.source == self.variant_source()
        &&& self.spec_core().url.wf()
    }

    pub open spec fn spec_key(self) -> ScrapeKey {
        self.spec_core().source.key()
    }

    pub open spec fn spec_date(self) -> StoryDate {
        self.spec_core().date
    }

    /// Two scrapes of the same variant merge; others do not.
    pub open spec fn compatible(self, b: TypedScrape) -> bool {
        self.variant_source() == b.variant_source()
    }

    /// The scrape after merging `b` into it; a scrape of another source leaves it as it is.
    pub open spec fn merged(self, b: TypedScrape) -> TypedScrape {
        match (self, b) {
            (TypedScrape::HackerNews(x), TypedScrape::HackerNews(y)) => TypedScrape::HackerNews(x.merged(y)),
            (TypedScrape::Reddit(x), TypedScrape::Reddit(y)) => TypedScrape::Reddit(x.merged(y)),
            (TypedScrape::Lobsters(x), TypedScrape::Lobsters(y)) => TypedScrape::Lobsters(x.merged(y)),
            (TypedScrape::Slashdot(x), TypedScrape::Slashdot(y)) => TypedScrape::Slashdot(x.merged(y)),
            _ => self,
        }
    }

    /// The engagement counters of the scrape: points and comments for Hacker News; upvotes,
    /// downvotes, comments and score for Reddit; comments and score for Lobsters; comments
    /// for Slashdot.
    pub open spec fn counters(self) -> Seq<u32> {
        match self {
            TypedScrape::HackerNews(x) => seq![x.data.points, x.data.comments],
            TypedScrape::Reddit(x) => seq![
                x.data.upvotes,
                x.data.downvotes,
                x.data.num_comments,
                x.data.score,
            ],
            TypedScrape::Lobsters(x) => seq![x.data.num_comments, x.data.score],
            TypedScrape::Slashdot(x) => seq![x.data.num_comments],
        }
    }

    /// How much attention the scrape received: the sum of its points or score and its
    /// comment count.
    pub open spec fn spec_engagement(self) -> int {
        match self {
            TypedScrape::HackerNews(x) => x.data.points + x.data.comments,
            TypedScrape::Reddit(x) => x.data.score + x.data.num_comments,
            TypedScrape::Lobsters(x) => x.data.score + x.data.num_comments,
            TypedScrape::Slashdot(x) => x.data.num_comments as int,
        }
    }

    pub fn shared(&self) -> (r: &ScrapeCore)
        ensures
            *r == self.spec_core(),
    {
        match self {
            TypedScrape::HackerNews(x) => &x.core,
            TypedScrape::Reddit(x) => &x.core,
            TypedScrape::Lobsters(x) => &x.core,
            TypedScrape::Slashdot(x) => &x.core,
        }
    }

    pub fn engagement(&self) -> (r: u64)
        ensures
            r == self.spec_engagement(),
    {
        match self {
            TypedScrape::HackerNews(x) => x.data.points as u64 + x.data.comments as u64,
            TypedScrape::Reddit(x) => x.data.score as u64 + x.data.num_comments as u64,
            TypedScrape::Lobsters(x) => x.data.score as u64 + x.data.num_comments as u64,
            TypedScrape::Slashdot(x) => x.data.num_comments as u64,
        }
    }

    /// Merges `b` into this scrape when both come from the same source, and reports whether
    /// it did. A scrape of another source is refused and changes nothing.
    pub fn merge(&mut self, b: TypedScrape) -> (r: bool)
        ensures
            r == old(self).compatible(b),
            *final(self) == old(self).merged(b),
    {
        match (self, b) {
            (TypedScrape::HackerNews(x), TypedScrape::HackerNews(y)) => {
                x.merge(y);
                true
            },
            (TypedScrape::Reddit(x), TypedScrape::Reddit(y)) => {
                x.merge(y);
                true
            },
            (TypedScrape::Lobsters(x), TypedScrape::Lobsters(y)) => {
                x.merge(y);
                true
            },
            (TypedScrape::Slashdot(x), TypedScrape::Slashdot(y)) => {
                x.merge(y);
                true
            },
            _ => false,
        }
    }
}

/// Merging a scrape with an identical copy of itself changes nothing.
pub proof fn lemma_scrape_merge_idempotent(a: TypedScrape)
    ensures
        a.merged(a) == a,
{
    match a {
        TypedScrape::HackerNews(x) => x.lemma_merge_same(),
        TypedScrape::Reddit(x) => x.lemma_merge_same(),
        TypedScrape::Lobsters(x) => x.lemma_merge_same(),
        TypedScrape::Slashdot(x) => x.lemma_merge_same(),
    }
}

/// After merging two observations of the same source's scrape, each engagement counter is
/// at least the larger of the two, and the date is at most the earlier of the two.
pub proof fn lemma_merge_counters(a: TypedScrape, b: TypedScrape)
    requires
        a.compatible(b),
    ensures
        a.merged(b).counters().len() == a.counters().len(),
        a.counters().len() == b.counters().len(),
        forall|i: int|
            0 <= i < a.counters().len() ==> #[trigger] a.merged(b).counters()[i] >= a.counters()[i]
                && a.merged(b).counters()[i] >= b.counters()[i],
        a.merged(b).spec_date().spec_seconds() <= a.spec_date().spec_seconds(),
        a.merged(b).spec_date().spec_seconds() <= b.spec_date().spec_seconds(),
        a.merged(b).wf() <== a.wf() && b.wf(),
{
}

} // verus!
