//! Tags: lower-case labels derived from source metadata and configured rules.

use vstd::prelude::*;
use crate::scrapers::TypedScrape;
use crate::story::Story;
use crate::config::{RedditConfig, SubredditConfig, TaggerConfig};
use crate::text::{ascii_lower, chars_of, lowercase_of};

verus! {

/// The settings of the first subreddit entry named `name`.
pub open spec fn subreddit_rule(subs: Seq<(String, SubredditConfig)>, name: Seq<char>) -> Option<
    SubredditConfig,
>
    decreases subs.len(),
{
    if subs.len() == 0 {
        None
    } else if subs[0].0@ == name {
        Some(subs[0].1)
    } else {
        subreddit_rule(subs.drop_first(), name)
    }
}

/// The tags that one scrape gives: for a Reddit scrape of a configured subreddit, its flair
/// (when flair is a tag and there is one) and then its name (when the name is a tag).
pub open spec fn scrape_tags(subs: Seq<(String, SubredditConfig)>, x: TypedScrape) -> Seq<Seq<char>> {
    match x {
        TypedScrape::Reddit(r) => match subreddit_rule(subs, r.data.subreddit@) {
            Some(c) => (if c.flair_is_tag && r.data.flair@.len() > 0 {
                seq![ascii_lower(r.data.flair@)]
            } else {
                Seq::empty()
            }) + (if c.is_tag {
                seq![ascii_lower(r.data.subreddit@)]
            } else {
                Seq::empty()
            }),
            None => Seq::empty(),
        },
        _ => Seq::empty(),
    }
}

pub open spec fn scrapes_tags(subs: Seq<(String, SubredditConfig)>, s: Seq<TypedScrape>) -> Seq<Seq<char>>
    decreases s.len(),
{
    if s.len() == 0 {
        Seq::empty()
    } else {
        scrapes_tags(subs, s.drop_last()) + scrape_tags(subs, s.last())
    }
}

/// The tags of the host rules that match `host`, in rule order.
pub open spec fn host_tags(rules: Seq<(String, String)>, host: Seq<char>) -> Seq<Seq<char>>
    decreases rules.len(),
{
    if rules.len() == 0 {
        Seq::empty()
    } else {
        host_tags(rules.drop_last(), host) + if rules.last().0@ == host {
            seq![ascii_lower(rules.last().1@)]
        } else {
            Seq::empty()
        }
    }
}

/// `s` without repeats, each tag where it first occurs.
pub open spec fn dedup(s: Seq<Seq<char>>) -> Seq<Seq<char>>
    decreases s.len(),
{
    if s.len() == 0 {
        s
    } else {
        let d = dedup(s.drop_last());
        if d.contains(s.last()) {
            d
        } else {
            d.push(s.last())
        }
    }
}

pub open spec fn tag_views(v: Seq<String>) -> Seq<Seq<char>> {
    v.map_values(|t: String| t@)
}

/// The tags of a story: those of its scrapes in order, then those of the host rules that
/// match the host of its first scrape, without repeats.
pub open spec fn story_tags(
    subs: Seq<(String, SubredditConfig)>,
    rules: Seq<(String, String)>,
    s: Story,
) -> Seq<Seq<char>> {
    dedup(
        scrapes_tags(subs, s.scrapes@) + host_tags(rules, s.scrapes@[0].spec_core().url.host@),
    )
}

/// A set of tags without repeats, in the order they were added.
#[derive(Debug, Default)]
pub struct TagSet {
    pub tags: Vec<String>,
}

impl TagSet {
    pub open spec fn spec_tags(&self) -> Seq<Seq<char>> {
        tag_views(self.tags@)
    }

    pub fn new() -> (r: TagSet)
        ensures
            r.spec_tags() == Seq::<Seq<char>>::empty(),
    {
        let r = TagSet { tags: Vec::new() };
        assert(r.spec_tags() =~= Seq::<Seq<char>>::empty());
        r
    }

    pub fn contains(&self, t: &String) -> (r: bool)
        ensures
            r == self.spec_tags().contains(t@),
    {
        let mut i: usize = 0;
        while i < self.tags.len()
            invariant
                i <= self.tags@.len(),
                forall|j: int| 0 <= j < i ==> self.tags@[j]@ != t@,
            decreases self.tags@.len() - i,
        {
            if self.tags[i] == *t {
                assert(self.spec_tags()[i as int] == t@);
                return true;
            }
            i = i + 1;
        }
        proof {
            if self.spec_tags().contains(t@) {
                let j = choose|j: int| 0 <= j < self.spec_tags().len() && self.spec_tags()[j] == t@;
                assert(self.tags@[j]@ == t@);
            }
        }
        false
    }

    /// Adds `t` unless it is already there.
    pub fn add(&mut self, t: String)
        ensures
            final(self).spec_tags() == if old(self).spec_tags().contains(t@) {
                old(self).spec_tags()
            } else {
                old(self).spec_tags().push(t@)
            },
    {
        if !self.contains(&t) {
            let ghost before = self.tags@;
            self.tags.push(t);
            assert(tag_views(self.tags@) =~= tag_views(before).push(t@));
        }
    }
}

proof fn lemma_dedup_push(s: Seq<Seq<char>>, t: Seq<char>)
    ensures
        dedup(s.push(t)) == if dedup(s).contains(t) {
            dedup(s)
        } else {
            dedup(s).push(t)
        },
{
    assert(s.push(t).drop_last() =~= s);
}

/// Derives tags from source metadata and configured rules.
#[derive(Debug, Default)]
pub struct StoryTagger {
    pub reddit: RedditConfig,
    pub config: TaggerConfig,
}

fn lower_string(s: &String) -> (r: String)
    ensures
        r@ == ascii_lower(s@),
{
    let cs = chars_of(s.as_str());
    assert(cs@.subrange(0, cs@.len() as int) =~= cs@);
    lowercase_of(&cs, 0, cs.len())
}

impl StoryTagger {
    fn rule_for(&self, name: &String) -> (r: Option<SubredditConfig>)
        ensures
            r == subreddit_rule(self.reddit.subreddits@, name@),
    {
        let subs = &self.reddit.subreddits;
        let mut i: usize = 0;
        assert(subs@.subrange(0, subs@.len() as int) =~= subs@);
        while i < subs.len()
            invariant
                i <= subs@.len(),
                subs@ == self.reddit.subreddits@,
                subreddit_rule(subs@.subrange(i as int, subs@.len() as int), name@) == subreddit_rule(
                    subs@,
                    name@,
                ),
            decreases subs@.len() - i,
        {
            assert(subs@.subrange(i as int, subs@.len() as int).drop_first() =~= subs@.subrange(
                i + 1,
                subs@.len() as int,
            ));
            let entry = &subs[i];
            let same = entry.0 == *name;
            if same {
                let c = entry.1;
                assert(subs@.subrange(i as int, subs@.len() as int)[0] == subs@[i as int]);
                return Some(c);
            }
            i = i + 1;
        }
        None
    }

    fn add_all(tags: &mut TagSet, Ghost(extra): Ghost<Seq<Seq<char>>>, items: Vec<String>)
        requires
            items@.len() == extra.len(),
            forall|k: int| 0 <= k < extra.len() ==> (#[trigger] items@[k])@ == extra[k],
        ensures
            forall|base: Seq<Seq<char>>| old(tags).spec_tags() == dedup(base) ==> final(tags).spec_tags()
                == #[trigger] dedup(base + extra),
    {
        let ghost t0 = tags.spec_tags();
        let mut input = items;
        let ghost mut i: int = 0;
        while input.len() > 0
            invariant
                0 <= i <= extra.len(),
                input@.len() == extra.len() - i,
                forall|k: int| 0 <= k < input@.len() ==> (#[trigger] input@[k])@ == extra[i + k],
                forall|base: Seq<Seq<char>>| t0 == dedup(base) ==> tags.spec_tags()
                    == #[trigger] dedup(base + extra.subrange(0, i)),
            decreases input@.len(),
        {
            let t = input.remove(0);
            assert(t@ == extra[i]);
            tags.add(t);
            proof {
                assert forall|base: Seq<Seq<char>>| t0 == dedup(base) implies tags.spec_tags()
                    == #[trigger] dedup(base + extra.subrange(0, i + 1)) by {
                    assert(base + extra.subrange(0, i + 1) =~= (base + extra.subrange(0, i)).push(extra[i]));
                    lemma_dedup_push(base + extra.subrange(0, i), extra[i]);
                }
                i = i + 1;
            }
        }
        assert(extra.subrange(0, i) =~= extra);
    }

    fn tags_of_scrape(&self, x: &TypedScrape) -> (r: Vec<String>)
        ensures
            r@.len() == scrape_tags(self.reddit.subreddits@, *x).len(),
            forall|k: int| 0 <= k < r@.len() ==> (#[trigger] r@[k])@ == scrape_tags(self.reddit.subreddits@, *x)[k],
    {
        let mut out: Vec<String> = Vec::new();
        match x {
            TypedScrape::Reddit(r) => match self.rule_for(&r.data.subreddit) {
                Some(c) => {
                    if c.flair_is_tag && !r.data.flair.as_str().is_empty() {
                        out.push(lower_string(&r.data.flair));
                    }
                    if c.is_tag {
                        out.push(lower_string(&r.data.subreddit));
                    }
                },
                None => {},
            },
            _ => {},
        }
        out
    }

    /// The tags of `story`: those of its scrapes, then those of the host rules, without repeats.
    pub fn tag(&self, story: &Story) -> (r: TagSet)
        requires
            story.scrapes@.len() > 0,
        ensures
            r.spec_tags() == story_tags(self.reddit.subreddits@, self.config.host_tags@, *story),
    {
        let ghost subs = self.reddit.subreddits@;
        let ghost rules = self.config.host_tags@;
        let mut tags = TagSet::new();
        let ghost mut acc: Seq<Seq<char>> = Seq::empty();
        assert(dedup(Seq::<Seq<char>>::empty()) == Seq::<Seq<char>>::empty());
        let mut i: usize = 0;
        while i < story.scrapes.len()
            invariant
                i <= story.scrapes@.len(),
                subs == self.reddit.subreddits@,
                tags.spec_tags() == dedup(scrapes_tags(subs, story.scrapes@.subrange(0, i as int))),
            decreases story.scrapes@.len() - i,
        {
            let extra = self.tags_of_scrape(&story.scrapes[i]);
            let ghost e = scrape_tags(subs, story.scrapes@[i as int]);
            let ghost base = scrapes_tags(subs, story.scrapes@.subrange(0, i as int));
            StoryTagger::add_all(&mut tags, Ghost(e), extra);
            proof {
                assert(story.scrapes@.subrange(0, i + 1).drop_last() =~= story.scrapes@.subrange(0, i as int));
                assert(dedup(base + e) == tags.spec_tags());
            }
            i = i + 1;
        }
        assert(story.scrapes@.subrange(0, i as int) =~= story.scrapes@);
        let host = &story.scrapes[0].shared().url.host;
        let mut j: usize = 0;
        let ghost front = scrapes_tags(subs, story.scrapes@);
        while j < self.config.host_tags.len()
            invariant
                j <= rules.len(),
                rules == self.config.host_tags@,
                tags.spec_tags() == dedup(front + host_tags(rules.subrange(0, j as int), host@)),
            decreases rules.len() - j,
        {
            let ghost before = host_tags(rules.subrange(0, j as int), host@);
            assert(rules.subrange(0, j + 1).drop_last() =~= rules.subrange(0, j as int));
            if self.config.host_tags[j].0 == *host {
                let t = lower_string(&self.config.host_tags[j].1);
                let ghost tv = t@;
                tags.add(t);
                proof {
                    assert(front + before.push(tv) =~= (front + before).push(tv));
                    lemma_dedup_push(front + before, tv);
                    assert(host_tags(rules.subrange(0, j + 1), host@) =~= before + seq![tv]);
                    assert(before + seq![tv] =~= before.push(tv));
                }
            } else {
                assert(host_tags(rules.subrange(0, j + 1), host@) =~= before);
            }
            j = j + 1;
        }
        assert(rules.subrange(0, j as int) =~= rules);
        tags
    }
}

} // verus!
