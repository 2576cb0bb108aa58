//! Collections of stories keyed by identifier, and the in-memory index for bulk loading.

use vstd::prelude::*;
use crate::date::StoryDate;
use crate::scrapers::TypedScrape;
use crate::scrapers::ScrapeKey;
use crate::story::{
    date_bucket, earliest_date, has_key, lemma_merge_all_facts, lemma_merge_has_key, merge_all,
    merge_scrapes, views, IdentKey, Story, StoryView,
};

verus! {

/// The identifier that a scrape gives: its calendar day and normalized URL.
pub open spec fn scrape_ident(x: TypedScrape) -> IdentKey {
    (date_bucket(x.spec_date()), x.spec_core().url.norm.norm@)
}

/// Every story is well formed, no two share an identifier, and no scrape key is held by two
/// stories.
pub open spec fn stories_wf(s: Seq<Story>) -> bool {
    &&& forall|i: int| 0 <= i < s.len() ==> (#[trigger] s[i]).wf()
    &&& forall|i: int, j: int|
        0 <= i < s.len() && 0 <= j < s.len() && i != j ==> (#[trigger] s[i]).id.key() != (
        #[trigger] s[j]).id.key()
    &&& keys_disjoint(s)
}

/// No scrape key is held by two of the stories.
pub open spec fn keys_disjoint(s: Seq<Story>) -> bool {
    forall|i: int, j: int, k: ScrapeKey|
        0 <= i < s.len() && 0 <= j < s.len() && i != j && #[trigger] has_key(s[i].scrapes@, k)
            ==> !#[trigger] has_key(s[j].scrapes@, k)
}

/// Index of the first story at or after `i` with identifier `k`, or -1.
pub open spec fn ident_index(v: Seq<StoryView>, k: IdentKey, i: int) -> int
    decreases v.len() - i,
{
    if i >= v.len() || i < 0 {
        -1
    } else if v[i].0 == k {
        i
    } else {
        ident_index(v, k, i + 1)
    }
}

/// Index of the first story at or after `i` that holds a scrape with key `k`, or -1.
pub open spec fn key_story(v: Seq<StoryView>, k: ScrapeKey, i: int) -> int
    decreases v.len() - i,
{
    if i >= v.len() || i < 0 {
        -1
    } else if has_key(v[i].1, k) {
        i
    } else {
        key_story(v, k, i + 1)
    }
}

/// Adds a story with identifier `k` and scrapes `s`: they are merged into the story with that
/// identifier, or the story is added at the end.
pub open spec fn place(v: Seq<StoryView>, k: IdentKey, s: Seq<TypedScrape>) -> Seq<StoryView> {
    let j = ident_index(v, k, 0);
    if 0 <= j < v.len() {
        v.update(j, (k, merge_all(v[j].1, s)))
    } else {
        v.push((k, s))
    }
}

/// The stories after inserting scrape `x`. When a story already holds a scrape with `x`'s key,
/// `x` is merged there; if the story's earliest day changes with it, the story moves to its new
/// identifier, joining the story that already has it. Otherwise `x` goes to the story with its
/// own identifier, or starts one.
pub open spec fn insert_view(v: Seq<StoryView>, x: TypedScrape) -> Seq<StoryView> {
    let i = key_story(v, x.spec_key(), 0);
    if 0 <= i < v.len() {
        let s2 = merge_scrapes(v[i].1, x);
        let k2 = (date_bucket(earliest_date(s2)), v[i].0.1);
        if k2 == v[i].0 {
            v.update(i, (k2, s2))
        } else {
            place(v.remove(i), k2, s2)
        }
    } else {
        place(v, scrape_ident(x), seq![x])
    }
}

/// The stories after inserting each of `xs` in turn.
pub open spec fn insert_all(v: Seq<StoryView>, xs: Seq<TypedScrape>) -> Seq<StoryView>
    decreases xs.len(),
{
    if xs.len() == 0 {
        v
    } else {
        insert_view(insert_all(v, xs.drop_last()), xs.last())
    }
}

proof fn lemma_ident_index(v: Seq<StoryView>, k: IdentKey, i: int)
    requires
        0 <= i,
    ensures
        ident_index(v, k, i) == -1 || (i <= ident_index(v, k, i) < v.len() && v[ident_index(
            v,
            k,
            i,
        )].0 == k),
        ident_index(v, k, i) == -1 ==> forall|j: int| i <= j < v.len() ==> v[j].0 != k,
    decreases v.len() - i,
{
    if i < v.len() && v[i].0 != k {
        lemma_ident_index(v, k, i + 1);
    }
}

proof fn lemma_key_story(v: Seq<StoryView>, k: ScrapeKey, i: int)
    requires
        0 <= i,
    ensures
        key_story(v, k, i) == -1 || (i <= key_story(v, k, i) < v.len() && has_key(
            v[key_story(v, k, i)].1,
            k,
        )),
        key_story(v, k, i) == -1 ==> forall|j: int| i <= j < v.len() ==> !has_key(v[j].1, k),
    decreases v.len() - i,
{
    if i < v.len() && !has_key(v[i].1, k) {
        lemma_key_story(v, k, i + 1);
    }
}

proof fn lemma_views_remove(s: Seq<Story>, i: int)
    requires
        0 <= i < s.len(),
    ensures
        views(s.remove(i)) == views(s).remove(i),
        stories_wf(s) ==> stories_wf(s.remove(i)),
{
    assert(views(s.remove(i)) =~= views(s).remove(i));
    if stories_wf(s) {
        let t = s.remove(i);
        assert forall|a: int, b: int, k: ScrapeKey|
            0 <= a < t.len() && 0 <= b < t.len() && a != b && #[trigger] has_key(t[a].scrapes@, k)
                implies !#[trigger] has_key(t[b].scrapes@, k) by {
            let a2 = if a < i { a } else { a + 1 };
            let b2 = if b < i { b } else { b + 1 };
            assert(t[a] == s[a2] && t[b] == s[b2]);
        }
        assert forall|a: int, b: int|
            0 <= a < t.len() && 0 <= b < t.len() && a != b implies (#[trigger] t[a]).id.key() != (
            #[trigger] t[b]).id.key() by {
            let a2 = if a < i { a } else { a + 1 };
            let b2 = if b < i { b } else { b + 1 };
            assert(t[a] == s[a2] && t[b] == s[b2]);
        }
    }
}

/// Adds story `st` to the stories: into the story with its identifier, or at the end.
fn place_story(stories: &mut Vec<Story>, st: Story)
    requires
        stories_wf(old(stories)@),
        st.wf(),
        forall|j: int, k: ScrapeKey|
            0 <= j < old(stories)@.len() && #[trigger] has_key(st.scrapes@, k) ==> !#[trigger] has_key(
                old(stories)@[j].scrapes@,
                k,
            ),
    ensures
        stories_wf(final(stories)@),
        views(final(stories)@) == place(views(old(stories)@), st.id.key(), st.scrapes@),
{
    let ghost s = stories@;
    let ghost v = views(s);
    proof {
        lemma_ident_index(v, st.id.key(), 0);
    }
    let mut j: usize = 0;
    while j < stories.len() && !stories[j].id.same_as(&st.id)
        invariant
            j <= stories@.len(),
            stories@ == s,
            v == views(s),
            ident_index(v, st.id.key(), j as int) == ident_index(v, st.id.key(), 0),
        decreases stories@.len() - j,
    {
        assert(v[j as int] == s[j as int].view_of());
        j = j + 1;
    }
    if j < stories.len() {
        assert(v[j as int] == s[j as int].view_of());
        let mut t = stories.remove(j);
        let ghost t0 = t;
        let ghost sc = st.scrapes@;
        proof {
            lemma_merge_all_facts(t0.scrapes@, sc);
        }
        t.absorb(st);
        assert(t.id.key() == t0.id.key());
        stories.insert(j, t);
        assert(stories@ =~= s.update(j as int, t));
        assert(views(stories@) =~= place(v, t0.id.key(), sc));
        assert forall|a: int, b: int, k: ScrapeKey|
            0 <= a < stories@.len() && 0 <= b < stories@.len() && a != b && #[trigger] has_key(
                stories@[a].scrapes@,
                k,
            ) implies !#[trigger] has_key(stories@[b].scrapes@, k) by {
            if a == j {
                assert(has_key(t0.scrapes@, k) || has_key(sc, k));
            } else if b == j {
                if has_key(stories@[b].scrapes@, k) {
                    assert(has_key(t0.scrapes@, k) || has_key(sc, k));
                }
            }
        }
        assert forall|a: int, b: int|
            0 <= a < stories@.len() && 0 <= b < stories@.len() && a != b implies (
            #[trigger] stories@[a]).id.key() != (#[trigger] stories@[b]).id.key() by {
            if a != j && b != j {
                assert(stories@[a] == s[a] && stories@[b] == s[b]);
            } else if a == j {
                assert(stories@[b] == s[b]);
            } else {
                assert(stories@[a] == s[a]);
            }
        }
    } else {
        let ghost sv = st.view_of();
        stories.push(st);
        assert(views(stories@) =~= place(v, sv.0, sv.1));
        assert forall|a: int, b: int|
            0 <= a < stories@.len() && 0 <= b < stories@.len() && a != b implies (
            #[trigger] stories@[a]).id.key() != (#[trigger] stories@[b]).id.key() by {
            if a < s.len() && b < s.len() {
            } else if a < s.len() {
                assert(v[a] == s[a].view_of());
            } else {
                assert(v[b] == s[b].view_of());
            }
        }
        assert forall|a: int, b: int, k: ScrapeKey|
            0 <= a < stories@.len() && 0 <= b < stories@.len() && a != b && #[trigger] has_key(
                stories@[a].scrapes@,
                k,
            ) implies !#[trigger] has_key(stories@[b].scrapes@, k) by {
            if a < s.len() && b < s.len() {
                assert(stories@[a] == s[a] && stories@[b] == s[b]);
            } else if a < s.len() {
                assert(stories@[a] == s[a]);
            } else {
                assert(stories@[b] == s[b]);
            }
        }
    }
}

/// Inserts scrape `x` into stories kept by identifier, merging it with a stored scrape of the
/// same key wherever that is.
pub fn insert_into(stories: &mut Vec<Story>, x: TypedScrape)
    requires
        stories_wf(old(stories)@),
        x.wf(),
    ensures
        stories_wf(final(stories)@),
        views(final(stories)@) == insert_view(views(old(stories)@), x),
{
    let ghost s = stories@;
    let ghost v = views(s);
    let ghost xk = x.spec_key();
    proof {
        lemma_key_story(v, xk, 0);
    }
    let mut i: usize = 0;
    while i < stories.len() && stories[i].find_scrape(&x.shared().source).is_none()
        invariant
            i <= stories@.len(),
            stories@ == s,
            v == views(s),
            xk == x.spec_key(),
            key_story(v, xk, i as int) == key_story(v, xk, 0),
        decreases stories@.len() - i,
    {
        assert(v[i as int] == s[i as int].view_of());
        i = i + 1;
    }
    if i < stories.len() {
        assert(v[i as int] == s[i as int].view_of());
        let mut st = stories.remove(i);
        proof {
            lemma_views_remove(s, i as int);
        }
        let ghost st0 = st;
        let old_id = st.id.clone();
        st.merge(x);
        proof {
            assert forall|k: ScrapeKey| #[trigger] has_key(st.scrapes@, k) implies has_key(st0.scrapes@, k) by {
                lemma_merge_has_key(st0.scrapes@, x, k);
            }
        }
        if st.id.same_as(&old_id) {
            stories.insert(i, st);
            assert(stories@ =~= s.update(i as int, st));
            assert(views(stories@) =~= insert_view(v, x));
            assert forall|a: int, b: int, k: ScrapeKey|
                0 <= a < stories@.len() && 0 <= b < stories@.len() && a != b && #[trigger] has_key(
                    stories@[a].scrapes@,
                    k,
                ) implies !#[trigger] has_key(stories@[b].scrapes@, k) by {
                if a == i {
                    assert(has_key(s[a].scrapes@, k));
                } else if b == i {
                    if has_key(stories@[b].scrapes@, k) {
                        assert(has_key(s[b].scrapes@, k));
                    }
                }
            }
            assert forall|a: int, b: int|
                0 <= a < stories@.len() && 0 <= b < stories@.len() && a != b implies (
                #[trigger] stories@[a]).id.key() != (#[trigger] stories@[b]).id.key() by {
                if a != i && b != i {
                    assert(stories@[a] == s[a] && stories@[b] == s[b]);
                } else if a == i {
                    assert(stories@[b] == s[b]);
                } else {
                    assert(stories@[a] == s[a]);
                }
            }
        } else {
            proof {
                let r = s.remove(i as int);
                assert forall|j: int, k: ScrapeKey|
                    0 <= j < r.len() && #[trigger] has_key(st.scrapes@, k) implies !#[trigger] has_key(
                        r[j].scrapes@,
                        k,
                    ) by {
                    let j2 = if j < i { j } else { j + 1 };
                    assert(r[j] == s[j2]);
                    assert(has_key(s[i as int].scrapes@, k));
                }
            }
            place_story(stories, st);
            assert(views(stories@) == insert_view(v, x));
        }
    } else {
        let st = Story::new(x);
        proof {
            assert forall|j: int, k: ScrapeKey|
                0 <= j < s.len() && #[trigger] has_key(st.scrapes@, k) implies !#[trigger] has_key(
                    s[j].scrapes@,
                    k,
                ) by {
                let a = choose|a: int| 0 <= a < st.scrapes@.len() && #[trigger] st.scrapes@[a].spec_key() == k;
                assert(k == xk);
                assert(v[j] == s[j].view_of());
            }
        }
        place_story(stories, st);
        proof {
            assert(merge_all(seq![x], Seq::<TypedScrape>::empty()) == seq![x]);
        }
        assert(views(stories@) == insert_view(v, x));
    }
}

/// Scrapes whose normalized URLs and calendar days agree collapse into one story with both
/// entries; scrapes that differ in either give two stories.
pub proof fn lemma_dedup(x1: TypedScrape, x2: TypedScrape)
    requires
        x1.wf(),
        x2.wf(),
        x1.spec_key() != x2.spec_key(),
    ensures
        scrape_ident(x1) == scrape_ident(x2) ==> insert_all(Seq::empty(), seq![x1, x2]) == seq![
            (scrape_ident(x1), seq![x1, x2]),
        ],
        scrape_ident(x1) != scrape_ident(x2) ==> insert_all(Seq::empty(), seq![x1, x2]) == seq![
            (scrape_ident(x1), seq![x1]),
            (scrape_ident(x2), seq![x2]),
        ],
{
    let e = Seq::<StoryView>::empty();
    assert(seq![x1, x2].drop_last() =~= seq![x1]);
    assert(seq![x1].drop_last() =~= Seq::<TypedScrape>::empty());
    let v1 = insert_all(e, seq![x1]);
    assert(insert_all(e, Seq::<TypedScrape>::empty()) == e);
    assert(key_story(e, x1.spec_key(), 0) == -1);
    assert(ident_index(e, scrape_ident(x1), 0) == -1);
    assert(v1 =~= seq![(scrape_ident(x1), seq![x1])]);
    let s = seq![x1];
    assert(!has_key(s, x2.spec_key())) by {
        if has_key(s, x2.spec_key()) {
            let a = choose|a: int| 0 <= a < s.len() && #[trigger] s[a].spec_key() == x2.spec_key();
            assert(s[a] == x1);
        }
    }
    assert(key_story(v1, x2.spec_key(), 1) == -1);
    assert(key_story(v1, x2.spec_key(), 0) == -1);
    assert(merge_all(seq![x2], Seq::<TypedScrape>::empty()) == seq![x2]);
    if scrape_ident(x1) == scrape_ident(x2) {
        assert(ident_index(v1, scrape_ident(x2), 0) == 0);
        assert(s[0].spec_key() != x2.spec_key());
        assert(crate::story::key_index(s, x2.spec_key(), 1) == -1);
        assert(crate::story::key_index(s, x2.spec_key(), 0) == -1);
        assert(merge_scrapes(s, x2) =~= seq![x1, x2]);
        assert(seq![x2].drop_last() =~= Seq::<TypedScrape>::empty());
        assert(merge_all(s, seq![x2]) == merge_scrapes(merge_all(s, Seq::<TypedScrape>::empty()), x2));
        assert(insert_all(e, seq![x1, x2]) =~= seq![(scrape_ident(x1), seq![x1, x2])]);
    } else {
        assert(ident_index(v1, scrape_ident(x2), 1) == -1);
        assert(ident_index(v1, scrape_ident(x2), 0) == -1);
        assert(insert_all(e, seq![x1, x2]) =~= seq![
            (scrape_ident(x1), seq![x1]),
            (scrape_ident(x2), seq![x2]),
        ]);
    }
}

/// A volatile index for building the full story set quickly from a one-shot import.
#[derive(Debug)]
pub struct MemIndex {
    pub stories: Vec<Story>,
}

impl MemIndex {
    pub open spec fn wf(&self) -> bool {
        stories_wf(self.stories@)
    }

    pub open spec fn spec_view(&self) -> Seq<StoryView> {
        views(self.stories@)
    }

    pub fn new() -> (r: MemIndex)
        ensures
            r.wf(),
            r.stories@.len() == 0,
    {
        MemIndex { stories: Vec::new() }
    }

    /// Inserts the scrapes in order, merging each into the story with its identifier.
    pub fn insert_scrapes(&mut self, scrapes: Vec<TypedScrape>)
        requires
            old(self).wf(),
            forall|i: int| 0 <= i < scrapes@.len() ==> (#[trigger] scrapes@[i]).wf(),
        ensures
            final(self).wf(),
            final(self).spec_view() == insert_all(old(self).spec_view(), scrapes@),
    {
        let ghost v0 = self.spec_view();
        let ghost xs = scrapes@;
        let mut input = scrapes;
        let ghost mut i: int = 0;
        while input.len() > 0
            invariant
                0 <= i <= xs.len(),
                input@ == xs.subrange(i, xs.len() as int),
                self.wf(),
                self.spec_view() == insert_all(v0, xs.subrange(0, i)),
                forall|j: int| 0 <= j < xs.len() ==> (#[trigger] xs[j]).wf(),
            decreases input@.len(),
        {
            assert(input@.len() == xs.len() - i);
            let x = input.remove(0);
            assert(x == xs[i]);
            insert_into(&mut self.stories, x);
            proof {
                assert(xs.subrange(0, i + 1).drop_last() =~= xs.subrange(0, i));
                i = i + 1;
            }
            assert(input@ =~= xs.subrange(i, xs.len() as int));
        }
        assert(xs.subrange(0, i) =~= xs);
    }

    /// Hands over every story, for a durable index to take.
    pub fn get_all_stories(self) -> (r: Vec<Story>)
        ensures
            r@ == self.stories@,
    {
        self.stories
    }

    pub fn story_count(&self) -> (r: usize)
        ensures
            r == self.stories@.len(),
    {
        self.stories.len()
    }
}

impl Default for MemIndex {
    fn default() -> (r: MemIndex)
        ensures
            r.wf(),
            r.stories@.len() == 0,
    {
        MemIndex::new()
    }
}

} // verus!
