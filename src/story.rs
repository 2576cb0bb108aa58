//! Story identity, the story aggregate and its merge rules.

use vstd::prelude::*;
use vstd::utf8::{decode_utf8, encode_utf8, valid_utf8};
use crate::date::{calendar_date, StoryDate};
use crate::text::{
    all_digits, chars_of, decimal, digits_value, lemma_decimal, numeral_value, parse_numeral,
    push_all, push_char, push_decimal, string_of,
};
use crate::scrapers::{key_text, lemma_scrape_merge_idempotent, source_name, ScrapeId, ScrapeKey, ScrapeSource, TypedScrape};
use crate::url::{find_char, lemma_find_char_at, scan_char, StoryUrl, StoryUrlNorm};
use base64::engine::fast_portable::{self, FastPortable};

verus! {

#[verifier::external_type_specification]
#[verifier::external_body]
pub struct ExDecodeError(base64::DecodeError);

/// The URL-safe, unpadded base64 text of bytes `b`.
pub uninterp spec fn url_safe_base64(b: Seq<u8>) -> Seq<char>;

/// Relies on `base64::encode_engine` with the URL-safe alphabet and no padding. It panics
/// only when the encoded length overflows `usize`, which no slice in memory reaches.
#[verifier::external_body]
fn encode_url_safe(b: &[u8]) -> (r: String)
    ensures
        r@ == url_safe_base64(b@),
{
    base64::encode_engine(b, &FastPortable::from(&base64::alphabet::URL_SAFE, fast_portable::NO_PAD))
}

/// Relies on `base64::decode_engine` with the URL-safe alphabet and no padding: the encoding
/// of any bytes decodes to those bytes, and what it accepts is the canonical encoding of what
/// it returns (padding and nonzero trailing bits are refused).
#[verifier::external_body]
fn decode_url_safe(s: &str) -> (r: Result<Vec<u8>, base64::DecodeError>)
    ensures
        forall|b: Seq<u8>| #[trigger] url_safe_base64(b) == s@ ==> (r is Ok && r->Ok_0@ == b),
        r is Ok ==> url_safe_base64(r->Ok_0@) == s@,
{
    base64::decode_engine(s, &FastPortable::from(&base64::alphabet::URL_SAFE, fast_portable::NO_PAD))
}

/// Relies on `String::from_utf8`: it accepts exactly the valid UTF-8 byte sequences.
#[verifier::external_body]
fn utf8_text(b: Vec<u8>) -> (r: Option<String>)
    ensures
        r is Some <==> valid_utf8(b@),
        r is Some ==> r->0@ == decode_utf8(b@),
{
    String::from_utf8(b).ok()
}

/// The calendar day of a date as (year, month, day).
pub type DayBucket = (u16, u8, u8);

/// What identifies a story: its calendar day and its normalized URL.
pub type IdentKey = (DayBucket, Seq<char>);

pub open spec fn date_bucket(d: StoryDate) -> DayBucket {
    let c = calendar_date(d.spec_seconds());
    (c.0 as u16, c.1 as u8, c.2 as u8)
}

/// The text of an identifier: `<year>:<month>:<day>:<normalized url>`.
pub open spec fn ident_text(k: IdentKey) -> Seq<char> {
    decimal(k.0.0 as nat).push(':') + decimal(k.0.1 as nat).push(':') + decimal(k.0.2 as nat).push(
        ':',
    ) + k.1
}

/// What reading identifier text gives: three numerals, each ended by `:`, then the normalized
/// URL, which may itself hold `:`.
pub open spec fn parse_ident_text(s: Seq<char>) -> Option<IdentKey> {
    let i1 = find_char(s, 0, ':');
    let i2 = find_char(s, i1 + 1, ':');
    let i3 = find_char(s, i2 + 1, ':');
    if i1 >= s.len() || i2 >= s.len() || i3 >= s.len() {
        None
    } else {
        match (
            numeral_value(s.subrange(0, i1), 65535),
            numeral_value(s.subrange(i1 + 1, i2), 255),
            numeral_value(s.subrange(i2 + 1, i3), 255),
        ) {
            (Some(y), Some(m), Some(d)) => Some(
                ((y as u16, m as u8, d as u8), s.subrange(i3 + 1, s.len() as int)),
            ),
            _ => None,
        }
    }
}


/// Reading the text of an identifier gives the identifier back.
pub proof fn lemma_ident_text_round_trip(k: IdentKey)
    ensures
        parse_ident_text(ident_text(k)) == Some(k),
{
    let a = decimal(k.0.0 as nat);
    let b = decimal(k.0.1 as nat);
    let c = decimal(k.0.2 as nat);
    lemma_decimal(k.0.0 as nat);
    lemma_decimal(k.0.1 as nat);
    lemma_decimal(k.0.2 as nat);
    let s = ident_text(k);
    let i1 = a.len() as int;
    let i2 = i1 + 1 + b.len();
    let i3 = i2 + 1 + c.len();
    assert(s == a.push(':') + b.push(':') + c.push(':') + k.1);
    assert forall|j: int| 0 <= j < i1 implies s[j] != ':' by {
        assert(s[j] == a[j]);
        assert(a.contains(a[j]));
    }
    assert forall|j: int| i1 + 1 <= j < i2 implies s[j] != ':' by {
        assert(s[j] == b[j - i1 - 1]);
        assert(b.contains(b[j - i1 - 1]));
    }
    assert forall|j: int| i2 + 1 <= j < i3 implies s[j] != ':' by {
        assert(s[j] == c[j - i2 - 1]);
        assert(c.contains(c[j - i2 - 1]));
    }
    lemma_find_char_at(s, 0, i1, ':');
    lemma_find_char_at(s, i1 + 1, i2, ':');
    lemma_find_char_at(s, i2 + 1, i3, ':');
    assert(s.subrange(0, i1) =~= a);
    assert(s.subrange(i1 + 1, i2) =~= b);
    assert(s.subrange(i2 + 1, i3) =~= c);
    assert(s.subrange(i3 + 1, s.len() as int) =~= k.1);
}

/// Uniquely identifies a story: the calendar day of its earliest scrape and its normalized
/// URL.
#[derive(Debug, PartialEq, Eq, Hash, PartialOrd, Ord)]
pub struct StoryIdentifier {
    pub norm: StoryUrlNorm,
    pub date: DayBucket,
}

impl Clone for StoryIdentifier {
    fn clone(&self) -> (r: Self)
        ensures
            r == *self,
    {
        StoryIdentifier { norm: self.norm.clone(), date: self.date }
    }
}

impl StoryIdentifier {
    pub open spec fn key(&self) -> IdentKey {
        (self.date, self.norm.norm@)
    }

    /// The shard that stories with this identifier live in: its year and month.
    pub open spec fn spec_shard(&self) -> (u16, u8) {
        (self.date.0, self.date.1)
    }

    pub fn new(date: StoryDate, norm: &StoryUrlNorm) -> (r: StoryIdentifier)
        ensures
            r.key() == (date_bucket(date), norm.norm@),
    {
        let ymd = date.ymd();
        StoryIdentifier { norm: norm.clone(), date: ymd }
    }

    /// Moves the identifier to the calendar day of `date`.
    pub fn update_date(&mut self, date: StoryDate)
        ensures
            final(self).date == date_bucket(date),
            final(self).norm == old(self).norm,
    {
        self.date = date.ymd();
    }

    pub fn matches_date(&self, date: StoryDate) -> (r: bool)
        ensures
            r == (self.date == date_bucket(date)),
    {
        let ymd = date.ymd();
        self.date.0 == ymd.0 && self.date.1 == ymd.1 && self.date.2 == ymd.2
    }

    /// Whether two identifiers name the same story.
    pub fn same_as(&self, other: &StoryIdentifier) -> (r: bool)
        ensures
            r == (self.key() == other.key()),
    {
        self.date.0 == other.date.0 && self.date.1 == other.date.1 && self.date.2
            == other.date.2 && self.norm.same_as(&other.norm)
    }

    pub fn year(&self) -> (r: u16)
        ensures
            r == self.date.0,
    {
        self.date.0
    }

    pub fn month(&self) -> (r: u8)
        ensures
            r == self.date.1,
    {
        self.date.1
    }

    pub fn day(&self) -> (r: u8)
        ensures
            r == self.date.2,
    {
        self.date.2
    }

    pub fn shard(&self) -> (r: (u16, u8))
        ensures
            r == self.spec_shard(),
    {
        (self.date.0, self.date.1)
    }

    /// The identifier as text: `<year>:<month>:<day>:<normalized url>`.
    pub fn to_text(&self) -> (r: String)
        ensures
            r@ == ident_text(self.key()),
    {
        let mut s = String::new();
        push_decimal(&mut s, self.date.0 as u64);
        push_char(&mut s, ':');
        push_decimal(&mut s, self.date.1 as u64);
        push_char(&mut s, ':');
        push_decimal(&mut s, self.date.2 as u64);
        push_char(&mut s, ':');
        push_all(&mut s, self.norm.string());
        assert(s@ =~= ident_text(self.key()));
        s
    }

    /// Reads identifier text.
    pub fn from_text(s: &str) -> (r: Option<StoryIdentifier>)
        ensures
            match parse_ident_text(s@) {
                Some(k) => r is Some && r->0.key() == k,
                None => r is None,
            },
    {
        let cs = chars_of(s);
        let i1 = scan_char(&cs, 0, ':');
        if i1 == cs.len() {
            return None;
        }
        let i2 = scan_char(&cs, i1 + 1, ':');
        if i2 == cs.len() {
            return None;
        }
        let i3 = scan_char(&cs, i2 + 1, ':');
        if i3 == cs.len() {
            return None;
        }
        let y = parse_numeral(&cs, 0, i1, 65535);
        let m = parse_numeral(&cs, i1 + 1, i2, 255);
        let d = parse_numeral(&cs, i2 + 1, i3, 255);
        match (y, m, d) {
            (Some(y), Some(m), Some(d)) => {
                let norm = string_of(&cs, i3 + 1, cs.len());
                Some(
                    StoryIdentifier {
                        norm: StoryUrlNorm::from_string(norm),
                        date: (y as u16, m as u8, d as u8),
                    },
                )
            },
            _ => None,
        }
    }

    /// The identifier as URL-safe, unpadded base64 of its text.
    pub fn to_base64(&self) -> (r: String)
        ensures
            r@ == url_safe_base64(encode_utf8(ident_text(self.key()))),
    {
        let text = self.to_text();
        let bytes = text.as_str().as_bytes();
        encode_url_safe(bytes)
    }

    /// Reads an identifier from the form that `to_base64` writes. For text that is the base64
    /// of some identifier text, the result is what reading that text gives; any other text
    /// gives `None`.
    pub fn from_base64(s: &str) -> (r: Option<StoryIdentifier>)
        ensures
            (forall|t: Seq<char>| #[trigger] url_safe_base64(encode_utf8(t)) != s@) ==> r is None,
            forall|t: Seq<char>|
                #[trigger] url_safe_base64(encode_utf8(t)) == s@ ==> match parse_ident_text(t) {
                    Some(k) => r is Some && r->0.key() == k,
                    None => r is None,
                },
    {
        let bytes = match decode_url_safe(s) {
            Ok(b) => b,
            Err(_) => {
                proof {
                    assert forall|t: Seq<char>|
                        #[trigger] url_safe_base64(encode_utf8(t)) == s@ implies false by {}
                }
                return None;
            },
        };
        let ghost b = bytes@;
        let text = match utf8_text(bytes) {
            Some(t) => t,
            None => {
                proof {
                    assert forall|t: Seq<char>|
                        #[trigger] url_safe_base64(encode_utf8(t)) == s@ implies false by {
                        vstd::utf8::encode_utf8_valid_utf8(t);
                    }
                }
                return None;
            },
        };
        proof {
            assert forall|t: Seq<char>| #[trigger] url_safe_base64(encode_utf8(t)) == s@ implies text@
                == t by {
                vstd::utf8::encode_utf8_decode_utf8(t);
            }
            vstd::utf8::decode_utf8_encode_utf8(b);
            assert(url_safe_base64(encode_utf8(text@)) == s@);
        }
        StoryIdentifier::from_text(text.as_str())
    }
}

/// The identifier made from any date and normalized URL reads back from its text as itself.
/// `to_base64` encodes exactly that text and `from_base64` reads whatever text it decodes to,
/// so decoding the base64 form of an identifier gives the identifier back.
pub proof fn lemma_identifier_round_trip(date: StoryDate, norm: Seq<char>)
    ensures
        parse_ident_text(ident_text((date_bucket(date), norm))) == Some((date_bucket(date), norm)),
{
    lemma_ident_text_round_trip((date_bucket(date), norm));
}


/// The earliest date among scrapes `s`.
pub open spec fn earliest_date(s: Seq<TypedScrape>) -> StoryDate
    recommends
        s.len() > 0,
    decreases s.len(),
{
    if s.len() <= 1 {
        s[0].spec_date()
    } else {
        StoryDate::spec_earliest(earliest_date(s.drop_last()), s.last().spec_date())
    }
}

/// No two scrapes share a key.
pub open spec fn keys_unique(s: Seq<TypedScrape>) -> bool {
    forall|i: int, j: int|
        0 <= i < s.len() && 0 <= j < s.len() && i != j ==> #[trigger] s[i].spec_key()
            != #[trigger] s[j].spec_key()
}

/// Index of the first scrape at or after `i` whose key is `k`, or -1.
pub open spec fn key_index(s: Seq<TypedScrape>, k: ScrapeKey, i: int) -> int
    decreases s.len() - i,
{
    if i >= s.len() || i < 0 {
        -1
    } else if s[i].spec_key() == k {
        i
    } else {
        key_index(s, k, i + 1)
    }
}

/// The scrapes after merging `x`: a scrape with the same key is merged with it, otherwise
/// `x` is added at the end.
pub open spec fn merge_scrapes(s: Seq<TypedScrape>, x: TypedScrape) -> Seq<TypedScrape> {
    let i = key_index(s, x.spec_key(), 0);
    if 0 <= i < s.len() {
        s.update(i, s[i].merged(x))
    } else {
        s.push(x)
    }
}

/// The scrapes after merging each of `xs` in turn.
pub open spec fn merge_all(s: Seq<TypedScrape>, xs: Seq<TypedScrape>) -> Seq<TypedScrape>
    decreases xs.len(),
{
    if xs.len() == 0 {
        s
    } else {
        merge_scrapes(merge_all(s, xs.drop_last()), xs.last())
    }
}

pub open spec fn all_wf(s: Seq<TypedScrape>) -> bool {
    forall|i: int| 0 <= i < s.len() ==> #[trigger] s[i].wf()
}

proof fn lemma_key_index(s: Seq<TypedScrape>, k: ScrapeKey, i: int)
    requires
        0 <= i,
    ensures
        key_index(s, k, i) == -1 || (i <= key_index(s, k, i) < s.len() && s[key_index(
            s,
            k,
            i,
        )].spec_key() == k),
        key_index(s, k, i) == -1 ==> forall|j: int| i <= j < s.len() ==> s[j].spec_key() != k,
        forall|j: int| i <= j < key_index(s, k, i) ==> s[j].spec_key() != k,
    decreases s.len() - i,
{
    if i < s.len() && s[i].spec_key() != k {
        lemma_key_index(s, k, i + 1);
    }
}

proof fn lemma_earliest_update(s: Seq<TypedScrape>, i: int, v: TypedScrape, x: TypedScrape)
    requires
        0 <= i < s.len(),
        v.spec_date() == StoryDate::spec_earliest(s[i].spec_date(), x.spec_date()),
    ensures
        earliest_date(s.update(i, v)).spec_seconds() == StoryDate::spec_earliest(
            earliest_date(s),
            x.spec_date(),
        ).spec_seconds(),
    decreases s.len(),
{
    let t = s.update(i, v);
    if s.len() > 1 {
        if i < s.len() - 1 {
            assert(t.drop_last() =~= s.drop_last().update(i, v));
            lemma_earliest_update(s.drop_last(), i, v, x);
        } else {
            assert(t.drop_last() =~= s.drop_last());
        }
    }
}

/// Merging a scrape keeps the earliest date: the new earliest date is the earlier of the
/// old one and the scrape's.
pub proof fn lemma_merge_earliest(s: Seq<TypedScrape>, x: TypedScrape)
    requires
        s.len() > 0,
        all_wf(s),
        x.wf(),
    ensures
        earliest_date(merge_scrapes(s, x)).spec_seconds() == StoryDate::spec_earliest(
            earliest_date(s),
            x.spec_date(),
        ).spec_seconds(),
        merge_scrapes(s, x).len() > 0,
        all_wf(merge_scrapes(s, x)),
{
    lemma_key_index(s, x.spec_key(), 0);
    let i = key_index(s, x.spec_key(), 0);
    if 0 <= i < s.len() {
        assert(s[i].wf());
        assert(s[i].compatible(x));
        crate::scrapers::lemma_merge_counters(s[i], x);
        lemma_earliest_update(s, i, s[i].merged(x), x);
    } else {
        assert(merge_scrapes(s, x).drop_last() =~= s);
    }
}

/// Merging a scrape keeps keys unique.
pub proof fn lemma_merge_keys_unique(s: Seq<TypedScrape>, x: TypedScrape)
    requires
        keys_unique(s),
        all_wf(s),
        x.wf(),
    ensures
        keys_unique(merge_scrapes(s, x)),
{
    lemma_key_index(s, x.spec_key(), 0);
    let i = key_index(s, x.spec_key(), 0);
    let t = merge_scrapes(s, x);
    if 0 <= i < s.len() {
        assert(s[i].wf());
        assert(s[i].compatible(x));
        assert forall|a: int, b: int|
            0 <= a < t.len() && 0 <= b < t.len() && a != b implies #[trigger] t[a].spec_key()
            != #[trigger] t[b].spec_key() by {
            assert(t[a].spec_key() == s[a].spec_key());
            assert(t[b].spec_key() == s[b].spec_key());
        }
    } else {
        assert forall|a: int, b: int|
            0 <= a < t.len() && 0 <= b < t.len() && a != b implies #[trigger] t[a].spec_key()
            != #[trigger] t[b].spec_key() by {
            if a < s.len() && b < s.len() {
                assert(t[a] == s[a] && t[b] == s[b]);
            }
        }
    }
}

/// Merging an identical copy of a scrape that is already there changes nothing.
pub proof fn lemma_merge_same_scrape(s: Seq<TypedScrape>, i: int)
    requires
        0 <= i < s.len(),
        keys_unique(s),
    ensures
        merge_scrapes(s, s[i]) == s,
{
    lemma_key_index(s, s[i].spec_key(), 0);
    let j = key_index(s, s[i].spec_key(), 0);
    assert(j == i) by {
        if j != i {
            assert(s[j].spec_key() == s[i].spec_key());
        }
    }
    lemma_scrape_merge_idempotent(s[i]);
    assert(s.update(i, s[i]) =~= s);
}

/// After merging any sequence of scrapes into a story begun with `first`, its earliest date
/// is the earliest date among all the scrapes merged.
pub proof fn lemma_date_is_earliest(first: TypedScrape, rest: Seq<TypedScrape>)
    requires
        first.wf(),
        all_wf(rest),
    ensures
        earliest_date(merge_all(seq![first], rest)).spec_seconds() == earliest_date(
            seq![first] + rest,
        ).spec_seconds(),
        merge_all(seq![first], rest).len() > 0,
        all_wf(merge_all(seq![first], rest)),
    decreases rest.len(),
{
    if rest.len() > 0 {
        let front = rest.drop_last();
        lemma_date_is_earliest(first, front);
        lemma_merge_earliest(merge_all(seq![first], front), rest.last());
        assert((seq![first] + rest).drop_last() =~= seq![first] + front);
    } else {
        assert(seq![first] + rest =~= seq![first]);
    }
}

/// Where the discussion of a scrape can be read.
pub open spec fn comments_url(k: ScrapeKey) -> Seq<char> {
    match k.0 {
        ScrapeSource::HackerNews => "https://news.ycombinator.com/item?id="@ + k.2,
        ScrapeSource::Reddit => match k.1 {
            Some(sub) => "https://www.reddit.com/r/"@ + sub + "/comments/"@ + k.2,
            None => "https://www.reddit.com/comments/"@ + k.2,
        },
        ScrapeSource::Lobsters => "https://lobste.rs/s/"@ + k.2,
        ScrapeSource::Slashdot => "https://slashdot.org/story/"@ + k.2,
        ScrapeSource::Other => k.2,
    }
}

/// The page where the discussion of scrape `id` can be read.
pub fn comments_link(id: &ScrapeId) -> (r: String)
    ensures
        r@ == comments_url(id.key()),
{
    let mut s = String::new();
    match id.source {
        ScrapeSource::HackerNews => push_all(&mut s, "https://news.ycombinator.com/item?id="),
        ScrapeSource::Reddit => match &id.subsource {
            Some(sub) => {
                push_all(&mut s, "https://www.reddit.com/r/");
                push_all(&mut s, sub.as_str());
                push_all(&mut s, "/comments/");
            },
            None => push_all(&mut s, "https://www.reddit.com/comments/"),
        },
        ScrapeSource::Lobsters => push_all(&mut s, "https://lobste.rs/s/"),
        ScrapeSource::Slashdot => push_all(&mut s, "https://slashdot.org/story/"),
        ScrapeSource::Other => {},
    }
    push_all(&mut s, id.id.as_str());
    assert(s@ =~= comments_url(id.key()));
    s
}

/// A story as it is shown: its identifier in base64, URL, domain, title, date, tags, a
/// discussion link per scrape (source name and URL) and each scrape under its key text.
#[derive(Debug)]
pub struct StoryRender {
    pub id: String,
    pub url: String,
    pub domain: String,
    pub title: String,
    pub date: StoryDate,
    pub tags: Vec<String>,
    pub comment_links: Vec<(String, String)>,
    pub scrapes: Vec<(String, TypedScrape)>,
}

/// Some scrape in `s` has key `k`.
pub open spec fn has_key(s: Seq<TypedScrape>, k: ScrapeKey) -> bool {
    exists|a: int| 0 <= a < s.len() && #[trigger] s[a].spec_key() == k
}

/// Merging a scrape adds its key to the keys present, and no other.
pub proof fn lemma_merge_has_key(s: Seq<TypedScrape>, x: TypedScrape, k: ScrapeKey)
    ensures
        has_key(merge_scrapes(s, x), k) <==> has_key(s, k) || k == x.spec_key(),
{
    lemma_key_index(s, x.spec_key(), 0);
    let i = key_index(s, x.spec_key(), 0);
    let t = merge_scrapes(s, x);
    if 0 <= i < s.len() {
        assert(s[i].merged(x).spec_key() == s[i].spec_key()) by {
            match (s[i], x) {
                (TypedScrape::HackerNews(_), TypedScrape::HackerNews(_)) => {},
                (TypedScrape::Reddit(_), TypedScrape::Reddit(_)) => {},
                (TypedScrape::Lobsters(_), TypedScrape::Lobsters(_)) => {},
                (TypedScrape::Slashdot(_), TypedScrape::Slashdot(_)) => {},
                _ => {},
            }
        }
        if has_key(t, k) {
            let a = choose|a: int| 0 <= a < t.len() && #[trigger] t[a].spec_key() == k;
            if a != i {
                assert(s[a].spec_key() == k);
            }
        }
        if has_key(s, k) {
            let a = choose|a: int| 0 <= a < s.len() && #[trigger] s[a].spec_key() == k;
            assert(t[a].spec_key() == k);
        }
        if k == x.spec_key() {
            assert(t[i].spec_key() == k);
        }
    } else {
        if has_key(t, k) {
            let a = choose|a: int| 0 <= a < t.len() && #[trigger] t[a].spec_key() == k;
            if a < s.len() {
                assert(s[a].spec_key() == k);
            }
        }
        if has_key(s, k) {
            let a = choose|a: int| 0 <= a < s.len() && #[trigger] s[a].spec_key() == k;
            assert(t[a].spec_key() == k);
        }
        if k == x.spec_key() {
            assert(t[s.len() as int].spec_key() == k);
        }
    }
}

/// Merging scrapes `xs` one by one into well-formed scrapes `t` keeps them well formed, gives
/// the keys of both, and the earlier of the two earliest dates.
pub proof fn lemma_merge_all_facts(t: Seq<TypedScrape>, xs: Seq<TypedScrape>)
    requires
        t.len() > 0,
        keys_unique(t),
        all_wf(t),
        all_wf(xs),
    ensures
        merge_all(t, xs).len() > 0,
        keys_unique(merge_all(t, xs)),
        all_wf(merge_all(t, xs)),
        forall|k: ScrapeKey| #[trigger] has_key(merge_all(t, xs), k) <==> has_key(t, k) || has_key(xs, k),
        xs.len() > 0 ==> earliest_date(merge_all(t, xs)).spec_seconds() == StoryDate::spec_earliest(
            earliest_date(t),
            earliest_date(xs),
        ).spec_seconds(),
        xs.len() == 0 ==> merge_all(t, xs) == t,
    decreases xs.len(),
{
    if xs.len() > 0 {
        let d = xs.drop_last();
        let x = xs.last();
        lemma_merge_all_facts(t, d);
        let m = merge_all(t, d);
        assert(x.wf());
        lemma_merge_earliest(m, x);
        lemma_merge_keys_unique(m, x);
        assert forall|k: ScrapeKey| #[trigger] has_key(merge_all(t, xs), k) <==> has_key(t, k) || has_key(xs, k) by {
            lemma_merge_has_key(m, x, k);
            if has_key(d, k) {
                let a = choose|a: int| 0 <= a < d.len() && #[trigger] d[a].spec_key() == k;
                assert(xs[a].spec_key() == k);
            }
            if has_key(xs, k) {
                let a = choose|a: int| 0 <= a < xs.len() && #[trigger] xs[a].spec_key() == k;
                if a < d.len() {
                    assert(d[a].spec_key() == k);
                }
            }
        }
    }
}

/// A story: the scrapes believed to be about the same item, and the identifier that the
/// earliest of them gives.
#[derive(Debug)]
pub struct Story {
    pub id: StoryIdentifier,
    pub scrapes: Vec<TypedScrape>,
}

/// A story as a value: its identifier and its scrapes.
pub type StoryView = (IdentKey, Seq<TypedScrape>);

pub open spec fn views(s: Seq<Story>) -> Seq<StoryView> {
    s.map_values(|t: Story| t.view_of())
}

impl Clone for Story {
    fn clone(&self) -> (r: Self)
        ensures
            r.id == self.id,
            r.scrapes@ == self.scrapes@,
    {
        let mut scrapes: Vec<TypedScrape> = Vec::new();
        let mut i: usize = 0;
        while i < self.scrapes.len()
            invariant
                i <= self.scrapes@.len(),
                scrapes@ == self.scrapes@.subrange(0, i as int),
            decreases self.scrapes@.len() - i,
        {
            scrapes.push(self.scrapes[i].clone());
            i = i + 1;
            assert(scrapes@ =~= self.scrapes@.subrange(0, i as int));
        }
        assert(scrapes@ =~= self.scrapes@);
        Story { id: self.id.clone(), scrapes }
    }
}

impl Story {
    pub open spec fn view_of(&self) -> StoryView {
        (self.id.key(), self.scrapes@)
    }

    /// At least one scrape, no two with the same key, and the identifier's day is the day
    /// of the earliest scrape.
    pub open spec fn wf(&self) -> bool {
        &&& self.scrapes@.len() > 0
        &&& keys_unique(self.scrapes@)
        &&& all_wf(self.scrapes@)
        &&& self.id.date == date_bucket(earliest_date(self.scrapes@))
    }

    pub open spec fn spec_date(&self) -> StoryDate {
        earliest_date(self.scrapes@)
    }

    pub fn new(scrape: TypedScrape) -> (r: Story)
        requires
            scrape.wf(),
        ensures
            r.wf(),
            r.scrapes@ == seq![scrape],
            r.id.key() == (date_bucket(scrape.spec_date()), scrape.spec_core().url.norm.norm@),
    {
        let id = StoryIdentifier::new(scrape.shared().date, scrape.shared().url.normalization());
        let scrapes = vec![scrape];
        Story { id, scrapes }
    }

    /// Merges a scrape into the story: one with the key of a scrape already there is merged
    /// with it, another is added. The identifier follows the new earliest date.
    pub fn merge(&mut self, scrape: TypedScrape)
        requires
            old(self).wf(),
            scrape.wf(),
        ensures
            final(self).wf(),
            final(self).scrapes@ == merge_scrapes(old(self).scrapes@, scrape),
            final(self).id.norm == old(self).id.norm,
            final(self).spec_date().spec_seconds() == StoryDate::spec_earliest(
                old(self).spec_date(),
                scrape.spec_date(),
            ).spec_seconds(),
            old(self).scrapes@.contains(scrape) ==> final(self).scrapes@ == old(self).scrapes@
                && final(self).id == old(self).id,
    {
        let ghost s = self.scrapes@;
        proof {
            lemma_key_index(s, scrape.spec_key(), 0);
            lemma_merge_earliest(s, scrape);
            lemma_merge_keys_unique(s, scrape);
            if s.contains(scrape) {
                let i = choose|i: int| 0 <= i < s.len() && s[i] == scrape;
                lemma_merge_same_scrape(s, i);
            }
        }
        let mut i: usize = 0;
        while i < self.scrapes.len() && !self.scrapes[i].shared().source.same_as(
            &scrape.shared().source,
        )
            invariant
                i <= self.scrapes@.len(),
                self.scrapes@ == s,
                key_index(s, scrape.spec_key(), i as int) == key_index(s, scrape.spec_key(), 0),
            decreases self.scrapes@.len() - i,
        {
            i = i + 1;
        }
        if i < self.scrapes.len() {
            let mut e = self.scrapes.remove(i);
            e.merge(scrape);
            self.scrapes.insert(i, e);
            assert(self.scrapes@ =~= merge_scrapes(s, scrape));
        } else {
            self.scrapes.push(scrape);
        }
        let d = self.date();
        self.id.update_date(d);
    }

    /// Where the scrape with the key of `id` sits in the story, if it is there.
    pub fn find_scrape(&self, id: &ScrapeId) -> (r: Option<usize>)
        ensures
            r is Some <==> has_key(self.scrapes@, id.key()),
            r is Some ==> r->0 < self.scrapes@.len() && self.scrapes@[r->0 as int].spec_key() == id.key(),
    {
        let mut i: usize = 0;
        while i < self.scrapes.len()
            invariant
                i <= self.scrapes@.len(),
                forall|a: int| 0 <= a < i ==> (#[trigger] self.scrapes@[a]).spec_key() != id.key(),
            decreases self.scrapes@.len() - i,
        {
            if self.scrapes[i].shared().source.same_as(id) {
                assert(self.scrapes@[i as int].spec_key() == id.key());
                return Some(i);
            }
            i = i + 1;
        }
        None
    }

    /// Merges every scrape of `other` into this story, in order.
    pub fn absorb(&mut self, other: Story)
        requires
            old(self).wf(),
            other.wf(),
        ensures
            final(self).wf(),
            final(self).scrapes@ == merge_all(old(self).scrapes@, other.scrapes@),
            final(self).id.norm == old(self).id.norm,
    {
        let ghost t0 = self.scrapes@;
        let ghost xs = other.scrapes@;
        let mut input = other.scrapes;
        let ghost mut i: int = 0;
        while input.len() > 0
            invariant
                0 <= i <= xs.len(),
                input@ == xs.subrange(i, xs.len() as int),
                self.wf(),
                self.scrapes@ == merge_all(t0, xs.subrange(0, i)),
                self.id.norm == old(self).id.norm,
                all_wf(xs),
            decreases input@.len(),
        {
            assert(input@.len() == xs.len() - i);
            let x = input.remove(0);
            assert(x == xs[i]);
            self.merge(x);
            proof {
                assert(xs.subrange(0, i + 1).drop_last() =~= xs.subrange(0, i));
                i = i + 1;
            }
            assert(input@ =~= xs.subrange(i, xs.len() as int));
        }
        assert(xs.subrange(0, i) =~= xs);
    }

    /// The story's date: the earliest date among its scrapes.
    pub fn date(&self) -> (r: StoryDate)
        requires
            self.scrapes@.len() > 0,
        ensures
            r == self.spec_date(),
    {
        let mut d = self.scrapes[0].shared().date;
        let mut i: usize = 1;
        while i < self.scrapes.len()
            invariant
                1 <= i <= self.scrapes@.len(),
                d == earliest_date(self.scrapes@.subrange(0, i as int)),
            decreases self.scrapes@.len() - i,
        {
            assert(self.scrapes@.subrange(0, i + 1).drop_last() =~= self.scrapes@.subrange(
                0,
                i as int,
            ));
            d = StoryDate::earliest(d, self.scrapes[i].shared().date);
            i = i + 1;
        }
        assert(self.scrapes@.subrange(0, i as int) =~= self.scrapes@);
        d
    }

    /// The title of the first scrape.
    pub fn title(&self) -> (r: String)
        requires
            self.scrapes@.len() > 0,
        ensures
            r == self.scrapes@[0].spec_core().title,
    {
        self.scrapes[0].shared().title.clone()
    }

    /// The presentation record of the story. Tags are left empty, for the tagger to fill.
    pub fn render(&self) -> (r: StoryRender)
        requires
            self.scrapes@.len() > 0,
        ensures
            r.id@ == url_safe_base64(encode_utf8(ident_text(self.id.key()))),
            r.url@ == self.scrapes@[0].spec_core().url.url@,
            r.domain@ == self.scrapes@[0].spec_core().url.host@,
            r.title == self.scrapes@[0].spec_core().title,
            r.date == self.spec_date(),
            r.tags@.len() == 0,
            r.comment_links@.len() == self.scrapes@.len(),
            r.scrapes@.len() == self.scrapes@.len(),
            forall|i: int|
                0 <= i < self.scrapes@.len() ==> {
                    let k = #[trigger] self.scrapes@[i].spec_key();
                    &&& r.scrapes@[i].0@ == key_text(k)
                    &&& r.scrapes@[i].1 == self.scrapes@[i]
                    &&& r.comment_links@[i].0@ == source_name(k.0)
                    &&& r.comment_links@[i].1@ == comments_url(k)
                },
    {
        let mut comment_links: Vec<(String, String)> = Vec::new();
        let mut scrapes: Vec<(String, TypedScrape)> = Vec::new();
        let mut i: usize = 0;
        while i < self.scrapes.len()
            invariant
                i <= self.scrapes@.len(),
                comment_links@.len() == i,
                scrapes@.len() == i,
                forall|j: int|
                    0 <= j < i ==> {
                        let k = #[trigger] self.scrapes@[j].spec_key();
                        &&& scrapes@[j].0@ == key_text(k)
                        &&& scrapes@[j].1 == self.scrapes@[j]
                        &&& comment_links@[j].0@ == source_name(k.0)
                        &&& comment_links@[j].1@ == comments_url(k)
                    },
            decreases self.scrapes@.len() - i,
        {
            let id = &self.scrapes[i].shared().source;
            comment_links.push((id.source.name(), comments_link(id)));
            scrapes.push((id.to_key(), self.scrapes[i].clone()));
            i = i + 1;
        }
        let first = self.scrapes[0].shared();
        StoryRender {
            id: self.id.to_base64(),
            url: first.url.url.clone(),
            domain: first.url.host.clone(),
            title: first.title.clone(),
            date: self.date(),
            tags: Vec::new(),
            comment_links,
            scrapes,
        }
    }

    /// The URL of the first scrape.
    pub fn url(&self) -> (r: StoryUrl)
        requires
            self.scrapes@.len() > 0,
        ensures
            r == self.scrapes@[0].spec_core().url,
    {
        self.scrapes[0].shared().url.clone()
    }
}

} // verus!
