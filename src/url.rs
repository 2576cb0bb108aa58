//! Story URLs and their normalized form, the part of a URL that decides story identity.

use vstd::prelude::*;
use crate::text::{ascii_lower, chars_of, lowercase_of, push_char, push_range, string_of, sub_chars};

verus! {

pub open spec fn https_prefix() -> Seq<char> {
    seq!['h', 't', 't', 'p', 's', ':', '/', '/']
}

pub open spec fn http_prefix() -> Seq<char> {
    seq!['h', 't', 't', 'p', ':', '/', '/']
}

pub open spec fn www_prefix() -> Seq<char> {
    seq!['w', 'w', 'w', '.']
}

pub open spec fn utm_prefix() -> Seq<char> {
    seq!['u', 't', 'm']
}

pub open spec fn starts_with(s: Seq<char>, p: Seq<char>) -> bool {
    s.len() >= p.len() && s.subrange(0, p.len() as int) == p
}

/// Length of the scheme part (`http://` or `https://`), or 0 when there is none.
pub open spec fn scheme_len(u: Seq<char>) -> int {
    if starts_with(u, https_prefix()) {
        8
    } else if starts_with(u, http_prefix()) {
        7
    } else {
        0
    }
}

/// The characters at which a part of a URL ends: `/?#` for the host, `?#` for the path,
/// `#` for the query and `&#` for one query parameter.
pub enum Stop {
    Host,
    Path,
    Query,
}

pub open spec fn is_stop(c: char, stop: Stop) -> bool {
    match stop {
        Stop::Host => c == '/' || c == '?' || c == '#',
        Stop::Path => c == '?' || c == '#',
        Stop::Query => c == '#',
    }
}

/// Index of the first stop character at or after `from`, or the length of `s`.
pub open spec fn find_stop(s: Seq<char>, from: int, stop: Stop) -> int
    decreases s.len() - from,
{
    if from >= s.len() {
        s.len() as int
    } else if is_stop(s[from], stop) {
        from
    } else {
        find_stop(s, from + 1, stop)
    }
}

/// Index of the first `c` at or after `from`, or the length of `s`.
pub open spec fn find_char(s: Seq<char>, from: int, c: char) -> int
    decreases s.len() - from,
{
    if from >= s.len() {
        s.len() as int
    } else if s[from] == c {
        from
    } else {
        find_char(s, from + 1, c)
    }
}

pub proof fn lemma_find_char_at(s: Seq<char>, from: int, t: int, c: char)
    requires
        0 <= from <= t < s.len(),
        s[t] == c,
        forall|k: int| from <= k < t ==> s[k] != c,
    ensures
        find_char(s, from, c) == t,
    decreases t - from,
{
    if from < t {
        lemma_find_char_at(s, from + 1, t, c);
    }
}

pub proof fn lemma_find_stop_bounds(s: Seq<char>, from: int, stop: Stop)
    requires
        0 <= from <= s.len(),
    ensures
        from <= find_stop(s, from, stop) <= s.len(),
        find_stop(s, from, stop) < s.len() ==> is_stop(s[find_stop(s, from, stop)], stop),
    decreases s.len() - from,
{
    if from < s.len() && !is_stop(s[from], stop) {
        lemma_find_stop_bounds(s, from + 1, stop);
    }
}

pub open spec fn host_end(u: Seq<char>) -> int {
    find_stop(u, scheme_len(u), Stop::Host)
}

pub open spec fn path_end(u: Seq<char>) -> int {
    find_stop(u, host_end(u), Stop::Path)
}

/// The host as written in the URL, in lower case.
pub open spec fn host_of(u: Seq<char>) -> Seq<char> {
    ascii_lower(u.subrange(scheme_len(u), host_end(u)))
}

/// A URL is accepted when it has an `http` or `https` scheme and a non-empty host.
pub open spec fn is_story_url(u: Seq<char>) -> bool {
    scheme_len(u) > 0 && host_end(u) > scheme_len(u)
}

pub open spec fn strip_www(h: Seq<char>) -> Seq<char> {
    if starts_with(h, www_prefix()) {
        h.subrange(4, h.len() as int)
    } else {
        h
    }
}

/// `p` without its trailing slashes.
pub open spec fn trim_slashes(p: Seq<char>) -> Seq<char>
    decreases p.len(),
{
    if p.len() > 0 && p.last() == '/' {
        trim_slashes(p.drop_last())
    } else {
        p
    }
}

/// A query parameter is kept unless it is empty or a tracking parameter (`utm...`).
pub open spec fn keeps_param(p: Seq<char>) -> bool {
    p.len() > 0 && !starts_with(p, utm_prefix())
}

/// `a` and `b` joined by `&`, where an empty side adds nothing.
pub open spec fn join_params(a: Seq<char>, b: Seq<char>) -> Seq<char> {
    if a.len() == 0 {
        b
    } else if b.len() == 0 {
        a
    } else {
        a.push('&') + b
    }
}

/// The kept parameters of query `q` from index `i` on, appended to `acc`.
pub open spec fn kept_params_from(q: Seq<char>, i: int, acc: Seq<char>) -> Seq<char>
    decreases q.len() + 1 - i,
{
    if i > q.len() || i < 0 {
        acc
    } else {
        let j = find_char(q, i, '&');
        if j < i || j > q.len() {
            acc
        } else {
            let p = q.subrange(i, j);
            kept_params_from(q, j + 1, join_params(acc, if keeps_param(p) { p } else { Seq::empty() }))
        }
    }
}

/// The query of URL `u` (between `?` and `#`), without its tracking parameters.
pub open spec fn kept_query(u: Seq<char>) -> Seq<char> {
    let pe = path_end(u);
    if pe < u.len() && u[pe] == '?' {
        let q = u.subrange(pe + 1, find_stop(u, pe + 1, Stop::Query));
        kept_params_from(q, 0, Seq::empty())
    } else {
        Seq::empty()
    }
}

/// The normalized form of URL `u`: lower-case host without `www.`, path without trailing
/// slashes, and the query without tracking parameters. Scheme and fragment are dropped.
pub open spec fn normalize(u: Seq<char>) -> Seq<char> {
    let q = kept_query(u);
    strip_www(host_of(u)) + trim_slashes(u.subrange(host_end(u), path_end(u))) + if q.len() == 0 {
        Seq::empty()
    } else {
        seq!['?'] + q
    }
}

fn stops_at(c: char, stop: &Stop) -> (r: bool)
    ensures
        r == is_stop(c, *stop),
{
    match stop {
        Stop::Host => c == '/' || c == '?' || c == '#',
        Stop::Path => c == '?' || c == '#',
        Stop::Query => c == '#',
    }
}

fn scan_stop(cs: &Vec<char>, from: usize, stop: Stop) -> (r: usize)
    requires
        from <= cs@.len(),
    ensures
        r == find_stop(cs@, from as int, stop),
        from <= r <= cs@.len(),
{
    let mut i = from;
    while i < cs.len() && !stops_at(cs[i], &stop)
        invariant
            from <= i <= cs@.len(),
            find_stop(cs@, i as int, stop) == find_stop(cs@, from as int, stop),
        decreases cs@.len() - i,
    {
        i = i + 1;
    }
    i
}

pub(crate) fn scan_char(cs: &Vec<char>, from: usize, c: char) -> (r: usize)
    requires
        from <= cs@.len(),
    ensures
        r == find_char(cs@, from as int, c),
        from <= r <= cs@.len(),
{
    let mut i = from;
    while i < cs.len() && cs[i] != c
        invariant
            from <= i <= cs@.len(),
            find_char(cs@, i as int, c) == find_char(cs@, from as int, c),
        decreases cs@.len() - i,
    {
        i = i + 1;
    }
    i
}

pub(crate) fn has_prefix(cs: &Vec<char>, from: usize, to: usize, p: &Vec<char>) -> (r: bool)
    requires
        from <= to <= cs@.len(),
    ensures
        r == starts_with(cs@.subrange(from as int, to as int), p@),
{
    let ghost s = cs@.subrange(from as int, to as int);
    if to - from < p.len() {
        return false;
    }
    let mut i: usize = 0;
    while i < p.len()
        invariant
            i <= p@.len() <= to - from,
            from <= to <= cs@.len(),
            s == cs@.subrange(from as int, to as int),
            s.subrange(0, i as int) == p@.subrange(0, i as int),
        decreases p@.len() - i,
    {
        if cs[from + i] != p[i] {
            assert(s.subrange(0, p@.len() as int)[i as int] != p@[i as int]);
            return false;
        }
        i = i + 1;
        assert(s.subrange(0, i as int) =~= p@.subrange(0, i as int));
    }
    assert(p@.subrange(0, i as int) =~= p@);
    true
}

fn scheme_length(cs: &Vec<char>) -> (r: usize)
    ensures
        r == scheme_len(cs@),
{
    let https = vec!['h', 't', 't', 'p', 's', ':', '/', '/'];
    let http = vec!['h', 't', 't', 'p', ':', '/', '/'];
    assert(https@ =~= https_prefix());
    assert(http@ =~= http_prefix());
    assert(cs@.subrange(0, cs@.len() as int) =~= cs@);
    if has_prefix(cs, 0, cs.len(), &https) {
        8
    } else if has_prefix(cs, 0, cs.len(), &http) {
        7
    } else {
        0
    }
}

/// The kept parameters of query `q`, joined by `&`.
fn kept_params(q: &Vec<char>) -> (r: String)
    ensures
        r@ == kept_params_from(q@, 0, Seq::empty()),
{
    let utm = vec!['u', 't', 'm'];
    assert(utm@ =~= utm_prefix());
    let mut out = String::new();
    let mut i: usize = 0;
    loop
        invariant
            i <= q@.len(),
            utm@ == utm_prefix(),
            kept_params_from(q@, i as int, out@) == kept_params_from(q@, 0, Seq::empty()),
        ensures
            out@ == kept_params_from(q@, 0, Seq::empty()),
        decreases q@.len() - i,
    {
        let j = scan_char(q, i, '&');
        let ghost p = q@.subrange(i as int, j as int);
        let ghost before = out@;
        if j > i && !has_prefix(q, i, j, &utm) {
            if !out.as_str().is_empty() {
                push_char(&mut out, '&');
            }
            push_range(&mut out, q, i, j);
            assert(out@ =~= join_params(before, p));
        } else {
            assert(join_params(before, Seq::empty()) =~= before);
        }
        if j == q.len() {
            assert(kept_params_from(q@, j + 1, out@) == out@);
            return out;
        }
        i = j + 1;
    }
}

fn trimmed_path_end(cs: &Vec<char>, from: usize, to: usize) -> (r: usize)
    requires
        from <= to <= cs@.len(),
    ensures
        from <= r <= to,
        cs@.subrange(from as int, r as int) == trim_slashes(cs@.subrange(from as int, to as int)),
{
    let mut end = to;
    while end > from && cs[end - 1] == '/'
        invariant
            from <= end <= to <= cs@.len(),
            trim_slashes(cs@.subrange(from as int, end as int)) == trim_slashes(
                cs@.subrange(from as int, to as int),
            ),
        decreases end,
    {
        assert(cs@.subrange(from as int, end as int).drop_last() =~= cs@.subrange(
            from as int,
            end - 1,
        ));
        end = end - 1;
    }
    end
}

/// The normalized form of a URL, used only to compare story identity.
#[derive(Debug, PartialEq, Eq, Hash, PartialOrd, Ord)]
pub struct StoryUrlNorm {
    pub norm: String,
}

impl Clone for StoryUrlNorm {
    fn clone(&self) -> (r: Self)
        ensures
            r == *self,
    {
        StoryUrlNorm { norm: self.norm.clone() }
    }
}

impl StoryUrlNorm {
    pub fn from_string(norm: String) -> (r: StoryUrlNorm)
        ensures
            r.norm@ == norm@,
    {
        StoryUrlNorm { norm }
    }

    pub fn string(&self) -> (r: &str)
        ensures
            r@ == self.norm@,
    {
        self.norm.as_str()
    }

    /// Whether two normalized URLs are the same.
    pub fn same_as(&self, other: &StoryUrlNorm) -> (r: bool)
        ensures
            r == (self.norm@ == other.norm@),
    {
        self.norm == other.norm
    }
}

/// A story URL with an `http` or `https` scheme and its normalized form.
#[derive(Debug)]
pub struct StoryUrl {
    pub url: String,
    pub host: String,
    pub norm: StoryUrlNorm,
}

impl Clone for StoryUrl {
    fn clone(&self) -> (r: Self)
        ensures
            r == *self,
    {
        StoryUrl { url: self.url.clone(), host: self.host.clone(), norm: self.norm.clone() }
    }
}

impl StoryUrl {
    /// A parsed URL holds its lower-case host and normalized form.
    pub open spec fn wf(&self) -> bool {
        &&& is_story_url(self.url@)
        &&& self.host@ == host_of(self.url@)
        &&& self.norm.norm@ == normalize(self.url@)
    }

    /// Parses `s`, which must have an `http` or `https` scheme and a non-empty host.
    pub fn parse(s: &str) -> (r: Option<StoryUrl>)
        ensures
            r is Some <==> is_story_url(s@),
            r is Some ==> r->0.url@ == s@ && r->0.wf(),
    {
        let cs = chars_of(s);
        let sl = scheme_length(&cs);
        if sl == 0 {
            return None;
        }
        let he = scan_stop(&cs, sl, Stop::Host);
        if he == sl {
            return None;
        }
        let pe = scan_stop(&cs, he, Stop::Path);
        let host = lowercase_of(&cs, sl, he);
        let hv = chars_of(host.as_str());
        let www = vec!['w', 'w', 'w', '.'];
        assert(www@ =~= www_prefix());
        assert(hv@.subrange(0, hv@.len() as int) =~= hv@);
        let mut norm = if has_prefix(&hv, 0, hv.len(), &www) {
            string_of(&hv, 4, hv.len())
        } else {
            string_of(&hv, 0, hv.len())
        };
        assert(norm@ == strip_www(host@));
        let path_to = trimmed_path_end(&cs, he, pe);
        push_range(&mut norm, &cs, he, path_to);
        proof {
            lemma_find_stop_bounds(cs@, scheme_len(cs@), Stop::Host);
            lemma_find_stop_bounds(cs@, he as int, Stop::Path);
        }
        let kept = if pe < cs.len() && cs[pe] == '?' {
            let qe = scan_stop(&cs, pe + 1, Stop::Query);
            let q = sub_chars(&cs, pe + 1, qe);
            kept_params(&q)
        } else {
            String::new()
        };
        assert(kept@ == kept_query(cs@));
        if !kept.as_str().is_empty() {
            push_char(&mut norm, '?');
            let kv = chars_of(kept.as_str());
            push_range(&mut norm, &kv, 0, kv.len());
            assert(kv@.subrange(0, kv@.len() as int) =~= kv@);
        }
        assert(norm@ =~= normalize(cs@));
        let url = string_of(&cs, 0, cs.len());
        assert(url@ =~= s@);
        assert(host@ == host_of(s@));
        Some(StoryUrl { url, host, norm: StoryUrlNorm { norm } })
    }

    pub fn raw(&self) -> (r: &str)
        ensures
            r@ == self.url@,
    {
        self.url.as_str()
    }

    pub fn host(&self) -> (r: &str)
        ensures
            r@ == self.host@,
    {
        self.host.as_str()
    }

    pub fn normalization(&self) -> (r: &StoryUrlNorm)
        ensures
            *r == self.norm,
    {
        &self.norm
    }
}

} // verus!
