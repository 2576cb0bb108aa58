use progscrape::{
    HackerNewsStory, LobstersStory, MemIndex, RedditStory, Scrape, ScrapeId, ScrapeIdError,
    ScrapeSource, Story, StoryDate, StoryIdentifier, StoryUrl, TypedScrape,
};
use std::time::{SystemTime, UNIX_EPOCH};

const JAN_1_2024: i64 = 1704067200;
const HOUR: i64 = 3600;

fn date(secs: i64) -> StoryDate {
    StoryDate::from_seconds(secs).expect("date in range")
}

fn hn(id: &str, url: &str, secs: i64, points: u32, comments: u32) -> TypedScrape {
    let url = StoryUrl::parse(url).expect("Failed to parse URL");
    TypedScrape::HackerNews(Scrape::new(
        id.to_string(),
        format!("HN story {}", id),
        url,
        date(secs),
        HackerNewsStory { points, comments, position: 1 },
    ))
}

fn reddit(id: &str, sub: &str, url: &str, secs: i64, score: u32) -> TypedScrape {
    let url = StoryUrl::parse(url).expect("Failed to parse URL");
    TypedScrape::Reddit(Scrape::new_subsource(
        id.to_string(),
        sub.to_string(),
        format!("Reddit story {}", id),
        url,
        date(secs),
        RedditStory {
            subreddit: sub.to_string(),
            flair: String::new(),
            position: 3,
            upvotes: score,
            downvotes: 1,
            num_comments: 2,
            score,
            upvote_ratio_thousandths: 900,
        },
    ))
}

#[test]
fn test_story_identifier() {
    let url = StoryUrl::parse("https://google.com/?q=foo").expect("Failed to parse URL");
    let now = SystemTime::now().duration_since(UNIX_EPOCH).unwrap().as_secs() as i64;
    let id = StoryIdentifier::new(date(now), url.normalization());
    let base64 = id.to_base64();
    assert_eq!(id, StoryIdentifier::from_base64(&base64).expect("Failed to decode ID"));
}

#[test]
fn identifier_base64_exact_value() {
    let url = StoryUrl::parse("https://www.a.com/x/").unwrap();
    let id = StoryIdentifier::new(date(JAN_1_2024 + 10 * HOUR), url.normalization());
    assert_eq!(id.to_text(), "2024:1:1:a.com/x");
    assert_eq!(id.to_base64(), "MjAyNDoxOjE6YS5jb20veA");
    let back = StoryIdentifier::from_base64("MjAyNDoxOjE6YS5jb20veA").unwrap();
    assert_eq!((back.year(), back.month(), back.day()), (2024, 1, 1));
    assert_eq!(back.norm.string(), "a.com/x");
}

#[test]
fn identifier_round_trip_keeps_colons_in_url() {
    let url = StoryUrl::parse("https://a.com:8080/p?x=1&utm_source=t&y=2#frag").unwrap();
    assert_eq!(url.normalization().string(), "a.com:8080/p?x=1&y=2");
    let id = StoryIdentifier::new(date(951782400), url.normalization());
    assert_eq!((id.year(), id.month(), id.day()), (2000, 2, 29));
    let back = StoryIdentifier::from_base64(&id.to_base64()).unwrap();
    assert_eq!(back, id);
}

#[test]
fn identifier_rejects_malformed() {
    assert!(StoryIdentifier::from_base64("!!!").is_none());
    assert!(StoryIdentifier::from_base64("MjAyNDoxOjE6YS5jb20veA==").is_none());
    assert!(StoryIdentifier::from_text("2024:1:a.com").is_none());
    assert!(StoryIdentifier::from_text("2024:13x:1:a.com").is_none());
    assert!(StoryIdentifier::from_text("70000:1:1:a.com").is_none());
    let ok = StoryIdentifier::from_text("2024:01:02:a.com").unwrap();
    assert_eq!((ok.year(), ok.month(), ok.day()), (2024, 1, 2));
}

#[test]
fn identifier_update_and_match_date() {
    let url = StoryUrl::parse("http://a.com/x").unwrap();
    let mut id = StoryIdentifier::new(date(JAN_1_2024), url.normalization());
    assert!(id.matches_date(date(JAN_1_2024 + 23 * HOUR)));
    assert!(!id.matches_date(date(JAN_1_2024 + 24 * HOUR)));
    id.update_date(date(JAN_1_2024 - 1));
    assert_eq!((id.year(), id.month(), id.day()), (2023, 12, 31));
}

#[test]
fn dates_and_calendar() {
    assert!(StoryDate::from_seconds(-1).is_none());
    assert!(StoryDate::from_seconds(253402300800).is_none());
    assert_eq!(date(0).ymd(), (1970, 1, 1));
    assert_eq!(date(253402300799).ymd(), (9999, 12, 31));
    assert_eq!(date(951782400).ymd(), (2000, 2, 29));
    assert_eq!(StoryDate::earliest(date(5), date(3)).seconds(), 3);
}

#[test]
fn url_parse_and_normalize() {
    assert!(StoryUrl::parse("ftp://a.com/x").is_none());
    assert!(StoryUrl::parse("https:///x").is_none());
    let u = StoryUrl::parse("HTTPS://WWW.Example.COM/Path//?utm_medium=x#top").is_none();
    assert!(u);
    let u = StoryUrl::parse("https://WWW.Example.COM/Path//?utm_medium=x#top").unwrap();
    assert_eq!(u.host(), "www.example.com");
    assert_eq!(u.normalization().string(), "example.com/Path");
    assert_eq!(u.raw(), "https://WWW.Example.COM/Path//?utm_medium=x#top");
    let a = StoryUrl::parse("https://a.com/x?utm=1").unwrap();
    let b = StoryUrl::parse("https://a.com/x").unwrap();
    assert!(a.normalization().same_as(b.normalization()));
}

#[test]
fn scrape_id_keys() {
    let id = ScrapeId::new(ScrapeSource::Reddit, Some("programming".to_string()), "abc".to_string());
    assert_eq!(id.to_key(), "reddit-programming-abc");
    let back = ScrapeId::from_key("reddit-programming-abc").unwrap();
    assert!(back.same_as(&id));
    let plain = ScrapeId::new(ScrapeSource::HackerNews, None, "123".to_string());
    assert_eq!(plain.to_key(), "hackernews-123");
    assert!(ScrapeId::from_key("hackernews-123").unwrap().same_as(&plain));
    assert_eq!(ScrapeId::from_key("nohyphen").unwrap_err(), ScrapeIdError::InvalidFormat);
    assert_eq!(ScrapeId::from_key("bogus-1").unwrap_err(), ScrapeIdError::InvalidSource);
    assert!(!plain.same_as(&id));
}

#[test]
fn scrape_merge_policy() {
    let mut a = hn("1", "https://a.com/x", JAN_1_2024 + 14 * HOUR, 10, 7);
    let b = hn("1", "https://a.com/y", JAN_1_2024 + 10 * HOUR, 25, 3);
    assert!(a.merge(b));
    match &a {
        TypedScrape::HackerNews(s) => {
            assert_eq!(s.data.points, 25);
            assert_eq!(s.data.comments, 7);
            assert_eq!(s.core.date.seconds(), JAN_1_2024 + 10 * HOUR);
            assert_eq!(s.core.url.raw(), "https://a.com/y");
        }
        _ => panic!("variant changed"),
    }
}

#[test]
fn merge_of_other_source_is_refused() {
    let mut a = hn("1", "https://a.com/x", JAN_1_2024, 10, 7);
    let b = reddit("1", "rust", "https://a.com/x", JAN_1_2024, 40);
    assert!(!a.merge(b));
    match &a {
        TypedScrape::HackerNews(s) => assert_eq!(s.data.points, 10),
        _ => panic!("variant changed"),
    }
}

#[test]
fn merge_counters_take_maximum() {
    let mut a = reddit("9", "rust", "https://a.com/x", JAN_1_2024 + HOUR, 40);
    let b = reddit("9", "rust", "https://a.com/x", JAN_1_2024, 30);
    assert!(a.merge(b));
    match &a {
        TypedScrape::Reddit(s) => {
            assert_eq!(s.data.score, 40);
            assert_eq!(s.data.upvotes, 40);
            assert_eq!(s.data.position, 3);
            assert_eq!(s.core.date.seconds(), JAN_1_2024);
        }
        _ => panic!("variant changed"),
    }
    let mut l = TypedScrape::Lobsters(Scrape::new(
        "l".to_string(),
        "t".to_string(),
        StoryUrl::parse("https://b.com").unwrap(),
        date(JAN_1_2024),
        LobstersStory { num_comments: 4, position: 2, score: 1 },
    ));
    let l2 = l.clone();
    assert!(l.merge(l2));
    assert_eq!(l.engagement(), 5);
}

#[test]
fn story_merge_of_identical_copy_changes_nothing() {
    let x = hn("1", "https://a.com/x", JAN_1_2024 + 10 * HOUR, 10, 2);
    let mut story = Story::new(x.clone());
    story.merge(reddit("r", "rust", "https://a.com/x", JAN_1_2024 + 11 * HOUR, 5));
    let before = story.clone();
    story.merge(x);
    assert_eq!(story.scrapes.len(), 2);
    assert_eq!(story.id, before.id);
    assert_eq!(story.date().seconds(), before.date().seconds());
    let keys = |s: &Story| s.render().scrapes.into_iter().map(|(k, _)| k).collect::<Vec<_>>();
    assert_eq!(keys(&story), keys(&before));
}

#[test]
fn story_date_is_earliest_scrape() {
    let mut story = Story::new(hn("1", "https://a.com/x", JAN_1_2024 + 20 * HOUR, 1, 1));
    story.merge(reddit("r", "rust", "https://a.com/x", JAN_1_2024 + 5 * HOUR, 5));
    story.merge(hn("1", "https://a.com/x", JAN_1_2024 + 22 * HOUR, 3, 1));
    assert_eq!(story.date().seconds(), JAN_1_2024 + 5 * HOUR);
    story.merge(hn("2", "https://a.com/x", JAN_1_2023_LAST, 3, 1));
    assert_eq!(story.date().seconds(), JAN_1_2023_LAST);
    assert_eq!((story.id.year(), story.id.month(), story.id.day()), (2023, 12, 31));
}

const JAN_1_2023_LAST: i64 = JAN_1_2024 - 1;

#[test]
fn story_render() {
    let mut story = Story::new(hn("7", "https://www.a.com/x?utm=1", JAN_1_2024, 1, 1));
    story.merge(reddit("r5", "rust", "https://a.com/x", JAN_1_2024, 5));
    let r = story.render();
    assert_eq!(r.id, "MjAyNDoxOjE6YS5jb20veA");
    assert_eq!(r.url, "https://www.a.com/x?utm=1");
    assert_eq!(r.domain, "www.a.com");
    assert_eq!(r.title, "HN story 7");
    assert_eq!(r.title, story.title());
    assert_eq!(story.url().raw(), "https://www.a.com/x?utm=1");
    assert!(r.tags.is_empty());
    let keys: Vec<&str> = r.scrapes.iter().map(|(k, _)| k.as_str()).collect();
    assert_eq!(keys, vec!["hackernews-7", "reddit-rust-r5"]);
    match &r.scrapes[1].1 {
        TypedScrape::Reddit(s) => assert_eq!(s.data.score, 5),
        _ => panic!("wrong scrape under its key"),
    }
    assert_eq!(
        r.comment_links,
        vec![
            ("hackernews".to_string(), "https://news.ycombinator.com/item?id=7".to_string()),
            ("reddit".to_string(), "https://www.reddit.com/r/rust/comments/r5".to_string()),
        ]
    );
}

#[test]
fn end_to_end_same_hn_story_twice() {
    let mut index = MemIndex::new();
    index.insert_scrapes(vec![
        hn("1", "https://a.com/x?utm=1", JAN_1_2024 + 10 * HOUR, 10, 0),
        hn("1", "https://a.com/x", JAN_1_2024 + 14 * HOUR, 25, 0),
    ]);
    let stories = index.get_all_stories();
    assert_eq!(stories.len(), 1);
    assert_eq!(stories[0].date().seconds(), JAN_1_2024 + 10 * HOUR);
    assert_eq!(stories[0].scrapes.len(), 1);
    match &stories[0].scrapes[0] {
        TypedScrape::HackerNews(s) => assert_eq!(s.data.points, 25),
        _ => panic!("wrong source"),
    }
}

#[test]
fn end_to_end_reddit_and_hn_same_story() {
    let mut index = MemIndex::default();
    index.insert_scrapes(vec![
        reddit("abc", "programming", "https://www.a.com/x/", JAN_1_2024 + 2 * HOUR, 50),
        hn("99", "http://a.com/x", JAN_1_2024 + 20 * HOUR, 10, 1),
    ]);
    assert_eq!(index.story_count(), 1);
    let stories = index.get_all_stories();
    assert_eq!(stories[0].scrapes.len(), 2);
    assert_eq!(stories[0].scrapes[0].shared().source.source, ScrapeSource::Reddit);
    assert_eq!(stories[0].scrapes[1].shared().source.source, ScrapeSource::HackerNews);
}

#[test]
fn dedup_separates_other_day_or_url() {
    let mut index = MemIndex::new();
    index.insert_scrapes(vec![
        hn("1", "https://a.com/x", JAN_1_2024 + 23 * HOUR, 1, 1),
        hn("2", "https://a.com/x", JAN_1_2024 + 24 * HOUR, 1, 1),
        hn("3", "https://a.com/y", JAN_1_2024 + 23 * HOUR, 1, 1),
        hn("4", "https://a.com/x?utm_source=z", JAN_1_2024, 1, 1),
    ]);
    let stories = index.get_all_stories();
    assert_eq!(stories.len(), 3);
    assert_eq!(stories[0].scrapes.len(), 2);
    assert_eq!(stories[1].scrapes.len(), 1);
    assert_eq!(stories[2].scrapes.len(), 1);
}
