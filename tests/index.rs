use progscrape::{
    HackerNewsStory, MemIndex, QueryError, Storage, StorageWriter, RedditConfig, RedditStory, Scrape, ScrapeConfig, Story,
    StoryDate, StoryEvaluator, StoryIndex, StoryScoreConfig, StoryScorer, StoryUrl,
    SubredditConfig, TaggerConfig, TypedScrape,
};

const JAN_1_2024: i64 = 1704067200;
const HOUR: i64 = 3600;

fn date(secs: i64) -> StoryDate {
    StoryDate::from_seconds(secs).expect("date in range")
}

fn hn_titled(id: &str, title: &str, url: &str, secs: i64, points: u32, comments: u32) -> TypedScrape {
    TypedScrape::HackerNews(Scrape::new(
        id.to_string(),
        title.to_string(),
        StoryUrl::parse(url).unwrap(),
        date(secs),
        HackerNewsStory { points, comments, position: 1 },
    ))
}

fn hn(id: &str, url: &str, secs: i64, points: u32) -> TypedScrape {
    hn_titled(id, &format!("Story {}", id), url, secs, points, 0)
}

fn reddit_flair(id: &str, sub: &str, flair: &str, url: &str, secs: i64) -> TypedScrape {
    TypedScrape::Reddit(Scrape::new_subsource(
        id.to_string(),
        sub.to_string(),
        "A reddit story".to_string(),
        StoryUrl::parse(url).unwrap(),
        date(secs),
        RedditStory {
            subreddit: sub.to_string(),
            flair: flair.to_string(),
            position: 0,
            upvotes: 3,
            downvotes: 0,
            num_comments: 1,
            score: 3,
            upvote_ratio_thousandths: 1000,
        },
    ))
}

fn populated() -> StoryIndex {
    let mut index = StoryIndex::new();
    let mut scrapes = vec![];
    for i in 0..30u32 {
        let url = format!("https://site{}.com/story", i);
        let secs = JAN_1_2024 - (i as i64) * 20 * 24 * HOUR;
        scrapes.push(hn(&format!("{}", i), &url, secs, (i * 7) % 50));
    }
    index.insert_scrapes(scrapes);
    index
}

#[test]
fn shards_hold_each_story_once() {
    let index = populated();
    let count = index.story_count();
    assert_eq!(count.total, 30);
    let mut seen = 0;
    for (shard, n) in &count.by_shard {
        let stories = index.stories_by_shard(*shard);
        assert_eq!(stories.len(), *n);
        for story in &stories {
            assert_eq!(story.id.shard(), *shard);
            seen += 1;
            let mut copies = 0;
            for (other, _) in &count.by_shard {
                for s in index.stories_by_shard(*other) {
                    if s.id == story.id {
                        copies += 1;
                    }
                }
            }
            assert_eq!(copies, 1);
        }
    }
    assert_eq!(seen, 30);
}

#[test]
fn stories_by_shard_and_get_story() {
    let mut index = StoryIndex::new();
    index.insert_scrapes(vec![
        hn("1", "https://a.com/x?utm=1", JAN_1_2024 + 10 * HOUR, 10),
        hn("1", "https://a.com/x", JAN_1_2024 + 14 * HOUR, 25),
        hn("2", "https://b.com/", JAN_1_2024 - HOUR, 1),
    ]);
    let jan = index.stories_by_shard((2024, 1));
    assert_eq!(jan.len(), 1);
    assert_eq!(jan[0].date().seconds(), JAN_1_2024 + 10 * HOUR);
    match &jan[0].scrapes[0] {
        TypedScrape::HackerNews(s) => assert_eq!(s.data.points, 25),
        _ => panic!("wrong source"),
    }
    let dec = index.stories_by_shard((2023, 12));
    assert_eq!(dec.len(), 1);
    assert!(index.stories_by_shard((2022, 5)).is_empty());
    let id = jan[0].id.clone();
    assert!(index.get_story(&id).is_some());
    let mut other = id.clone();
    other.update_date(date(0));
    assert!(index.get_story(&other).is_none());
    assert_eq!(index.story_count().by_shard, vec![((2024, 1), 1), ((2023, 12), 1)]);
}

#[test]
fn known_scrape_dated_in_another_month_moves_its_story() {
    let mut index = StoryIndex::new();
    index.insert_scrapes(vec![
        hn("1", "https://a.com/x", JAN_1_2024 + 10 * HOUR, 10),
        hn("1", "https://a.com/x", JAN_1_2024 - 2 * HOUR, 12),
    ]);
    assert!(index.stories_by_shard((2024, 1)).is_empty());
    let dec = index.stories_by_shard((2023, 12));
    assert_eq!(dec.len(), 1);
    assert_eq!(dec[0].scrapes.len(), 1);
    assert_eq!(dec[0].date().seconds(), JAN_1_2024 - 2 * HOUR);
    assert_eq!(index.story_count().total, 1);
}

#[test]
fn moved_story_joins_the_story_of_its_new_day() {
    let mut index = StoryIndex::new();
    index.insert_scrapes(vec![
        hn("1", "https://a.com/x", JAN_1_2024 + 10 * HOUR, 10),
        hn("2", "https://a.com/x", JAN_1_2024 - 5 * HOUR, 3),
        hn("1", "https://a.com/x", JAN_1_2024 - 2 * HOUR, 12),
    ]);
    assert_eq!(index.story_count().total, 1);
    let dec = index.stories_by_shard((2023, 12));
    assert_eq!(dec.len(), 1);
    assert_eq!(dec[0].scrapes.len(), 2);
    assert_eq!(dec[0].date().seconds(), JAN_1_2024 - 5 * HOUR);
}

#[test]
fn rescrape_with_other_url_stays_in_its_story() {
    let mut mem = MemIndex::new();
    mem.insert_scrapes(vec![
        hn("1", "https://a.com/x", JAN_1_2024, 10),
        hn("1", "https://a.com/moved", JAN_1_2024 + HOUR, 12),
    ]);
    let stories = mem.get_all_stories();
    assert_eq!(stories.len(), 1);
    assert_eq!(stories[0].id.norm.string(), "a.com/x");
    assert_eq!(stories[0].url().raw(), "https://a.com/moved");
}

#[test]
fn frontpage_is_bounded_and_sorted() {
    let index = populated();
    let scorer = StoryScorer { config: StoryScoreConfig::default() };
    let now = date(JAN_1_2024 + HOUR);
    let page = index.query_frontpage(&scorer, now, 10);
    assert_eq!(page.len(), 10);
    for i in 1..page.len() {
        assert!(scorer.score(now, &page[i - 1]) >= scorer.score(now, &page[i]));
    }
    assert!(index.query_frontpage(&scorer, now, 0).is_empty());
    let all = index.query_frontpage(&scorer, now, 100);
    assert_eq!(all.len(), 30);
}

#[test]
fn score_exact_value() {
    let scorer = StoryScorer { config: StoryScoreConfig::default() };
    let story = Story::new(hn_titled("1", "t", "https://a.com", JAN_1_2024, 10, 5));
    assert_eq!(scorer.score(date(JAN_1_2024 + HOUR), &story), 16 * 1000 / 9);
    assert_eq!(scorer.score(date(JAN_1_2024 - HOUR), &story), 16 * 1000 / 4);
    assert!(StoryScoreConfig::new(1, 0).is_none());
    assert_eq!(StoryScoreConfig::new(5, 1), Some(StoryScoreConfig { scale: 5, bias_hours: 1 }));
}

#[test]
fn resort_is_deterministic() {
    let scorer = StoryScorer { config: StoryScoreConfig::default() };
    let now = date(JAN_1_2024);
    let stories: Vec<Story> = (0..8u32)
        .map(|i| Story::new(hn(&format!("{}", i), &format!("https://s{}.com", i), JAN_1_2024 - (i as i64 % 3) * HOUR, i % 4)))
        .collect();
    let mut a = stories.clone();
    let mut b = stories.clone();
    scorer.resort_stories(now, &mut a);
    scorer.resort_stories(now, &mut b);
    let ids_a: Vec<_> = a.iter().map(|s| s.id.to_text()).collect();
    let ids_b: Vec<_> = b.iter().map(|s| s.id.to_text()).collect();
    assert_eq!(ids_a, ids_b);
    for i in 1..a.len() {
        assert!(scorer.score(now, &a[i - 1]) >= scorer.score(now, &a[i]));
    }
}

#[test]
fn resort_keeps_order_of_equal_scores() {
    let scorer = StoryScorer { config: StoryScoreConfig::default() };
    let now = date(JAN_1_2024);
    let mut v = vec![
        Story::new(hn("a", "https://a.com", JAN_1_2024, 1)),
        Story::new(hn("b", "https://b.com", JAN_1_2024, 9)),
        Story::new(hn("c", "https://c.com", JAN_1_2024, 1)),
    ];
    scorer.resort_stories(now, &mut v);
    let hosts: Vec<_> = v.iter().map(|s| s.url().host().to_string()).collect();
    assert_eq!(hosts, vec!["b.com", "a.com", "c.com"]);
}

#[test]
fn search_matches_title_terms() {
    let mut index = StoryIndex::new();
    index.insert_scrapes(vec![
        hn_titled("1", "Rust is Great", "https://a.com/1", JAN_1_2024, 1, 0),
        hn_titled("2", "Go is fine", "https://a.com/2", JAN_1_2024 + HOUR, 1, 0),
        hn_titled("3", "Why rust wins", "https://a.com/3", JAN_1_2024 + 2 * HOUR, 1, 0),
    ]);
    let found = index.query_search("  RUST ", 10).unwrap();
    assert_eq!(found.len(), 2);
    assert_eq!(found[0].title(), "Why rust wins");
    assert_eq!(found[1].title(), "Rust is Great");
    let both = index.query_search("rust great", 10).unwrap();
    assert_eq!(both.len(), 2);
    assert_eq!(both[0].title(), "Rust is Great");
    assert_eq!(both[1].title(), "Why rust wins");
    let many = vec!["w"; 1001].join(" ");
    assert_eq!(index.query_search(&many, 10).unwrap_err(), QueryError::TooManyTerms);
    assert_eq!(index.query_search("rust", 1).unwrap().len(), 1);
    assert!(index.query_search("python", 10).unwrap().is_empty());
    assert_eq!(index.query_search("   ", 10).unwrap_err(), QueryError::Empty);
}

#[test]
fn tagger_uses_subreddit_rules_and_hosts() {
    let reddit = RedditConfig {
        subreddits: vec![
            ("programming".to_string(), SubredditConfig { is_tag: true, flair_is_tag: true }),
            ("news".to_string(), SubredditConfig { is_tag: false, flair_is_tag: false }),
        ],
        ..Default::default()
    };
    let tagger_config = TaggerConfig {
        host_tags: vec![("a.com".to_string(), "ACom".to_string()), ("b.com".to_string(), "bee".to_string())],
    };
    let eval = StoryEvaluator::new(
        tagger_config,
        StoryScoreConfig::default(),
        ScrapeConfig { reddit, ..Default::default() },
    );
    let mut story = Story::new(reddit_flair("1", "programming", "Rust", "https://a.com/x", JAN_1_2024));
    story.merge(reddit_flair("2", "news", "Politics", "https://a.com/x", JAN_1_2024));
    story.merge(reddit_flair("3", "programming", "rust", "https://a.com/x", JAN_1_2024));
    let tags = eval.tagger.tag(&story);
    assert_eq!(tags.tags, vec!["rust".to_string(), "programming".to_string(), "acom".to_string()]);
}

#[test]
fn both_stores_count_the_same_stories() {
    let scrapes = || {
        vec![
            hn("1", "https://a.com/x?utm=1", JAN_1_2024 + 10 * HOUR, 10),
            hn("1", "https://a.com/x", JAN_1_2024 + 14 * HOUR, 25),
            hn("2", "https://b.com/", JAN_1_2024 - HOUR, 1),
            hn("3", "https://c.com/", JAN_1_2024 - 40 * 24 * HOUR, 1),
        ]
    };
    let mut mem = MemIndex::new();
    mem.insert_all(scrapes());
    let mut index = StoryIndex::new();
    index.insert_all(scrapes());
    assert_eq!(mem.total_stories(), 3);
    assert_eq!(index.total_stories(), 3);
    assert_eq!(index.story_count().by_shard.len(), 3);
}

#[test]
fn stories_from_memory_index_move_into_shards() {
    let mut mem = MemIndex::new();
    mem.insert_scrapes(vec![
        hn("1", "https://a.com/x", JAN_1_2024 + 10 * HOUR, 10),
        reddit_flair("r", "rust", "", "https://a.com/x", JAN_1_2024 + 11 * HOUR),
        hn("2", "https://b.com/", JAN_1_2024 - HOUR, 1),
    ]);
    let mut index = StoryIndex::new();
    index.insert_stories(mem.get_all_stories());
    let jan = index.stories_by_shard((2024, 1));
    assert_eq!(jan.len(), 1);
    assert_eq!(jan[0].scrapes.len(), 2);
    assert_eq!(index.stories_by_shard((2023, 12)).len(), 1);
}

#[test]
fn search_reads_every_title_and_reddit_tags() {
    let mut index = StoryIndex::new();
    index.insert_scrapes(vec![
        hn_titled("1", "A compiler story", "https://a.com/1", JAN_1_2024, 1, 0),
        reddit_flair("r", "ProgrammingLanguages", "Zig", "https://a.com/1", JAN_1_2024 + HOUR),
        hn_titled("2", "Unrelated", "https://b.com/2", JAN_1_2024, 1, 0),
    ]);
    let by_sub = index.query_search("programminglanguages", 10).unwrap();
    assert_eq!(by_sub.len(), 1);
    assert_eq!(by_sub[0].title(), "A compiler story");
    assert_eq!(index.query_search("zig", 10).unwrap().len(), 1);
    assert_eq!(index.query_search("reddit story", 10).unwrap().len(), 1);
}

fn hottest<S: Storage>(store: &S, now: StoryDate) -> Vec<String> {
    let scorer = StoryScorer { config: StoryScoreConfig::default() };
    store.query_frontpage(&scorer, now, 2).iter().map(|s| s.url().host().to_string()).collect()
}

#[test]
fn both_stores_answer_the_same_queries() {
    let scrapes = || {
        vec![
            hn("1", "https://a.com/x", JAN_1_2024, 10),
            hn("2", "https://b.com/", JAN_1_2024, 50),
            hn("3", "https://c.com/", JAN_1_2024, 1),
        ]
    };
    let mut mem = MemIndex::new();
    mem.insert_all(scrapes());
    let mut index = StoryIndex::new();
    index.insert_all(scrapes());
    let now = date(JAN_1_2024 + HOUR);
    assert_eq!(hottest(&mem, now), vec!["b.com", "a.com"]);
    assert_eq!(hottest(&index, now), hottest(&mem, now));
    assert_eq!(Storage::story_count(&mem).by_shard, vec![((2024, 1), 3)]);
    assert_eq!(Storage::query_search(&mem, "story", 5).unwrap().len(), 3);
}
