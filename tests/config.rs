use progscrape::{HackerNewsConfig, RedditConfig, ScrapeConfigSource, SubredditConfig};

fn reddit_config(batch: usize) -> RedditConfig {
    RedditConfig {
        api: "https://www.reddit.com/r/${subreddits}.json".to_string(),
        subreddit_batch: batch,
        limit: 100,
        subreddits: vec![
            ("a".to_string(), SubredditConfig::default()),
            ("b".to_string(), SubredditConfig { is_tag: true, flair_is_tag: false }),
            ("c".to_string(), SubredditConfig::default()),
        ],
    }
}

#[test]
fn reddit_urls_in_batches() {
    let config = reddit_config(2);
    let subs = config.subsources();
    assert_eq!(subs, vec!["a".to_string(), "b".to_string(), "c".to_string()]);
    let urls = config.provide_urls(subs);
    assert_eq!(
        urls,
        vec![
            "https://www.reddit.com/r/a+b.json?limit=100".to_string(),
            "https://www.reddit.com/r/c.json?limit=100".to_string(),
        ]
    );
    let one = reddit_config(5).provide_urls(vec!["x".to_string()]);
    assert_eq!(one, vec!["https://www.reddit.com/r/x.json?limit=100".to_string()]);
    assert!(reddit_config(5).provide_urls(vec![]).is_empty());
}

#[test]
fn hacker_news_urls() {
    let config = HackerNewsConfig { homepage: "https://news.ycombinator.com/".to_string() };
    assert!(config.subsources().is_empty());
    assert_eq!(config.provide_urls(vec![]), vec!["https://news.ycombinator.com/".to_string()]);
}
