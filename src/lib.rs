//! Story identity, merge and indexed storage for a news aggregator: scrapes from several
//! sources are folded into stories keyed by normalized URL and calendar day, stored in a
//! bulk in-memory index or a month-sharded index, and ranked and tagged for display.

pub mod config;
pub mod date;
pub mod evaluator;
pub mod index;
pub mod memindex;
pub mod scrapers;
pub mod storage;
pub mod story;
pub mod tagger;
pub mod text;
pub mod url;

pub use date::StoryDate;
pub use evaluator::{StoryEvaluator, StoryScoreConfig, StoryScorer};
pub use index::{QueryError, StorageSummary, StoryIndex};
pub use memindex::MemIndex;
pub use scrapers::{
    HackerNewsStory, LobstersStory, RedditStory, Scrape, ScrapeCore, ScrapeId, ScrapeIdError,
    ScrapeSource, ScrapeStory, SlashdotStory, TypedScrape,
};
pub use storage::{Storage, StorageWriter};
pub use story::{Story, StoryIdentifier, StoryRender};
pub use config::{
    HackerNewsConfig, RedditConfig, ScrapeConfig, ScrapeConfigSource, SubredditConfig,
    TaggerConfig,
};
pub use tagger::{StoryTagger, TagSet};
pub use url::{StoryUrl, StoryUrlNorm};
