//! Startup configuration: where documents are stored, how the crawl is
//! bounded, and where it begins.

use vstd::prelude::*;

verus! {

/// The whole configuration of one run.
#[derive(Debug, Clone)]
pub struct Config {
    pub database: DatabaseConfig,
    pub crawler: CrawlerConfig,
    pub sources: Vec<SourceConfig>,
}

/// Where the document store is reached.
#[derive(Debug, Clone)]
pub struct DatabaseConfig {
    pub uri: String,
    pub database_name: String,
    pub collection: String,
}

/// The tunables of the crawl.
#[derive(Debug, Clone)]
pub struct CrawlerConfig {
    /// Sent with every request to identify the crawler.
    pub user_agent: String,
    /// Pause before each request, in milliseconds; zero for none.
    pub delay_ms: u64,
    /// Time allowed for one request, in seconds.
    pub timeout_secs: u64,
    /// How many pages may be in flight at once.
    pub max_workers: usize,
    /// The deepest level that is fetched; the seeds are level zero.
    pub max_depth: u32,
    /// How many documents the run aims to store.
    pub max_documents: usize,
    /// Declared for later use; the traversal does not read it.
    pub recheck_hours: u64,
}

/// One configured source and the URLs at which it is entered.
#[derive(Debug, Clone)]
pub struct SourceConfig {
    pub name: String,
    pub start_urls: Vec<String>,
    /// Declared for later use; the traversal does not read it.
    pub use_sitemap: bool,
}

/// A source as the contracts see it.
pub struct SourceView {
    pub name: Seq<char>,
    pub start_urls: Seq<Seq<char>>,
}

impl View for SourceConfig {
    type V = SourceView;

    open spec fn view(&self) -> SourceView {
        SourceView { name: self.name@, start_urls: self.start_urls.deep_view() }
    }
}

/// The limits of a run as the contracts see them.
pub struct Limits {
    pub max_workers: nat,
    pub max_depth: nat,
    pub max_documents: nat,
    pub delay_ms: u64,
}

impl View for CrawlerConfig {
    type V = Limits;

    open spec fn view(&self) -> Limits {
        Limits {
            max_workers: self.max_workers as nat,
            max_depth: self.max_depth as nat,
            max_documents: self.max_documents as nat,
            delay_ms: self.delay_ms,
        }
    }
}

/// The sources of a list of configured sources.
pub open spec fn sources_view(sources: Seq<SourceConfig>) -> Seq<SourceView> {
    Seq::new(sources.len(), |i: int| sources[i]@)
}

} // verus!
