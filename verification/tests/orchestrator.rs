use history_crawler::config::{Config, CrawlerConfig, DatabaseConfig, SourceConfig};
use history_crawler::crawler::{progress_due, Action, Crawler, Reply};
use history_crawler::policy::AdmissionPolicy;
use history_crawler::state::{Phase, StopReason};

fn config_with(seeds: Vec<&str>, max_depth: u32, max_documents: usize, max_workers: usize) -> Config {
    Config {
        database: DatabaseConfig {
            uri: "mongodb://localhost:27017".to_string(),
            database_name: "history".to_string(),
            collection: "documents".to_string(),
        },
        crawler: CrawlerConfig {
            user_agent: "HistoryCrawler/1.0".to_string(),
            delay_ms: 25,
            timeout_secs: 10,
            max_workers,
            max_depth,
            max_documents,
            recheck_hours: 24,
        },
        sources: vec![SourceConfig {
            name: "Example".to_string(),
            start_urls: seeds.into_iter().map(String::from).collect(),
            use_sitemap: false,
        }],
    }
}

fn example_policy() -> AdmissionPolicy {
    AdmissionPolicy {
        allowed: vec!["example.org/wiki".to_string()],
        denied: AdmissionPolicy::standard().denied,
        label: "Wikipedia".to_string(),
        fanout: 30,
    }
}

fn example_crawler(
    seeds: Vec<&str>,
    max_depth: u32,
    max_documents: usize,
    max_workers: usize,
) -> Crawler {
    Crawler::with_policy(config_with(seeds, max_depth, max_documents, max_workers), example_policy())
}

fn expect_fetch(action: Action) -> (usize, String, u64) {
    match action {
        Action::Fetch { ticket, url, delay_ms } => (ticket, url, delay_ms),
        other => panic!("expected a fetch, got {:?}", other),
    }
}

fn store_page(crawler: &mut Crawler, ticket: usize, html: &str) -> usize {
    assert!(matches!(crawler.responded(ticket, Some(200)), Reply::ReadBody));
    assert!(matches!(crawler.body_read(ticket, Some(html.to_string())), Reply::Persist(_)));
    match crawler.stored(ticket, true) {
        Reply::Recorded { count } => count,
        other => panic!("expected a recorded page, got {:?}", other),
    }
}

#[test]
fn scenario_one_seed_two_links_one_category() {
    let mut crawler = example_crawler(vec!["http://example.org/wiki/A"], 1, 10, 2);
    crawler.start();
    assert_eq!(crawler.phase(), Phase::Running);

    let (ticket, url, delay_ms) = expect_fetch(crawler.next_action());
    assert_eq!(ticket, 0);
    assert_eq!(url, "http://example.org/wiki/A");
    assert_eq!(delay_ms, 25);
    assert!(matches!(crawler.next_action(), Action::Wait));

    let page = "<html><body><a href=\"/wiki/B\">B</a>\
                <a href=\"/wiki/Category:Wars\">cat</a>\
                <a href=\"http://example.org/wiki/C\">C</a></body></html>";
    assert!(matches!(crawler.responded(0, Some(200)), Reply::ReadBody));
    let doc = match crawler.body_read(0, Some(page.to_string())) {
        Reply::Persist(doc) => doc,
        other => panic!("expected a document, got {:?}", other),
    };
    assert_eq!(doc.url, "http://example.org/wiki/A");
    assert_eq!(doc.normalized_url, "http://example.org/wiki/a");
    assert_eq!(doc.html_content, page);
    assert_eq!(doc.source, "Example");
    assert!(matches!(crawler.stored(0, true), Reply::Recorded { count: 1 }));
    assert_eq!(crawler.document_count(), 1);
    assert_eq!(crawler.frontier().len(), 1);

    let (first, first_url, _) = expect_fetch(crawler.next_action());
    assert_eq!(crawler.depth(), 1);
    let depth_one: Vec<(String, u64, String)> = crawler
        .frontier()
        .iter()
        .filter(|t| t.depth == 1)
        .map(|t| (t.url.clone(), t.depth, t.source.clone()))
        .collect();
    assert_eq!(
        depth_one,
        vec![
            ("http://example.org/wiki/B".to_string(), 1, "Wikipedia".to_string()),
            ("http://example.org/wiki/C".to_string(), 1, "Wikipedia".to_string()),
        ]
    );
    assert_eq!(crawler.frontier().len(), 3);
    assert_eq!((first, first_url.as_str()), (1, "http://example.org/wiki/B"));
    let (second, second_url, _) = expect_fetch(crawler.next_action());
    assert_eq!((second, second_url.as_str()), (2, "http://example.org/wiki/C"));
    assert!(matches!(crawler.next_action(), Action::Wait));

    assert_eq!(store_page(&mut crawler, 2, "<a href=\"/wiki/D\">D</a>"), 2);
    assert!(matches!(crawler.next_action(), Action::Wait));
    assert!(matches!(crawler.responded(1, Some(404)), Reply::Dropped));
    assert!(matches!(crawler.next_action(), Action::Finished(StopReason::DepthReached)));
    assert_eq!(crawler.phase(), Phase::Finished(StopReason::DepthReached));
    assert!(crawler.document_count() <= 3);
    assert_eq!(crawler.document_count(), 2);
    assert_eq!(crawler.in_flight(), 0);
    assert!(matches!(crawler.next_action(), Action::Finished(StopReason::DepthReached)));
}

#[test]
fn new_accepts_every_configuration() {
    let crawler = Crawler::new(config_with(vec!["http://example.org/wiki/A"], 1, 10, 0));
    assert_eq!(crawler.phase(), Phase::Created);
    assert_eq!(crawler.document_count(), 0);
    assert_eq!(crawler.in_flight(), 0);
    assert!(crawler.frontier().is_empty());
    assert_eq!(crawler.config().crawler.max_workers, 0);

    let crawler = Crawler::new(config_with(Vec::new(), 0, 0, 0));
    assert_eq!(crawler.phase(), Phase::Created);
    assert_eq!(crawler.document_count(), 0);
}

#[test]
fn new_keeps_the_configuration() {
    let config = config_with(vec!["http://example.org/wiki/A", "http://example.org/wiki/B"], 3, 7, 5);
    let crawler = Crawler::new(config.clone());
    let kept = crawler.config();
    assert_eq!(kept.crawler.user_agent, "HistoryCrawler/1.0");
    assert_eq!(kept.crawler.delay_ms, 25);
    assert_eq!(kept.crawler.timeout_secs, 10);
    assert_eq!(kept.crawler.max_workers, 5);
    assert_eq!(kept.crawler.max_depth, 3);
    assert_eq!(kept.crawler.max_documents, 7);
    assert_eq!(kept.crawler.recheck_hours, 24);
    assert_eq!(kept.database.uri, config.database.uri);
    assert_eq!(kept.database.database_name, config.database.database_name);
    assert_eq!(kept.database.collection, config.database.collection);
    assert_eq!(kept.sources.len(), 1);
    assert_eq!(kept.sources[0].name, "Example");
    assert_eq!(kept.sources[0].start_urls, config.sources[0].start_urls);
    assert!(!kept.sources[0].use_sitemap);
}

#[test]
fn run_without_workers_ends_when_it_begins() {
    let mut crawler = example_crawler(vec!["http://example.org/wiki/A"], 1, 10, 0);
    assert!(matches!(crawler.next_action(), Action::Finished(StopReason::NoWorkers)));
    assert_eq!(crawler.phase(), Phase::Finished(StopReason::NoWorkers));
    assert_eq!(crawler.document_count(), 0);
    assert_eq!(crawler.in_flight(), 0);
    assert_eq!(crawler.frontier().len(), 1);
    assert!(matches!(crawler.responded(0, Some(200)), Reply::Unknown));
    assert!(matches!(crawler.next_action(), Action::Finished(StopReason::NoWorkers)));
}

#[test]
fn run_without_workers_and_without_work_ends_like_any_other() {
    // Nothing to fetch: the missing worker is never needed.
    let mut no_seeds = example_crawler(Vec::new(), 1, 10, 0);
    assert!(matches!(no_seeds.next_action(), Action::Finished(StopReason::FrontierExhausted)));
    let mut no_budget = example_crawler(vec!["http://example.org/wiki/A"], 1, 0, 0);
    assert!(matches!(no_budget.next_action(), Action::Finished(StopReason::BudgetReached)));
}

#[test]
fn progress_is_due_every_five_hundredth_document() {
    assert!(progress_due(500));
    assert!(progress_due(1000));
    assert!(progress_due(0));
    assert!(!progress_due(1));
    assert!(!progress_due(499));
    assert!(!progress_due(501));
    assert!(!progress_due(750));
}

#[test]
fn new_crawler_has_not_begun() {
    let crawler = Crawler::new(config_with(vec!["http://example.org/wiki/A"], 1, 10, 2));
    assert_eq!(crawler.phase(), Phase::Created);
    assert_eq!(crawler.document_count(), 0);
    assert_eq!(crawler.depth(), 0);
    assert_eq!(crawler.in_flight(), 0);
    assert!(crawler.frontier().is_empty());
    assert!(crawler.should_crawl("https://en.wikipedia.org/wiki/Rome"));
    assert!(!crawler.should_crawl("https://en.wikipedia.org/wiki/Special:Foo"));
    assert!(!crawler.should_crawl("https://example.org/wiki/Rome"));
}

#[test]
fn start_queues_every_seed_of_every_source() {
    let mut config = config_with(vec!["http://example.org/wiki/A", "http://example.org/wiki/B"], 2, 10, 2);
    config.sources.push(SourceConfig {
        name: "Second".to_string(),
        start_urls: vec!["https://histrf.ru/".to_string()],
        use_sitemap: true,
    });
    config.sources.push(SourceConfig {
        name: "Empty".to_string(),
        start_urls: Vec::new(),
        use_sitemap: false,
    });
    let mut crawler = Crawler::new(config);
    crawler.start();
    let seeds: Vec<(String, u64, String)> = crawler
        .frontier()
        .iter()
        .map(|t| (t.url.clone(), t.depth, t.source.clone()))
        .collect();
    assert_eq!(
        seeds,
        vec![
            ("http://example.org/wiki/A".to_string(), 0, "Example".to_string()),
            ("http://example.org/wiki/B".to_string(), 0, "Example".to_string()),
            ("https://histrf.ru/".to_string(), 0, "Second".to_string()),
        ]
    );
    crawler.start();
    assert_eq!(crawler.frontier().len(), 3);
}

#[test]
fn next_action_starts_a_run_that_has_not_begun() {
    let mut crawler = example_crawler(vec!["http://example.org/wiki/A"], 0, 5, 1);
    let (ticket, url, _) = expect_fetch(crawler.next_action());
    assert_eq!((ticket, url.as_str()), (0, "http://example.org/wiki/A"));
    assert_eq!(crawler.phase(), Phase::Running);
}

#[test]
fn empty_source_list_stores_nothing() {
    let mut config = config_with(Vec::new(), 3, 10, 2);
    config.sources = Vec::new();
    let mut crawler = Crawler::new(config);
    assert!(matches!(crawler.next_action(), Action::Finished(StopReason::FrontierExhausted)));
    assert_eq!(crawler.document_count(), 0);
}

#[test]
fn zero_budget_ends_before_any_fetch() {
    let mut crawler = example_crawler(vec!["http://example.org/wiki/A"], 3, 0, 2);
    assert!(matches!(crawler.next_action(), Action::Finished(StopReason::BudgetReached)));
    assert_eq!(crawler.phase(), Phase::Finished(StopReason::BudgetReached));
    assert_eq!(crawler.frontier().len(), 1);
}

#[test]
fn dedup_claims_one_target_per_normalized_url() {
    let mut crawler = example_crawler(
        vec![
            "http://example.org/wiki/A",
            "http://example.org/wiki/A#history",
            "HTTP://EXAMPLE.ORG/wiki/a?utm_source=feed",
            "http://example.org/wiki/A?gclid=1",
            "http://example.org/wiki/B",
        ],
        0,
        10,
        8,
    );
    let (first, first_url, _) = expect_fetch(crawler.next_action());
    assert_eq!((first, first_url.as_str()), (0, "http://example.org/wiki/A"));
    let (second, second_url, _) = expect_fetch(crawler.next_action());
    assert_eq!((second, second_url.as_str()), (4, "http://example.org/wiki/B"));
    assert!(matches!(crawler.next_action(), Action::Wait));
    assert_eq!(crawler.in_flight(), 2);
}

#[test]
fn failed_page_stays_visited() {
    let mut crawler = example_crawler(
        vec!["http://example.org/wiki/A", "http://example.org/wiki/B"],
        1,
        10,
        1,
    );
    let (a, _, _) = expect_fetch(crawler.next_action());
    assert!(matches!(crawler.responded(a, None), Reply::Dropped));
    let (b, _, _) = expect_fetch(crawler.next_action());
    let page = "<a href=\"/wiki/A\">back</a><a href=\"/wiki/C\">on</a>";
    assert_eq!(store_page(&mut crawler, b, page), 1);
    // Level one holds A again and C; A was claimed before and is passed over.
    let (c, c_url, _) = expect_fetch(crawler.next_action());
    assert_eq!(crawler.frontier().len(), 4);
    assert_eq!((c, c_url.as_str()), (3, "http://example.org/wiki/C"));
}

#[test]
fn level_is_a_barrier() {
    let mut crawler = example_crawler(
        vec!["http://example.org/wiki/A", "http://example.org/wiki/B"],
        2,
        10,
        4,
    );
    let (a, _, _) = expect_fetch(crawler.next_action());
    let (b, _, _) = expect_fetch(crawler.next_action());
    assert_eq!(store_page(&mut crawler, a, "<a href=\"/wiki/C\">C</a>"), 1);
    // B is still in flight: nothing of level one may start, though a worker is free.
    assert!(matches!(crawler.next_action(), Action::Wait));
    assert_eq!(crawler.depth(), 0);
    assert_eq!(crawler.frontier().len(), 2);
    assert!(matches!(crawler.responded(b, Some(200)), Reply::ReadBody));
    assert!(matches!(crawler.next_action(), Action::Wait));
    assert!(matches!(crawler.body_read(b, None), Reply::Dropped));
    let (c, c_url, _) = expect_fetch(crawler.next_action());
    assert_eq!(crawler.depth(), 1);
    assert_eq!((c, c_url.as_str()), (2, "http://example.org/wiki/C"));
    assert_eq!(crawler.frontier()[c].depth, 1);
}

#[test]
fn workers_bound_the_pages_in_flight() {
    let mut crawler = example_crawler(
        vec!["http://example.org/wiki/A", "http://example.org/wiki/B", "http://example.org/wiki/C"],
        0,
        10,
        2,
    );
    expect_fetch(crawler.next_action());
    expect_fetch(crawler.next_action());
    assert!(matches!(crawler.next_action(), Action::Wait));
    assert_eq!(crawler.in_flight(), 2);
    assert!(matches!(crawler.responded(1, Some(500)), Reply::Dropped));
    let (third, _, _) = expect_fetch(crawler.next_action());
    assert_eq!(third, 2);
    assert_eq!(crawler.in_flight(), 2);
}

#[test]
fn budget_is_soft_within_the_worker_count() {
    let mut crawler = example_crawler(
        vec![
            "http://example.org/wiki/A",
            "http://example.org/wiki/B",
            "http://example.org/wiki/C",
            "http://example.org/wiki/D",
        ],
        3,
        1,
        2,
    );
    // Both are handed out before either is stored.
    let (a, _, _) = expect_fetch(crawler.next_action());
    let (b, _, _) = expect_fetch(crawler.next_action());
    assert_eq!(store_page(&mut crawler, a, "<a href=\"/wiki/E\">E</a>"), 1);
    assert_eq!(store_page(&mut crawler, b, "<a href=\"/wiki/F\">F</a>"), 2);
    // C and D meet a reached budget and are passed over; the level closes
    // without building the next one.
    assert!(matches!(crawler.next_action(), Action::Finished(StopReason::BudgetReached)));
    assert_eq!(crawler.document_count(), 2);
    assert!(crawler.document_count() <= 1 + 2);
    assert_eq!(crawler.frontier().len(), 4);
    assert_eq!(crawler.depth(), 0);
}

#[test]
fn run_ends_when_the_next_level_is_empty() {
    let mut crawler = example_crawler(vec!["http://example.org/wiki/A"], 5, 10, 2);
    let (a, _, _) = expect_fetch(crawler.next_action());
    let page = "<a href=\"http://elsewhere.org/x\">out of scope</a>\
                <a href=\"/wiki/Talk:A\">talk</a><a href=\"/w/index.php\">no article</a>";
    assert_eq!(store_page(&mut crawler, a, page), 1);
    assert!(matches!(crawler.next_action(), Action::Finished(StopReason::FrontierExhausted)));
    assert_eq!(crawler.frontier().len(), 1);
}

#[test]
fn level_of_known_pages_is_passed_over() {
    let mut crawler = example_crawler(vec!["http://example.org/wiki/A"], 5, 10, 2);
    let (a, _, _) = expect_fetch(crawler.next_action());
    assert_eq!(store_page(&mut crawler, a, "<a href=\"/wiki/A#again\">self</a>"), 1);
    assert!(matches!(crawler.next_action(), Action::Finished(StopReason::FrontierExhausted)));
    assert_eq!(crawler.frontier().len(), 2);
    assert_eq!(crawler.depth(), 2);
}

#[test]
fn deepest_level_is_expanded_but_not_fetched() {
    let mut crawler = example_crawler(vec!["http://example.org/wiki/A"], 0, 10, 2);
    let (a, _, _) = expect_fetch(crawler.next_action());
    assert_eq!(store_page(&mut crawler, a, "<a href=\"/wiki/B\">B</a>"), 1);
    assert!(matches!(crawler.next_action(), Action::Finished(StopReason::DepthReached)));
    assert_eq!(crawler.frontier().len(), 2);
    assert_eq!(crawler.frontier()[1].depth, 1);
    assert_eq!(crawler.depth(), 0);
}

#[test]
fn fanout_caps_the_links_considered_per_page() {
    let mut crawler = example_crawler(vec!["http://example.org/wiki/A"], 0, 10, 1);
    let (a, _, _) = expect_fetch(crawler.next_action());
    let mut page = String::new();
    for i in 0..40 {
        if i % 10 == 0 {
            page.push_str(&format!("<a href=\"/wiki/File:{}\">f</a>", i));
        } else {
            page.push_str(&format!("<a href=\"/wiki/Page{}\">p</a>", i));
        }
    }
    assert_eq!(store_page(&mut crawler, a, &page), 1);
    assert!(matches!(crawler.next_action(), Action::Finished(StopReason::DepthReached)));
    // Of the first thirty links, three are file pages.
    let added: Vec<String> = crawler.frontier().iter().skip(1).map(|t| t.url.clone()).collect();
    assert_eq!(added.len(), 27);
    assert_eq!(added[0], "http://example.org/wiki/Page1");
    assert_eq!(added[26], "http://example.org/wiki/Page29");
}

#[test]
fn store_failure_drops_the_page() {
    let mut crawler = example_crawler(vec!["http://example.org/wiki/A"], 1, 10, 1);
    let (a, _, _) = expect_fetch(crawler.next_action());
    assert!(matches!(crawler.responded(a, Some(204)), Reply::ReadBody));
    assert!(matches!(
        crawler.body_read_at(a, Some("<a href=\"/wiki/B\">B</a>".to_string()), 42),
        Reply::Persist(_)
    ));
    assert!(matches!(crawler.stored(a, false), Reply::Dropped));
    assert_eq!(crawler.document_count(), 0);
    assert_eq!(crawler.in_flight(), 0);
    assert!(matches!(crawler.next_action(), Action::Finished(StopReason::FrontierExhausted)));
}

#[test]
fn body_read_at_stamps_the_given_time() {
    let mut crawler = example_crawler(vec!["http://example.org/wiki/A?utm_source=x"], 1, 10, 1);
    let (a, _, _) = expect_fetch(crawler.next_action());
    crawler.responded(a, Some(299));
    match crawler.body_read_at(a, Some("text".to_string()), 1_234) {
        Reply::Persist(doc) => {
            assert_eq!(doc.crawled_at, 1_234);
            assert_eq!(doc.url, "http://example.org/wiki/A?utm_source=x");
            assert_eq!(doc.normalized_url, "http://example.org/wiki/a");
            assert_eq!(doc.source, "Example");
        },
        other => panic!("expected a document, got {:?}", other),
    }
}

#[test]
fn only_success_statuses_have_the_body_read() {
    for (status, read) in vec![(199u16, false), (200, true), (299, true), (300, false), (404, false), (0, false)] {
        let mut crawler = example_crawler(vec!["http://example.org/wiki/A"], 0, 10, 1);
        let (a, _, _) = expect_fetch(crawler.next_action());
        let reply = crawler.responded(a, Some(status));
        assert_eq!(matches!(reply, Reply::ReadBody), read, "status {}", status);
        assert_eq!(matches!(reply, Reply::Dropped), !read, "status {}", status);
    }
}

#[test]
fn events_out_of_turn_change_nothing() {
    let mut crawler = example_crawler(vec!["http://example.org/wiki/A"], 0, 10, 1);
    assert!(matches!(crawler.responded(0, Some(200)), Reply::Unknown));
    let (a, _, _) = expect_fetch(crawler.next_action());
    assert!(matches!(crawler.responded(7, Some(200)), Reply::Unknown));
    assert!(matches!(crawler.body_read(a, Some("x".to_string())), Reply::Unknown));
    assert!(matches!(crawler.stored(a, true), Reply::Unknown));
    assert_eq!(crawler.in_flight(), 1);
    assert!(matches!(crawler.responded(a, Some(200)), Reply::ReadBody));
    assert!(matches!(crawler.responded(a, Some(200)), Reply::Unknown));
    assert!(matches!(crawler.stored(a, true), Reply::Unknown));
    assert!(matches!(crawler.body_read(a, Some("x".to_string())), Reply::Persist(_)));
    assert!(matches!(crawler.body_read(a, Some("x".to_string())), Reply::Unknown));
    assert!(matches!(crawler.stored(a, true), Reply::Recorded { count: 1 }));
    assert!(matches!(crawler.stored(a, true), Reply::Unknown));
    assert_eq!(crawler.document_count(), 1);
}

fn crawl_answering_web(
    web: &Vec<(&str, &str)>,
    seeds: Vec<&str>,
    max_depth: u32,
    max_documents: usize,
    max_workers: usize,
) -> Crawler {
    let mut crawler = example_crawler(seeds, max_depth, max_documents, max_workers);
    let mut waiting: Vec<(usize, String)> = Vec::new();
    loop {
        match crawler.next_action() {
            Action::Fetch { ticket, url, .. } => waiting.push((ticket, url)),
            Action::Wait => {
                let (ticket, url) = waiting.remove(0);
                let html = web.iter().find(|(page, _)| *page == url).map(|(_, html)| *html);
                store_page(&mut crawler, ticket, html.unwrap_or(""));
            },
            Action::Finished(_) => return crawler,
        }
    }
}

#[test]
fn answering_web_fills_the_budget() {
    let web = vec![
        ("http://example.org/wiki/A", "<a href=\"/wiki/B\">b</a><a href=\"/wiki/C\">c</a>"),
        ("http://example.org/wiki/B", "<a href=\"/wiki/D\">d</a><a href=\"/wiki/A\">a</a>"),
        ("http://example.org/wiki/C", "<a href=\"/wiki/E\">e</a><a href=\"/wiki/D\">d</a>"),
        ("http://example.org/wiki/D", "<a href=\"/wiki/F\">f</a>"),
    ];
    for workers in 1..4usize {
        let crawler = crawl_answering_web(&web, vec!["http://example.org/wiki/A"], 5, 4, workers);
        assert_eq!(crawler.phase(), Phase::Finished(StopReason::BudgetReached));
        assert!(crawler.document_count() >= 4, "workers {}", workers);
        assert!(crawler.document_count() <= 4 + workers, "workers {}", workers);
    }
}

#[test]
fn run_short_of_budget_has_stored_every_reachable_page() {
    let web = vec![
        ("http://example.org/wiki/A", "<a href=\"/wiki/B\">b</a><a href=\"/wiki/C\">c</a>"),
        ("http://example.org/wiki/B", "<a href=\"/wiki/A#top\">a</a><a href=\"/wiki/C\">c</a>"),
        ("http://example.org/wiki/C", "<a href=\"/wiki/a\">a again</a>"),
    ];
    let crawler = crawl_answering_web(&web, vec!["http://example.org/wiki/A"], 9, 10, 2);
    assert_eq!(crawler.phase(), Phase::Finished(StopReason::FrontierExhausted));
    // A, B and C are all that can be reached; /wiki/a is A under another spelling.
    assert_eq!(crawler.document_count(), 3);
    let queued: Vec<&str> = crawler.frontier().iter().map(|t| t.url.as_str()).collect();
    assert_eq!(
        queued,
        vec![
            "http://example.org/wiki/A",
            "http://example.org/wiki/B",
            "http://example.org/wiki/C",
            "http://example.org/wiki/A#top",
            "http://example.org/wiki/C",
            "http://example.org/wiki/a",
        ]
    );
}

#[test]
fn run_short_of_budget_at_the_deepest_level() {
    let web = vec![
        ("http://example.org/wiki/A", "<a href=\"/wiki/B\">b</a>"),
        ("http://example.org/wiki/B", "<a href=\"/wiki/C\">c</a>"),
        ("http://example.org/wiki/C", "<a href=\"/wiki/D\">d</a>"),
    ];
    let crawler = crawl_answering_web(&web, vec!["http://example.org/wiki/A"], 1, 10, 2);
    assert_eq!(crawler.phase(), Phase::Finished(StopReason::DepthReached));
    assert_eq!(crawler.document_count(), 2);
    assert_eq!(crawler.frontier().len(), 3);
    assert_eq!(crawler.frontier()[2].depth, 2);
}

#[test]
fn fanout_counts_distinct_links() {
    let mut crawler = example_crawler(vec!["http://example.org/wiki/A"], 0, 10, 1);
    let (a, _, _) = expect_fetch(crawler.next_action());
    let mut page = String::new();
    for _ in 0..10 {
        page.push_str("<a href=\"/wiki/Same\">s</a>");
    }
    for i in 1..35 {
        page.push_str(&format!("<a href=\"/wiki/Page{}\">p</a>", i));
    }
    assert_eq!(store_page(&mut crawler, a, &page), 1);
    assert!(matches!(crawler.next_action(), Action::Finished(StopReason::DepthReached)));
    let added: Vec<String> = crawler.frontier().iter().skip(1).map(|t| t.url.clone()).collect();
    assert_eq!(added.len(), 30);
    assert_eq!(added[0], "http://example.org/wiki/Same");
    assert_eq!(added[1], "http://example.org/wiki/Page1");
    assert_eq!(added[29], "http://example.org/wiki/Page29");
}
