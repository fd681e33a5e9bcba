use rust_web_scraper::api::crawl_succeeded;
use rust_web_scraper::auto_selectors::DetectedContent;
use rust_web_scraper::deep_scraper::{
    filter_links, should_crawl, CrawlStatus, DeepScrapeConfig, DeepScrapeResult, DeepScraper,
};
use rust_web_scraper::scraper::ScrapingResult;
use rust_web_scraper::urls::normalize_url;

fn page(url: &str) -> ScrapingResult {
    ScrapingResult {
        url: url.to_string(),
        timestamp: String::new(),
        status: "success".to_string(),
        content: DetectedContent {
            title: None,
            content: vec![],
            links: vec![],
            images: vec![],
            metadata: vec![],
        },
        page_number: 1,
    }
}

/// Runs a crawl over a fixed site: `site` gives each page's links, and a
/// URL missing from it fails to fetch.
fn run(config: DeepScrapeConfig, site: &[(&str, &[&str])]) -> (DeepScrapeResult, Vec<String>) {
    let mut crawler = DeepScraper::new(config);
    let mut fetched = Vec::new();
    while let Some(url) = crawler.next_item() {
        fetched.push(url.clone());
        match site.iter().find(|(u, _)| *u == url) {
            Some((_, links)) => {
                let links = links.iter().map(|l| l.to_string()).collect();
                assert!(crawler.record_page(page(&url), links));
            }
            None => {
                assert!(crawler.record_failure("HTTP error: 404".to_string()));
            }
        }
    }
    (crawler.finish(), fetched)
}

fn config(start: &str, max_depth: usize, max_pages: usize) -> DeepScrapeConfig {
    let mut c = DeepScrapeConfig::default();
    c.start_urls = vec![start.to_string()];
    c.max_depth = max_depth;
    c.max_pages = max_pages;
    c
}

#[test]
fn linear_site_is_crawled_in_full() {
    let site: &[(&str, &[&str])] = &[
        ("https://site.com/a", &["/b"]),
        ("https://site.com/b", &["https://site.com/c"]),
        ("https://site.com/c", &[]),
    ];
    let (result, fetched) = run(config("https://site.com/a", 2, 10), site);
    assert_eq!(result.total_pages_crawled, 3);
    assert_eq!(result.status, CrawlStatus::Completed);
    let depths: Vec<usize> = result.crawl_tree.iter().map(|n| n.depth).collect();
    assert_eq!(depths, vec![0, 1, 2]);
    assert_eq!(fetched, vec!["https://site.com/a", "https://site.com/b", "https://site.com/c"]);
    assert_eq!(result.crawl_tree[1].parent.as_deref(), Some("https://site.com/a"));
    assert_eq!(result.domains_visited, vec!["site.com".to_string()]);
    assert_eq!(result.total_links_discovered, 2);
    assert_eq!(result.session_id.len(), 36);
    assert!(result.end_time.is_some());
    assert!(crawl_succeeded(result.status));
}

#[test]
fn cycles_fetch_each_url_once() {
    let site: &[(&str, &[&str])] = &[
        ("https://site.com/a", &["/b", "/a", "/b#top"]),
        ("https://site.com/b", &["/a", "/b"]),
    ];
    let (result, fetched) = run(config("https://site.com/a", 5, 10), site);
    assert_eq!(fetched, vec!["https://site.com/a", "https://site.com/b"]);
    assert_eq!(result.total_pages_crawled, 2);
}

#[test]
fn nothing_is_queued_past_the_depth_bound() {
    let site: &[(&str, &[&str])] = &[
        ("https://site.com/a", &["/b"]),
        ("https://site.com/b", &["/c"]),
        ("https://site.com/c", &[]),
    ];
    let (result, fetched) = run(config("https://site.com/a", 1, 10), site);
    assert_eq!(fetched.len(), 2);
    assert!(result.crawl_tree.iter().all(|n| n.depth <= 1));
}

#[test]
fn page_budget_is_kept() {
    let site: &[(&str, &[&str])] = &[
        ("https://site.com/a", &["/b"]),
        ("https://site.com/b", &["/c"]),
        ("https://site.com/c", &[]),
    ];
    let (result, _) = run(config("https://site.com/a", 5, 2), site);
    assert_eq!(result.total_pages_crawled, 2);
    assert_eq!(result.status, CrawlStatus::Completed);
}

#[test]
fn errors_before_the_budget_make_a_partial_run() {
    let site: &[(&str, &[&str])] = &[("https://site.com/a", &["/missing"])];
    let (result, _) = run(config("https://site.com/a", 2, 10), site);
    assert_eq!(result.total_pages_crawled, 1);
    assert_eq!(result.errors, vec!["https://site.com/missing: HTTP error: 404".to_string()]);
    assert_eq!(result.status, CrawlStatus::PartiallyCompleted);
    assert!(!result.crawl_tree[1].scraped);
    assert_eq!(result.crawl_tree[1].error.as_deref(), Some("HTTP error: 404"));
}

#[test]
fn a_run_without_pages_fails() {
    let (result, _) = run(config("https://site.com/a", 2, 10), &[]);
    assert_eq!(result.total_pages_crawled, 0);
    assert_eq!(result.status, CrawlStatus::Failed);
    assert!(!crawl_succeeded(result.status));
}

#[test]
fn exclude_pattern_rejects_pdf() {
    let mut c = DeepScrapeConfig::default();
    c.exclude_patterns = vec![r"\.pdf$".to_string()];
    assert!(!should_crawl(&c, "https://site.com/doc.pdf", "https://site.com/"));
    c.exclude_patterns = vec![];
    assert!(should_crawl(&c, "https://site.com/doc.pdf", "https://site.com/"));
}

#[test]
fn scoping_and_include_patterns() {
    let mut c = DeepScrapeConfig::default();
    assert!(should_crawl(&c, "https://blog.site.com/x", "https://www.site.com/"));
    assert!(!should_crawl(&c, "https://other.com/x", "https://www.site.com/"));
    c.stay_in_subdomain = true;
    assert!(!should_crawl(&c, "https://blog.site.com/x", "https://www.site.com/"));
    c.stay_in_subdomain = false;
    c.include_patterns = vec!["/docs/".to_string(), "([".to_string()];
    assert!(should_crawl(&c, "https://www.site.com/docs/a", "https://www.site.com/"));
    assert!(!should_crawl(&c, "https://www.site.com/blog/a", "https://www.site.com/"));
    assert!(!should_crawl(&c, "not a url", "https://www.site.com/"));
}

#[test]
fn links_are_resolved_and_filtered() {
    let c = DeepScrapeConfig::default();
    let links = vec![
        "/about#team".to_string(),
        "files/report.pdf".to_string(),
        "https://elsewhere.org/".to_string(),
        "http://[bad".to_string(),
    ];
    let r = filter_links(&c, "https://site.com/dir/page", &links);
    assert_eq!(r, vec!["https://site.com/about".to_string()]);
    assert_eq!(normalize_url("https://a.com/x#y#z"), "https://a.com/x");
    assert_eq!(normalize_url("https://a.com/x"), "https://a.com/x");
}
