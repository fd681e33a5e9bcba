use rust_web_scraper::auto_selectors::{DetectedContent, LinkData};
use rust_web_scraper::scraper::{find_next_page, Paginator, ScrapingConfig};

#[test]
fn test_scraping_config_default() {
    let config = ScrapingConfig::default();
    assert_eq!(config.rate_limit, 2);
    assert!(!config.enable_pagination);
}

fn content(links: &[(&str, &str, bool)]) -> DetectedContent {
    DetectedContent {
        title: None,
        content: vec![],
        links: links
            .iter()
            .map(|(t, h, e)| LinkData { text: t.to_string(), href: h.to_string(), is_external: *e })
            .collect(),
        images: vec![],
        metadata: vec![],
    }
}

#[test]
fn next_page_by_link_text() {
    let c = content(&[
        ("Home", "https://shop.com/", false),
        ("NEXT \u{bb}", "https://shop.com/list/2", false),
    ]);
    assert_eq!(find_next_page(&c, "https://shop.com/list/1").as_deref(), Some("https://shop.com/list/2"));
    let c = content(&[("Next", "https://other.com/2", true), ("Next", "https://shop.com/list/1", false)]);
    assert_eq!(find_next_page(&c, "https://shop.com/list/1"), None);
}

#[test]
fn next_page_by_page_parameter() {
    let c = content(&[
        ("2", "https://shop.com/other?page=2", false),
        ("3", "https://shop.com/list?page=3", false),
    ]);
    assert_eq!(find_next_page(&c, "https://shop.com/list?page=1").as_deref(), Some("https://shop.com/list?page=3"));
}

#[test]
fn pages_are_walked_once_and_bounded() {
    let mut p = Paginator::new("https://a.com/1".to_string(), 2);
    assert_eq!(p.next_page(), Some(("https://a.com/1".to_string(), 1)));
    p.set_next(Some("https://a.com/1".to_string()));
    assert_eq!(p.next_page(), None);
    p.set_next(Some("https://a.com/2".to_string()));
    assert_eq!(p.next_page(), Some(("https://a.com/2".to_string(), 2)));
    p.set_next(Some("https://a.com/3".to_string()));
    assert_eq!(p.next_page(), None);
    let mut q = Paginator::new("https://a.com/1".to_string(), 0);
    assert_eq!(q.max_pages, usize::MAX);
    assert!(q.next_page().is_some());
    assert_eq!(q.next_page(), None);
}
