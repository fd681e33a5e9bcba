use rust_web_scraper::auto_selectors::{AutoSelectors, SelectorDetector};
use rust_web_scraper::dom::Document;

fn el(doc: &mut Document, name: &str, attrs: &[(&str, &str)]) {
    let a = attrs.iter().map(|(k, v)| (k.to_string(), v.to_string())).collect();
    doc.open_element(name, a, vec![]);
}

fn test_page() -> Document {
    let mut d = Document::new();
    el(&mut d, "html", &[]);
    el(&mut d, "head", &[]);
    el(&mut d, "title", &[]);
    d.push_text("Test Page");
    d.close_element();
    el(&mut d, "meta", &[("name", "description"), ("content", "A test page")]);
    d.close_element();
    d.close_element();
    el(&mut d, "body", &[]);
    el(&mut d, "h1", &[]);
    d.push_text("Main Title");
    d.close_element();
    el(&mut d, "article", &[]);
    el(&mut d, "p", &[]);
    d.push_text("This is the main content of the page.");
    d.close_element();
    el(&mut d, "p", &[]);
    d.push_text("Another paragraph with more details.");
    d.close_element();
    d.close_element();
    el(&mut d, "a", &[("href", "https://example.com")]);
    d.push_text("External Link");
    d.close_element();
    el(&mut d, "img", &[("src", "/image.jpg"), ("alt", "Test Image")]);
    d.close_element();
    d.close_element();
    d.close_element();
    d
}

#[test]
fn test_auto_selector_detection() {
    let html = test_page();

    let detector = SelectorDetector::new();
    let result = detector.detect(&html, "https://example.com");

    assert!(result.title.is_some());
    assert!(!result.content.is_empty());
    assert!(!result.links.is_empty());
    assert!(!result.images.is_empty());
}

#[test]
fn detection_values() {
    let result = SelectorDetector::new().detect(&test_page(), "https://example.com/");
    assert_eq!(result.title.as_deref(), Some("Main Title"));
    assert_eq!(
        result.content,
        vec![
            "This is the main content of the page.Another paragraph with more details.".to_string(),
            "This is the main content of the page.".to_string(),
            "Another paragraph with more details.".to_string(),
        ]
    );
    assert_eq!(result.links.len(), 1);
    assert_eq!(result.links[0].href, "https://example.com");
    assert_eq!(result.links[0].text, "External Link");
    assert!(!result.links[0].is_external);
    assert_eq!(result.images.len(), 1);
    assert_eq!(result.images[0].src, "https://example.com/image.jpg");
    assert_eq!(result.images[0].alt.as_deref(), Some("Test Image"));
    assert_eq!(result.metadata, vec![("description".to_string(), "A test page".to_string())]);
}

#[test]
fn external_links_and_protocol_relative_images() {
    let mut d = Document::new();
    el(&mut d, "body", &[]);
    el(&mut d, "a", &[("href", "https://other.org/x")]);
    d.close_element();
    el(&mut d, "a", &[("href", "/local")]);
    d.push_text("Local");
    d.close_element();
    el(&mut d, "img", &[("src", "//cdn.example.com/a.png")]);
    d.close_element();
    el(&mut d, "div", &[("data-src", "b.png")]);
    d.close_element();
    d.close_element();
    let result = SelectorDetector::new().detect(&d, "https://example.com/page/");
    assert_eq!(result.links.len(), 2);
    assert_eq!(result.links[0].text, "https://other.org/x");
    assert!(result.links[0].is_external);
    assert_eq!(result.links[1].href, "https://example.com/local");
    assert!(!result.links[1].is_external);
    let srcs: Vec<&str> = result.images.iter().map(|i| i.src.as_str()).collect();
    assert_eq!(srcs, vec!["https://cdn.example.com/a.png", "https://example.com/page/b.png"]);
}

#[test]
fn meta_title_and_custom_selectors() {
    let mut d = Document::new();
    el(&mut d, "head", &[]);
    el(&mut d, "meta", &[("property", "og:title"), ("content", "From meta")]);
    d.close_element();
    el(&mut d, "meta", &[("name", "author"), ("content", "Ann")]);
    d.close_element();
    el(&mut d, "meta", &[("name", "author"), ("content", "Bob")]);
    d.close_element();
    d.close_element();
    let result = SelectorDetector::new().detect(&d, "https://example.com");
    assert_eq!(result.title.as_deref(), Some("From meta"));
    assert_eq!(result.metadata, vec![("author".to_string(), "Bob".to_string())]);

    let custom = AutoSelectors {
        title: vec!["not a [selector".to_string(), "meta[name='author']".to_string()],
        content: vec![],
        links: vec![],
        images: vec![],
        metadata: vec![],
    };
    let result = SelectorDetector::with_custom_selectors(custom).detect(&d, "https://example.com");
    assert_eq!(result.title.as_deref(), Some("Ann"));
}
