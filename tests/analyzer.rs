use rust_web_scraper::dom::{parse_selector, Document};
use rust_web_scraper::structure_analyzer::{
    calculate_confidence, calculate_score, deduplicate_sections, ConfidenceLevel, ExtractionMode,
    Section, SectionStats, SectionType, StructureAnalyzer,
};
use rust_web_scraper::utils::UNIT;

fn el(doc: &mut Document, name: &str) {
    doc.open_element(name, vec![], vec![]);
}

fn el_attrs(doc: &mut Document, name: &str, attrs: &[(&str, &str)]) {
    let a = attrs.iter().map(|(k, v)| (k.to_string(), v.to_string())).collect();
    doc.open_element(name, a, vec![]);
}

fn text_el(doc: &mut Document, name: &str, text: &str) {
    el(doc, name);
    doc.push_text(text);
    doc.close_element();
}

fn ws(doc: &mut Document) {
    doc.push_text("\n    ");
}

/// A page with a header and its navigation, an article of three paragraphs
/// and an aside with two links.
fn sample_page() -> Document {
    let mut d = Document::new();
    el(&mut d, "html");
    el(&mut d, "head");
    d.close_element();
    el(&mut d, "body");
    ws(&mut d);
    el(&mut d, "header");
    ws(&mut d);
    el(&mut d, "nav");
    el_attrs(&mut d, "a", &[("href", "/")]);
    d.push_text("Home");
    d.close_element();
    d.close_element();
    ws(&mut d);
    d.close_element();
    ws(&mut d);
    el(&mut d, "article");
    ws(&mut d);
    text_el(&mut d, "h1", "Main Article");
    ws(&mut d);
    text_el(&mut d, "p", "This is a long article with substantial content that should be detected as the main content area.");
    ws(&mut d);
    text_el(&mut d, "p", "It has multiple paragraphs to increase the confidence score.");
    ws(&mut d);
    text_el(&mut d, "p", "More content here to meet the minimum length requirements.");
    ws(&mut d);
    d.close_element();
    ws(&mut d);
    el(&mut d, "aside");
    ws(&mut d);
    text_el(&mut d, "h3", "Related Links");
    ws(&mut d);
    el_attrs(&mut d, "a", &[("href", "/link1")]);
    d.push_text("Link 1");
    d.close_element();
    ws(&mut d);
    el_attrs(&mut d, "a", &[("href", "/link2")]);
    d.push_text("Link 2");
    d.close_element();
    ws(&mut d);
    d.close_element();
    ws(&mut d);
    d.close_element();
    d.close_element();
    d
}

#[test]
fn test_structure_analyzer() {
    let html = sample_page();
    let analyzer = StructureAnalyzer::new();
    let analysis = analyzer.analyze(&html, "https://example.com");

    assert!(!analysis.sections.is_empty());
    assert!(analysis.recommendations.best_main_content.is_some());
}

fn long_text(prefix: &str, n: usize) -> String {
    let mut s = String::from(prefix);
    while s.chars().count() < n {
        s.push_str(" lorem ipsum dolor");
    }
    s
}

#[test]
fn article_ranks_above_sidebar() {
    let mut d = Document::new();
    el(&mut d, "body");
    el(&mut d, "article");
    for k in 0..3 {
        text_el(&mut d, "p", &long_text(&format!("Paragraph {} of the story.", k), 150));
    }
    d.close_element();
    el(&mut d, "aside");
    d.push_text(&long_text("Sidebar text about other things.", 220));
    el_attrs(&mut d, "a", &[("href", "/one")]);
    d.push_text("One");
    d.close_element();
    el_attrs(&mut d, "a", &[("href", "/two")]);
    d.push_text("Two");
    d.close_element();
    d.close_element();
    d.close_element();

    let analysis = StructureAnalyzer::new().analyze(&d, "https://example.com/story");
    let article = analysis.sections.iter().position(|s| s.section_type == SectionType::Article);
    let sidebar = analysis.sections.iter().position(|s| s.section_type == SectionType::Sidebar);
    assert!(article.is_some());
    assert!(sidebar.is_some());
    assert!(article.unwrap() < sidebar.unwrap());
    let best = analysis.recommendations.best_main_content.unwrap();
    assert!(!best.is_empty());
    assert_eq!(best, "article");
    assert_eq!(analysis.recommendations.suggested_mode, ExtractionMode::Article);
}

#[test]
fn scoring_is_deterministic() {
    let page = sample_page();
    let a = StructureAnalyzer::new().analyze(&page, "https://example.com");
    let b = StructureAnalyzer::new().analyze(&page, "https://example.com");
    assert_eq!(a.sections.len(), b.sections.len());
    for (x, y) in a.sections.iter().zip(b.sections.iter()) {
        assert_eq!(x.selector, y.selector);
        assert_eq!(x.score, y.score);
        assert_eq!(x.confidence, y.confidence);
    }
}

#[test]
fn empty_page_gives_no_sections() {
    let analysis = StructureAnalyzer::new().analyze(&Document::new(), "https://example.com");
    assert!(analysis.sections.is_empty());
    assert_eq!(analysis.recommendations.confidence_level, ConfidenceLevel::VeryLow);
    assert_eq!(analysis.recommendations.suggested_mode, ExtractionMode::Generic);
    assert_eq!(analysis.recommendations.best_title.as_deref(), Some("h1, h2, title"));
    assert!(!analysis.timestamp.is_empty());
}

#[test]
fn scores_and_confidences_stay_in_unit() {
    let page = sample_page();
    let analysis = StructureAnalyzer::with_options(0, true, true).analyze(&page, "https://example.com");
    assert!(!analysis.sections.is_empty());
    for s in &analysis.sections {
        assert!(s.score <= UNIT);
        assert!(s.confidence <= UNIT);
    }
    let debug = analysis.debug_info.unwrap();
    assert_eq!(debug.total_elements, page.nodes.len());
    assert_eq!(debug.analyzed_sections, analysis.sections.len());
}

#[test]
fn unclosed_markup_is_analysed() {
    let mut d = Document::new();
    el(&mut d, "nav");
    el_attrs(&mut d, "a", &[("href", "/")]);
    d.push_text("Home");
    d.close_element();
    d.close_element();
    d.close_element();
    el(&mut d, "main");
    d.push_text("unfinished");
    let analysis = StructureAnalyzer::new().analyze(&d, "https://example.com");
    assert_eq!(analysis.sections.len(), 1);
    assert_eq!(analysis.sections[0].section_type, SectionType::Navigation);
}

fn stats(text_length: usize, links: usize, paragraphs: usize, elements: usize, words: usize) -> SectionStats {
    let density = std::cmp::min(UNIT, text_length as u64 * UNIT / elements as u64);
    let link_density = if text_length > 0 { links as u64 * 50 * UNIT / text_length as u64 } else { UNIT };
    SectionStats {
        text_length,
        word_count: words,
        link_count: links,
        image_count: 0,
        paragraph_count: paragraphs,
        heading_count: 0,
        density_score: density,
        link_density,
        element_count: elements,
    }
}

#[test]
fn article_score_formula() {
    // density 1, link density 0.1, 5 paragraphs, 1000 characters:
    // 0.3 + 0.27 + 0.1 + 0.04 = 0.71
    let s = stats(1000, 2, 5, 100, 150);
    assert_eq!(s.link_density, 100_000);
    assert_eq!(calculate_score(&s, SectionType::Article), 710_000);
    // 0.5 + 0.06 + 0.1, and no bonus at exactly 0.1 link density
    assert_eq!(calculate_confidence(&s, SectionType::Article), 660_000);
}

#[test]
fn other_score_formulas() {
    let s = stats(100, 10, 0, 40, 20);
    // sidebar: 0.5 * 10/20 + 0.3 * (1 - 100/2000) = 0.25 + 0.285
    assert_eq!(calculate_score(&s, SectionType::Sidebar), 535_000);
    // navigation: link density 5 held to 1: 0.5 + 0.3 * (1 - 100/500) = 0.74
    assert_eq!(calculate_score(&s, SectionType::Navigation), 740_000);
    // comments: 0.4 * 40/50 + 0.3 * 400/2000 = 0.32 + 0.06
    assert_eq!(calculate_score(&s, SectionType::Comments), 380_000);
    assert_eq!(calculate_score(&s, SectionType::Unknown), 500_000);
    // confidence: 0.5 + 0.2 * 20/500
    assert_eq!(calculate_confidence(&s, SectionType::Sidebar), 508_000);
}

fn section(selector: &str, score: u64, preview: &str) -> Section {
    Section {
        selector: selector.to_string(),
        section_type: SectionType::Unknown,
        score,
        confidence: 0,
        stats: stats(10, 0, 0, 1, 1),
        preview: preview.to_string(),
        xpath: None,
    }
}

#[test]
fn deduplication_keeps_distinct_previews() {
    let shared = "x".repeat(100);
    let v = vec![
        section("a", 900_000, &format!("{}tail one", shared)),
        section("b", 800_000, &format!("{}tail two", shared)),
        section("c", 700_000, "something else"),
        section("d", 600_000, "another"),
    ];
    let r = deduplicate_sections(v);
    let names: Vec<&str> = r.iter().map(|s| s.selector.as_str()).collect();
    assert_eq!(names, vec!["a", "c", "d"]);
}

#[test]
fn selectors_read_in_canonical_form() {
    let chain = parse_selector("meta[property='og:title']").unwrap();
    assert_eq!(chain.len(), 1);
    assert_eq!(chain[0].tag.as_deref(), Some("meta"));
    let (name, value) = chain[0].attribute.clone().unwrap();
    assert_eq!(name, "property");
    assert_eq!(value.as_deref(), Some("og:title"));
    assert_eq!(parse_selector("nav a").unwrap().len(), 2);
    assert_eq!(parse_selector("#comments").unwrap()[0].id.as_deref(), Some("comments"));
    assert!(parse_selector("nav  a").is_none());
    assert!(parse_selector("[").is_none());
    assert!(parse_selector("").is_none());
}
