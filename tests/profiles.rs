use rust_web_scraper::api::{should_auto_save, AnalyzeRequest};
use rust_web_scraper::dom::Document;
use rust_web_scraper::learning_profile::{
    calculate_confidence_from_analysis, ProfileDatabase, ProfileError, SiteProfile,
};
use rust_web_scraper::structure_analyzer::StructureAnalyzer;
use rust_web_scraper::utils::UNIT;

fn profile(id: &str, domain: &str, confidence: u64, last_used: &str, mode: &str) -> SiteProfile {
    SiteProfile {
        id: id.to_string(),
        domain: domain.to_string(),
        pattern: None,
        main_content_selector: Some("article".to_string()),
        title_selector: Some("h1".to_string()),
        comments_selector: None,
        extraction_mode: mode.to_string(),
        confidence,
        use_count: 0,
        success_rate: UNIT,
        created_at: last_used.to_string(),
        last_used: last_used.to_string(),
        notes: None,
    }
}

#[test]
fn test_database_creation() {
    let db = ProfileDatabase::new_in_memory().unwrap();
    let stats = db.get_stats().unwrap();
    assert_eq!(stats.total_profiles, 0);
}

#[test]
fn test_profile_crud() {
    let mut db = ProfileDatabase::new_in_memory().unwrap();

    let profile = SiteProfile {
        id: uuid::Uuid::new_v4().to_string(),
        domain: "example.com".to_string(),
        pattern: None,
        main_content_selector: Some("article".to_string()),
        title_selector: Some("h1".to_string()),
        comments_selector: None,
        extraction_mode: "Article".to_string(),
        confidence: 900_000,
        use_count: 0,
        success_rate: UNIT,
        created_at: chrono::Local::now().to_rfc3339(),
        last_used: chrono::Local::now().to_rfc3339(),
        notes: None,
    };

    db.insert_profile(&profile).unwrap();

    let retrieved = db.get_by_domain("example.com").unwrap();
    assert!(retrieved.is_some());
    assert_eq!(retrieved.unwrap().domain, "example.com");

    let stats = db.get_stats().unwrap();
    assert_eq!(stats.total_profiles, 1);
}

fn article_page() -> Document {
    let mut d = Document::new();
    d.open_element("article", vec![], vec![]);
    for _ in 0..3 {
        d.open_element("p", vec![], vec![]);
        d.push_text(&"Plenty of words in a long paragraph. ".repeat(6));
        d.close_element();
    }
    d.close_element();
    d
}

#[test]
fn saved_profile_is_retrieved_with_its_confidence() {
    let analysis = StructureAnalyzer::new().analyze(&article_page(), "https://news.example.com/story");
    assert!(should_auto_save(&analysis));
    let mut db = ProfileDatabase::new_in_memory().unwrap();
    db.insert_profile(&profile("old", "news.example.com", 100_000, "2024-01-01T00:00:00+00:00", "Generic")).unwrap();
    let saved = db.save_from_analysis(&analysis).unwrap();
    assert_eq!(saved.domain, "news.example.com");
    assert_eq!(saved.extraction_mode, "Article");
    assert_eq!(saved.confidence, calculate_confidence_from_analysis(&analysis));
    let top = analysis.sections[0].score;
    assert_eq!(saved.confidence, std::cmp::min(UNIT, 7 * top / 10 + 300_000));
    let found = db.get_by_domain("news.example.com").unwrap().unwrap();
    assert_eq!(found.confidence, saved.confidence);
    assert_eq!(found.id, saved.id);
    assert_eq!(db.get_all().unwrap().len(), 2);
}

#[test]
fn saving_needs_a_host() {
    let mut analysis = StructureAnalyzer::new().analyze(&article_page(), "not a url");
    let mut db = ProfileDatabase::new_in_memory().unwrap();
    assert_eq!(db.save_from_analysis(&analysis).unwrap_err(), ProfileError::InvalidUrl);
    analysis.url = "data:text/plain,hello".to_string();
    assert_eq!(db.save_from_analysis(&analysis).unwrap_err(), ProfileError::MissingHost);
    assert_eq!(db.get_stats().unwrap().total_profiles, 0);
}

#[test]
fn feedback_moves_the_success_rate() {
    let mut db = ProfileDatabase::new_in_memory().unwrap();
    let mut p = profile("p1", "a.com", 500_000, "2024-01-01T00:00:00+00:00", "Article");
    p.success_rate = 500_000;
    db.insert_profile(&p).unwrap();
    db.update_usage("p1", true).unwrap();
    let after = db.get_by_id("p1").unwrap().unwrap();
    assert_eq!(after.success_rate, 650_000);
    assert_eq!(after.use_count, 1);
    db.update_usage("p1", true).unwrap();
    assert_eq!(db.get_by_id("p1").unwrap().unwrap().success_rate, 755_000);
    db.update_usage("p1", false).unwrap();
    assert_eq!(db.get_by_id("p1").unwrap().unwrap().success_rate, 528_500);
    db.update_usage("missing", true).unwrap();
    assert_eq!(db.get_by_id("p1").unwrap().unwrap().use_count, 3);
}

#[test]
fn listing_order_and_stats() {
    let mut db = ProfileDatabase::new_in_memory().unwrap();
    db.insert_profile(&profile("x", "a.com", 500_000, "2024-01-01T00:00:00+00:00", "Article")).unwrap();
    db.insert_profile(&profile("y", "a.com", 900_000, "2024-01-01T00:00:00+00:00", "Forum")).unwrap();
    db.insert_profile(&profile("z", "a.com", 500_000, "2024-02-01T00:00:00+00:00", "Article")).unwrap();
    let ids: Vec<String> = db.get_all().unwrap().into_iter().map(|p| p.id).collect();
    assert_eq!(ids, vec!["y", "z", "x"]);
    let ids: Vec<String> = db.get_by_mode("Article").unwrap().into_iter().map(|p| p.id).collect();
    assert_eq!(ids, vec!["z", "x"]);
    assert_eq!(db.get_by_domain("a.com").unwrap().unwrap().id, "y");
    let stats = db.get_stats().unwrap();
    assert_eq!(stats.total_profiles, 3);
    assert_eq!(stats.avg_confidence, 633_333);
    assert_eq!(stats.avg_success_rate, UNIT);
    db.insert_profile(&profile("y", "a.com", 100_000, "2024-03-01T00:00:00+00:00", "Forum")).unwrap();
    assert_eq!(db.get_stats().unwrap().total_profiles, 3);
    assert_eq!(db.get_by_domain("a.com").unwrap().unwrap().id, "z");
    db.delete("z").unwrap();
    assert_eq!(db.get_by_domain("a.com").unwrap().unwrap().id, "x");
    db.clear_all().unwrap();
    assert!(db.get_by_domain("a.com").unwrap().is_none());
}

#[test]
fn analyze_request_picks_the_analyzer() {
    let req = AnalyzeRequest { url: "https://a.com".to_string(), min_content_length: Some(40), detect_comments: false, debug_mode: true };
    let a = req.analyzer();
    assert_eq!(a.min_content_length, 40);
    assert_eq!(a.min_word_count, 8);
    assert!(a.debug_mode);
    let req = AnalyzeRequest { url: "https://a.com".to_string(), min_content_length: None, detect_comments: false, debug_mode: true };
    assert_eq!(req.analyzer().min_content_length, 200);
}
