//! Website crawling and page-structure analysis.
//!
//! The crate holds the decisions of a breadth-first crawler (what to fetch
//! next, which links to follow, when a run is over), a scorer that classifies
//! the regions of a parsed page by semantic role, and a store of per-domain
//! extraction profiles that learns from feedback.
//!
//! Scores, confidences and rates are fixed-point integers in millionths:
//! [`utils::UNIT`] stands for 1.0.

pub mod api;
pub mod auto_selectors;
pub mod clock;
pub mod deep_scraper;
pub mod dom;
pub mod learning_profile;
pub mod patterns;
pub mod scraper;
pub mod structure_analyzer;
pub mod text;
pub mod urls;
pub mod utils;
