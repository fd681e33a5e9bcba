//! Requests and responses of the service, and the decisions it takes on
//! them.

use vstd::prelude::*;
use crate::deep_scraper::{CrawlStatus, DeepScrapeResult};
use crate::structure_analyzer::{StructureAnalysis, StructureAnalyzer};

verus! {

/// A request to analyse the page at `url`.
#[derive(Clone, Debug)]
pub struct AnalyzeRequest {
    pub url: String,
    pub min_content_length: Option<usize>,
    pub detect_comments: bool,
    pub debug_mode: bool,
}

impl AnalyzeRequest {
    /// The analyser the request asks for: the default one unless a minimum
    /// length is given.
    pub fn analyzer(&self) -> (r: StructureAnalyzer)
        ensures
            match self.min_content_length {
                Some(n) => r.min_content_length == n && r.detect_comments == self.detect_comments
                    && r.debug_mode == self.debug_mode,
                None => r.min_content_length == 200 && r.detect_comments && !r.debug_mode,
            },
    {
        match self.min_content_length {
            Some(n) => StructureAnalyzer::with_options(n, self.detect_comments, self.debug_mode),
            None => StructureAnalyzer::new(),
        }
    }
}

/// The score, in millionths, from which an analysis is remembered.
pub const AUTO_SAVE_THRESHOLD: u64 = 500_000;

/// Whether an analysis is good enough to be saved as a profile: it found
/// main content, and its best section scores at least one half.
pub fn should_auto_save(analysis: &StructureAnalysis) -> (r: bool)
    ensures
        r == (analysis.recommendations.best_main_content is Some && analysis.sections@.len() > 0
            && analysis.sections@[0].score >= AUTO_SAVE_THRESHOLD),
{
    analysis.recommendations.best_main_content.is_some() && analysis.sections.len() > 0
        && analysis.sections[0].score >= AUTO_SAVE_THRESHOLD
}

/// The answer to a crawl request.
#[derive(Clone, Debug)]
pub struct DeepScrapeResponse {
    pub success: bool,
    pub message: String,
    pub result: Option<DeepScrapeResult>,
}

/// Whether a crawl that ended with `status` counts as a success.
pub fn crawl_succeeded(status: CrawlStatus) -> (r: bool)
    ensures
        r == (status == CrawlStatus::Completed || status == CrawlStatus::PartiallyCompleted),
{
    status == CrawlStatus::Completed || status == CrawlStatus::PartiallyCompleted
}

} // verus!
