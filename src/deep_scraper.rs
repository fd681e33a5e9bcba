//! Breadth-first crawling: the frontier, the link filter and the outcome of
//! a run.
//!
//! The crawler here makes every decision and performs no I/O. A driver asks
//! [`DeepScraper::next_item`] for the URL to fetch, fetches it, and reports
//! the page and its links with [`DeepScraper::record_page`] or the failure
//! with [`DeepScraper::record_failure`], waiting between requests as the
//! configured rate asks; when no URL is left it calls
//! [`DeepScraper::finish`].

use vstd::prelude::*;
use crate::auto_selectors::AutoSelectors;
use crate::patterns::{any_pattern_matches, any_pattern_matches_exec};
use crate::scraper::ScrapingResult;
use crate::structure_analyzer::opt_view;
use crate::text::{chars_of, same_chars, string_of, text_eq};
use crate::urls::{
    before_hash, joined_url, normalize_url, parse_hosts, registrable_domain,
    registrable_domain_exec, resolve_link, url_hosts,
};

verus! {

/// How a crawl is run.
#[derive(Clone, Debug)]
pub struct DeepScrapeConfig {
    /// Where the crawl starts, at depth 0.
    pub start_urls: Vec<String>,
    /// Links are followed from pages up to this depth (0: start URLs only).
    pub max_depth: usize,
    /// The most pages crawled in one run.
    pub max_pages: usize,
    /// Follow only links whose registrable domain is that of their page.
    pub stay_in_domain: bool,
    /// Follow only links whose host is that of their page.
    pub stay_in_subdomain: bool,
    /// When not empty, follow only links that one of these matches.
    pub include_patterns: Vec<String>,
    /// Never follow links that one of these matches.
    pub exclude_patterns: Vec<String>,
    /// Requests per second, one global pace for every domain.
    pub rate_limit: u64,
    pub custom_selectors: Option<AutoSelectors>,
    /// Accepted for compatibility; it changes nothing.
    pub filter_navigation: bool,
    pub min_content_length: usize,
}

/// The patterns excluded by default: documents, archives, images and
/// fragment links.
pub open spec fn default_excludes() -> Seq<Seq<char>> {
    seq!["\\.pdf$"@, "\\.zip$"@, "\\.jpg$"@, "\\.png$"@, "\\.gif$"@, "\\#.*$"@]
}

pub open spec fn string_views(s: Seq<String>) -> Seq<Seq<char>> {
    s.map_values(|x: String| x@)
}

/// The patterns excluded by default.
pub fn default_exclude_patterns() -> (r: Vec<String>)
    ensures
        string_views(r@) == default_excludes(),
{
    let mut r: Vec<String> = Vec::new();
    r.push("\\.pdf$".to_string());
    r.push("\\.zip$".to_string());
    r.push("\\.jpg$".to_string());
    r.push("\\.png$".to_string());
    r.push("\\.gif$".to_string());
    r.push("\\#.*$".to_string());
    assert(string_views(r@) =~= default_excludes());
    r
}

impl Default for DeepScrapeConfig {
    fn default() -> (r: DeepScrapeConfig)
        ensures
            r.start_urls@.len() == 0,
            r.max_depth == 2,
            r.max_pages == 50,
            r.stay_in_domain,
            !r.stay_in_subdomain,
            r.include_patterns@.len() == 0,
            string_views(r.exclude_patterns@) == default_excludes(),
            r.rate_limit == 2,
            r.custom_selectors is None,
            r.filter_navigation,
            r.min_content_length == 200,
    {
        DeepScrapeConfig {
            start_urls: Vec::new(),
            max_depth: 2,
            max_pages: 50,
            stay_in_domain: true,
            stay_in_subdomain: false,
            include_patterns: Vec::new(),
            exclude_patterns: default_exclude_patterns(),
            rate_limit: 2,
            custom_selectors: None,
            filter_navigation: true,
            min_content_length: 200,
        }
    }
}

// ----- the link filter -----

pub open spec fn host_part(p: Option<(Option<Seq<char>>, Option<Seq<char>>)>) -> Option<Seq<char>> {
    match p {
        Some((h, _)) => h,
        None => None,
    }
}

pub open spec fn domain_part(p: Option<(Option<Seq<char>>, Option<Seq<char>>)>) -> Option<Seq<char>> {
    match p {
        Some((_, d)) => d,
        None => None,
    }
}

/// Whether `url`, found on the page at `base`, may be crawled: it parses;
/// under domain scoping its registrable domain is the page's, under host
/// scoping its host is the page's (each test applies when both sides have
/// one); no exclude pattern matches it; and, when include patterns are set,
/// one of them does.
pub open spec fn crawl_allowed(config: DeepScrapeConfig, url: Seq<char>, base: Seq<char>) -> bool {
    let u = url_hosts(url);
    let b = url_hosts(base);
    &&& u is Some
    &&& !(config.stay_in_domain && domain_part(b) is Some && domain_part(u) is Some
        && registrable_domain(domain_part(b)->0) != registrable_domain(domain_part(u)->0))
    &&& !(config.stay_in_subdomain && host_part(b) is Some && host_part(u) is Some
        && host_part(b)->0 != host_part(u)->0)
    &&& !any_pattern_matches(config.exclude_patterns@, url)
    &&& (config.include_patterns@.len() == 0 || any_pattern_matches(config.include_patterns@, url))
}

/// Whether `url`, found on the page at `base_url`, may be crawled.
pub fn should_crawl(config: &DeepScrapeConfig, url: &str, base_url: &str) -> (r: bool)
    ensures
        r == crawl_allowed(*config, url@, base_url@),
{
    let parts = match parse_hosts(url) {
        Some(p) => p,
        None => {
            return false;
        },
    };
    let base = parse_hosts(base_url);
    if config.stay_in_domain {
        if let Some(b) = &base {
            if let (Some(bd), Some(ud)) = (&b.domain, &parts.domain) {
                let x = registrable_domain_exec(bd.as_str());
                let y = registrable_domain_exec(ud.as_str());
                if !same_chars(&x, &y) {
                    return false;
                }
            }
        }
    }
    if config.stay_in_subdomain {
        if let Some(b) = &base {
            if let (Some(bh), Some(uh)) = (&b.host, &parts.host) {
                if !text_eq(bh.as_str(), uh.as_str()) {
                    return false;
                }
            }
        }
    }
    if any_pattern_matches_exec(&config.exclude_patterns, url) {
        return false;
    }
    if config.include_patterns.len() > 0 && !any_pattern_matches_exec(&config.include_patterns, url) {
        return false;
    }
    true
}

/// The link `href` of the page at `base`, resolved and without fragment, if
/// it may be crawled.
pub open spec fn accepted_link(config: DeepScrapeConfig, base: Seq<char>, href: Seq<char>) -> Option<Seq<char>> {
    match joined_url(base, href) {
        Some(abs) => {
            let n = before_hash(abs);
            if crawl_allowed(config, n, base) {
                Some(n)
            } else {
                None
            }
        },
        None => None,
    }
}

/// The accepted links among the first `upto` links, in order.
pub open spec fn filtered_links(config: DeepScrapeConfig, base: Seq<char>, links: Seq<String>, upto: int) -> Seq<Seq<char>>
    decreases upto,
{
    if upto <= 0 {
        Seq::empty()
    } else {
        let prev = filtered_links(config, base, links, upto - 1);
        match accepted_link(config, base, links[upto - 1]@) {
            Some(n) => prev.push(n),
            None => prev,
        }
    }
}

pub proof fn lemma_filtered_links_len(config: DeepScrapeConfig, base: Seq<char>, links: Seq<String>, upto: int)
    requires
        0 <= upto,
    ensures
        filtered_links(config, base, links, upto).len() <= upto,
    decreases upto,
{
    if upto > 0 {
        lemma_filtered_links_len(config, base, links, upto - 1);
    }
}

/// The links of the page at `base_url` that may be crawled, resolved and
/// without fragments; links that do not resolve are dropped.
pub fn filter_links(config: &DeepScrapeConfig, base_url: &str, links: &Vec<String>) -> (r: Vec<String>)
    ensures
        string_views(r@) == filtered_links(*config, base_url@, links@, links@.len() as int),
{
    let mut r: Vec<String> = Vec::new();
    let mut k: usize = 0;
    assert(string_views(r@) =~= filtered_links(*config, base_url@, links@, 0));
    while k < links.len()
        invariant
            k <= links@.len(),
            string_views(r@) == filtered_links(*config, base_url@, links@, k as int),
        decreases links.len() - k,
    {
        match resolve_link(base_url, links[k].as_str()) {
            Some(abs) => {
                let n = normalize_url(abs.as_str());
                if should_crawl(config, n.as_str(), base_url) {
                    r.push(n);
                }
            },
            None => {},
        }
        k = k + 1;
        assert(string_views(r@) =~= filtered_links(*config, base_url@, links@, k as int));
    }
    r
}


// ----- the frontier -----

/// A URL waiting in the queue.
#[derive(Clone, Debug)]
pub struct CrawlItem {
    pub url: String,
    pub depth: usize,
    pub parent_url: Option<String>,
}

/// One processed URL of the crawl tree.
#[derive(Clone, Debug)]
pub struct CrawlNode {
    pub url: String,
    pub depth: usize,
    pub parent: Option<String>,
    pub children: Vec<String>,
    pub scraped: bool,
    pub error: Option<String>,
}

/// Where a crawl run stands.
#[derive(Clone, Copy, Debug, PartialEq, Eq, Structural)]
pub enum CrawlStatus {
    Running,
    Completed,
    PartiallyCompleted,
    Failed,
}

/// The outcome of a crawl run.
#[derive(Clone, Debug)]
pub struct DeepScrapeResult {
    pub session_id: String,
    pub start_time: String,
    pub end_time: Option<String>,
    pub config: DeepScrapeConfig,
    pub results: Vec<ScrapingResult>,
    pub crawl_tree: Vec<CrawlNode>,
    pub total_pages_crawled: usize,
    pub total_links_discovered: usize,
    pub total_links_filtered: usize,
    pub domains_visited: Vec<String>,
    pub errors: Vec<String>,
    pub status: CrawlStatus,
}

/// The status of a finished run: failed when no page was crawled, partly
/// done when errors came before the page budget was used up, else done.
pub open spec fn crawl_status(pages: int, errors: int, max_pages: int) -> CrawlStatus {
    if pages == 0 {
        CrawlStatus::Failed
    } else if errors > 0 && pages < max_pages {
        CrawlStatus::PartiallyCompleted
    } else {
        CrawlStatus::Completed
    }
}

pub fn determine_status(pages_crawled: usize, error_count: usize, max_pages: usize) -> (r: CrawlStatus)
    ensures
        r == crawl_status(pages_crawled as int, error_count as int, max_pages as int),
{
    if pages_crawled == 0 {
        CrawlStatus::Failed
    } else if error_count > 0 && pages_crawled < max_pages {
        CrawlStatus::PartiallyCompleted
    } else {
        CrawlStatus::Completed
    }
}

/// `q`, from index `start` on, holds exactly one item per URL of `urls`, in
/// order, at `depth` with `parent` as parent.
pub open spec fn queued_children(q: Seq<CrawlItem>, start: int, urls: Seq<Seq<char>>, depth: usize, parent: Seq<char>) -> bool {
    &&& q.len() == start + urls.len()
    &&& forall|m: int| 0 <= m < urls.len() ==> {
        &&& (#[trigger] q[start + m]).url@ == urls[m]
        &&& q[start + m].depth == depth
        &&& opt_view(q[start + m].parent_url) == Some(parent)
    }
}

/// The crawl tree entry for a processed item.
pub open spec fn node_for(it: CrawlItem, n: CrawlNode, error: Option<Seq<char>>) -> bool {
    &&& n.url@ == it.url@
    &&& n.depth == it.depth
    &&& opt_view(n.parent) == opt_view(it.parent_url)
    &&& n.children@.len() == 0
    &&& n.scraped == (error is None)
    &&& opt_view(n.error) == error
}

/// A crawl in progress.
pub struct DeepScraper {
    pub config: DeepScrapeConfig,
    pub session_id: String,
    pub start_time: String,
    /// Every URL handed out for fetching, in order.
    pub visited: Vec<String>,
    /// The frontier, first in first out.
    pub queue: Vec<CrawlItem>,
    /// The item handed out and not yet reported on.
    pub current: Option<CrawlItem>,
    pub results: Vec<ScrapingResult>,
    pub crawl_tree: Vec<CrawlNode>,
    pub errors: Vec<String>,
    pub pages_crawled: usize,
    pub links_discovered: usize,
    pub links_filtered: usize,
}

impl DeepScraper {
    /// What holds of a crawl at every step: no URL is handed out twice, no
    /// item lies deeper than the depth bound, and the page budget is kept.
    pub open spec fn wf(&self) -> bool {
        &&& string_views(self.visited@).no_duplicates()
        &&& self.pages_crawled <= self.config.max_pages
        &&& forall|k: int| 0 <= k < self.queue@.len() ==> (#[trigger] self.queue@[k]).depth <= self.config.max_depth
        &&& forall|k: int| 0 <= k < self.crawl_tree@.len() ==> (#[trigger] self.crawl_tree@[k]).depth <= self.config.max_depth
        &&& (self.current matches Some(it) ==> {
            &&& it.depth <= self.config.max_depth
            &&& self.pages_crawled < self.config.max_pages
            &&& string_views(self.visited@).contains(it.url@)
        })
    }

    /// A crawl that starts from the configured URLs at depth 0.
    pub fn new(config: DeepScrapeConfig) -> (r: DeepScraper)
        ensures
            r.wf(),
            r.config == config,
            r.queue@.len() == config.start_urls@.len(),
            forall|m: int| 0 <= m < r.queue@.len() ==> {
                &&& (#[trigger] r.queue@[m]).url@ == config.start_urls@[m]@
                &&& r.queue@[m].depth == 0
                &&& r.queue@[m].parent_url is None
            },
            r.visited@.len() == 0,
            r.current is None,
            r.results@.len() == 0,
            r.crawl_tree@.len() == 0,
            r.errors@.len() == 0,
            r.pages_crawled == 0,
            r.links_discovered == 0,
            r.links_filtered == 0,
    {
        let mut queue: Vec<CrawlItem> = Vec::new();
        let mut k: usize = 0;
        while k < config.start_urls.len()
            invariant
                k <= config.start_urls@.len(),
                queue@.len() == k,
                forall|m: int| 0 <= m < queue@.len() ==> {
                    &&& (#[trigger] queue@[m]).url@ == config.start_urls@[m]@
                    &&& queue@[m].depth == 0
                    &&& queue@[m].parent_url is None
                },
            decreases config.start_urls.len() - k,
        {
            queue.push(CrawlItem { url: config.start_urls[k].clone(), depth: 0, parent_url: None });
            k = k + 1;
        }
        let session_id = crate::utils::new_session_id();
        let start_time = crate::clock::now_rfc3339();
        let r = DeepScraper {
            config,
            session_id,
            start_time,
            visited: Vec::new(),
            queue,
            current: None,
            results: Vec::new(),
            crawl_tree: Vec::new(),
            errors: Vec::new(),
            pages_crawled: 0,
            links_discovered: 0,
            links_filtered: 0,
        };
        assert(string_views(r.visited@) =~= Seq::<Seq<char>>::empty());
        r
    }

    fn is_visited(&self, url: &String) -> (r: bool)
        ensures
            r == string_views(self.visited@).contains(url@),
    {
        let mut k: usize = 0;
        while k < self.visited.len()
            invariant
                k <= self.visited@.len(),
                forall|m: int| 0 <= m < k ==> self.visited@[m]@ != url@,
            decreases self.visited.len() - k,
        {
            if self.visited[k] == *url {
                assert(string_views(self.visited@)[k as int] == url@);
                return true;
            }
            k = k + 1;
        }
        proof {
            if string_views(self.visited@).contains(url@) {
                let m = choose|m: int| 0 <= m < string_views(self.visited@).len() && string_views(self.visited@)[m] == url@;
                assert(self.visited@[m]@ == url@);
            }
        }
        false
    }

    /// The next URL to fetch: the first queued URL not handed out before.
    /// None when a page is still awaiting its report, when the page budget
    /// is used up, or when the queue holds nothing new (it is then emptied).
    pub fn next_item(&mut self) -> (r: Option<String>)
        ensures
            final(self).config == old(self).config,
            final(self).pages_crawled == old(self).pages_crawled,
            final(self).results == old(self).results,
            final(self).crawl_tree == old(self).crawl_tree,
            final(self).errors == old(self).errors,
            old(self).wf() ==> final(self).wf(),
            (old(self).current is Some || old(self).pages_crawled >= old(self).config.max_pages)
                ==> r is None && *final(self) == *old(self),
            r matches Some(u) ==> {
                &&& !string_views(old(self).visited@).contains(u@)
                &&& string_views(final(self).visited@) == string_views(old(self).visited@).push(u@)
                &&& exists|j: int| 0 <= j < old(self).queue@.len()
                    && final(self).queue@ == old(self).queue@.subrange(j + 1, old(self).queue@.len() as int)
                    && final(self).current == Some(old(self).queue@[j])
                    && old(self).queue@[j].url@ == u@
                    && forall|m: int| 0 <= m < j ==> string_views(old(self).visited@).contains(#[trigger] old(self).queue@[m].url@)
            },
            (r is None && old(self).current is None && old(self).pages_crawled < old(self).config.max_pages) ==> {
                &&& final(self).queue@.len() == 0
                &&& final(self).visited == old(self).visited
                &&& final(self).current is None
                &&& forall|m: int| 0 <= m < old(self).queue@.len() ==> string_views(old(self).visited@).contains(#[trigger] old(self).queue@[m].url@)
            },
    {
        if self.current.is_some() || self.pages_crawled >= self.config.max_pages {
            return None;
        }
        let ghost q0 = self.queue@;
        let mut j: usize = 0;
        while self.queue.len() > 0
            invariant
                self.config == old(self).config,
                self.pages_crawled == old(self).pages_crawled,
                self.results == old(self).results,
                self.crawl_tree == old(self).crawl_tree,
                self.errors == old(self).errors,
                self.visited == old(self).visited,
                self.current is None,
                old(self).current is None,
                self.pages_crawled < self.config.max_pages,
                q0 == old(self).queue@,
                q0.len() == old(self).queue.len(),
                j <= q0.len(),
                self.queue@ == q0.subrange(j as int, q0.len() as int),
                forall|m: int| 0 <= m < j ==> string_views(old(self).visited@).contains(#[trigger] q0[m].url@),
                old(self).wf() ==> self.wf(),
            decreases self.queue.len(),
        {
            let item = self.queue.remove(0);
            assert(item == q0[j as int]);
            if !self.is_visited(&item.url) {
                let url = item.url.clone();
                proof {
                    if old(self).wf() {
                        assert(string_views(self.visited@.push(url)) =~= string_views(self.visited@).push(url@));
                    }
                }
                self.visited.push(item.url.clone());
                self.current = Some(item);
                proof {
                    assert(string_views(self.visited@) =~= string_views(old(self).visited@).push(url@));
                    assert(self.queue@ =~= q0.subrange(j + 1, q0.len() as int));
                    if old(self).wf() {
                        assert(string_views(self.visited@)[self.visited@.len() - 1] == url@);
                        assert(q0[j as int].depth <= self.config.max_depth);
                    }
                }
                return Some(url);
            }
            j = j + 1;
            assert(self.queue@ =~= q0.subrange(j as int, q0.len() as int));
        }
        None
    }

    /// Appends the accepted links as items one level down.
    fn enqueue_links(&mut self, parent_url: &String, links: &Vec<String>, depth: usize)
        ensures
            final(self).queue@.subrange(0, old(self).queue@.len() as int) == old(self).queue@,
            queued_children(final(self).queue@, old(self).queue@.len() as int, string_views(links@), depth, parent_url@),
            final(self).config == old(self).config,
            final(self).visited == old(self).visited,
            final(self).current == old(self).current,
            final(self).results == old(self).results,
            final(self).crawl_tree == old(self).crawl_tree,
            final(self).errors == old(self).errors,
            final(self).pages_crawled == old(self).pages_crawled,
            final(self).links_discovered == old(self).links_discovered,
            final(self).links_filtered == old(self).links_filtered,
    {
        let mut k: usize = 0;
        let ghost start = self.queue@;
        while k < links.len()
            invariant
                k <= links@.len(),
                self.config == old(self).config,
                self.visited == old(self).visited,
                self.current == old(self).current,
                self.results == old(self).results,
                self.crawl_tree == old(self).crawl_tree,
                self.errors == old(self).errors,
                self.pages_crawled == old(self).pages_crawled,
                self.links_discovered == old(self).links_discovered,
                self.links_filtered == old(self).links_filtered,
                start == old(self).queue@,
                self.queue@.subrange(0, start.len() as int) == start,
                queued_children(self.queue@, start.len() as int, string_views(links@.subrange(0, k as int)), depth, parent_url@),
            decreases links.len() - k,
        {
            let ghost before = self.queue@;
            self.queue.push(CrawlItem { url: links[k].clone(), depth, parent_url: Some(parent_url.clone()) });
            proof {
                assert(self.queue@.subrange(0, start.len() as int) =~= before.subrange(0, start.len() as int));
                let urls = string_views(links@.subrange(0, k + 1));
                assert forall|m: int| 0 <= m < urls.len() implies {
                    &&& (#[trigger] self.queue@[start.len() + m]).url@ == urls[m]
                    &&& self.queue@[start.len() + m].depth == depth
                    &&& opt_view(self.queue@[start.len() + m].parent_url) == Some(parent_url@)
                } by {
                    if m < k {
                        assert(self.queue@[start.len() + m] == before[start.len() + m]);
                        assert(string_views(links@.subrange(0, k as int))[m] == urls[m]);
                    }
                }
            }
            k = k + 1;
        }
        assert(links@.subrange(0, k as int) =~= links@);
    }

    /// Reports the page handed out last: it was fetched, gave `result` and
    /// holds `links`. The links are filtered and queued one level down when
    /// the page lies above the depth bound. Returns whether a page was
    /// awaiting its report (and the budget allowed it); else nothing changes.
    pub fn record_page(&mut self, result: ScrapingResult, links: Vec<String>) -> (r: bool)
        ensures
            r == (old(self).current is Some && old(self).pages_crawled < old(self).config.max_pages),
            !r ==> *final(self) == *old(self),
            final(self).config == old(self).config,
            final(self).visited == old(self).visited,
            old(self).wf() ==> final(self).wf(),
            r ==> {
                let it = old(self).current->0;
                &&& final(self).current is None
                &&& final(self).pages_crawled == old(self).pages_crawled + 1
                &&& final(self).results@ == old(self).results@.push(result)
                &&& final(self).crawl_tree@.len() == old(self).crawl_tree@.len() + 1
                &&& final(self).crawl_tree@.drop_last() == old(self).crawl_tree@
                &&& node_for(it, final(self).crawl_tree@.last(), None)
                &&& final(self).errors == old(self).errors
                &&& final(self).links_discovered == crate::utils::sat_add(old(self).links_discovered as int, links@.len() as int)
                &&& if it.depth < old(self).config.max_depth {
                    let accepted = filtered_links(old(self).config, it.url@, links@, links@.len() as int);
                    &&& final(self).queue@.subrange(0, old(self).queue@.len() as int) == old(self).queue@
                    &&& queued_children(final(self).queue@, old(self).queue@.len() as int, accepted, (it.depth + 1) as usize, it.url@)
                    &&& final(self).links_filtered == crate::utils::sat_add(old(self).links_filtered as int, links@.len() - accepted.len())
                } else {
                    &&& final(self).queue == old(self).queue
                    &&& final(self).links_filtered == old(self).links_filtered
                }
            },
    {
        if self.current.is_none() || self.pages_crawled >= self.config.max_pages {
            return false;
        }
        let item = self.current.take().unwrap();
        self.links_discovered = self.links_discovered.saturating_add(links.len());
        if item.depth < self.config.max_depth {
            let accepted = filter_links(&self.config, item.url.as_str(), &links);
            proof {
                lemma_filtered_links_len(self.config, item.url@, links@, links@.len() as int);
            }
            self.links_filtered = self.links_filtered.saturating_add(links.len() - accepted.len());
            let ghost q_before = self.queue@;
            self.enqueue_links(&item.url, &accepted, item.depth + 1);
            proof {
                if old(self).wf() {
                    assert forall|k: int| 0 <= k < self.queue@.len() implies (#[trigger] self.queue@[k]).depth <= self.config.max_depth by {
                        if k < q_before.len() {
                            assert(self.queue@.subrange(0, q_before.len() as int)[k] == self.queue@[k]);
                        } else {
                            assert(self.queue@[q_before.len() + (k - q_before.len())].depth == item.depth + 1);
                        }
                    }
                }
            }
        }
        self.results.push(result);
        self.pages_crawled = self.pages_crawled + 1;
        let node = CrawlNode {
            url: item.url,
            depth: item.depth,
            parent: item.parent_url,
            children: Vec::new(),
            scraped: true,
            error: None,
        };
        self.crawl_tree.push(node);
        proof {
            assert(self.crawl_tree@.drop_last() =~= old(self).crawl_tree@);
        }
        true
    }

    /// Reports that the page handed out last could not be fetched. The
    /// error is kept as `"<url>: <error>"` and the crawl goes on. Returns
    /// whether a page was awaiting its report; else nothing changes.
    pub fn record_failure(&mut self, error: String) -> (r: bool)
        ensures
            r == old(self).current is Some,
            !r ==> *final(self) == *old(self),
            final(self).config == old(self).config,
            final(self).visited == old(self).visited,
            final(self).queue == old(self).queue,
            final(self).results == old(self).results,
            final(self).pages_crawled == old(self).pages_crawled,
            final(self).links_discovered == old(self).links_discovered,
            final(self).links_filtered == old(self).links_filtered,
            old(self).wf() ==> final(self).wf(),
            r ==> {
                let it = old(self).current->0;
                &&& final(self).current is None
                &&& final(self).errors@.len() == old(self).errors@.len() + 1
                &&& final(self).errors@.drop_last() == old(self).errors@
                &&& final(self).errors@.last()@ == it.url@ + ": "@ + error@
                &&& final(self).crawl_tree@.len() == old(self).crawl_tree@.len() + 1
                &&& final(self).crawl_tree@.drop_last() == old(self).crawl_tree@
                &&& node_for(it, final(self).crawl_tree@.last(), Some(error@))
            },
    {
        if self.current.is_none() {
            return false;
        }
        let item = self.current.take().unwrap();
        let mut msg = chars_of(item.url.as_str());
        let mut sep = chars_of(": ");
        let mut rest = chars_of(error.as_str());
        msg.append(&mut sep);
        msg.append(&mut rest);
        self.errors.push(string_of(&msg));
        let node = CrawlNode {
            url: item.url,
            depth: item.depth,
            parent: item.parent_url,
            children: Vec::new(),
            scraped: false,
            error: Some(error),
        };
        self.crawl_tree.push(node);
        proof {
            assert(self.crawl_tree@.drop_last() =~= old(self).crawl_tree@);
            assert(self.errors@.drop_last() =~= old(self).errors@);
        }
        true
    }

    /// Ends the run: its totals, the distinct domains visited (in order of
    /// first visit), the errors and the status.
    pub fn finish(self) -> (r: DeepScrapeResult)
        ensures
            r.session_id == self.session_id,
            r.start_time == self.start_time,
            r.end_time is Some,
            r.config == self.config,
            r.results == self.results,
            r.crawl_tree == self.crawl_tree,
            r.total_pages_crawled == self.pages_crawled,
            r.total_links_discovered == self.links_discovered,
            r.total_links_filtered == self.links_filtered,
            string_views(r.domains_visited@) == domains_of(string_views(self.visited@), self.visited@.len() as int),
            r.errors == self.errors,
            r.status == crawl_status(self.pages_crawled as int, self.errors@.len() as int, self.config.max_pages as int),
    {
        let status = self.current_status();
        let domains_visited = domains_visited(&self.visited);
        let end_time = crate::clock::now_rfc3339();
        DeepScrapeResult {
            session_id: self.session_id,
            start_time: self.start_time,
            end_time: Some(end_time),
            config: self.config,
            results: self.results,
            crawl_tree: self.crawl_tree,
            total_pages_crawled: self.pages_crawled,
            total_links_discovered: self.links_discovered,
            total_links_filtered: self.links_filtered,
            domains_visited,
            errors: self.errors,
            status,
        }
    }

    /// The status the run would end with now.
    pub fn current_status(&self) -> (r: CrawlStatus)
        ensures
            r == crawl_status(self.pages_crawled as int, self.errors@.len() as int, self.config.max_pages as int),
    {
        determine_status(self.pages_crawled, self.errors.len(), self.config.max_pages)
    }
}


/// The distinct domain names of the first `n` URLs, in order of first
/// appearance; URLs without a domain name are skipped.
pub open spec fn domains_of(urls: Seq<Seq<char>>, n: int) -> Seq<Seq<char>>
    decreases n,
{
    if n <= 0 {
        Seq::empty()
    } else {
        let prev = domains_of(urls, n - 1);
        match domain_part(url_hosts(urls[n - 1])) {
            Some(d) => if prev.contains(d) { prev } else { prev.push(d) },
            None => prev,
        }
    }
}

fn contains_text(v: &Vec<String>, t: &String) -> (r: bool)
    ensures
        r == string_views(v@).contains(t@),
{
    let mut k: usize = 0;
    while k < v.len()
        invariant
            k <= v@.len(),
            forall|m: int| 0 <= m < k ==> v@[m]@ != t@,
        decreases v.len() - k,
    {
        if v[k] == *t {
            assert(string_views(v@)[k as int] == t@);
            return true;
        }
        k = k + 1;
    }
    proof {
        if string_views(v@).contains(t@) {
            let m = choose|m: int| 0 <= m < string_views(v@).len() && string_views(v@)[m] == t@;
            assert(v@[m]@ == t@);
        }
    }
    false
}

/// The distinct domain names of the visited URLs.
pub fn domains_visited(visited: &Vec<String>) -> (r: Vec<String>)
    ensures
        string_views(r@) == domains_of(string_views(visited@), visited@.len() as int),
{
    let mut r: Vec<String> = Vec::new();
    let mut k: usize = 0;
    assert(string_views(r@) =~= domains_of(string_views(visited@), 0));
    while k < visited.len()
        invariant
            k <= visited@.len(),
            string_views(r@) == domains_of(string_views(visited@), k as int),
        decreases visited.len() - k,
    {
        assert(string_views(visited@)[k as int] == visited@[k as int]@);
        match parse_hosts(visited[k].as_str()) {
            Some(parts) => {
                match parts.domain {
                    Some(d) => {
                        if !contains_text(&r, &d) {
                            r.push(d);
                        }
                    },
                    None => {},
                }
            },
            None => {},
        }
        k = k + 1;
        assert(string_views(r@) =~= domains_of(string_views(visited@), k as int));
    }
    r
}

// ----- laws -----

/// No URL is fetched twice in a run. The URLs handed out for fetching are
/// kept in `visited`, which never holds one twice; a URL is handed out only
/// when it is not there yet, and it is added at once.
pub proof fn lemma_fetched_once(before: DeepScraper, after: DeepScraper, u: Seq<char>)
    requires
        before.wf(),
        !string_views(before.visited@).contains(u),
        string_views(after.visited@) == string_views(before.visited@).push(u),
    ensures
        string_views(after.visited@).no_duplicates(),
        string_views(after.visited@).contains(u),
{
    let v = string_views(before.visited@);
    assert(string_views(after.visited@)[v.len() as int] == u);
    assert forall|i: int, j: int| 0 <= i < j < v.len() + 1 implies string_views(after.visited@)[i] != string_views(after.visited@)[j] by {
        if j == v.len() {
            assert(string_views(after.visited@)[i] == v[i]);
        } else {
            assert(string_views(after.visited@)[i] == v[i]);
            assert(string_views(after.visited@)[j] == v[j]);
        }
    }
}

/// No item of a run lies deeper than the depth bound: neither a queued one
/// nor one in the crawl tree nor the one being fetched; and the pages
/// crawled never exceed the budget.
pub proof fn lemma_bounds_hold(s: DeepScraper)
    requires
        s.wf(),
    ensures
        forall|k: int| 0 <= k < s.queue@.len() ==> (#[trigger] s.queue@[k]).depth <= s.config.max_depth,
        forall|k: int| 0 <= k < s.crawl_tree@.len() ==> (#[trigger] s.crawl_tree@[k]).depth <= s.config.max_depth,
        s.current matches Some(it) ==> it.depth <= s.config.max_depth,
        s.pages_crawled <= s.config.max_pages,
{
}

/// A run that ran out of URLs before its page budget, having crawled a
/// page, is completed when no error came and partly completed otherwise.
pub proof fn lemma_status_when_queue_empties(pages: int, errors: int, max_pages: int)
    requires
        0 < pages < max_pages,
        errors >= 0,
    ensures
        crawl_status(pages, errors, max_pages) == if errors == 0 {
            CrawlStatus::Completed
        } else {
            CrawlStatus::PartiallyCompleted
        },
{
}

/// A run has failed exactly when it crawled no page.
pub proof fn lemma_failed_iff_no_pages(pages: int, errors: int, max_pages: int)
    ensures
        (crawl_status(pages, errors, max_pages) == CrawlStatus::Failed) == (pages == 0),
{
}

} // verus!
