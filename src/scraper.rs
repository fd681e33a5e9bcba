//! Results of scraping single pages.

use vstd::prelude::*;
use crate::auto_selectors::{AutoSelectors, DetectedContent, LinkData};
use crate::deep_scraper::{host_part, string_views};
use crate::structure_analyzer::opt_view;
use crate::text::{chars_of, contains, contains_exec, text_eq};
use crate::urls::{parse_hosts, parse_path, path_of, url_hosts};

verus! {

/// What was scraped from one page.
#[derive(Clone, Debug)]
pub struct ScrapingResult {
    pub url: String,
    pub timestamp: String,
    pub status: String,
    pub content: DetectedContent,
    pub page_number: usize,
}


/// How single pages are scraped.
#[derive(Clone, Debug)]
pub struct ScrapingConfig {
    pub urls: Vec<String>,
    /// Follow "next page" links from each URL.
    pub enable_pagination: bool,
    /// Pages per URL when paginating; 0 for no bound.
    pub max_pages: usize,
    /// Requests per second.
    pub rate_limit: u64,
    pub custom_selectors: Option<AutoSelectors>,
}

impl Default for ScrapingConfig {
    fn default() -> (r: ScrapingConfig)
        ensures
            r.urls@.len() == 0,
            !r.enable_pagination,
            r.max_pages == 0,
            r.rate_limit == 2,
            r.custom_selectors is None,
    {
        ScrapingConfig {
            urls: Vec::new(),
            enable_pagination: false,
            max_pages: 0,
            rate_limit: 2,
            custom_selectors: None,
        }
    }
}

/// What `str::to_lowercase` makes of a text.
pub uninterp spec fn lower_of(s: Seq<char>) -> Seq<char>;

/// Relies on `str::to_lowercase`: the result depends on the characters
/// alone.
#[verifier::external_body]
fn lowercase(s: &str) -> (r: String)
    ensures
        r@ == lower_of(s@),
{
    s.to_lowercase()
}

/// The words that mark a link to the next page.
pub open spec fn pagination_keywords() -> Seq<Seq<char>> {
    seq!["next"@, "next page"@, "\u{2192}"@, "\u{bb}"@, "\u{203a}"@]
}

pub open spec fn has_keyword(text: Seq<char>) -> bool {
    exists|k: int| 0 <= k < pagination_keywords().len() && contains(text, #[trigger] pagination_keywords()[k])
}

/// Whether a target with a page parameter stays on the current page's host
/// and path.
pub open spec fn same_listing(current: Seq<char>, href: Seq<char>) -> bool {
    &&& contains(href, "page="@) || contains(href, "p="@)
    &&& url_hosts(current) is Some
    &&& url_hosts(href) is Some
    &&& host_part(url_hosts(current)) == host_part(url_hosts(href))
    &&& path_of(current) == path_of(href)
}

/// The next page among links `k..`: the first whose lower-cased text holds
/// a pagination word and that is an internal link elsewhere than here, or
/// whose target carries a page parameter on the same host and path.
pub open spec fn next_page_from(links: Seq<LinkData>, current: Seq<char>, k: int) -> Option<Seq<char>>
    decreases links.len() - k,
{
    if k < 0 || k >= links.len() {
        None
    } else {
        let l = links[k];
        if has_keyword(lower_of(l.text@)) && !l.is_external && l.href@ != current {
            Some(l.href@)
        } else if same_listing(current, l.href@) {
            Some(l.href@)
        } else {
            next_page_from(links, current, k + 1)
        }
    }
}

fn has_keyword_exec(text: &str) -> (r: bool)
    ensures
        r == has_keyword(text@),
{
    let t = chars_of(text);
    let mut words: Vec<&str> = Vec::new();
    words.push("next");
    words.push("next page");
    words.push("\u{2192}");
    words.push("\u{bb}");
    words.push("\u{203a}");
    assert(words@.map_values(|w: &str| w@) =~= pagination_keywords());
    let mut k: usize = 0;
    while k < words.len()
        invariant
            k <= words@.len(),
            words@.map_values(|w: &str| w@) == pagination_keywords(),
            t@ == text@,
            forall|m: int| 0 <= m < k ==> !contains(text@, #[trigger] pagination_keywords()[m]),
        decreases words.len() - k,
    {
        let w = chars_of(words[k]);
        assert(w@ == pagination_keywords()[k as int]);
        if contains_exec(&t, &w) {
            return true;
        }
        k = k + 1;
    }
    false
}

fn same_listing_exec(current: &str, href: &str) -> (r: bool)
    ensures
        r == same_listing(current@, href@),
{
    let h = chars_of(href);
    let page = chars_of("page=");
    let p = chars_of("p=");
    if !(contains_exec(&h, &page) || contains_exec(&h, &p)) {
        return false;
    }
    let (a, b) = match (parse_hosts(current), parse_hosts(href)) {
        (Some(a), Some(b)) => (a, b),
        _ => {
            return false;
        },
    };
    let same_host = match (&a.host, &b.host) {
        (Some(x), Some(y)) => text_eq(x.as_str(), y.as_str()),
        (None, None) => true,
        _ => false,
    };
    if !same_host {
        return false;
    }
    match (parse_path(current), parse_path(href)) {
        (Some(x), Some(y)) => text_eq(x.as_str(), y.as_str()),
        (None, None) => true,
        _ => false,
    }
}

/// The link to follow from the page at `current_url` to its next page.
pub fn find_next_page(content: &DetectedContent, current_url: &str) -> (r: Option<String>)
    ensures
        opt_view(r) == next_page_from(content.links@, current_url@, 0),
{
    let mut k: usize = 0;
    while k < content.links.len()
        invariant
            k <= content.links@.len(),
            next_page_from(content.links@, current_url@, 0) == next_page_from(content.links@, current_url@, k as int),
        decreases content.links.len() - k,
    {
        let l = &content.links[k];
        let lower = lowercase(l.text.as_str());
        if has_keyword_exec(lower.as_str()) && !l.is_external && !text_eq(l.href.as_str(), current_url) {
            return Some(l.href.clone());
        }
        if same_listing_exec(current_url, l.href.as_str()) {
            return Some(l.href.clone());
        }
        k = k + 1;
    }
    None
}

/// The walk through the pages of one listing: no page twice, and at most
/// the page bound (none when it is 0).
pub struct Paginator {
    pub visited: Vec<String>,
    /// The page to scrape next, if any.
    pub upcoming: Option<String>,
    pub page_count: usize,
    pub max_pages: usize,
}

impl Paginator {
    /// A walk that starts at `start_url`.
    pub fn new(start_url: String, max_pages: usize) -> (r: Paginator)
        ensures
            r.visited@.len() == 0,
            r.upcoming == Some(start_url),
            r.page_count == 0,
            r.max_pages == (if max_pages > 0 { max_pages } else { usize::MAX }),
    {
        Paginator {
            visited: Vec::new(),
            upcoming: Some(start_url),
            page_count: 0,
            max_pages: if max_pages > 0 { max_pages } else { usize::MAX },
        }
    }

    /// The next page to scrape, with its number from 1; none when there is
    /// no next page, when it was scraped before, or when the bound is met.
    pub fn next_page(&mut self) -> (r: Option<(String, usize)>)
        ensures
            final(self).max_pages == old(self).max_pages,
            final(self).upcoming is None,
            match r {
                Some((u, n)) => {
                    &&& old(self).upcoming == Some(u)
                    &&& !string_views(old(self).visited@).contains(u@)
                    &&& old(self).page_count < old(self).max_pages
                    &&& n == old(self).page_count + 1
                    &&& final(self).page_count == n
                    &&& final(self).visited@ == old(self).visited@.push(u)
                },
                None => {
                    &&& final(self).visited == old(self).visited
                    &&& final(self).page_count == old(self).page_count
                    &&& (old(self).upcoming matches Some(u) ==> string_views(old(self).visited@).contains(u@)
                        || old(self).page_count >= old(self).max_pages)
                },
            },
    {
        let u = match self.upcoming.take() {
            Some(u) => u,
            None => {
                return None;
            },
        };
        let mut k: usize = 0;
        while k < self.visited.len()
            invariant
                k <= self.visited@.len(),
                self.visited == old(self).visited,
                self.page_count == old(self).page_count,
                self.max_pages == old(self).max_pages,
                self.upcoming is None,
                old(self).upcoming == Some(u),
                forall|m: int| 0 <= m < k ==> self.visited@[m]@ != u@,
            decreases self.visited.len() - k,
        {
            if self.visited[k] == u {
                assert(string_views(self.visited@)[k as int] == u@);
                return None;
            }
            k = k + 1;
        }
        proof {
            if string_views(self.visited@).contains(u@) {
                let m = choose|m: int| 0 <= m < string_views(self.visited@).len() && string_views(self.visited@)[m] == u@;
                assert(self.visited@[m]@ == u@);
            }
        }
        if self.page_count >= self.max_pages {
            return None;
        }
        self.page_count = self.page_count + 1;
        self.visited.push(u.clone());
        Some((u, self.page_count))
    }

    /// Sets the page to scrape next.
    pub fn set_next(&mut self, next: Option<String>)
        ensures
            final(self).upcoming == next,
            final(self).visited == old(self).visited,
            final(self).page_count == old(self).page_count,
            final(self).max_pages == old(self).max_pages,
    {
        self.upcoming = next;
    }
}

} // verus!
