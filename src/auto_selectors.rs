//! Extraction of a page's title, text blocks, links, images and metadata
//! through lists of selectors.

use vstd::prelude::*;
use crate::dom::{
    Compound, DomNode, Document, attr_value, attr_value_exec, flat_text, flat_text_exec,
    matches_chain, matches_chain_exec, parse_selector, render_selector, chain_ok, same_chain,
};
use crate::structure_analyzer::opt_view;
use crate::text::{chars_of, same_chars, starts_with, starts_with_exec, string_of, trim, trimmed};
use crate::urls::{joined_url, resolve_link, url_hosts, parse_hosts};
use crate::deep_scraper::{host_part, string_views};

verus! {

/// The selectors tried for each kind of content, in order.
#[derive(Clone, Debug)]
pub struct AutoSelectors {
    pub title: Vec<String>,
    pub content: Vec<String>,
    pub links: Vec<String>,
    pub images: Vec<String>,
    pub metadata: Vec<String>,
}

/// What was extracted from one page.
#[derive(Clone, Debug)]
pub struct DetectedContent {
    pub title: Option<String>,
    pub content: Vec<String>,
    pub links: Vec<LinkData>,
    pub images: Vec<ImageData>,
    /// Metadata names and values; a name occurs once, with its last value.
    pub metadata: Vec<(String, String)>,
}

/// A link of a page.
#[derive(Clone, Debug)]
pub struct LinkData {
    pub text: String,
    pub href: String,
    pub is_external: bool,
}

/// An image of a page.
#[derive(Clone, Debug)]
pub struct ImageData {
    pub src: String,
    pub alt: Option<String>,
    pub title: Option<String>,
}


/// The default title selectors.
pub open spec fn default_title() -> Seq<Seq<char>> {
    seq!["h1"@, "h2"@, "title"@, "meta[property='og:title']"@, ".title"@, "#title"@]
}

/// The default content selectors.
pub open spec fn default_content() -> Seq<Seq<char>> {
    seq!["article"@, "main"@, "p"@, ".content"@, ".article-body"@, ".post-content"@, "[role='main']"@]
}

/// The default link selectors.
pub open spec fn default_links() -> Seq<Seq<char>> {
    seq!["a[href]"@, "nav a"@, ".nav-link"@]
}

/// The default image selectors.
pub open spec fn default_images() -> Seq<Seq<char>> {
    seq!["img[src]"@, "picture img"@, "[data-src]"@]
}

/// The default metadata selectors.
pub open spec fn default_metadata() -> Seq<Seq<char>> {
    seq![
        "meta[name='description']"@,
        "meta[property='og:description']"@,
        "meta[name='keywords']"@,
        "meta[name='author']"@,
    ]
}

/// Whether `s` holds the default selector lists.
pub open spec fn is_default_selectors(s: AutoSelectors) -> bool {
    &&& string_views(s.title@) == default_title()
    &&& string_views(s.content@) == default_content()
    &&& string_views(s.links@) == default_links()
    &&& string_views(s.images@) == default_images()
    &&& string_views(s.metadata@) == default_metadata()
}

impl Default for AutoSelectors {
    fn default() -> (r: AutoSelectors)
        ensures
            is_default_selectors(r),
    {
        let mut title: Vec<String> = Vec::new();
        title.push("h1".to_string());
        title.push("h2".to_string());
        title.push("title".to_string());
        title.push("meta[property='og:title']".to_string());
        title.push(".title".to_string());
        title.push("#title".to_string());
        let mut content: Vec<String> = Vec::new();
        content.push("article".to_string());
        content.push("main".to_string());
        content.push("p".to_string());
        content.push(".content".to_string());
        content.push(".article-body".to_string());
        content.push(".post-content".to_string());
        content.push("[role='main']".to_string());
        let mut links: Vec<String> = Vec::new();
        links.push("a[href]".to_string());
        links.push("nav a".to_string());
        links.push(".nav-link".to_string());
        let mut images: Vec<String> = Vec::new();
        images.push("img[src]".to_string());
        images.push("picture img".to_string());
        images.push("[data-src]".to_string());
        let mut metadata: Vec<String> = Vec::new();
        metadata.push("meta[name='description']".to_string());
        metadata.push("meta[property='og:description']".to_string());
        metadata.push("meta[name='keywords']".to_string());
        metadata.push("meta[name='author']".to_string());
        assert(string_views(title@) =~= default_title());
        assert(string_views(content@) =~= default_content());
        assert(string_views(links@) =~= default_links());
        assert(string_views(images@) =~= default_images());
        assert(string_views(metadata@) =~= default_metadata());
        AutoSelectors { title, content, links, images, metadata }
    }
}

/// A selector list with each entry read; an entry that is not a selector in
/// canonical form reads as none and matches nothing.
pub open spec fn compiled_from(texts: Seq<String>, chains: Seq<Option<Vec<Compound>>>) -> bool {
    &&& chains.len() == texts.len()
    &&& forall|k: int| 0 <= k < chains.len() ==> (#[trigger] chains[k] matches Some(c) ==> c@.len() > 0
        && render_selector(c@) == texts[k]@)
    &&& forall|k: int, ch: Seq<Compound>| 0 <= k < chains.len() && chain_ok(ch) && #[trigger] render_selector(ch)
        == #[trigger] texts[k]@ ==> (chains[k] matches Some(v) && same_chain(v@, ch))
}

fn compile_list(texts: &Vec<String>) -> (r: Vec<Option<Vec<Compound>>>)
    ensures
        compiled_from(texts@, r@),
{
    let mut r: Vec<Option<Vec<Compound>>> = Vec::new();
    let mut k: usize = 0;
    while k < texts.len()
        invariant
            k <= texts@.len(),
            r@.len() == k,
            forall|m: int| 0 <= m < k ==> (#[trigger] r@[m] matches Some(c) ==> c@.len() > 0
                && render_selector(c@) == texts@[m]@),
            forall|m: int, ch: Seq<Compound>| 0 <= m < k && chain_ok(ch) && #[trigger] render_selector(ch)
                == #[trigger] texts@[m]@ ==> (r@[m] matches Some(v) && same_chain(v@, ch)),
        decreases texts.len() - k,
    {
        r.push(parse_selector(texts[k].as_str()));
        k = k + 1;
    }
    r
}

/// Extracts content from pages through lists of selectors, read once.
pub struct SelectorDetector {
    pub selectors: AutoSelectors,
    pub title: Vec<Option<Vec<Compound>>>,
    pub content: Vec<Option<Vec<Compound>>>,
    pub links: Vec<Option<Vec<Compound>>>,
    pub images: Vec<Option<Vec<Compound>>>,
    pub metadata: Vec<Option<Vec<Compound>>>,
}

/// The index of the first of the first `upto` nodes that `chain` matches,
/// or -1.
pub open spec fn first_match(nodes: Seq<DomNode>, chain: Option<Vec<Compound>>, upto: int) -> int
    decreases upto,
{
    if upto <= 0 {
        -1
    } else {
        let prev = first_match(nodes, chain, upto - 1);
        if prev >= 0 {
            prev
        } else if chain matches Some(c) && matches_chain(nodes, upto - 1, c@) {
            upto - 1
        } else {
            -1
        }
    }
}

/// What title selector `k` gives, if anything non-empty.
pub open spec fn title_candidate(nodes: Seq<DomNode>, text: Seq<char>, chain: Option<Vec<Compound>>) -> Option<Seq<char>> {
    let i = first_match(nodes, chain, nodes.len() as int);
    if i < 0 {
        None
    } else {
        let t = if starts_with(text, "meta"@) {
            attr_value(nodes[i].attributes@, "content"@)
        } else {
            let x = trim(flat_text(nodes, i));
            if x.len() == 0 { None } else { Some(x) }
        };
        match t {
            Some(x) => if x.len() > 0 { Some(x) } else { None },
            None => None,
        }
    }
}

/// The text of entry `k`, or nothing past the end.
pub open spec fn text_at(texts: Seq<String>, k: int) -> Seq<char> {
    if 0 <= k < texts.len() { texts[k]@ } else { Seq::empty() }
}

/// The title: what the first title selector from `k` on that gives a
/// non-empty text gives.
pub open spec fn title_from(nodes: Seq<DomNode>, texts: Seq<String>, chains: Seq<Option<Vec<Compound>>>, k: int) -> Option<Seq<char>>
    decreases chains.len() - k,
{
    if k >= chains.len() || k < 0 {
        None
    } else {
        match title_candidate(nodes, text_at(texts, k), chains[k]) {
            Some(t) => Some(t),
            None => title_from(nodes, texts, chains, k + 1),
        }
    }
}

fn first_match_exec(nodes: &Vec<DomNode>, chain: &Option<Vec<Compound>>) -> (r: Option<usize>)
    ensures
        match r {
            Some(i) => first_match(nodes@, *chain, nodes@.len() as int) == i && i < nodes@.len(),
            None => first_match(nodes@, *chain, nodes@.len() as int) == -1,
        },
{
    let c = match chain {
        Some(c) => c,
        None => {
            proof {
                lemma_first_match_none(nodes@, *chain, nodes@.len() as int);
            }
            return None;
        },
    };
    let mut i: usize = 0;
    while i < nodes.len()
        invariant
            i <= nodes@.len(),
            *chain == Some(*c),
            first_match(nodes@, *chain, i as int) == -1,
        decreases nodes.len() - i,
    {
        if matches_chain_exec(nodes, i, c.as_slice()) {
            proof {
                lemma_first_match_stable(nodes@, *chain, i as int + 1, nodes@.len() as int);
            }
            return Some(i);
        }
        i = i + 1;
    }
    None
}

proof fn lemma_first_match_none(nodes: Seq<DomNode>, chain: Option<Vec<Compound>>, upto: int)
    requires
        chain is None,
    ensures
        first_match(nodes, chain, upto) == -1,
    decreases upto,
{
    if upto > 0 {
        lemma_first_match_none(nodes, chain, upto - 1);
    }
}

proof fn lemma_first_match_stable(nodes: Seq<DomNode>, chain: Option<Vec<Compound>>, m: int, n: int)
    requires
        0 <= m <= n,
        first_match(nodes, chain, m) >= 0,
    ensures
        first_match(nodes, chain, n) == first_match(nodes, chain, m),
    decreases n - m,
{
    if m < n {
        lemma_first_match_stable(nodes, chain, m, n - 1);
    }
}

fn title_candidate_exec(nodes: &Vec<DomNode>, text: &String, chain: &Option<Vec<Compound>>) -> (r: Option<String>)
    ensures
        opt_view(r) == title_candidate(nodes@, text@, *chain),
{
    let i = match first_match_exec(nodes, chain) {
        Some(i) => i,
        None => {
            return None;
        },
    };
    let t: Option<String> = if starts_with_exec(text.as_str(), "meta") {
        attr_value_exec(&nodes[i].attributes, "content")
    } else {
        let raw = flat_text_exec(nodes, i);
        let x = trimmed(&raw);
        if x.len() == 0 { None } else { Some(string_of(&x)) }
    };
    match t {
        Some(x) => if x.as_str().unicode_len() > 0 { Some(x) } else { None },
        None => None,
    }
}

// ----- content blocks -----

/// The trimmed text of node `i`, if the chain matches it and the text is
/// longer than ten characters.
pub open spec fn content_candidate(nodes: Seq<DomNode>, chain: Option<Vec<Compound>>, i: int) -> Option<Seq<char>> {
    let t = trim(flat_text(nodes, i));
    if chain matches Some(c) && matches_chain(nodes, i, c@) && t.len() > 10 {
        Some(t)
    } else {
        None
    }
}

/// The content texts found among the first `upto` nodes by one selector.
pub open spec fn content_texts(nodes: Seq<DomNode>, chain: Option<Vec<Compound>>, upto: int) -> Seq<Seq<char>>
    decreases upto,
{
    if upto <= 0 {
        Seq::empty()
    } else {
        let prev = content_texts(nodes, chain, upto - 1);
        match content_candidate(nodes, chain, upto - 1) {
            Some(t) => prev.push(t),
            None => prev,
        }
    }
}

/// The content texts found by the first `k` selectors, selector after
/// selector.
pub open spec fn all_content_texts(nodes: Seq<DomNode>, chains: Seq<Option<Vec<Compound>>>, k: int) -> Seq<Seq<char>>
    decreases k,
{
    if k <= 0 {
        Seq::empty()
    } else {
        all_content_texts(nodes, chains, k - 1) + content_texts(nodes, chains[k - 1], nodes.len() as int)
    }
}

fn matches_opt(nodes: &Vec<DomNode>, i: usize, chain: &Option<Vec<Compound>>) -> (r: bool)
    requires
        i < nodes.len(),
    ensures
        r == (chain matches Some(c) && matches_chain(nodes@, i as int, c@)),
{
    match chain {
        Some(c) => matches_chain_exec(nodes, i, c.as_slice()),
        None => false,
    }
}

fn collect_content(nodes: &Vec<DomNode>, chains: &Vec<Option<Vec<Compound>>>) -> (r: Vec<Vec<char>>)
    ensures
        r@.map_values(|v: Vec<char>| v@) == all_content_texts(nodes@, chains@, chains@.len() as int),
{
    let mut r: Vec<Vec<char>> = Vec::new();
    let mut k: usize = 0;
    assert(r@.map_values(|v: Vec<char>| v@) =~= all_content_texts(nodes@, chains@, 0));
    while k < chains.len()
        invariant
            k <= chains@.len(),
            r@.map_values(|v: Vec<char>| v@) == all_content_texts(nodes@, chains@, k as int),
        decreases chains.len() - k,
    {
        let ghost base = r@.map_values(|v: Vec<char>| v@);
        let mut i: usize = 0;
        assert(r@.map_values(|v: Vec<char>| v@) =~= base + content_texts(nodes@, chains@[k as int], 0));
        while i < nodes.len()
            invariant
                i <= nodes@.len(),
                k < chains@.len(),
                r@.map_values(|v: Vec<char>| v@) == base + content_texts(nodes@, chains@[k as int], i as int),
            decreases nodes.len() - i,
        {
            let ghost before = r@;
            if matches_opt(nodes, i, &chains[k]) {
                let raw = flat_text_exec(nodes, i);
                let t = trimmed(&raw);
                if t.len() > 10 {
                    let ghost tv = t@;
                    r.push(t);
                    assert(r@.map_values(|v: Vec<char>| v@) =~= before.map_values(|v: Vec<char>| v@).push(tv));
                }
            }
            i = i + 1;
            assert(r@.map_values(|v: Vec<char>| v@) =~= base + content_texts(nodes@, chains@[k as int], i as int));
        }
        k = k + 1;
    }
    r
}

/// The first occurrence of each text, in order.
fn distinct_texts(v: &Vec<Vec<char>>) -> (r: Vec<String>)
    ensures
        string_views(r@) == crate::text::distinct_prefix(v@.map_values(|x: Vec<char>| x@), v@.len() as int),
{
    let ghost s = v@.map_values(|x: Vec<char>| x@);
    let mut r: Vec<String> = Vec::new();
    let mut i: usize = 0;
    while i < v.len()
        invariant
            i <= v@.len(),
            s == v@.map_values(|x: Vec<char>| x@),
            string_views(r@) == crate::text::distinct_prefix(s, i as int),
        decreases v.len() - i,
    {
        let mut seen = false;
        let mut j: usize = 0;
        while j < i
            invariant
                j <= i,
                i < v@.len(),
                s == v@.map_values(|x: Vec<char>| x@),
                seen == s.subrange(0, j as int).contains(s[i as int]),
            decreases i - j,
        {
            let same = same_chars(&v[j], &v[i]);
            proof {
                let a = s.subrange(0, j as int);
                let b = s.subrange(0, j + 1);
                assert(b =~= a.push(s[j as int]));
                assert(s[j as int] == v@[j as int]@ && s[i as int] == v@[i as int]@);
                if a.contains(s[i as int]) {
                    let m = choose|m: int| 0 <= m < a.len() && a[m] == s[i as int];
                    assert(b[m] == s[i as int]);
                }
                if same {
                    assert(b[j as int] == s[i as int]);
                }
                if !a.contains(s[i as int]) && !same {
                    assert forall|m: int| 0 <= m < b.len() implies b[m] != s[i as int] by {
                        if m < j {
                            assert(b[m] == a[m]);
                        }
                    }
                }
            }
            if !seen && same {
                seen = true;
            }
            j = j + 1;
        }
        if !seen {
            r.push(string_of(&v[i]));
        }
        i = i + 1;
        assert(string_views(r@) =~= crate::text::distinct_prefix(s, i as int));
    }
    r
}

// ----- links and images -----

/// A link target made absolute: kept when it starts with `http://` or
/// `https://`, else resolved against the page, else kept as written.
pub open spec fn absolute_url(base: Seq<char>, h: Seq<char>) -> Seq<char> {
    if starts_with(h, "http://"@) || starts_with(h, "https://"@) {
        h
    } else {
        match joined_url(base, h) {
            Some(u) => u,
            None => h,
        }
    }
}

/// Whether both URLs parse and their hosts differ.
pub open spec fn is_external_url(base: Seq<char>, u: Seq<char>) -> bool {
    url_hosts(base) is Some && url_hosts(u) is Some && host_part(url_hosts(base)) != host_part(url_hosts(u))
}

pub open spec fn link_view(l: LinkData) -> (Seq<char>, Seq<char>, bool) {
    (l.text@, l.href@, l.is_external)
}

pub open spec fn link_views(s: Seq<LinkData>) -> Seq<(Seq<char>, Seq<char>, bool)> {
    s.map_values(|l: LinkData| link_view(l))
}

/// The link that node `i` gives, if the chain matches it and it has an
/// `href`: its text (the target when it has none), its absolute target,
/// and whether it leaves the page's host.
pub open spec fn link_candidate(nodes: Seq<DomNode>, chain: Option<Vec<Compound>>, base: Seq<char>, i: int) -> Option<(Seq<char>, Seq<char>, bool)> {
    if chain matches Some(c) && matches_chain(nodes, i, c@) && attr_value(nodes[i].attributes@, "href"@) is Some {
        let h = attr_value(nodes[i].attributes@, "href"@)->0;
        let t = trim(flat_text(nodes, i));
        let abs = absolute_url(base, h);
        Some((if t.len() == 0 { h } else { t }, abs, is_external_url(base, abs)))
    } else {
        None
    }
}

pub open spec fn link_list(nodes: Seq<DomNode>, chain: Option<Vec<Compound>>, base: Seq<char>, upto: int) -> Seq<(Seq<char>, Seq<char>, bool)>
    decreases upto,
{
    if upto <= 0 {
        Seq::empty()
    } else {
        let prev = link_list(nodes, chain, base, upto - 1);
        match link_candidate(nodes, chain, base, upto - 1) {
            Some(l) => prev.push(l),
            None => prev,
        }
    }
}

pub open spec fn all_links(nodes: Seq<DomNode>, chains: Seq<Option<Vec<Compound>>>, base: Seq<char>, k: int) -> Seq<(Seq<char>, Seq<char>, bool)>
    decreases k,
{
    if k <= 0 {
        Seq::empty()
    } else {
        all_links(nodes, chains, base, k - 1) + link_list(nodes, chains[k - 1], base, nodes.len() as int)
    }
}

/// The first link of each target, in order.
pub open spec fn first_per_href(s: Seq<(Seq<char>, Seq<char>, bool)>, n: int) -> Seq<(Seq<char>, Seq<char>, bool)>
    decreases n,
{
    if n <= 0 {
        Seq::empty()
    } else if exists|j: int| 0 <= j < n - 1 && (#[trigger] s[j]).1 == s[n - 1].1 {
        first_per_href(s, n - 1)
    } else {
        first_per_href(s, n - 1).push(s[n - 1])
    }
}

fn absolute_link(base: &str, h: &String) -> (r: String)
    ensures
        r@ == absolute_url(base@, h@),
{
    if starts_with_exec(h.as_str(), "http://") || starts_with_exec(h.as_str(), "https://") {
        return h.clone();
    }
    match resolve_link(base, h.as_str()) {
        Some(u) => u,
        None => h.clone(),
    }
}

fn same_opt_text(a: &Option<String>, b: &Option<String>) -> (r: bool)
    ensures
        r == (opt_view(*a) == opt_view(*b)),
{
    match (a, b) {
        (Some(x), Some(y)) => crate::text::text_eq(x.as_str(), y.as_str()),
        (None, None) => true,
        _ => false,
    }
}

fn is_external_exec(base: &str, u: &str) -> (r: bool)
    ensures
        r == is_external_url(base@, u@),
{
    match (parse_hosts(base), parse_hosts(u)) {
        (Some(b), Some(l)) => !same_opt_text(&b.host, &l.host),
        _ => false,
    }
}

fn link_at(nodes: &Vec<DomNode>, chain: &Option<Vec<Compound>>, base: &str, i: usize) -> (r: Option<LinkData>)
    requires
        i < nodes.len(),
    ensures
        match r {
            Some(l) => link_candidate(nodes@, *chain, base@, i as int) == Some(link_view(l)),
            None => link_candidate(nodes@, *chain, base@, i as int) is None,
        },
{
    if !matches_opt(nodes, i, chain) {
        return None;
    }
    let h = match attr_value_exec(&nodes[i].attributes, "href") {
        Some(h) => h,
        None => {
            return None;
        },
    };
    let raw = flat_text_exec(nodes, i);
    let t = trimmed(&raw);
    let href = absolute_link(base, &h);
    let is_external = is_external_exec(base, href.as_str());
    let text = if t.len() == 0 { h } else { string_of(&t) };
    Some(LinkData { text, href, is_external })
}

fn collect_links(nodes: &Vec<DomNode>, chains: &Vec<Option<Vec<Compound>>>, base: &str) -> (r: Vec<LinkData>)
    ensures
        link_views(r@) == all_links(nodes@, chains@, base@, chains@.len() as int),
{
    let mut r: Vec<LinkData> = Vec::new();
    let mut k: usize = 0;
    assert(link_views(r@) =~= all_links(nodes@, chains@, base@, 0));
    while k < chains.len()
        invariant
            k <= chains@.len(),
            link_views(r@) == all_links(nodes@, chains@, base@, k as int),
        decreases chains.len() - k,
    {
        let ghost start = link_views(r@);
        let mut i: usize = 0;
        assert(link_views(r@) =~= start + link_list(nodes@, chains@[k as int], base@, 0));
        while i < nodes.len()
            invariant
                i <= nodes@.len(),
                k < chains@.len(),
                link_views(r@) == start + link_list(nodes@, chains@[k as int], base@, i as int),
            decreases nodes.len() - i,
        {
            let ghost before = r@;
            match link_at(nodes, &chains[k], base, i) {
                Some(l) => {
                    r.push(l);
                    assert(link_views(r@) =~= link_views(before).push(link_view(l)));
                },
                None => {},
            }
            i = i + 1;
            assert(link_views(r@) =~= start + link_list(nodes@, chains@[k as int], base@, i as int));
        }
        k = k + 1;
    }
    r
}

fn first_per_href_exec(v: Vec<LinkData>) -> (r: Vec<LinkData>)
    ensures
        link_views(r@) == first_per_href(link_views(v@), v@.len() as int),
{
    let ghost s = link_views(v@);
    let n = v.len();
    let mut keys: Vec<Vec<char>> = Vec::new();
    let mut i: usize = 0;
    while i < n
        invariant
            i <= n,
            n == v@.len(),
            s == link_views(v@),
            keys@.len() == i,
            forall|m: int| 0 <= m < i ==> (#[trigger] keys@[m])@ == s[m].1,
        decreases n - i,
    {
        keys.push(chars_of(v[i].href.as_str()));
        i = i + 1;
    }
    let mut r: Vec<LinkData> = Vec::new();
    let mut i: usize = 0;
    let mut v = v;
    let ghost orig = v@;
    while i < n
        invariant
            i <= n,
            n == orig.len(),
            s == link_views(orig),
            v@ == orig.subrange(i as int, n as int),
            keys@.len() == n,
            forall|m: int| 0 <= m < n ==> (#[trigger] keys@[m])@ == s[m].1,
            link_views(r@) == first_per_href(s, i as int),
        decreases n - i,
    {
        let x = v.remove(0);
        assert(link_view(x) == s[i as int]);
        let mut seen = false;
        let mut j: usize = 0;
        while j < i
            invariant
                j <= i,
                i < n,
                keys@.len() == n,
                forall|m: int| 0 <= m < n ==> (#[trigger] keys@[m])@ == s[m].1,
                seen == exists|m: int| 0 <= m < j && (#[trigger] s[m]).1 == s[i as int].1,
            decreases i - j,
        {
            let same = same_chars(&keys[j], &keys[i]);
            proof {
                assert(keys@[j as int]@ == s[j as int].1);
                assert(keys@[i as int]@ == s[i as int].1);
                if same {
                    assert(s[j as int].1 == s[i as int].1);
                }
            }
            if same {
                seen = true;
            }
            j = j + 1;
        }
        if !seen {
            let ghost before = r@;
            r.push(x);
            assert(link_views(r@) =~= link_views(before).push(s[i as int]));
        }
        i = i + 1;
        assert(v@ =~= orig.subrange(i as int, n as int));
    }
    r
}

/// An image source made absolute: kept when it starts with `http://` or
/// `https://`, given `https:` when it starts with `//`, else resolved
/// against the page, else kept as written.
pub open spec fn absolute_src(base: Seq<char>, src: Seq<char>) -> Seq<char> {
    if starts_with(src, "http://"@) || starts_with(src, "https://"@) {
        src
    } else if starts_with(src, "//"@) {
        "https:"@ + src
    } else {
        match joined_url(base, src) {
            Some(u) => u,
            None => src,
        }
    }
}

pub open spec fn image_view(m: ImageData) -> (Seq<char>, Option<Seq<char>>, Option<Seq<char>>) {
    (m.src@, opt_view(m.alt), opt_view(m.title))
}

pub open spec fn image_views(s: Seq<ImageData>) -> Seq<(Seq<char>, Option<Seq<char>>, Option<Seq<char>>)> {
    s.map_values(|m: ImageData| image_view(m))
}

/// The source of an image element: its `src`, else its `data-src`.
pub open spec fn image_source(attrs: Seq<(String, String)>) -> Option<Seq<char>> {
    match attr_value(attrs, "src"@) {
        Some(v) => Some(v),
        None => attr_value(attrs, "data-src"@),
    }
}

/// The image that node `i` gives, if the chain matches it and it has a
/// source.
pub open spec fn image_candidate(nodes: Seq<DomNode>, chain: Option<Vec<Compound>>, base: Seq<char>, i: int) -> Option<(Seq<char>, Option<Seq<char>>, Option<Seq<char>>)> {
    if chain matches Some(c) && matches_chain(nodes, i, c@) && image_source(nodes[i].attributes@) is Some {
        Some((absolute_src(base, image_source(nodes[i].attributes@)->0), attr_value(nodes[i].attributes@, "alt"@),
            attr_value(nodes[i].attributes@, "title"@)))
    } else {
        None
    }
}

pub open spec fn image_list(nodes: Seq<DomNode>, chain: Option<Vec<Compound>>, base: Seq<char>, upto: int) -> Seq<(Seq<char>, Option<Seq<char>>, Option<Seq<char>>)>
    decreases upto,
{
    if upto <= 0 {
        Seq::empty()
    } else {
        let prev = image_list(nodes, chain, base, upto - 1);
        match image_candidate(nodes, chain, base, upto - 1) {
            Some(m) => prev.push(m),
            None => prev,
        }
    }
}

pub open spec fn all_images(nodes: Seq<DomNode>, chains: Seq<Option<Vec<Compound>>>, base: Seq<char>, k: int) -> Seq<(Seq<char>, Option<Seq<char>>, Option<Seq<char>>)>
    decreases k,
{
    if k <= 0 {
        Seq::empty()
    } else {
        all_images(nodes, chains, base, k - 1) + image_list(nodes, chains[k - 1], base, nodes.len() as int)
    }
}

/// The first image of each source, in order.
pub open spec fn first_per_src(s: Seq<(Seq<char>, Option<Seq<char>>, Option<Seq<char>>)>, n: int) -> Seq<(Seq<char>, Option<Seq<char>>, Option<Seq<char>>)>
    decreases n,
{
    if n <= 0 {
        Seq::empty()
    } else if exists|j: int| 0 <= j < n - 1 && (#[trigger] s[j]).0 == s[n - 1].0 {
        first_per_src(s, n - 1)
    } else {
        first_per_src(s, n - 1).push(s[n - 1])
    }
}

fn absolute_src_exec(base: &str, src: &String) -> (r: String)
    ensures
        r@ == absolute_src(base@, src@),
{
    if starts_with_exec(src.as_str(), "http://") || starts_with_exec(src.as_str(), "https://") {
        return src.clone();
    }
    if starts_with_exec(src.as_str(), "//") {
        let mut v = chars_of("https:");
        let mut rest = chars_of(src.as_str());
        v.append(&mut rest);
        return string_of(&v);
    }
    match resolve_link(base, src.as_str()) {
        Some(u) => u,
        None => src.clone(),
    }
}

fn image_at(nodes: &Vec<DomNode>, chain: &Option<Vec<Compound>>, base: &str, i: usize) -> (r: Option<ImageData>)
    requires
        i < nodes.len(),
    ensures
        match r {
            Some(m) => image_candidate(nodes@, *chain, base@, i as int) == Some(image_view(m)),
            None => image_candidate(nodes@, *chain, base@, i as int) is None,
        },
{
    if !matches_opt(nodes, i, chain) {
        return None;
    }
    let attrs = &nodes[i].attributes;
    let source = match attr_value_exec(attrs, "src") {
        Some(v) => Some(v),
        None => attr_value_exec(attrs, "data-src"),
    };
    let source = match source {
        Some(v) => v,
        None => {
            return None;
        },
    };
    let src = absolute_src_exec(base, &source);
    let alt = attr_value_exec(attrs, "alt");
    let title = attr_value_exec(attrs, "title");
    proof {
        assert(opt_view(alt) == attr_value(attrs@, "alt"@));
        assert(opt_view(title) == attr_value(attrs@, "title"@));
    }
    Some(ImageData { src, alt, title })
}

fn collect_images(nodes: &Vec<DomNode>, chains: &Vec<Option<Vec<Compound>>>, base: &str) -> (r: Vec<ImageData>)
    ensures
        image_views(r@) == all_images(nodes@, chains@, base@, chains@.len() as int),
{
    let mut r: Vec<ImageData> = Vec::new();
    let mut k: usize = 0;
    assert(image_views(r@) =~= all_images(nodes@, chains@, base@, 0));
    while k < chains.len()
        invariant
            k <= chains@.len(),
            image_views(r@) == all_images(nodes@, chains@, base@, k as int),
        decreases chains.len() - k,
    {
        let ghost start = image_views(r@);
        let mut i: usize = 0;
        assert(image_views(r@) =~= start + image_list(nodes@, chains@[k as int], base@, 0));
        while i < nodes.len()
            invariant
                i <= nodes@.len(),
                k < chains@.len(),
                image_views(r@) == start + image_list(nodes@, chains@[k as int], base@, i as int),
            decreases nodes.len() - i,
        {
            let ghost before = r@;
            match image_at(nodes, &chains[k], base, i) {
                Some(m) => {
                    r.push(m);
                    assert(image_views(r@) =~= image_views(before).push(image_view(m)));
                },
                None => {},
            }
            i = i + 1;
            assert(image_views(r@) =~= start + image_list(nodes@, chains@[k as int], base@, i as int));
        }
        k = k + 1;
    }
    r
}

fn first_per_src_exec(v: Vec<ImageData>) -> (r: Vec<ImageData>)
    ensures
        image_views(r@) == first_per_src(image_views(v@), v@.len() as int),
{
    let ghost s = image_views(v@);
    let n = v.len();
    let mut keys: Vec<Vec<char>> = Vec::new();
    let mut i: usize = 0;
    while i < n
        invariant
            i <= n,
            n == v@.len(),
            s == image_views(v@),
            keys@.len() == i,
            forall|m: int| 0 <= m < i ==> (#[trigger] keys@[m])@ == s[m].0,
        decreases n - i,
    {
        keys.push(chars_of(v[i].src.as_str()));
        i = i + 1;
    }
    let mut r: Vec<ImageData> = Vec::new();
    let mut i: usize = 0;
    let mut v = v;
    let ghost orig = v@;
    while i < n
        invariant
            i <= n,
            n == orig.len(),
            s == image_views(orig),
            v@ == orig.subrange(i as int, n as int),
            keys@.len() == n,
            forall|m: int| 0 <= m < n ==> (#[trigger] keys@[m])@ == s[m].0,
            image_views(r@) == first_per_src(s, i as int),
        decreases n - i,
    {
        let x = v.remove(0);
        assert(image_view(x) == s[i as int]);
        let mut seen = false;
        let mut j: usize = 0;
        while j < i
            invariant
                j <= i,
                i < n,
                keys@.len() == n,
                forall|m: int| 0 <= m < n ==> (#[trigger] keys@[m])@ == s[m].0,
                seen == exists|m: int| 0 <= m < j && (#[trigger] s[m]).0 == s[i as int].0,
            decreases i - j,
        {
            let same = same_chars(&keys[j], &keys[i]);
            proof {
                assert(keys@[j as int]@ == s[j as int].0);
                assert(keys@[i as int]@ == s[i as int].0);
                if same {
                    assert(s[j as int].0 == s[i as int].0);
                }
            }
            if same {
                seen = true;
            }
            j = j + 1;
        }
        if !seen {
            let ghost before = r@;
            r.push(x);
            assert(image_views(r@) =~= image_views(before).push(s[i as int]));
        }
        i = i + 1;
        assert(v@ =~= orig.subrange(i as int, n as int));
    }
    r
}

// ----- metadata -----

/// The metadata entry that node `i` gives, if the chain matches it and it
/// has a `content`: its `name`, else its `property`, else "unknown", with the
/// content.
pub open spec fn meta_candidate(nodes: Seq<DomNode>, chain: Option<Vec<Compound>>, i: int) -> Option<(Seq<char>, Seq<char>)> {
    let attrs = nodes[i].attributes@;
    if chain matches Some(c) && matches_chain(nodes, i, c@) && attr_value(attrs, "content"@) is Some {
        let key = match attr_value(attrs, "name"@) {
            Some(k) => k,
            None => match attr_value(attrs, "property"@) {
                Some(k) => k,
                None => "unknown"@,
            },
        };
        Some((key, attr_value(attrs, "content"@)->0))
    } else {
        None
    }
}

/// The index of the entry for `key`, or -1.
pub open spec fn key_index(m: Seq<(Seq<char>, Seq<char>)>, key: Seq<char>) -> int
    decreases m.len(),
{
    if m.len() == 0 {
        -1
    } else if m.last().0 == key && key_index(m.drop_last(), key) < 0 {
        m.len() - 1
    } else {
        key_index(m.drop_last(), key)
    }
}

/// The map with `key` set to `value`: in place when present, else added.
pub open spec fn meta_insert(m: Seq<(Seq<char>, Seq<char>)>, key: Seq<char>, value: Seq<char>) -> Seq<(Seq<char>, Seq<char>)> {
    let i = key_index(m, key);
    if i >= 0 {
        m.update(i, (key, value))
    } else {
        m.push((key, value))
    }
}

pub open spec fn meta_after_nodes(m: Seq<(Seq<char>, Seq<char>)>, nodes: Seq<DomNode>, chain: Option<Vec<Compound>>, upto: int) -> Seq<(Seq<char>, Seq<char>)>
    decreases upto,
{
    if upto <= 0 {
        m
    } else {
        let prev = meta_after_nodes(m, nodes, chain, upto - 1);
        match meta_candidate(nodes, chain, upto - 1) {
            Some((k, v)) => meta_insert(prev, k, v),
            None => prev,
        }
    }
}

/// The metadata gathered by the first `k` selectors.
pub open spec fn metadata_of(nodes: Seq<DomNode>, chains: Seq<Option<Vec<Compound>>>, k: int) -> Seq<(Seq<char>, Seq<char>)>
    decreases k,
{
    if k <= 0 {
        Seq::empty()
    } else {
        meta_after_nodes(metadata_of(nodes, chains, k - 1), nodes, chains[k - 1], nodes.len() as int)
    }
}

pub open spec fn pair_views(s: Seq<(String, String)>) -> Seq<(Seq<char>, Seq<char>)> {
    s.map_values(|p: (String, String)| (p.0@, p.1@))
}

proof fn lemma_key_index(m: Seq<(Seq<char>, Seq<char>)>, key: Seq<char>)
    ensures
        -1 <= key_index(m, key) < m.len(),
        key_index(m, key) >= 0 ==> m[key_index(m, key)].0 == key,
        key_index(m, key) < 0 ==> forall|j: int| 0 <= j < m.len() ==> (#[trigger] m[j]).0 != key,
        key_index(m, key) >= 0 ==> forall|j: int| 0 <= j < key_index(m, key) ==> (#[trigger] m[j]).0 != key,
    decreases m.len(),
{
    if m.len() > 0 {
        let d = m.drop_last();
        lemma_key_index(d, key);
        assert(m.last() == m[m.len() - 1]);
        let i = key_index(m, key);
        if i < 0 {
            assert forall|j: int| 0 <= j < m.len() implies (#[trigger] m[j]).0 != key by {
                if j < d.len() {
                    assert(d[j] == m[j]);
                }
            }
        } else {
            assert forall|j: int| 0 <= j < i implies (#[trigger] m[j]).0 != key by {
                assert(d[j] == m[j]);
            }
            if i < d.len() {
                assert(d[i] == m[i]);
            }
        }
    }
}

proof fn lemma_key_index_first(m: Seq<(Seq<char>, Seq<char>)>, key: Seq<char>, j: int)
    requires
        0 <= j < m.len(),
        m[j].0 == key,
        forall|t: int| 0 <= t < j ==> (#[trigger] m[t]).0 != key,
    ensures
        key_index(m, key) == j,
{
    lemma_key_index(m, key);
    let i = key_index(m, key);
    if i < 0 {
        assert(m[j].0 != key);
    } else if i < j {
        assert(m[i].0 != key);
    } else if i > j {
        assert(m[j].0 != key);
    }
}

fn meta_insert_exec(m: &mut Vec<(String, String)>, key: String, value: String)
    ensures
        pair_views(final(m)@) == meta_insert(pair_views(old(m)@), key@, value@),
{
    let ghost pv = pair_views(m@);
    proof {
        lemma_key_index(pv, key@);
    }
    let mut j: usize = 0;
    while j < m.len()
        invariant
            j <= m@.len(),
            pv == pair_views(m@),
            *m == *old(m),
            forall|t: int| 0 <= t < j ==> (#[trigger] m@[t]).0@ != key@,
        decreases m.len() - j,
    {
        if crate::text::text_eq(m[j].0.as_str(), key.as_str()) {
            proof {
                assert(pv[j as int].0 == key@);
                assert forall|t: int| 0 <= t < j implies (#[trigger] pv[t]).0 != key@ by {
                    assert(pv[t].0 == m@[t].0@);
                }
                lemma_key_index_first(pv, key@, j as int);
            }
            let ghost kv = key@;
            m.set(j, (key, value));
            assert(pair_views(m@) =~= pv.update(j as int, (kv, value@)));
            return;
        }
        j = j + 1;
    }
    proof {
        if key_index(pv, key@) >= 0 {
            let i = key_index(pv, key@);
            assert(m@[i].0@ == pv[i].0);
            assert(m@[i].0@ != key@);
        }
    }
    let ghost kv = key@;
    let ghost vv = value@;
    m.push((key, value));
    assert(pair_views(m@) =~= pv.push((kv, vv)));
}

fn meta_at(nodes: &Vec<DomNode>, chain: &Option<Vec<Compound>>, i: usize) -> (r: Option<(String, String)>)
    requires
        i < nodes.len(),
    ensures
        match r {
            Some(p) => meta_candidate(nodes@, *chain, i as int) == Some((p.0@, p.1@)),
            None => meta_candidate(nodes@, *chain, i as int) is None,
        },
{
    if !matches_opt(nodes, i, chain) {
        return None;
    }
    let attrs = &nodes[i].attributes;
    let content = match attr_value_exec(attrs, "content") {
        Some(c) => c,
        None => {
            return None;
        },
    };
    let key = match attr_value_exec(attrs, "name") {
        Some(k) => k,
        None => match attr_value_exec(attrs, "property") {
            Some(k) => k,
            None => "unknown".to_string(),
        },
    };
    Some((key, content))
}

impl SelectorDetector {
    /// A detector with the default selector lists.
    pub fn new() -> (r: SelectorDetector)
        ensures
            is_default_selectors(r.selectors),
            r.compiled(),
    {
        Self::with_custom_selectors(AutoSelectors::default())
    }

    /// A detector with the given selector lists, each read once.
    pub fn with_custom_selectors(selectors: AutoSelectors) -> (r: SelectorDetector)
        ensures
            r.selectors == selectors,
            r.compiled(),
    {
        let title = compile_list(&selectors.title);
        let content = compile_list(&selectors.content);
        let links = compile_list(&selectors.links);
        let images = compile_list(&selectors.images);
        let metadata = compile_list(&selectors.metadata);
        SelectorDetector { selectors, title, content, links, images, metadata }
    }

    /// Each selector list is read from its texts.
    pub open spec fn compiled(&self) -> bool {
        &&& compiled_from(self.selectors.title@, self.title@)
        &&& compiled_from(self.selectors.content@, self.content@)
        &&& compiled_from(self.selectors.links@, self.links@)
        &&& compiled_from(self.selectors.images@, self.images@)
        &&& compiled_from(self.selectors.metadata@, self.metadata@)
    }

    /// The page's title: from the first title selector that finds an
    /// element with a non-empty text (for a `meta` selector, its `content`
    /// attribute).
    pub fn detect_title(&self, document: &Document) -> (r: Option<String>)
        ensures
            opt_view(r) == title_from(document.nodes@, self.selectors.title@, self.title@, 0),
    {
        let n = self.title.len();
        let mut k: usize = 0;
        while k < n
            invariant
                k <= n,
                n == self.title@.len(),
                title_from(document.nodes@, self.selectors.title@, self.title@, 0)
                    == title_from(document.nodes@, self.selectors.title@, self.title@, k as int),
            decreases n - k,
        {
            let empty = String::new();
            let text = if k < self.selectors.title.len() { &self.selectors.title[k] } else { &empty };
            let c = title_candidate_exec(&document.nodes, text, &self.title[k]);
            if c.is_some() {
                return c;
            }
            k = k + 1;
        }
        None
    }

    /// The distinct texts longer than ten characters of the elements that the
    /// content selectors find, selector after selector.
    pub fn detect_content(&self, document: &Document) -> (r: Vec<String>)
        ensures
            ({
                let all = all_content_texts(document.nodes@, self.content@, self.content@.len() as int);
                string_views(r@) == crate::text::distinct_prefix(all, all.len() as int)
            }),
    {
        let all = collect_content(&document.nodes, &self.content);
        distinct_texts(&all)
    }

    /// The links that the link selectors find, selector after selector, the
    /// first of each target kept.
    pub fn detect_links(&self, document: &Document, base_url: &str) -> (r: Vec<LinkData>)
        ensures
            ({
                let all = all_links(document.nodes@, self.links@, base_url@, self.links@.len() as int);
                link_views(r@) == first_per_href(all, all.len() as int)
            }),
    {
        let all = collect_links(&document.nodes, &self.links, base_url);
        first_per_href_exec(all)
    }

    /// The images that the image selectors find, selector after selector,
    /// the first of each source kept.
    pub fn detect_images(&self, document: &Document, base_url: &str) -> (r: Vec<ImageData>)
        ensures
            ({
                let all = all_images(document.nodes@, self.images@, base_url@, self.images@.len() as int);
                image_views(r@) == first_per_src(all, all.len() as int)
            }),
    {
        let all = collect_images(&document.nodes, &self.images, base_url);
        first_per_src_exec(all)
    }

    /// The metadata that the metadata selectors find: for each entry its
    /// name and content; a later value for a name replaces the earlier.
    pub fn detect_metadata(&self, document: &Document) -> (r: Vec<(String, String)>)
        ensures
            pair_views(r@) == metadata_of(document.nodes@, self.metadata@, self.metadata@.len() as int),
    {
        let nodes = &document.nodes;
        let mut r: Vec<(String, String)> = Vec::new();
        let mut k: usize = 0;
        assert(pair_views(r@) =~= metadata_of(nodes@, self.metadata@, 0));
        while k < self.metadata.len()
            invariant
                k <= self.metadata@.len(),
                pair_views(r@) == metadata_of(nodes@, self.metadata@, k as int),
            decreases self.metadata.len() - k,
        {
            let ghost start = pair_views(r@);
            let mut i: usize = 0;
            while i < nodes.len()
                invariant
                    i <= nodes@.len(),
                    k < self.metadata@.len(),
                    pair_views(r@) == meta_after_nodes(start, nodes@, self.metadata@[k as int], i as int),
                decreases nodes.len() - i,
            {
                match meta_at(nodes, &self.metadata[k], i) {
                    Some((key, value)) => {
                        meta_insert_exec(&mut r, key, value);
                    },
                    None => {},
                }
                i = i + 1;
            }
            k = k + 1;
        }
        r
    }

    /// Everything the selectors extract from a page fetched from `base_url`.
    pub fn detect(&self, document: &Document, base_url: &str) -> (r: DetectedContent)
        ensures
            opt_view(r.title) == title_from(document.nodes@, self.selectors.title@, self.title@, 0),
            ({
                let all = all_content_texts(document.nodes@, self.content@, self.content@.len() as int);
                string_views(r.content@) == crate::text::distinct_prefix(all, all.len() as int)
            }),
            ({
                let all = all_links(document.nodes@, self.links@, base_url@, self.links@.len() as int);
                link_views(r.links@) == first_per_href(all, all.len() as int)
            }),
            ({
                let all = all_images(document.nodes@, self.images@, base_url@, self.images@.len() as int);
                image_views(r.images@) == first_per_src(all, all.len() as int)
            }),
            pair_views(r.metadata@) == metadata_of(document.nodes@, self.metadata@, self.metadata@.len() as int),
    {
        DetectedContent {
            title: self.detect_title(document),
            content: self.detect_content(document),
            links: self.detect_links(document, base_url),
            images: self.detect_images(document, base_url),
            metadata: self.detect_metadata(document),
        }
    }
}

} // verus!
