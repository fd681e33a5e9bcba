//! Classifies the regions of a page by semantic role, scores them and
//! recommends which selectors to extract from.

use vstd::prelude::*;
use crate::dom::{
    Compound, DomNode, Document, NodeKind, attr_value, attr_value_exec, descendants_named,
    descendants_named_exec, flat_text, flat_text_exec, matches_compound, matches_compound_exec,
    subtree_end, subtree_end_exec,
};
use crate::utils::UNIT;
use crate::text::{chars_of, contains, contains_exec, count_words, string_of, take, take_exec, trim,
    trimmed, word_count, same_chars,
};

verus! {

/// The semantic role of a region of a page.
#[derive(Clone, Copy, Debug, PartialEq, Eq, Structural)]
pub enum SectionType {
    MainContent,
    Article,
    Sidebar,
    Navigation,
    Header,
    Footer,
    Comments,
    RelatedLinks,
    Advertisements,
    Unknown,
}

/// Figures measured on one region. Densities are in millionths.
#[derive(Clone, Copy, Debug, PartialEq, Eq, Structural)]
pub struct SectionStats {
    pub text_length: usize,
    pub word_count: usize,
    pub link_count: usize,
    pub image_count: usize,
    pub paragraph_count: usize,
    pub heading_count: usize,
    pub density_score: u64,
    pub link_density: u64,
    pub element_count: usize,
}

/// One scored region. `score` and `confidence` are in millionths.
#[derive(Clone, Debug)]
pub struct Section {
    pub selector: String,
    pub section_type: SectionType,
    pub score: u64,
    pub confidence: u64,
    pub stats: SectionStats,
    pub preview: String,
    pub xpath: Option<String>,
}

/// A section with its strings seen as character sequences.
pub struct SectionView {
    pub selector: Seq<char>,
    pub section_type: SectionType,
    pub score: u64,
    pub confidence: u64,
    pub stats: SectionStats,
    pub preview: Seq<char>,
    pub xpath: Option<Seq<char>>,
}

pub open spec fn opt_view(o: Option<String>) -> Option<Seq<char>> {
    match o {
        Some(s) => Some(s@),
        None => None,
    }
}

impl View for Section {
    type V = SectionView;

    open spec fn view(&self) -> SectionView {
        SectionView {
            selector: self.selector@,
            section_type: self.section_type,
            score: self.score,
            confidence: self.confidence,
            stats: self.stats,
            preview: self.preview@,
            xpath: opt_view(self.xpath),
        }
    }
}

/// How a page is best extracted.
#[derive(Clone, Copy, Debug, PartialEq, Eq, Structural)]
pub enum ExtractionMode {
    Article,
    Product,
    Forum,
    ListPage,
    Documentation,
    Generic,
}

/// How sure the recommendations are, from the best section's score.
#[derive(Clone, Copy, Debug, PartialEq, Eq, Structural)]
pub enum ConfidenceLevel {
    VeryHigh,
    High,
    Medium,
    Low,
    VeryLow,
}

/// What to extract from a page.
#[derive(Clone, Debug)]
pub struct Recommendations {
    pub best_main_content: Option<String>,
    pub best_title: Option<String>,
    pub best_comments: Option<String>,
    pub suggested_mode: ExtractionMode,
    pub confidence_level: ConfidenceLevel,
}

/// How one section's score came about.
#[derive(Clone, Debug)]
pub struct ScoringDetail {
    pub selector: String,
    pub raw_score: u64,
    pub adjustments: Vec<(String, u64)>,
    pub final_score: u64,
}

/// Diagnostics attached to an analysis in debug mode.
#[derive(Clone, Debug)]
pub struct DebugInfo {
    pub total_elements: usize,
    pub analyzed_sections: usize,
    pub processing_time_ms: u64,
    pub scoring_details: Vec<ScoringDetail>,
}

/// The outcome of analysing one page.
#[derive(Clone, Debug)]
pub struct StructureAnalysis {
    pub url: String,
    pub timestamp: String,
    pub sections: Vec<Section>,
    pub recommendations: Recommendations,
    pub debug_info: Option<DebugInfo>,
}

pub open spec fn views(s: Seq<Section>) -> Seq<SectionView> {
    s.map_values(|x: Section| x@)
}

/// A rule of the taxonomy: the selector as written, what it tests, and the
/// role of the regions it finds.
#[derive(Clone, Debug)]
pub struct SelectorRule {
    pub text: String,
    pub compound: Compound,
    pub section_type: SectionType,
}

// ----- figures -----

pub open spec fn min(a: int, b: int) -> int {
    if a <= b { a } else { b }
}

/// Text per node, `min(1, text_length / element_count)`.
pub open spec fn density_of(text_length: int, element_count: int) -> u64 {
    if element_count > 0 {
        min(UNIT as int, text_length * UNIT / element_count) as u64
    } else {
        0
    }
}

/// Links per text, `link_count * 50 / text_length` (1 for no text), held up
/// to `u64::MAX` millionths.
pub open spec fn link_density_of(link_count: int, text_length: int) -> u64 {
    if text_length > 0 {
        min(u64::MAX as int, link_count * 50 * UNIT / text_length) as u64
    } else {
        UNIT
    }
}

/// The figures of node `i` and its subtree.
pub open spec fn stats_of(nodes: Seq<DomNode>, i: int) -> SectionStats {
    let raw = flat_text(nodes, i);
    let tl = trim(raw).len() as int;
    let lc = descendants_named(nodes, i, "a"@) as int;
    let ec = subtree_end(nodes, i) - i;
    SectionStats {
        text_length: tl as usize,
        word_count: word_count(raw) as usize,
        link_count: lc as usize,
        image_count: descendants_named(nodes, i, "img"@) as usize,
        paragraph_count: descendants_named(nodes, i, "p"@) as usize,
        heading_count: (descendants_named(nodes, i, "h1"@) + descendants_named(nodes, i, "h2"@)
            + descendants_named(nodes, i, "h3"@)) as usize,
        density_score: density_of(tl, ec),
        link_density: link_density_of(lc, tl),
        element_count: ec as usize,
    }
}

pub open spec fn is_content_type(t: SectionType) -> bool {
    t == SectionType::Article || t == SectionType::MainContent
}

pub open spec fn is_frame_type(t: SectionType) -> bool {
    t == SectionType::Navigation || t == SectionType::Header || t == SectionType::Footer
}

/// The score of a region of role `t`, in millionths: a weighted sum of its
/// figures, each term held to [0, 1] before weighting.
pub open spec fn score_of(s: SectionStats, t: SectionType) -> u64 {
    let tl = s.text_length as int;
    let raw: int = if is_content_type(t) {
        3 * min(s.density_score as int, UNIT as int) / 10 + 3 * (UNIT - min(s.link_density as int, UNIT as int)) / 10
            + min(s.paragraph_count as int, 10) * 20_000 + min(tl, 5000) * 40
    } else if t == SectionType::Sidebar {
        min(s.link_count as int, 20) * 25_000 + 300_000 - min(tl, 2000) * 150
    } else if is_frame_type(t) {
        min(s.link_density as int, UNIT as int) / 2 + 300_000 - min(tl, 500) * 600
    } else if t == SectionType::Comments {
        let dist = if tl >= 500 { tl - 500 } else { 500 - tl };
        min(s.element_count as int, 50) * 8_000 + min(dist * 150, 300_000)
    } else {
        500_000
    };
    min(raw, UNIT as int) as u64
}

/// How sure the classification is, in millionths.
pub open spec fn confidence_of(s: SectionStats, t: SectionType) -> u64 {
    let base = 500_000 + min(s.word_count as int, 500) * 400;
    let paragraphs: int = if is_content_type(t) {
        min(s.paragraph_count as int, 10) * 20_000
    } else {
        0
    };
    let balance: int = if 100_000 < s.link_density && s.link_density < 300_000 {
        100_000
    } else {
        0
    };
    min(base + paragraphs + balance, UNIT as int) as u64
}

/// Main content that is long and dense is an article.
pub open spec fn promoted(t: SectionType, s: SectionStats) -> SectionType {
    if t == SectionType::MainContent && s.text_length > 500 && s.density_score > 700_000 {
        SectionType::Article
    } else {
        t
    }
}

/// The first 200 characters of the text, marked with "..." when cut.
pub open spec fn preview_of(t: Seq<char>) -> Seq<char> {
    if t.len() > 200 {
        t.subrange(0, 200) + seq!['.', '.', '.']
    } else {
        t
    }
}

/// The section that a rule finds at node `i`, if the node holds any text.
pub open spec fn element_section(nodes: Seq<DomNode>, i: int, rule: SelectorRule) -> Option<SectionView> {
    let t = trim(flat_text(nodes, i));
    if t.len() == 0 {
        None
    } else {
        let st = stats_of(nodes, i);
        let ty = promoted(rule.section_type, st);
        Some(SectionView {
            selector: rule.text@,
            section_type: ty,
            score: score_of(st, ty),
            confidence: confidence_of(st, ty),
            stats: st,
            preview: preview_of(t),
            xpath: None,
        })
    }
}

/// Whether a found section is kept: long enough, or a page frame.
pub open spec fn kept(s: SectionView, min_len: int) -> bool {
    s.stats.text_length >= min_len || is_frame_type(s.section_type)
}

/// What one rule finds among the first `upto` nodes, in document order.
pub open spec fn rule_sections(nodes: Seq<DomNode>, rule: SelectorRule, upto: int, min_len: int) -> Seq<SectionView>
    decreases upto,
{
    if upto <= 0 {
        Seq::empty()
    } else {
        let prev = rule_sections(nodes, rule, upto - 1, min_len);
        if matches_compound(nodes[upto - 1], rule.compound) {
            match element_section(nodes, upto - 1, rule) {
                Some(s) => if kept(s, min_len) { prev.push(s) } else { prev },
                None => prev,
            }
        } else {
            prev
        }
    }
}

/// What the first `k` rules find, rule after rule.
pub open spec fn ruled_sections(nodes: Seq<DomNode>, rules: Seq<SelectorRule>, k: int, min_len: int) -> Seq<SectionView>
    decreases k,
{
    if k <= 0 {
        Seq::empty()
    } else {
        ruled_sections(nodes, rules, k - 1, min_len) + rule_sections(nodes, rules[k - 1], nodes.len() as int, min_len)
    }
}

/// A selector for an element found without a rule: its id, else its first
/// class, else its tag name.
pub open spec fn generated_selector(node: DomNode) -> Seq<char> {
    match attr_value(node.attributes@, "id"@) {
        Some(id) => seq!['#'] + id,
        None => if node.classes@.len() > 0 {
            seq!['.'] + node.classes@[0]@
        } else {
            node.name@
        },
    }
}

/// The section for a `div` that passes the stricter fallback thresholds.
pub open spec fn div_section(nodes: Seq<DomNode>, i: int, min_len: int) -> Option<SectionView> {
    let st = stats_of(nodes, i);
    let score = score_of(st, SectionType::MainContent);
    if nodes[i].kind == NodeKind::Element && nodes[i].name@ == "div"@
        && st.text_length >= 2 * min_len && st.density_score > 600_000
        && st.paragraph_count > 2 && score > 500_000 {
        Some(SectionView {
            selector: generated_selector(nodes[i]),
            section_type: SectionType::MainContent,
            score,
            confidence: confidence_of(st, SectionType::MainContent),
            stats: st,
            preview: preview_of(trim(flat_text(nodes, i))),
            xpath: None,
        })
    } else {
        None
    }
}

/// The fallback sections among the first `upto` nodes.
pub open spec fn div_sections(nodes: Seq<DomNode>, upto: int, min_len: int) -> Seq<SectionView>
    decreases upto,
{
    if upto <= 0 {
        Seq::empty()
    } else {
        let prev = div_sections(nodes, upto - 1, min_len);
        match div_section(nodes, upto - 1, min_len) {
            Some(s) => prev.push(s),
            None => prev,
        }
    }
}

pub open spec fn has_content(s: Seq<SectionView>) -> bool {
    exists|k: int| 0 <= k < s.len() && is_content_type(#[trigger] s[k].section_type)
}

/// Everything found, before ranking: the rules' sections, and the fallback
/// ones when the rules found no main content.
pub open spec fn candidates(nodes: Seq<DomNode>, rules: Seq<SelectorRule>, min_len: int) -> Seq<SectionView> {
    let found = ruled_sections(nodes, rules, rules.len() as int, min_len);
    if has_content(found) {
        found
    } else {
        found + div_sections(nodes, nodes.len() as int, min_len)
    }
}

// ----- ranking -----

/// `x` placed after every leading section that scores at least as high.
pub open spec fn insert_by_score(s: Seq<SectionView>, x: SectionView) -> Seq<SectionView>
    decreases s.len(),
{
    if s.len() == 0 {
        seq![x]
    } else if s[0].score < x.score {
        seq![x] + s
    } else {
        seq![s[0]] + insert_by_score(s.drop_first(), x)
    }
}

/// The sections by score, highest first; equal scores keep their order.
pub open spec fn sort_by_score(s: Seq<SectionView>) -> Seq<SectionView>
    decreases s.len(),
{
    if s.len() == 0 {
        s
    } else {
        insert_by_score(sort_by_score(s.drop_last()), s.last())
    }
}

/// The text by which two sections count as the same region.
pub open spec fn fingerprint(s: SectionView) -> Seq<char> {
    take(s.preview, 100)
}

pub open spec fn fingerprint_seen(s: Seq<SectionView>, n: int, f: Seq<char>) -> bool {
    exists|j: int| 0 <= j < n && fingerprint(#[trigger] s[j]) == f
}

/// The first `n` sections without those whose fingerprint came earlier.
pub open spec fn dedup_prefix(s: Seq<SectionView>, n: int) -> Seq<SectionView>
    decreases n,
{
    if n <= 0 {
        Seq::empty()
    } else {
        let prev = dedup_prefix(s, n - 1);
        if fingerprint_seen(s, n - 1, fingerprint(s[n - 1])) {
            prev
        } else {
            prev.push(s[n - 1])
        }
    }
}

pub open spec fn dedup(s: Seq<SectionView>) -> Seq<SectionView> {
    dedup_prefix(s, s.len() as int)
}

/// The sections that an analysis reports, best first.
pub open spec fn ranked_sections(nodes: Seq<DomNode>, rules: Seq<SelectorRule>, min_len: int) -> Seq<SectionView> {
    dedup(sort_by_score(candidates(nodes, rules, min_len)))
}


// ----- executable scoring -----

fn min_u64(a: u64, b: u64) -> (r: u64)
    ensures
        r == min(a as int, b as int),
{
    if a <= b { a } else { b }
}

/// The figures of node `i` and its subtree.
pub fn calculate_stats(nodes: &Vec<DomNode>, i: usize) -> (r: SectionStats)
    requires
        i < nodes.len(),
    ensures
        r == stats_of(nodes@, i as int),
{
    let raw = flat_text_exec(nodes, i);
    let t = trimmed(&raw);
    let tl = t.len();
    let wc = count_words(&raw);
    let lc = descendants_named_exec(nodes, i, "a");
    let ic = descendants_named_exec(nodes, i, "img");
    let pc = descendants_named_exec(nodes, i, "p");
    let h1 = descendants_named_exec(nodes, i, "h1");
    let h2 = descendants_named_exec(nodes, i, "h2");
    let h3 = descendants_named_exec(nodes, i, "h3");
    let end = subtree_end_exec(nodes, i);
    let ec = end - i;
    proof {
        reveal_strlit("h1");
        reveal_strlit("h2");
        reveal_strlit("h3");
        assert("h1"@[1] != "h2"@[1] && "h2"@[1] != "h3"@[1] && "h1"@[1] != "h3"@[1]);
        crate::dom::lemma_count_three_names(nodes@, i as int + 1, subtree_end(nodes@, i as int), "h1"@, "h2"@, "h3"@);
    }
    let hc = h1 + h2 + h3;
    let density: u64 = if ec > 0 {
        let q: u128 = (tl as u128) * (UNIT as u128) / (ec as u128);
        if q < UNIT as u128 { q as u64 } else { UNIT }
    } else {
        0
    };
    let link_density: u64 = if tl > 0 {
        let q: u128 = (lc as u128) * 50 * (UNIT as u128) / (tl as u128);
        if q < u64::MAX as u128 { q as u64 } else { u64::MAX }
    } else {
        UNIT
    };
    SectionStats {
        text_length: tl,
        word_count: wc,
        link_count: lc,
        image_count: ic,
        paragraph_count: pc,
        heading_count: hc,
        density_score: density,
        link_density,
        element_count: ec,
    }
}

/// The score of a region of role `t`, in millionths.
pub fn calculate_score(s: &SectionStats, t: SectionType) -> (r: u64)
    ensures
        r == score_of(*s, t),
        r <= UNIT,
{
    let tl = s.text_length as u64;
    let raw: u64 = match t {
        SectionType::Article | SectionType::MainContent => {
            let ld = min_u64(s.link_density, UNIT);
            3 * min_u64(s.density_score, UNIT) / 10 + 3 * (UNIT - ld) / 10
                + min_u64(s.paragraph_count as u64, 10) * 20_000 + min_u64(tl, 5000) * 40
        },
        SectionType::Sidebar => {
            min_u64(s.link_count as u64, 20) * 25_000 + 300_000 - min_u64(tl, 2000) * 150
        },
        SectionType::Navigation | SectionType::Header | SectionType::Footer => {
            min_u64(s.link_density, UNIT) / 2 + 300_000 - min_u64(tl, 500) * 600
        },
        SectionType::Comments => {
            let dist = if tl >= 500 { tl - 500 } else { 500 - tl };
            let d = if dist >= 2000 { 300_000 } else { dist * 150 };
            min_u64(s.element_count as u64, 50) * 8_000 + d
        },
        _ => 500_000,
    };
    min_u64(raw, UNIT)
}

/// How sure the classification of a region of role `t` is, in millionths.
pub fn calculate_confidence(s: &SectionStats, t: SectionType) -> (r: u64)
    ensures
        r == confidence_of(*s, t),
        r <= UNIT,
{
    let base: u64 = 500_000 + min_u64(s.word_count as u64, 500) * 400;
    let paragraphs: u64 = match t {
        SectionType::Article | SectionType::MainContent => min_u64(s.paragraph_count as u64, 10)
            * 20_000,
        _ => 0,
    };
    let balance: u64 = if 100_000 < s.link_density && s.link_density < 300_000 {
        100_000
    } else {
        0
    };
    min_u64(base + paragraphs + balance, UNIT)
}

fn preview_exec(t: &Vec<char>) -> (r: String)
    ensures
        r@ == preview_of(t@),
{
    if t.len() > 200 {
        let mut p = take_exec(t, 200);
        p.push('.');
        p.push('.');
        p.push('.');
        assert(p@ =~= t@.subrange(0, 200) + seq!['.', '.', '.']);
        string_of(&p)
    } else {
        string_of(t)
    }
}

/// The section that `rule` finds at node `i`; none when the node holds no
/// text.
pub fn analyze_element(nodes: &Vec<DomNode>, i: usize, rule: &SelectorRule) -> (r: Option<Section>)
    requires
        i < nodes.len(),
    ensures
        match r {
            Some(s) => element_section(nodes@, i as int, *rule) == Some(s@),
            None => element_section(nodes@, i as int, *rule) is None,
        },
{
    let raw = flat_text_exec(nodes, i);
    let t = trimmed(&raw);
    if t.len() == 0 {
        return None;
    }
    let stats = calculate_stats(nodes, i);
    let mut section_type = rule.section_type;
    if stats.text_length > 500 && stats.density_score > 700_000 {
        if section_type == SectionType::MainContent {
            section_type = SectionType::Article;
        }
    }
    let score = calculate_score(&stats, section_type);
    let confidence = calculate_confidence(&stats, section_type);
    let preview = preview_exec(&t);
    Some(Section {
        selector: rule.text.clone(),
        section_type,
        score,
        confidence,
        stats,
        preview,
        xpath: None,
    })
}


proof fn lemma_views_push(s: Seq<Section>, x: Section)
    ensures
        views(s.push(x)) == views(s).push(x@),
{
    assert(views(s.push(x)) =~= views(s).push(x@));
}

/// Appends what `rule` finds in the document to `out`.
fn collect_rule(nodes: &Vec<DomNode>, rule: &SelectorRule, min_len: usize, out: &mut Vec<Section>)
    ensures
        views(final(out)@) == views(old(out)@) + rule_sections(nodes@, *rule, nodes@.len() as int, min_len as int),
{
    let mut k: usize = 0;
    assert(views(out@) =~= views(old(out)@) + rule_sections(nodes@, *rule, 0, min_len as int));
    while k < nodes.len()
        invariant
            k <= nodes.len(),
            views(out@) == views(old(out)@) + rule_sections(nodes@, *rule, k as int, min_len as int),
        decreases nodes.len() - k,
    {
        let ghost before = out@;
        if matches_compound_exec(&nodes[k], &rule.compound) {
            match analyze_element(nodes, k, rule) {
                Some(sec) => {
                    let frame = match sec.section_type {
                        SectionType::Navigation | SectionType::Header | SectionType::Footer => true,
                        _ => false,
                    };
                    if sec.stats.text_length >= min_len || frame {
                        proof {
                            lemma_views_push(out@, sec);
                        }
                        out.push(sec);
                    }
                },
                None => {},
            }
        }
        k = k + 1;
        assert(views(out@) =~= views(old(out)@) + rule_sections(nodes@, *rule, k as int, min_len as int));
    }
}

/// The selector made up for an element found without a rule.
fn generate_selector(node: &DomNode) -> (r: String)
    ensures
        r@ == generated_selector(*node),
{
    match attr_value_exec(&node.attributes, "id") {
        Some(id) => {
            let mut v: Vec<char> = Vec::new();
            v.push('#');
            let mut rest = chars_of(id.as_str());
            v.append(&mut rest);
            assert(v@ =~= seq!['#'] + id@);
            string_of(&v)
        },
        None => {
            if node.classes.len() > 0 {
                let mut v: Vec<char> = Vec::new();
                v.push('.');
                let mut rest = chars_of(node.classes[0].as_str());
                v.append(&mut rest);
                assert(v@ =~= seq!['.'] + node.classes@[0]@);
                string_of(&v)
            } else {
                node.name.clone()
            }
        },
    }
}

/// The fallback section for node `i`, if it is a `div` that passes the
/// stricter thresholds.
fn analyze_div(nodes: &Vec<DomNode>, i: usize, min_len: usize) -> (r: Option<Section>)
    requires
        i < nodes.len(),
    ensures
        match r {
            Some(s) => div_section(nodes@, i as int, min_len as int) == Some(s@),
            None => div_section(nodes@, i as int, min_len as int) is None,
        },
{
    if nodes[i].kind != NodeKind::Element || !crate::text::text_eq(nodes[i].name.as_str(), "div") {
        return None;
    }
    let stats = calculate_stats(nodes, i);
    let long_enough = stats.text_length >= min_len && stats.text_length - min_len >= min_len;
    if !(long_enough && stats.density_score > 600_000 && stats.paragraph_count > 2) {
        return None;
    }
    let score = calculate_score(&stats, SectionType::MainContent);
    if score <= 500_000 {
        return None;
    }
    let raw = flat_text_exec(nodes, i);
    let t = trimmed(&raw);
    let preview = preview_exec(&t);
    let selector = generate_selector(&nodes[i]);
    let confidence = calculate_confidence(&stats, SectionType::MainContent);
    Some(Section {
        selector,
        section_type: SectionType::MainContent,
        score,
        confidence,
        stats,
        preview,
        xpath: None,
    })
}

/// Appends the fallback sections of the document to `out`.
fn collect_divs(nodes: &Vec<DomNode>, min_len: usize, out: &mut Vec<Section>)
    ensures
        views(final(out)@) == views(old(out)@) + div_sections(nodes@, nodes@.len() as int, min_len as int),
{
    let mut k: usize = 0;
    assert(views(out@) =~= views(old(out)@) + div_sections(nodes@, 0, min_len as int));
    while k < nodes.len()
        invariant
            k <= nodes.len(),
            views(out@) == views(old(out)@) + div_sections(nodes@, k as int, min_len as int),
        decreases nodes.len() - k,
    {
        match analyze_div(nodes, k, min_len) {
            Some(sec) => {
                proof {
                    lemma_views_push(out@, sec);
                }
                out.push(sec);
            },
            None => {},
        }
        k = k + 1;
        assert(views(out@) =~= views(old(out)@) + div_sections(nodes@, k as int, min_len as int));
    }
}

fn has_content_exec(v: &Vec<Section>) -> (r: bool)
    ensures
        r == has_content(views(v@)),
{
    let mut k: usize = 0;
    while k < v.len()
        invariant
            k <= v.len(),
            forall|m: int| 0 <= m < k ==> !is_content_type(#[trigger] views(v@)[m].section_type),
        decreases v.len() - k,
    {
        match v[k].section_type {
            SectionType::Article | SectionType::MainContent => {
                assert(is_content_type(views(v@)[k as int].section_type));
                return true;
            },
            _ => {},
        }
        k = k + 1;
    }
    false
}

proof fn lemma_insert_at(s: Seq<SectionView>, x: SectionView, p: int)
    requires
        0 <= p <= s.len(),
        forall|k: int| 0 <= k < p ==> s[k].score >= x.score,
        p < s.len() ==> s[p].score < x.score,
    ensures
        insert_by_score(s, x) == s.insert(p, x),
    decreases p,
{
    if p == 0 {
        if s.len() == 0 {
            assert(seq![x] =~= s.insert(0, x));
        } else {
            assert(seq![x] + s =~= s.insert(0, x));
        }
    } else {
        let t = s.drop_first();
        assert forall|k: int| 0 <= k < p - 1 implies t[k].score >= x.score by {
            assert(t[k] == s[k + 1]);
        }
        lemma_insert_at(t, x, p - 1);
        assert(seq![s[0]] + t.insert(p - 1, x) =~= s.insert(p, x));
    }
}

/// Places `x` after the leading sections that score at least as high.
fn insert_section(r: &mut Vec<Section>, x: Section)
    ensures
        views(final(r)@) == insert_by_score(views(old(r)@), x@),
{
    let mut p: usize = 0;
    while p < r.len() && r[p].score >= x.score
        invariant
            p <= r.len(),
            forall|k: int| 0 <= k < p ==> r@[k].score >= x.score,
        decreases r.len() - p,
    {
        p = p + 1;
    }
    proof {
        let vs = views(r@);
        assert forall|k: int| 0 <= k < p implies vs[k].score >= x@.score by {
            assert(vs[k] == r@[k]@);
        }
        if p < r.len() {
            assert(vs[p as int] == r@[p as int]@);
        }
        lemma_insert_at(vs, x@, p as int);
        assert(views(r@.insert(p as int, x)) =~= vs.insert(p as int, x@));
    }
    r.insert(p, x);
}

/// The sections by score, highest first; equal scores keep their order.
pub fn sort_sections(v: Vec<Section>) -> (r: Vec<Section>)
    ensures
        views(r@) == sort_by_score(views(v@)),
{
    let ghost orig = v@;
    let n = v.len();
    let mut v = v;
    let mut r: Vec<Section> = Vec::new();
    let mut i: usize = 0;
    assert(views(orig.subrange(0, 0)) =~= Seq::<SectionView>::empty());
    while i < n
        invariant
            i <= n,
            n == orig.len(),
            v@ == orig.subrange(i as int, n as int),
            views(r@) == sort_by_score(views(orig.subrange(0, i as int))),
        decreases n - i,
    {
        let x = v.remove(0);
        proof {
            let pre = views(orig.subrange(0, i as int + 1));
            assert(pre.drop_last() =~= views(orig.subrange(0, i as int)));
            assert(pre.last() == x@);
        }
        insert_section(&mut r, x);
        i = i + 1;
        assert(v@ =~= orig.subrange(i as int, n as int));
    }
    assert(orig.subrange(0, n as int) =~= orig);
    r
}

/// Keeps the first section of each fingerprint, in order.
pub fn deduplicate_sections(v: Vec<Section>) -> (r: Vec<Section>)
    ensures
        views(r@) == dedup(views(v@)),
{
    let ghost orig = v@;
    let ghost ov = views(orig);
    let n = v.len();
    let mut v = v;
    let mut r: Vec<Section> = Vec::new();
    let mut seen: Vec<Vec<char>> = Vec::new();
    let mut i: usize = 0;
    while i < n
        invariant
            i <= n,
            n == orig.len(),
            ov == views(orig),
            v@ == orig.subrange(i as int, n as int),
            views(r@) == dedup_prefix(ov, i as int),
            forall|j: int| 0 <= j < i ==> exists|k: int| 0 <= k < seen@.len() && #[trigger] seen@[k]@ == fingerprint(#[trigger] ov[j]),
            forall|k: int| 0 <= k < seen@.len() ==> fingerprint_seen(ov, i as int, #[trigger] seen@[k]@),
        decreases n - i,
    {
        let x = v.remove(0);
        assert(x@ == ov[i as int]);
        let p = chars_of(x.preview.as_str());
        let fp = take_exec(&p, 100);
        let mut found = false;
        let mut k: usize = 0;
        while k < seen.len()
            invariant
                k <= seen@.len(),
                !found ==> forall|m: int| 0 <= m < k ==> seen@[m]@ != fp@,
                found ==> exists|m: int| 0 <= m < seen@.len() && seen@[m]@ == fp@,
            decreases seen.len() - k,
        {
            if same_chars(&seen[k], &fp) {
                found = true;
            }
            k = k + 1;
        }
        proof {
            if found {
                let m = choose|m: int| 0 <= m < seen@.len() && seen@[m]@ == fp@;
                assert(fingerprint_seen(ov, i as int, seen@[m]@));
                assert(fingerprint_seen(ov, i as int, fingerprint(ov[i as int])));
            } else {
                if fingerprint_seen(ov, i as int, fingerprint(ov[i as int])) {
                    let j = choose|j: int| 0 <= j < i && fingerprint(#[trigger] ov[j]) == fingerprint(ov[i as int]);
                    let kk = choose|kk: int| 0 <= kk < seen@.len() && #[trigger] seen@[kk]@ == fingerprint(ov[j]);
                    assert(false);
                }
            }
        }
        let ghost old_seen = seen@;
        if !found {
            seen.push(fp);
            proof {
                lemma_views_push(r@, x);
            }
            r.push(x);
        }
        proof {
            assert(found ==> seen@ == old_seen);
            assert(!found ==> seen@ == old_seen.push(fp));
            assert forall|j: int| 0 <= j < i + 1 implies exists|k: int| 0 <= k < seen@.len() && #[trigger] seen@[k]@ == fingerprint(#[trigger] ov[j]) by {
                if j < i {
                    let k0 = choose|k0: int| 0 <= k0 < old_seen.len() && #[trigger] old_seen[k0]@ == fingerprint(ov[j]);
                    assert(seen@[k0] == old_seen[k0]);
                    assert(seen@[k0]@ == fingerprint(ov[j]));
                } else if found {
                    let m = choose|m: int| 0 <= m < old_seen.len() && old_seen[m]@ == fp@;
                    assert(seen@[m]@ == fingerprint(ov[j]));
                } else {
                    assert(seen@[seen@.len() - 1]@ == fingerprint(ov[j]));
                }
            }
            assert forall|k: int| 0 <= k < seen@.len() implies fingerprint_seen(ov, i + 1, #[trigger] seen@[k]@) by {
                if k < old_seen.len() {
                    assert(seen@[k] == old_seen[k]);
                    assert(fingerprint_seen(ov, i as int, old_seen[k]@));
                    let j = choose|j: int| 0 <= j < i && fingerprint(#[trigger] ov[j]) == old_seen[k]@;
                    assert(fingerprint(ov[j]) == seen@[k]@);
                } else {
                    assert(fingerprint(ov[i as int]) == seen@[k]@);
                }
            }
        }
        i = i + 1;
        assert(v@ =~= orig.subrange(i as int, n as int));
    }
    r
}


// ----- recommendations -----

/// The selector of the first section that is main content (`content`) or
/// comments (`!content`).
pub open spec fn first_selector(s: Seq<SectionView>, content: bool) -> Option<Seq<char>>
    decreases s.len(),
{
    if s.len() == 0 {
        None
    } else if (content && is_content_type(s[0].section_type)) || (!content && s[0].section_type
        == SectionType::Comments) {
        Some(s[0].selector)
    } else {
        first_selector(s.drop_first(), content)
    }
}

pub open spec fn any_selector_mentions_product(s: Seq<SectionView>) -> bool {
    exists|k: int| 0 <= k < s.len() && contains(#[trigger] s[k].selector, "product"@)
}

pub open spec fn any_of_type(s: Seq<SectionView>, t: SectionType) -> bool {
    exists|k: int| 0 <= k < s.len() && #[trigger] s[k].section_type == t
}

/// The extraction mode that the sections suggest.
pub open spec fn mode_of(s: Seq<SectionView>) -> ExtractionMode {
    if any_selector_mentions_product(s) {
        ExtractionMode::Product
    } else if any_of_type(s, SectionType::Article) {
        ExtractionMode::Article
    } else if any_of_type(s, SectionType::Comments) {
        ExtractionMode::Forum
    } else {
        ExtractionMode::Generic
    }
}

/// The confidence bucket of the best (first) section's score.
pub open spec fn level_of(s: Seq<SectionView>) -> ConfidenceLevel {
    if s.len() == 0 {
        ConfidenceLevel::VeryLow
    } else if s[0].score > 800_000 {
        ConfidenceLevel::VeryHigh
    } else if s[0].score > 600_000 {
        ConfidenceLevel::High
    } else if s[0].score > 400_000 {
        ConfidenceLevel::Medium
    } else {
        ConfidenceLevel::Low
    }
}

/// The selector suggested for titles, whatever the page.
pub open spec fn title_selector() -> Seq<char> {
    "h1, h2, title"@
}

pub open spec fn recommendations_fit(r: Recommendations, s: Seq<SectionView>) -> bool {
    &&& opt_view(r.best_main_content) == first_selector(s, true)
    &&& opt_view(r.best_title) == Some(title_selector())
    &&& opt_view(r.best_comments) == first_selector(s, false)
    &&& r.suggested_mode == mode_of(s)
    &&& r.confidence_level == level_of(s)
}

fn first_selector_exec(v: &Vec<Section>, content: bool) -> (r: Option<String>)
    ensures
        opt_view(r) == first_selector(views(v@), content),
{
    let ghost s = views(v@);
    let mut k: usize = 0;
    assert(s.subrange(0, s.len() as int) =~= s);
    while k < v.len()
        invariant
            k <= v.len(),
            s == views(v@),
            first_selector(s, content) == first_selector(s.subrange(k as int, s.len() as int), content),
        decreases v.len() - k,
    {
        let ghost rest = s.subrange(k as int, s.len() as int);
        assert(rest[0] == v@[k as int]@);
        let hit = match v[k].section_type {
            SectionType::Article | SectionType::MainContent => content,
            SectionType::Comments => !content,
            _ => false,
        };
        if hit {
            return Some(v[k].selector.clone());
        }
        assert(rest.drop_first() =~= s.subrange(k + 1, s.len() as int));
        k = k + 1;
    }
    None
}

fn mode_exec(v: &Vec<Section>) -> (r: ExtractionMode)
    ensures
        r == mode_of(views(v@)),
{
    let ghost s = views(v@);
    let product = chars_of("product");
    let mut has_product = false;
    let mut has_article = false;
    let mut has_comments = false;
    let mut k: usize = 0;
    while k < v.len()
        invariant
            k <= v.len(),
            s == views(v@),
            product@ == "product"@,
            has_product == exists|m: int| 0 <= m < k && contains(#[trigger] s[m].selector, "product"@),
            has_article == exists|m: int| 0 <= m < k && #[trigger] s[m].section_type == SectionType::Article,
            has_comments == exists|m: int| 0 <= m < k && #[trigger] s[m].section_type == SectionType::Comments,
        decreases v.len() - k,
    {
        assert(s[k as int] == v@[k as int]@);
        let sel = chars_of(v[k].selector.as_str());
        let c = contains_exec(&sel, &product);
        let a = v[k].section_type == SectionType::Article;
        let m = v[k].section_type == SectionType::Comments;
        proof {
            let kk = k as int;
            assert(c == contains(s[kk].selector, "product"@));
            assert((has_product || c) == exists|j: int| 0 <= j < kk + 1 && contains(#[trigger] s[j].selector, "product"@)) by {
                if c {
                    assert(contains(s[kk].selector, "product"@));
                }
            }
            assert((has_article || a) == exists|j: int| 0 <= j < kk + 1 && #[trigger] s[j].section_type == SectionType::Article) by {
                if a {
                    assert(s[kk].section_type == SectionType::Article);
                }
            }
            assert((has_comments || m) == exists|j: int| 0 <= j < kk + 1 && #[trigger] s[j].section_type == SectionType::Comments) by {
                if m {
                    assert(s[kk].section_type == SectionType::Comments);
                }
            }
        }
        has_product = has_product || c;
        has_article = has_article || a;
        has_comments = has_comments || m;
        k = k + 1;
    }
    if has_product {
        ExtractionMode::Product
    } else if has_article {
        ExtractionMode::Article
    } else if has_comments {
        ExtractionMode::Forum
    } else {
        ExtractionMode::Generic
    }
}

/// The recommendations that ranked sections give.
pub fn generate_recommendations(v: &Vec<Section>) -> (r: Recommendations)
    ensures
        recommendations_fit(r, views(v@)),
{
    let best_main_content = first_selector_exec(v, true);
    let best_comments = first_selector_exec(v, false);
    let suggested_mode = mode_exec(v);
    let confidence_level = if v.len() == 0 {
        ConfidenceLevel::VeryLow
    } else if v[0].score > 800_000 {
        ConfidenceLevel::VeryHigh
    } else if v[0].score > 600_000 {
        ConfidenceLevel::High
    } else if v[0].score > 400_000 {
        ConfidenceLevel::Medium
    } else {
        ConfidenceLevel::Low
    };
    assert(v@.len() > 0 ==> views(v@)[0] == v@[0]@);
    Recommendations {
        best_main_content,
        best_title: Some("h1, h2, title".to_string()),
        best_comments,
        suggested_mode,
        confidence_level,
    }
}


// ----- the taxonomy -----

/// A rule with its strings seen as character sequences.
pub struct RuleView {
    pub text: Seq<char>,
    pub tag: Option<Seq<char>>,
    pub id: Option<Seq<char>>,
    pub class: Option<Seq<char>>,
    pub attribute: Option<(Seq<char>, Option<Seq<char>>)>,
    pub section_type: SectionType,
}

impl View for SelectorRule {
    type V = RuleView;

    open spec fn view(&self) -> RuleView {
        RuleView {
            text: self.text@,
            tag: opt_view(self.compound.tag),
            id: opt_view(self.compound.id),
            class: opt_view(self.compound.class),
            attribute: match self.compound.attribute {
                Some((n, v)) => Some((n@, opt_view(v))),
                None => None,
            },
            section_type: self.section_type,
        }
    }
}

pub open spec fn tag_rule(t: Seq<char>, ty: SectionType) -> RuleView {
    RuleView { text: t, tag: Some(t), id: None, class: None, attribute: None, section_type: ty }
}

pub open spec fn class_rule(text: Seq<char>, c: Seq<char>, ty: SectionType) -> RuleView {
    RuleView { text, tag: None, id: None, class: Some(c), attribute: None, section_type: ty }
}

pub open spec fn id_rule(text: Seq<char>, d: Seq<char>, ty: SectionType) -> RuleView {
    RuleView { text, tag: None, id: Some(d), class: None, attribute: None, section_type: ty }
}

pub open spec fn attr_rule(text: Seq<char>, n: Seq<char>, v: Seq<char>, ty: SectionType) -> RuleView {
    RuleView { text, tag: None, id: None, class: None, attribute: Some((n, Some(v))), section_type: ty }
}

/// The fixed taxonomy of structural selectors, in the order they are tried.
pub open spec fn default_taxonomy() -> Seq<RuleView> {
    seq![
        tag_rule("article"@, SectionType::Article),
        tag_rule("main"@, SectionType::MainContent),
        attr_rule("[role='main']"@, "role"@, "main"@, SectionType::MainContent),
        class_rule(".content"@, "content"@, SectionType::MainContent),
        class_rule(".main-content"@, "main-content"@, SectionType::MainContent),
        class_rule(".post-content"@, "post-content"@, SectionType::Article),
        class_rule(".article-body"@, "article-body"@, SectionType::Article),
        tag_rule("aside"@, SectionType::Sidebar),
        class_rule(".sidebar"@, "sidebar"@, SectionType::Sidebar),
        class_rule(".widget"@, "widget"@, SectionType::Sidebar),
        tag_rule("nav"@, SectionType::Navigation),
        class_rule(".navigation"@, "navigation"@, SectionType::Navigation),
        class_rule(".menu"@, "menu"@, SectionType::Navigation),
        tag_rule("header"@, SectionType::Header),
        tag_rule("footer"@, SectionType::Footer),
        class_rule(".comments"@, "comments"@, SectionType::Comments),
        id_rule("#comments"@, "comments"@, SectionType::Comments),
        class_rule(".comment-list"@, "comment-list"@, SectionType::Comments),
    ]
}

pub open spec fn rule_views(r: Seq<SelectorRule>) -> Seq<RuleView> {
    r.map_values(|x: SelectorRule| x@)
}

fn new_tag_rule(t: &str, ty: SectionType) -> (r: SelectorRule)
    ensures
        r@ == tag_rule(t@, ty),
{
    SelectorRule {
        text: t.to_string(),
        compound: Compound { tag: Some(t.to_string()), id: None, class: None, attribute: None },
        section_type: ty,
    }
}

fn new_class_rule(text: &str, c: &str, ty: SectionType) -> (r: SelectorRule)
    ensures
        r@ == class_rule(text@, c@, ty),
{
    SelectorRule {
        text: text.to_string(),
        compound: Compound { tag: None, id: None, class: Some(c.to_string()), attribute: None },
        section_type: ty,
    }
}

fn new_id_rule(text: &str, d: &str, ty: SectionType) -> (r: SelectorRule)
    ensures
        r@ == id_rule(text@, d@, ty),
{
    SelectorRule {
        text: text.to_string(),
        compound: Compound { tag: None, id: Some(d.to_string()), class: None, attribute: None },
        section_type: ty,
    }
}

fn new_attr_rule(text: &str, n: &str, v: &str, ty: SectionType) -> (r: SelectorRule)
    ensures
        r@ == attr_rule(text@, n@, v@, ty),
{
    SelectorRule {
        text: text.to_string(),
        compound: Compound {
            tag: None,
            id: None,
            class: None,
            attribute: Some((n.to_string(), Some(v.to_string()))),
        },
        section_type: ty,
    }
}

/// The rules of the fixed taxonomy.
pub fn default_rules() -> (r: Vec<SelectorRule>)
    ensures
        rule_views(r@) == default_taxonomy(),
{
    let mut r: Vec<SelectorRule> = Vec::new();
    r.push(new_tag_rule("article", SectionType::Article));
    r.push(new_tag_rule("main", SectionType::MainContent));
    r.push(new_attr_rule("[role='main']", "role", "main", SectionType::MainContent));
    r.push(new_class_rule(".content", "content", SectionType::MainContent));
    r.push(new_class_rule(".main-content", "main-content", SectionType::MainContent));
    r.push(new_class_rule(".post-content", "post-content", SectionType::Article));
    r.push(new_class_rule(".article-body", "article-body", SectionType::Article));
    r.push(new_tag_rule("aside", SectionType::Sidebar));
    r.push(new_class_rule(".sidebar", "sidebar", SectionType::Sidebar));
    r.push(new_class_rule(".widget", "widget", SectionType::Sidebar));
    r.push(new_tag_rule("nav", SectionType::Navigation));
    r.push(new_class_rule(".navigation", "navigation", SectionType::Navigation));
    r.push(new_class_rule(".menu", "menu", SectionType::Navigation));
    r.push(new_tag_rule("header", SectionType::Header));
    r.push(new_tag_rule("footer", SectionType::Footer));
    r.push(new_class_rule(".comments", "comments", SectionType::Comments));
    r.push(new_id_rule("#comments", "comments", SectionType::Comments));
    r.push(new_class_rule(".comment-list", "comment-list", SectionType::Comments));
    assert(rule_views(r@) =~= default_taxonomy());
    r
}

// ----- the analyser -----

/// Finds, scores and ranks the regions of pages.
pub struct StructureAnalyzer {
    pub min_content_length: usize,
    pub min_word_count: usize,
    pub detect_comments: bool,
    pub detect_metadata: bool,
    pub debug_mode: bool,
    /// The taxonomy, tried in order.
    pub rules: Vec<SelectorRule>,
}

impl StructureAnalyzer {
    /// An analyser with the default options: sections shorter than 200
    /// characters are dropped, and no diagnostics are attached.
    pub fn new() -> (r: StructureAnalyzer)
        ensures
            r.min_content_length == 200,
            r.min_word_count == 50,
            r.detect_comments,
            r.detect_metadata,
            !r.debug_mode,
            rule_views(r.rules@) == default_taxonomy(),
    {
        StructureAnalyzer {
            min_content_length: 200,
            min_word_count: 50,
            detect_comments: true,
            detect_metadata: true,
            debug_mode: false,
            rules: default_rules(),
        }
    }

    /// An analyser with the given minimum section length and flags.
    pub fn with_options(min_content_length: usize, detect_comments: bool, debug_mode: bool) -> (r: StructureAnalyzer)
        ensures
            r.min_content_length == min_content_length,
            r.min_word_count == min_content_length / 5,
            r.detect_comments == detect_comments,
            r.detect_metadata,
            r.debug_mode == debug_mode,
            rule_views(r.rules@) == default_taxonomy(),
    {
        StructureAnalyzer {
            min_content_length,
            min_word_count: min_content_length / 5,
            detect_comments,
            detect_metadata: true,
            debug_mode,
            rules: default_rules(),
        }
    }

    /// The sections of the page, best first, without duplicates.
    pub fn find_sections(&self, document: &Document) -> (r: Vec<Section>)
        ensures
            views(r@) == ranked_sections(document.nodes@, self.rules@, self.min_content_length as int),
    {
        let nodes = &document.nodes;
        let min_len = self.min_content_length;
        let mut out: Vec<Section> = Vec::new();
        let mut k: usize = 0;
        assert(views(out@) =~= ruled_sections(nodes@, self.rules@, 0, min_len as int));
        while k < self.rules.len()
            invariant
                k <= self.rules@.len(),
                views(out@) == ruled_sections(nodes@, self.rules@, k as int, min_len as int),
            decreases self.rules.len() - k,
        {
            collect_rule(nodes, &self.rules[k], min_len, &mut out);
            k = k + 1;
        }
        if !has_content_exec(&out) {
            collect_divs(nodes, min_len, &mut out);
        }
        let sorted = sort_sections(out);
        deduplicate_sections(sorted)
    }

    /// Analyses a parsed page fetched from `url`.
    pub fn analyze(&self, document: &Document, url: &str) -> (r: StructureAnalysis)
        ensures
            views(r.sections@) == ranked_sections(document.nodes@, self.rules@, self.min_content_length as int),
            recommendations_fit(r.recommendations, views(r.sections@)),
            r.url@ == url@,
            r.debug_info is Some == self.debug_mode,
            r.debug_info matches Some(d) ==> d.total_elements == document.nodes@.len()
                && d.analyzed_sections == r.sections@.len() && d.scoring_details@.len() == 0,
    {
        let start = crate::clock::now_millis();
        let sections = self.find_sections(document);
        let recommendations = generate_recommendations(&sections);
        let debug_info = if self.debug_mode {
            let end = crate::clock::now_millis();
            Some(DebugInfo {
                total_elements: document.nodes.len(),
                analyzed_sections: sections.len(),
                processing_time_ms: crate::clock::millis_between(start, end),
                scoring_details: Vec::new(),
            })
        } else {
            None
        };
        StructureAnalysis {
            url: url.to_string(),
            timestamp: crate::clock::now_rfc3339(),
            sections,
            recommendations,
            debug_info,
        }
    }
}


// ----- laws -----

/// Every score and confidence of `s` lies in [0, 1].
pub open spec fn all_in_unit(s: Seq<SectionView>) -> bool {
    forall|k: int| 0 <= k < s.len() ==> (#[trigger] s[k]).score <= UNIT && s[k].confidence <= UNIT
}

proof fn lemma_concat_in_unit(a: Seq<SectionView>, b: Seq<SectionView>)
    requires
        all_in_unit(a),
        all_in_unit(b),
    ensures
        all_in_unit(a + b),
{
    assert forall|k: int| 0 <= k < (a + b).len() implies (#[trigger] (a + b)[k]).score <= UNIT
        && (a + b)[k].confidence <= UNIT by {
        if k < a.len() {
            assert((a + b)[k] == a[k]);
        } else {
            assert((a + b)[k] == b[k - a.len()]);
        }
    }
}

proof fn lemma_rule_sections_in_unit(nodes: Seq<DomNode>, rule: SelectorRule, upto: int, min_len: int)
    ensures
        all_in_unit(rule_sections(nodes, rule, upto, min_len)),
    decreases upto,
{
    if upto > 0 {
        lemma_rule_sections_in_unit(nodes, rule, upto - 1, min_len);
    }
}

proof fn lemma_ruled_sections_in_unit(nodes: Seq<DomNode>, rules: Seq<SelectorRule>, k: int, min_len: int)
    ensures
        all_in_unit(ruled_sections(nodes, rules, k, min_len)),
    decreases k,
{
    if k > 0 {
        lemma_ruled_sections_in_unit(nodes, rules, k - 1, min_len);
        lemma_rule_sections_in_unit(nodes, rules[k - 1], nodes.len() as int, min_len);
        lemma_concat_in_unit(ruled_sections(nodes, rules, k - 1, min_len), rule_sections(nodes, rules[k - 1], nodes.len() as int, min_len));
    }
}

proof fn lemma_div_sections_in_unit(nodes: Seq<DomNode>, upto: int, min_len: int)
    ensures
        all_in_unit(div_sections(nodes, upto, min_len)),
    decreases upto,
{
    if upto > 0 {
        lemma_div_sections_in_unit(nodes, upto - 1, min_len);
    }
}

proof fn lemma_insert_in_unit(s: Seq<SectionView>, x: SectionView)
    requires
        all_in_unit(s),
        x.score <= UNIT,
        x.confidence <= UNIT,
    ensures
        all_in_unit(insert_by_score(s, x)),
    decreases s.len(),
{
    if s.len() > 0 && s[0].score >= x.score {
        lemma_insert_in_unit(s.drop_first(), x);
        lemma_concat_in_unit(seq![s[0]], insert_by_score(s.drop_first(), x));
    } else if s.len() > 0 {
        lemma_concat_in_unit(seq![x], s);
    }
}

proof fn lemma_sort_in_unit(s: Seq<SectionView>)
    requires
        all_in_unit(s),
    ensures
        all_in_unit(sort_by_score(s)),
    decreases s.len(),
{
    if s.len() > 0 {
        lemma_sort_in_unit(s.drop_last());
        assert(s.last() == s[s.len() - 1]);
        lemma_insert_in_unit(sort_by_score(s.drop_last()), s.last());
    }
}

proof fn lemma_dedup_in_unit(s: Seq<SectionView>, n: int)
    requires
        all_in_unit(s),
        n <= s.len(),
    ensures
        all_in_unit(dedup_prefix(s, n)),
    decreases n,
{
    if n > 0 {
        lemma_dedup_in_unit(s, n - 1);
        assert(s[n - 1].score <= UNIT);
    }
}

/// Every section that an analysis reports has its score and its confidence
/// in [0, 1], whatever the page (an empty page gives no sections at all).
pub proof fn lemma_scores_in_unit(nodes: Seq<DomNode>, rules: Seq<SelectorRule>, min_len: int)
    ensures
        all_in_unit(ranked_sections(nodes, rules, min_len)),
        nodes.len() == 0 ==> ranked_sections(nodes, rules, min_len).len() == 0,
{
    lemma_ruled_sections_in_unit(nodes, rules, rules.len() as int, min_len);
    lemma_div_sections_in_unit(nodes, nodes.len() as int, min_len);
    let found = ruled_sections(nodes, rules, rules.len() as int, min_len);
    lemma_concat_in_unit(found, div_sections(nodes, nodes.len() as int, min_len));
    let c = candidates(nodes, rules, min_len);
    lemma_sort_in_unit(c);
    lemma_dedup_in_unit(sort_by_score(c), sort_by_score(c).len() as int);
    if nodes.len() == 0 {
        assert(nodes =~= Seq::<DomNode>::empty());
        lemma_empty_page(rules, rules.len() as int, min_len);
        assert(div_sections(nodes, 0, min_len).len() == 0);
        assert(c.len() == 0);
        assert(sort_by_score(c).len() == 0);
    }
}

proof fn lemma_empty_page(rules: Seq<SelectorRule>, k: int, min_len: int)
    ensures
        ruled_sections(Seq::empty(), rules, k, min_len).len() == 0,
    decreases k,
{
    if k > 0 {
        lemma_empty_page(rules, k - 1, min_len);
        assert(rule_sections(Seq::empty(), rules[k - 1], 0, min_len).len() == 0);
    }
}

/// Scoring is deterministic: two analyses of the same page, with the same
/// options and taxonomy, report the same sections with the same scores in the
/// same order.
pub proof fn lemma_scoring_deterministic(
    a: StructureAnalyzer,
    b: StructureAnalyzer,
    page_a: Document,
    page_b: Document,
    found_a: Seq<SectionView>,
    found_b: Seq<SectionView>,
)
    requires
        a.min_content_length == b.min_content_length,
        a.rules@ == b.rules@,
        page_a.nodes@ == page_b.nodes@,
        found_a == ranked_sections(page_a.nodes@, a.rules@, a.min_content_length as int),
        found_b == ranked_sections(page_b.nodes@, b.rules@, b.min_content_length as int),
    ensures
        found_a == found_b,
        forall|k: int| 0 <= k < found_a.len() ==> (#[trigger] found_a[k]).score == found_b[k].score,
{
}

proof fn lemma_dedup_prefix_grows(s: Seq<SectionView>, m: int, n: int)
    requires
        0 <= m <= n <= s.len(),
    ensures
        dedup_prefix(s, m).len() <= dedup_prefix(s, n).len(),
        dedup_prefix(s, m) == dedup_prefix(s, n).subrange(0, dedup_prefix(s, m).len() as int),
    decreases n - m,
{
    if m < n {
        lemma_dedup_prefix_grows(s, m, n - 1);
        let p = dedup_prefix(s, n - 1);
        assert(p.push(s[n - 1]).subrange(0, p.len() as int) =~= p);
        assert(p.push(s[n - 1]).subrange(0, dedup_prefix(s, m).len() as int) =~= p.subrange(0, dedup_prefix(s, m).len() as int));
    } else {
        assert(dedup_prefix(s, n).subrange(0, dedup_prefix(s, n).len() as int) =~= dedup_prefix(s, n));
    }
}

/// Deduplication removes a section only for an earlier one with the same
/// first 100 characters of preview: a section whose fingerprint differs from
/// those of all sections before it is kept.
pub proof fn lemma_dedup_keeps_distinct(s: Seq<SectionView>, j: int)
    requires
        0 <= j < s.len(),
        forall|i: int| 0 <= i < j ==> fingerprint(#[trigger] s[i]) != fingerprint(s[j]),
    ensures
        dedup(s).contains(s[j]),
{
    assert(!fingerprint_seen(s, j, fingerprint(s[j])));
    let p = dedup_prefix(s, j + 1);
    assert(p == dedup_prefix(s, j).push(s[j]));
    assert(p[p.len() - 1] == s[j]);
    lemma_dedup_prefix_grows(s, j + 1, s.len() as int);
    let d = dedup(s);
    assert(d.subrange(0, p.len() as int)[p.len() - 1] == d[p.len() - 1]);
    assert(d[p.len() - 1] == s[j]);
}

} // verus!
