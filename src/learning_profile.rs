//! The store of per-domain extraction profiles: what worked on a domain, how
//! sure that was, and how it has fared since.

use vstd::prelude::*;
use crate::structure_analyzer::{ExtractionMode, StructureAnalysis};
use crate::utils::UNIT;
use crate::text::{copy_opt, text_at_least, text_at_least_exec, chars_of, text_eq};
use crate::urls::{parse_hosts, url_hosts};
use crate::deep_scraper::host_part;

verus! {

/// What was learned about extracting one domain. `confidence` and
/// `success_rate` are in millionths.
#[derive(Clone, Debug)]
pub struct SiteProfile {
    pub id: String,
    pub domain: String,
    pub pattern: Option<String>,
    pub main_content_selector: Option<String>,
    pub title_selector: Option<String>,
    pub comments_selector: Option<String>,
    pub extraction_mode: String,
    pub confidence: u64,
    pub use_count: u64,
    pub success_rate: u64,
    pub created_at: String,
    pub last_used: String,
    pub notes: Option<String>,
}

/// Figures over the whole store. Averages are in millionths, rounded down,
/// and zero for an empty store.
#[derive(Clone, Copy, Debug, PartialEq, Eq, Structural)]
pub struct ProfileStats {
    pub total_profiles: usize,
    pub total_uses: u128,
    pub avg_confidence: u64,
    pub avg_success_rate: u64,
}

/// Why a profile could not be made.
#[derive(Clone, Copy, Debug, PartialEq, Eq, Structural)]
pub enum ProfileError {
    /// The analysed URL does not parse.
    InvalidUrl,
    /// The analysed URL has no host.
    MissingHost,
}

impl SiteProfile {
    /// A copy of the profile.
    pub fn copy_profile(&self) -> (r: SiteProfile)
        ensures
            r == *self,
    {
        SiteProfile {
            id: self.id.clone(),
            domain: self.domain.clone(),
            pattern: copy_opt(&self.pattern),
            main_content_selector: copy_opt(&self.main_content_selector),
            title_selector: copy_opt(&self.title_selector),
            comments_selector: copy_opt(&self.comments_selector),
            extraction_mode: self.extraction_mode.clone(),
            confidence: self.confidence,
            use_count: self.use_count,
            success_rate: self.success_rate,
            created_at: self.created_at.clone(),
            last_used: self.last_used.clone(),
            notes: copy_opt(&self.notes),
        }
    }
}

/// Whether `a` comes before `b` when profiles are listed: higher confidence
/// first, then the more recently used.
pub open spec fn ranks_above(a: SiteProfile, b: SiteProfile) -> bool {
    a.confidence > b.confidence || (a.confidence == b.confidence && a.last_used@ != b.last_used@
        && text_at_least(a.last_used@, b.last_used@))
}

fn ranks_above_exec(a: &SiteProfile, b: &SiteProfile) -> (r: bool)
    ensures
        r == ranks_above(*a, *b),
{
    if a.confidence != b.confidence {
        return a.confidence > b.confidence;
    }
    let x = chars_of(a.last_used.as_str());
    let y = chars_of(b.last_used.as_str());
    !crate::text::same_chars(&x, &y) && text_at_least_exec(&x, &y)
}

/// The index of the first profile with identifier `id`, or -1.
pub open spec fn index_of_id(s: Seq<SiteProfile>, id: Seq<char>, n: int) -> int
    decreases n,
{
    if n <= 0 {
        -1
    } else {
        let prev = index_of_id(s, id, n - 1);
        if prev >= 0 {
            prev
        } else if s[n - 1].id@ == id {
            n - 1
        } else {
            -1
        }
    }
}

pub open spec fn find_id(s: Seq<SiteProfile>, id: Seq<char>) -> int {
    index_of_id(s, id, s.len() as int)
}

proof fn lemma_index_of_id(s: Seq<SiteProfile>, id: Seq<char>, n: int)
    requires
        0 <= n <= s.len(),
    ensures
        -1 <= index_of_id(s, id, n) < n,
        index_of_id(s, id, n) >= 0 ==> s[index_of_id(s, id, n)].id@ == id,
        index_of_id(s, id, n) < 0 ==> forall|k: int| 0 <= k < n ==> (#[trigger] s[k]).id@ != id,
        index_of_id(s, id, n) >= 0 ==> forall|k: int| 0 <= k < index_of_id(s, id, n) ==> (#[trigger] s[k]).id@ != id,
    decreases n,
{
    if n > 0 {
        lemma_index_of_id(s, id, n - 1);
    }
}

/// The store after saving `p`: it replaces the profile with its identifier,
/// or is added at the end.
pub open spec fn upsert(s: Seq<SiteProfile>, p: SiteProfile) -> Seq<SiteProfile> {
    let i = find_id(s, p.id@);
    if i >= 0 {
        s.update(i, p)
    } else {
        s.push(p)
    }
}

/// The index of the profile that `getByDomain` picks among the first `n`:
/// of those for `domain`, the highest ranked, the earliest of equals; -1
/// when there is none.
pub open spec fn best_for_domain(s: Seq<SiteProfile>, domain: Seq<char>, n: int) -> int
    decreases n,
{
    if n <= 0 {
        -1
    } else {
        let b = best_for_domain(s, domain, n - 1);
        if s[n - 1].domain@ != domain {
            b
        } else if b < 0 || ranks_above(s[n - 1], s[b]) {
            n - 1
        } else {
            b
        }
    }
}

proof fn lemma_best_for_domain(s: Seq<SiteProfile>, domain: Seq<char>, n: int)
    requires
        0 <= n <= s.len(),
    ensures
        -1 <= best_for_domain(s, domain, n) < n,
        best_for_domain(s, domain, n) >= 0 ==> s[best_for_domain(s, domain, n)].domain@ == domain,
        best_for_domain(s, domain, n) < 0 <==> forall|k: int| 0 <= k < n ==> (#[trigger] s[k]).domain@ != domain,
        best_for_domain(s, domain, n) >= 0 ==> forall|k: int| 0 <= k < n && (#[trigger] s[k]).domain@ == domain
            ==> s[k].confidence <= s[best_for_domain(s, domain, n)].confidence,
    decreases n,
{
    if n > 0 {
        lemma_best_for_domain(s, domain, n - 1);
        let b = best_for_domain(s, domain, n - 1);
        if b < 0 && s[n - 1].domain@ == domain {
            assert(best_for_domain(s, domain, n) == n - 1);
        }
    }
}

/// The success rate after one more use: an exponential moving average that
/// weighs the new observation by 0.3, from a rate held to [0, 1].
pub open spec fn ema(rate: int, success: bool) -> int {
    let r = if rate > UNIT { UNIT as int } else { rate };
    (7 * r + if success { 3 * UNIT as int } else { 0 }) / 10
}

/// The confidence that an analysis earns: 0.7 of the best section's score,
/// plus 0.2 with a main-content selector and 0.1 with a title selector, at
/// most 1; zero when no section was found.
pub open spec fn analysis_confidence(a: StructureAnalysis) -> u64 {
    if a.sections@.len() == 0 {
        0
    } else {
        let c = 7 * (a.sections@[0].score as int) / 10
            + (if a.recommendations.best_main_content is Some { 200_000int } else { 0int })
            + (if a.recommendations.best_title is Some { 100_000int } else { 0int });
        if c > UNIT { UNIT } else { c as u64 }
    }
}

pub fn calculate_confidence_from_analysis(a: &StructureAnalysis) -> (r: u64)
    ensures
        r == analysis_confidence(*a),
        r <= UNIT,
{
    if a.sections.len() == 0 {
        return 0;
    }
    let top = a.sections[0].score as u128;
    let mut c: u128 = 7 * top / 10;
    if a.recommendations.best_main_content.is_some() {
        c = c + 200_000;
    }
    if a.recommendations.best_title.is_some() {
        c = c + 100_000;
    }
    if c > UNIT as u128 { UNIT } else { c as u64 }
}

/// The name under which a mode is stored.
pub open spec fn mode_name(m: ExtractionMode) -> Seq<char> {
    match m {
        ExtractionMode::Article => "Article"@,
        ExtractionMode::Product => "Product"@,
        ExtractionMode::Forum => "Forum"@,
        ExtractionMode::ListPage => "ListPage"@,
        ExtractionMode::Documentation => "Documentation"@,
        ExtractionMode::Generic => "Generic"@,
    }
}

pub fn mode_name_exec(m: ExtractionMode) -> (r: String)
    ensures
        r@ == mode_name(m),
{
    match m {
        ExtractionMode::Article => "Article".to_string(),
        ExtractionMode::Product => "Product".to_string(),
        ExtractionMode::Forum => "Forum".to_string(),
        ExtractionMode::ListPage => "ListPage".to_string(),
        ExtractionMode::Documentation => "Documentation".to_string(),
        ExtractionMode::Generic => "Generic".to_string(),
    }
}

/// The host of a URL, as profiles key it.
pub fn extract_domain(url: &str) -> (r: Result<String, ProfileError>)
    ensures
        match r {
            Ok(h) => host_part(url_hosts(url@)) == Some(h@),
            Err(ProfileError::InvalidUrl) => url_hosts(url@) is None,
            Err(ProfileError::MissingHost) => url_hosts(url@) is Some && host_part(url_hosts(url@)) is None,
        },
{
    match parse_hosts(url) {
        None => Err(ProfileError::InvalidUrl),
        Some(parts) => match parts.host {
            Some(h) => Ok(h),
            None => Err(ProfileError::MissingHost),
        },
    }
}

/// The profiles, kept in memory; the caller persists them as it sees fit.
pub struct ProfileDatabase {
    pub profiles: Vec<SiteProfile>,
}

impl ProfileDatabase {
    /// An empty store.
    pub fn new_in_memory() -> (r: Result<ProfileDatabase, ProfileError>)
        ensures
            r matches Ok(db) && db.profiles@.len() == 0,
    {
        Ok(ProfileDatabase { profiles: Vec::new() })
    }

    fn position_of(&self, id: &str) -> (r: Option<usize>)
        ensures
            match r {
                Some(i) => find_id(self.profiles@, id@) == i && i < self.profiles@.len()
                    && self.profiles@[i as int].id@ == id@,
                None => find_id(self.profiles@, id@) == -1,
            },
            -1 <= find_id(self.profiles@, id@) < self.profiles@.len(),
    {
        proof {
            lemma_index_of_id(self.profiles@, id@, self.profiles@.len() as int);
        }
        let mut k: usize = 0;
        while k < self.profiles.len()
            invariant
                k <= self.profiles@.len(),
                index_of_id(self.profiles@, id@, k as int) == -1,
            decreases self.profiles.len() - k,
        {
            if text_eq(self.profiles[k].id.as_str(), id) {
                proof {
                    lemma_index_of_id(self.profiles@, id@, self.profiles@.len() as int);
                    lemma_index_of_id_stable(self.profiles@, id@, k as int + 1, self.profiles@.len() as int);
                }
                return Some(k);
            }
            k = k + 1;
        }
        None
    }

    /// Saves a profile: it replaces the one with the same identifier, or is
    /// added.
    pub fn insert_profile(&mut self, profile: &SiteProfile) -> (r: Result<(), ProfileError>)
        ensures
            r is Ok,
            final(self).profiles@ == upsert(old(self).profiles@, *profile),
    {
        let p = profile.copy_profile();
        match self.position_of(profile.id.as_str()) {
            Some(i) => {
                self.profiles.set(i, p);
            },
            None => {
                self.profiles.push(p);
            },
        }
        Ok(())
    }

    /// The profile to use for `domain`: the most confident, then the most
    /// recently used; none when the domain has no profile.
    pub fn get_by_domain(&self, domain: &str) -> (r: Result<Option<SiteProfile>, ProfileError>)
        ensures
            r matches Ok(found) && match found {
                Some(p) => {
                    let b = best_for_domain(self.profiles@, domain@, self.profiles@.len() as int);
                    b >= 0 && p == self.profiles@[b]
                },
                None => best_for_domain(self.profiles@, domain@, self.profiles@.len() as int) < 0,
            },
    {
        let mut best: Option<usize> = None;
        let mut k: usize = 0;
        while k < self.profiles.len()
            invariant
                k <= self.profiles@.len(),
                match best {
                    Some(b) => best_for_domain(self.profiles@, domain@, k as int) == b as int && b < k,
                    None => best_for_domain(self.profiles@, domain@, k as int) < 0,
                },
            decreases self.profiles.len() - k,
        {
            proof {
                lemma_best_for_domain(self.profiles@, domain@, k as int);
            }
            if text_eq(self.profiles[k].domain.as_str(), domain) {
                match best {
                    None => {
                        best = Some(k);
                    },
                    Some(b) => {
                        if ranks_above_exec(&self.profiles[k], &self.profiles[b]) {
                            best = Some(k);
                        }
                    },
                }
            }
            k = k + 1;
        }
        match best {
            Some(b) => Ok(Some(self.profiles[b].copy_profile())),
            None => Ok(None),
        }
    }

    /// The profile with identifier `id`, if any.
    pub fn get_by_id(&self, id: &str) -> (r: Result<Option<SiteProfile>, ProfileError>)
        ensures
            r matches Ok(found) && match found {
                Some(p) => find_id(self.profiles@, id@) >= 0 && p == self.profiles@[find_id(self.profiles@, id@)],
                None => find_id(self.profiles@, id@) < 0,
            },
    {
        match self.position_of(id) {
            Some(i) => Ok(Some(self.profiles[i].copy_profile())),
            None => Ok(None),
        }
    }

    /// Records one more use of a profile and whether it worked: the use
    /// count goes up by one (held at its maximum), the success rate moves
    /// by the moving average, and the time of last use is refreshed. An
    /// unknown identifier changes nothing.
    pub fn update_usage(&mut self, profile_id: &str, success: bool) -> (r: Result<(), ProfileError>)
        ensures
            r is Ok,
            final(self).profiles@.len() == old(self).profiles@.len(),
            find_id(old(self).profiles@, profile_id@) < 0 ==> final(self).profiles@ == old(self).profiles@,
            find_id(old(self).profiles@, profile_id@) >= 0 ==> {
                let i = find_id(old(self).profiles@, profile_id@);
                let p = old(self).profiles@[i];
                let q = final(self).profiles@[i];
                &&& forall|k: int| 0 <= k < old(self).profiles@.len() && k != i ==> #[trigger] final(self).profiles@[k] == old(self).profiles@[k]
                &&& q.use_count == (if p.use_count == u64::MAX { u64::MAX } else { (p.use_count + 1) as u64 })
                &&& q.success_rate == ema(p.success_rate as int, success)
                &&& q.id == p.id && q.domain == p.domain && q.pattern == p.pattern
                &&& q.main_content_selector == p.main_content_selector
                &&& q.title_selector == p.title_selector
                &&& q.comments_selector == p.comments_selector
                &&& q.extraction_mode == p.extraction_mode
                &&& q.confidence == p.confidence
                &&& q.created_at == p.created_at
                &&& q.notes == p.notes
            },
    {
        match self.position_of(profile_id) {
            None => Ok(()),
            Some(i) => {
                let mut p = self.profiles[i].copy_profile();
                p.use_count = p.use_count.saturating_add(1);
                let rate = if p.success_rate > UNIT { UNIT } else { p.success_rate };
                let observed: u64 = if success { 3 * UNIT } else { 0 };
                p.success_rate = (7 * rate + observed) / 10;
                p.last_used = crate::clock::now_rfc3339();
                self.profiles.set(i, p);
                Ok(())
            },
        }
    }

    /// Analyses a page's outcome into a new profile for its host and saves
    /// it. Fails when the page's URL has no host.
    pub fn save_from_analysis(&mut self, analysis: &StructureAnalysis) -> (r: Result<SiteProfile, ProfileError>)
        ensures
            match r {
                Ok(p) => {
                    &&& host_part(url_hosts(analysis.url@)) == Some(p.domain@)
                    &&& p.confidence == analysis_confidence(*analysis)
                    &&& p.main_content_selector == analysis.recommendations.best_main_content
                    &&& p.title_selector == analysis.recommendations.best_title
                    &&& p.comments_selector == analysis.recommendations.best_comments
                    &&& p.extraction_mode@ == mode_name(analysis.recommendations.suggested_mode)
                    &&& p.pattern is None && p.notes is None
                    &&& p.use_count == 0
                    &&& p.success_rate == UNIT
                    &&& p.created_at == p.last_used
                    &&& final(self).profiles@ == upsert(old(self).profiles@, p)
                },
                Err(ProfileError::InvalidUrl) => url_hosts(analysis.url@) is None && final(self).profiles == old(self).profiles,
                Err(ProfileError::MissingHost) => url_hosts(analysis.url@) is Some
                    && host_part(url_hosts(analysis.url@)) is None && final(self).profiles == old(self).profiles,
            },
    {
        let domain = match extract_domain(analysis.url.as_str()) {
            Ok(d) => d,
            Err(e) => {
                return Err(e);
            },
        };
        let now = crate::clock::now_rfc3339();
        let profile = SiteProfile {
            id: crate::utils::new_session_id(),
            domain,
            pattern: None,
            main_content_selector: copy_opt(&analysis.recommendations.best_main_content),
            title_selector: copy_opt(&analysis.recommendations.best_title),
            comments_selector: copy_opt(&analysis.recommendations.best_comments),
            extraction_mode: mode_name_exec(analysis.recommendations.suggested_mode),
            confidence: calculate_confidence_from_analysis(analysis),
            use_count: 0,
            success_rate: UNIT,
            created_at: now.clone(),
            last_used: now,
            notes: None,
        };
        let _ = self.insert_profile(&profile);
        Ok(profile)
    }

    /// Removes the profiles with identifier `id`.
    pub fn delete(&mut self, id: &str) -> (r: Result<(), ProfileError>)
        ensures
            r is Ok,
            final(self).profiles@ == old(self).profiles@.filter(|p: SiteProfile| p.id@ != id@),
    {
        let mut kept: Vec<SiteProfile> = Vec::new();
        let mut k: usize = 0;
        while k < self.profiles.len()
            invariant
                k <= self.profiles@.len(),
                self.profiles == old(self).profiles,
                kept@ == self.profiles@.subrange(0, k as int).filter(|p: SiteProfile| p.id@ != id@),
            decreases self.profiles.len() - k,
        {
            proof {
                let s = self.profiles@.subrange(0, k as int + 1);
                assert(s.drop_last() =~= self.profiles@.subrange(0, k as int));
                assert(s.last() == self.profiles@[k as int]);
                reveal(Seq::filter);
            }
            if !text_eq(self.profiles[k].id.as_str(), id) {
                kept.push(self.profiles[k].copy_profile());
            }
            k = k + 1;
        }
        assert(self.profiles@.subrange(0, k as int) =~= self.profiles@);
        self.profiles = kept;
        Ok(())
    }

    /// Every profile, most confident first, then most recently used.
    pub fn get_all(&self) -> (r: Result<Vec<SiteProfile>, ProfileError>)
        ensures
            r matches Ok(v) && v@ == sort_ranked(self.profiles@),
    {
        Ok(sorted_copies(&self.profiles))
    }

    /// The profiles of extraction mode `mode`, most confident first.
    pub fn get_by_mode(&self, mode: &str) -> (r: Result<Vec<SiteProfile>, ProfileError>)
        ensures
            r matches Ok(v) && v@ == sort_ranked(self.profiles@.filter(|p: SiteProfile| p.extraction_mode@ == mode@)),
    {
        let mut picked: Vec<SiteProfile> = Vec::new();
        let mut k: usize = 0;
        while k < self.profiles.len()
            invariant
                k <= self.profiles@.len(),
                picked@ == self.profiles@.subrange(0, k as int).filter(|p: SiteProfile| p.extraction_mode@ == mode@),
            decreases self.profiles.len() - k,
        {
            proof {
                let s = self.profiles@.subrange(0, k as int + 1);
                assert(s.drop_last() =~= self.profiles@.subrange(0, k as int));
                assert(s.last() == self.profiles@[k as int]);
                reveal(Seq::filter);
            }
            if text_eq(self.profiles[k].extraction_mode.as_str(), mode) {
                picked.push(self.profiles[k].copy_profile());
            }
            k = k + 1;
        }
        assert(self.profiles@.subrange(0, k as int) =~= self.profiles@);
        Ok(sorted_copies(&picked))
    }

    /// Counts and averages over the whole store.
    pub fn get_stats(&self) -> (r: Result<ProfileStats, ProfileError>)
        ensures
            r matches Ok(st) && {
                let s = self.profiles@;
                let n = s.len() as int;
                &&& st.total_profiles == n
                &&& st.total_uses == sum_uses(s, n)
                &&& st.avg_confidence == average(sum_confidence(s, n), n)
                &&& st.avg_success_rate == average(sum_success(s, n), n)
            },
    {
        let n = self.profiles.len();
        let mut uses: u128 = 0;
        let mut conf: u128 = 0;
        let mut rate: u128 = 0;
        let mut k: usize = 0;
        while k < n
            invariant
                k <= n,
                n == self.profiles@.len(),
                uses == sum_uses(self.profiles@, k as int),
                conf == sum_confidence(self.profiles@, k as int),
                rate == sum_success(self.profiles@, k as int),
            decreases n - k,
        {
            proof {
                lemma_sums_bounded(self.profiles@, k as int);
                assert((k as int) * (u64::MAX as int) <= (usize::MAX as int) * (u64::MAX as int)) by (nonlinear_arith)
                    requires k <= usize::MAX;
            }
            uses = uses + self.profiles[k].use_count as u128;
            conf = conf + self.profiles[k].confidence as u128;
            rate = rate + self.profiles[k].success_rate as u128;
            k = k + 1;
        }
        let (avg_confidence, avg_success_rate) = if n == 0 {
            (0u64, 0u64)
        } else {
            proof {
                lemma_sums_bounded(self.profiles@, n as int);
                lemma_average_fits(conf as int, n as int);
                lemma_average_fits(rate as int, n as int);
            }
            ((conf / n as u128) as u64, (rate / n as u128) as u64)
        };
        Ok(ProfileStats { total_profiles: n, total_uses: uses, avg_confidence, avg_success_rate })
    }

    /// Removes every profile.
    pub fn clear_all(&mut self) -> (r: Result<(), ProfileError>)
        ensures
            r is Ok,
            final(self).profiles@.len() == 0,
    {
        self.profiles = Vec::new();
        Ok(())
    }
}

/// `x` placed after the leading profiles that it does not rank above.
pub open spec fn insert_ranked(s: Seq<SiteProfile>, x: SiteProfile) -> Seq<SiteProfile>
    decreases s.len(),
{
    if s.len() == 0 {
        seq![x]
    } else if ranks_above(x, s[0]) {
        seq![x] + s
    } else {
        seq![s[0]] + insert_ranked(s.drop_first(), x)
    }
}

/// The profiles in listing order; profiles that rank equal keep their order.
pub open spec fn sort_ranked(s: Seq<SiteProfile>) -> Seq<SiteProfile>
    decreases s.len(),
{
    if s.len() == 0 {
        s
    } else {
        insert_ranked(sort_ranked(s.drop_last()), s.last())
    }
}

proof fn lemma_insert_ranked_at(s: Seq<SiteProfile>, x: SiteProfile, p: int)
    requires
        0 <= p <= s.len(),
        forall|k: int| 0 <= k < p ==> !ranks_above(x, #[trigger] s[k]),
        p < s.len() ==> ranks_above(x, s[p]),
    ensures
        insert_ranked(s, x) == s.insert(p, x),
    decreases p,
{
    if p == 0 {
        if s.len() == 0 {
            assert(seq![x] =~= s.insert(0, x));
        } else {
            assert(seq![x] + s =~= s.insert(0, x));
        }
    } else {
        let t = s.drop_first();
        assert(!ranks_above(x, s[0]));
        assert forall|k: int| 0 <= k < p - 1 implies !ranks_above(x, #[trigger] t[k]) by {
            assert(t[k] == s[k + 1]);
        }
        lemma_insert_ranked_at(t, x, p - 1);
        assert(seq![s[0]] + t.insert(p - 1, x) =~= s.insert(p, x));
    }
}

fn insert_ranked_exec(r: &mut Vec<SiteProfile>, x: SiteProfile)
    ensures
        final(r)@ == insert_ranked(old(r)@, x),
{
    let mut p: usize = 0;
    while p < r.len() && !ranks_above_exec(&x, &r[p])
        invariant
            p <= r.len(),
            forall|k: int| 0 <= k < p ==> !ranks_above(x, #[trigger] r@[k]),
        decreases r.len() - p,
    {
        p = p + 1;
    }
    proof {
        lemma_insert_ranked_at(r@, x, p as int);
    }
    r.insert(p, x);
}

/// Copies of the profiles in listing order.
fn sorted_copies(v: &Vec<SiteProfile>) -> (r: Vec<SiteProfile>)
    ensures
        r@ == sort_ranked(v@),
{
    let mut r: Vec<SiteProfile> = Vec::new();
    let mut i: usize = 0;
    assert(v@.subrange(0, 0) =~= Seq::<SiteProfile>::empty());
    while i < v.len()
        invariant
            i <= v@.len(),
            r@ == sort_ranked(v@.subrange(0, i as int)),
        decreases v.len() - i,
    {
        let x = v[i].copy_profile();
        proof {
            let pre = v@.subrange(0, i as int + 1);
            assert(pre.drop_last() =~= v@.subrange(0, i as int));
            assert(pre.last() == x);
        }
        insert_ranked_exec(&mut r, x);
        i = i + 1;
    }
    assert(v@.subrange(0, i as int) =~= v@);
    r
}

/// Use counts summed over the first `n` profiles.
pub open spec fn sum_uses(s: Seq<SiteProfile>, n: int) -> int
    decreases n,
{
    if n <= 0 { 0 } else { sum_uses(s, n - 1) + s[n - 1].use_count }
}

/// Confidences summed over the first `n` profiles.
pub open spec fn sum_confidence(s: Seq<SiteProfile>, n: int) -> int
    decreases n,
{
    if n <= 0 { 0 } else { sum_confidence(s, n - 1) + s[n - 1].confidence }
}

/// Success rates summed over the first `n` profiles.
pub open spec fn sum_success(s: Seq<SiteProfile>, n: int) -> int
    decreases n,
{
    if n <= 0 { 0 } else { sum_success(s, n - 1) + s[n - 1].success_rate }
}

proof fn lemma_sums_bounded(s: Seq<SiteProfile>, n: int)
    requires
        0 <= n <= s.len(),
    ensures
        0 <= sum_uses(s, n) <= n * (u64::MAX as int),
        0 <= sum_confidence(s, n) <= n * (u64::MAX as int),
        0 <= sum_success(s, n) <= n * (u64::MAX as int),
    decreases n,
{
    if n > 0 {
        lemma_sums_bounded(s, n - 1);
        assert((n - 1) * (u64::MAX as int) + (u64::MAX as int) == n * (u64::MAX as int)) by (nonlinear_arith);
    }
}

/// The average of a sum over `n` items, rounded down; zero for no items.
pub open spec fn average(sum: int, n: int) -> int {
    if n <= 0 { 0 } else { sum / n }
}

proof fn lemma_average_fits(sum: int, n: int)
    requires
        0 < n,
        0 <= sum <= n * (u64::MAX as int),
    ensures
        0 <= sum / n <= u64::MAX,
{
    assert(sum / n <= u64::MAX) by (nonlinear_arith)
        requires 0 < n, 0 <= sum <= n * (u64::MAX as int);
    assert(0 <= sum / n) by (nonlinear_arith)
        requires 0 < n, 0 <= sum;
}

proof fn lemma_index_of_id_stable(s: Seq<SiteProfile>, id: Seq<char>, m: int, n: int)
    requires
        0 <= m <= n <= s.len(),
        index_of_id(s, id, m) >= 0,
    ensures
        index_of_id(s, id, n) == index_of_id(s, id, m),
    decreases n - m,
{
    if m < n {
        lemma_index_of_id_stable(s, id, m, n - 1);
    }
}


// ----- laws -----

/// After a profile is saved with confidence `C`, the profile that its domain
/// retrieves has confidence `C`, provided no profile of that domain already
/// held a higher one (otherwise that one is retrieved).
pub proof fn lemma_saved_profile_retrieved(s: Seq<SiteProfile>, p: SiteProfile)
    requires
        forall|k: int| 0 <= k < s.len() && (#[trigger] s[k]).domain@ == p.domain@ ==> s[k].confidence <= p.confidence,
    ensures
        ({
            let t = upsert(s, p);
            let b = best_for_domain(t, p.domain@, t.len() as int);
            b >= 0 && t[b].domain@ == p.domain@ && t[b].confidence == p.confidence
        }),
{
    let t = upsert(s, p);
    let d = p.domain@;
    lemma_index_of_id(s, p.id@, s.len() as int);
    let i = find_id(s, p.id@);
    let at: int = if i >= 0 { i } else { s.len() as int };
    assert(t[at] == p);
    lemma_best_for_domain(t, d, t.len() as int);
    let b = best_for_domain(t, d, t.len() as int);
    assert(t[at].domain@ == d);
    assert(b >= 0);
    assert(t[at].confidence <= t[b].confidence);
    if b != at {
        assert(t[b] == s[b]);
        assert(s[b].domain@ == d);
    }
}

/// A successful use moves the success rate toward 1 and never past it; it
/// rises whenever it is at least four millionths short of 1.
pub proof fn lemma_success_raises_rate(rate: int)
    requires
        0 <= rate <= UNIT,
    ensures
        rate <= ema(rate, true) <= UNIT,
        rate + 4 <= UNIT ==> rate < ema(rate, true),
{
}

/// A failed use moves the success rate toward 0 and never below it; it
/// falls whenever it is above 0.
pub proof fn lemma_failure_lowers_rate(rate: int)
    requires
        0 <= rate <= UNIT,
    ensures
        0 <= ema(rate, false) <= rate,
        rate > 0 ==> ema(rate, false) < rate,
{
}

/// Whatever rate a profile held, the rate after a use lies in [0, 1].
pub proof fn lemma_rate_in_unit(rate: int, success: bool)
    requires
        0 <= rate,
    ensures
        0 <= ema(rate, success) <= UNIT,
{
}

} // verus!
