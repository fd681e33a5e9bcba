//! Regular-expression tests on URLs.

use vstd::prelude::*;

verus! {

/// Whether `pattern` compiles as a regular expression (`Some`) and, if so,
/// whether it finds a match somewhere in `text`.
pub uninterp spec fn regex_finds(pattern: Seq<char>, text: Seq<char>) -> Option<bool>;

/// Relies on `regex::Regex::new` and `Regex::is_match`: none when the
/// pattern does not compile, else whether it matches somewhere in `text`.
#[verifier::external_body]
pub fn pattern_finds(pattern: &str, text: &str) -> (r: Option<bool>)
    ensures
        r == regex_finds(pattern@, text@),
{
    match regex::Regex::new(pattern) {
        Ok(re) => Some(re.is_match(text)),
        Err(_) => None,
    }
}

/// Whether one of the patterns matches `text`; a pattern that does not
/// compile matches nothing.
pub open spec fn any_pattern_matches(patterns: Seq<String>, text: Seq<char>) -> bool {
    exists|k: int| 0 <= k < patterns.len() && regex_finds(#[trigger] patterns[k]@, text) == Some(true)
}

pub fn any_pattern_matches_exec(patterns: &Vec<String>, text: &str) -> (r: bool)
    ensures
        r == any_pattern_matches(patterns@, text@),
{
    let mut k: usize = 0;
    while k < patterns.len()
        invariant
            k <= patterns@.len(),
            forall|m: int| 0 <= m < k ==> regex_finds(#[trigger] patterns@[m]@, text@) != Some(true),
        decreases patterns.len() - k,
    {
        match pattern_finds(patterns[k].as_str(), text) {
            Some(true) => {
                assert(regex_finds(patterns@[k as int]@, text@) == Some(true));
                return true;
            },
            _ => {},
        }
        k = k + 1;
    }
    false
}

} // verus!
