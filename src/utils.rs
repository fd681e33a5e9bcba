//! Identities, pacing and small arithmetic helpers.

use vstd::prelude::*;

verus! {

/// Fixed-point unit: a score, confidence or rate of `UNIT` stands for 1.0.
pub const UNIT: u64 = 1_000_000;

/// `a + b`, held at `usize::MAX`.
pub open spec fn sat_add(a: int, b: int) -> usize {
    if a + b > usize::MAX { usize::MAX } else { (a + b) as usize }
}

/// Relies on `uuid::Uuid::new_v4` and its hyphenated `to_string`: a fresh
/// random identifier. Nothing is promised of its value.
#[verifier::external_body]
pub fn new_session_id() -> (r: String) {
    uuid::Uuid::new_v4().to_string()
}


/// The client identities that requests rotate through.
pub open spec fn agent_list() -> Seq<Seq<char>> {
    seq![
        "Mozilla/5.0 (Windows NT 10.0; Win64; x64) AppleWebKit/537.36 (KHTML, like Gecko) Chrome/121.0.0.0 Safari/537.36"@,
        "Mozilla/5.0 (Macintosh; Intel Mac OS X 10_15_7) AppleWebKit/537.36 (KHTML, like Gecko) Chrome/121.0.0.0 Safari/537.36"@,
        "Mozilla/5.0 (Windows NT 10.0; Win64; x64; rv:122.0) Gecko/20100101 Firefox/122.0"@,
        "Mozilla/5.0 (Macintosh; Intel Mac OS X 10_15_7) AppleWebKit/605.1.15 (KHTML, like Gecko) Version/17.2 Safari/605.1.15"@,
        "Mozilla/5.0 (X11; Linux x86_64) AppleWebKit/537.36 (KHTML, like Gecko) Chrome/121.0.0.0 Safari/537.36"@,
    ]
}

/// The client identities that requests rotate through.
pub fn user_agents() -> (r: Vec<&'static str>)
    ensures
        r@.map_values(|a: &'static str| a@) == agent_list(),
{
    let mut r: Vec<&'static str> = Vec::new();
    r.push("Mozilla/5.0 (Windows NT 10.0; Win64; x64) AppleWebKit/537.36 (KHTML, like Gecko) Chrome/121.0.0.0 Safari/537.36");
    r.push("Mozilla/5.0 (Macintosh; Intel Mac OS X 10_15_7) AppleWebKit/537.36 (KHTML, like Gecko) Chrome/121.0.0.0 Safari/537.36");
    r.push("Mozilla/5.0 (Windows NT 10.0; Win64; x64; rv:122.0) Gecko/20100101 Firefox/122.0");
    r.push("Mozilla/5.0 (Macintosh; Intel Mac OS X 10_15_7) AppleWebKit/605.1.15 (KHTML, like Gecko) Version/17.2 Safari/605.1.15");
    r.push("Mozilla/5.0 (X11; Linux x86_64) AppleWebKit/537.36 (KHTML, like Gecko) Chrome/121.0.0.0 Safari/537.36");
    assert(r@.map_values(|a: &'static str| a@) =~= agent_list());
    r
}

/// Relies on `rand::rng` and `Rng::random_range`: a random index below
/// `n`, which must not be zero (an empty range panics).
#[verifier::external_body]
fn random_below(n: usize) -> (r: usize)
    requires
        n > 0,
    ensures
        r < n,
{
    rand::Rng::random_range(&mut rand::rng(), 0..n)
}

/// One of the client identities, picked at random.
pub fn get_random_user_agent() -> (r: &'static str)
    ensures
        agent_list().contains(r@),
{
    let agents = user_agents();
    assert(agents@.map_values(|a: &'static str| a@).len() == 5);
    let i = random_below(agents.len());
    let a = agents[i];
    assert(agents@.map_values(|a: &'static str| a@)[i as int] == a@);
    a
}

/// The pause between two requests.
#[derive(Clone, Copy, Debug)]
pub struct RateLimiter {
    /// Milliseconds to wait before each request.
    pub delay_ms: u64,
}

impl RateLimiter {
    /// A pace of `requests_per_second` requests per second: a pause of
    /// `1000 / requests_per_second` whole milliseconds; a rate of zero waits
    /// as long as can be counted.
    pub fn new(requests_per_second: u64) -> (r: RateLimiter)
        ensures
            requests_per_second > 0 ==> r.delay_ms == 1000u64 / requests_per_second,
            requests_per_second == 0 ==> r.delay_ms == u64::MAX,
    {
        let delay_ms = if requests_per_second == 0 {
            u64::MAX
        } else {
            1000 / requests_per_second
        };
        RateLimiter { delay_ms }
    }

    /// Milliseconds to wait before each request.
    pub fn delay(&self) -> (r: u64)
        ensures
            r == self.delay_ms,
    {
        self.delay_ms
    }
}

impl Default for RateLimiter {
    /// Two requests per second.
    fn default() -> (r: RateLimiter)
        ensures
            r.delay_ms == 500,
    {
        RateLimiter::new(2)
    }
}

} // verus!
