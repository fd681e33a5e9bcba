//! Resolution and inspection of URLs, and the text rules applied to them.

use vstd::prelude::*;
use crate::structure_analyzer::opt_view;

verus! {

/// What `url` parses `href` into against `base`, serialised; none when
/// either does not parse.
pub uninterp spec fn joined_url(base: Seq<char>, href: Seq<char>) -> Option<Seq<char>>;

/// The host and the domain name of a URL, when it parses.
pub uninterp spec fn url_hosts(url: Seq<char>) -> Option<(Option<Seq<char>>, Option<Seq<char>>)>;

/// The host of a parsed URL, and its domain when the host is a name rather
/// than an IP address.
#[derive(Clone, Debug)]
pub struct HostParts {
    pub host: Option<String>,
    pub domain: Option<String>,
}

/// Relies on `url::Url::parse` and `Url::join`: `href` resolved against
/// `base` and serialised, or none when `base` does not parse or the join
/// fails.
#[verifier::external_body]
pub fn resolve_link(base: &str, href: &str) -> (r: Option<String>)
    ensures
        opt_view(r) == joined_url(base@, href@),
{
    match url::Url::parse(base) {
        Ok(b) => match b.join(href) {
            Ok(u) => Some(u.to_string()),
            Err(_) => None,
        },
        Err(_) => None,
    }
}

/// Relies on `url::Url::parse`, `Url::host_str` and `Url::domain`: the
/// host and the domain of `url`, or none when it does not parse.
#[verifier::external_body]
pub fn parse_hosts(url: &str) -> (r: Option<HostParts>)
    ensures
        match r {
            Some(p) => url_hosts(url@) == Some((opt_view(p.host), opt_view(p.domain))),
            None => url_hosts(url@) is None,
        },
{
    match url::Url::parse(url) {
        Ok(u) => Some(HostParts {
            host: u.host_str().map(|h| h.to_string()),
            domain: u.domain().map(|d| d.to_string()),
        }),
        Err(_) => None,
    }
}

/// The path of a URL, when it parses.
pub uninterp spec fn path_of(url: Seq<char>) -> Option<Seq<char>>;

/// Relies on `url::Url::parse` and `Url::path`: the path of `url`, or none
/// when it does not parse.
#[verifier::external_body]
pub fn parse_path(url: &str) -> (r: Option<String>)
    ensures
        opt_view(r) == path_of(url@),
{
    match url::Url::parse(url) {
        Ok(u) => Some(u.path().to_string()),
        Err(_) => None,
    }
}

/// `s` up to its first `#`: the URL without its fragment.
pub open spec fn before_hash(s: Seq<char>) -> Seq<char>
    decreases s.len(),
{
    if s.len() == 0 {
        s
    } else if s[0] == '#' {
        Seq::empty()
    } else {
        seq![s[0]] + before_hash(s.drop_first())
    }
}

/// The URL without its fragment.
pub fn normalize_url(url: &str) -> (r: String)
    ensures
        r@ == before_hash(url@),
{
    let c = crate::text::chars_of(url);
    let ghost s = c@;
    let mut out: Vec<char> = Vec::new();
    let mut k: usize = 0;
    assert(s.subrange(0, s.len() as int) =~= s);
    while k < c.len() && c[k] != '#'
        invariant
            k <= c@.len(),
            s == c@,
            out@ == s.subrange(0, k as int),
            before_hash(s) == out@ + before_hash(s.subrange(k as int, s.len() as int)),
        decreases c.len() - k,
    {
        proof {
            let rest = s.subrange(k as int, s.len() as int);
            assert(rest[0] == s[k as int]);
            assert(rest.drop_first() =~= s.subrange(k + 1, s.len() as int));
            assert(out@ + (seq![s[k as int]] + before_hash(rest.drop_first())) =~= out@.push(s[k as int]) + before_hash(rest.drop_first()));
        }
        out.push(c[k]);
        k = k + 1;
        assert(out@ =~= s.subrange(0, k as int));
    }
    proof {
        let rest = s.subrange(k as int, s.len() as int);
        if k < c.len() {
            assert(rest[0] == '#');
        } else {
            assert(rest.len() == 0);
        }
        assert(out@ + before_hash(rest) =~= out@);
    }
    crate::text::string_of(&out)
}

/// The index of the last `.` before `to`, or -1.
pub open spec fn last_dot(s: Seq<char>, to: int) -> int
    decreases to,
{
    if to <= 0 {
        -1
    } else if s[to - 1] == '.' {
        to - 1
    } else {
        last_dot(s, to - 1)
    }
}

/// The registrable part of a domain name, taken as its last two labels
/// (`blog.example.com` gives `example.com`).
pub open spec fn registrable_domain(d: Seq<char>) -> Seq<char> {
    let i = last_dot(d, d.len() as int);
    if i < 0 {
        d
    } else {
        d.subrange(last_dot(d, i) + 1, d.len() as int)
    }
}

proof fn lemma_last_dot_range(s: Seq<char>, to: int)
    requires
        to <= s.len(),
    ensures
        -1 <= last_dot(s, to) < to || (to <= 0 && last_dot(s, to) == -1),
        last_dot(s, to) >= 0 ==> s[last_dot(s, to)] == '.',
    decreases to,
{
    if to > 0 {
        lemma_last_dot_range(s, to - 1);
    }
}

fn last_dot_exec(s: &Vec<char>, to: usize) -> (r: Option<usize>)
    requires
        to <= s@.len(),
    ensures
        match r {
            Some(i) => last_dot(s@, to as int) == i as int,
            None => last_dot(s@, to as int) == -1,
        },
{
    let mut k: usize = to;
    while k > 0 && s[k - 1] != '.'
        invariant
            k <= to,
            to <= s@.len(),
            last_dot(s@, to as int) == last_dot(s@, k as int),
        decreases k,
    {
        k = k - 1;
    }
    if k == 0 {
        None
    } else {
        Some(k - 1)
    }
}

/// The last two labels of a domain name.
pub fn registrable_domain_exec(d: &str) -> (r: Vec<char>)
    ensures
        r@ == registrable_domain(d@),
{
    let c = crate::text::chars_of(d);
    proof {
        lemma_last_dot_range(c@, c@.len() as int);
    }
    match last_dot_exec(&c, c.len()) {
        None => c,
        Some(i) => {
            proof {
                lemma_last_dot_range(c@, i as int);
            }
            let start = match last_dot_exec(&c, i) {
                Some(j) => j + 1,
                None => 0,
            };
            let mut out: Vec<char> = Vec::new();
            let mut k: usize = start;
            while k < c.len()
                invariant
                    start <= k <= c@.len(),
                    out@ == c@.subrange(start as int, k as int),
                decreases c.len() - k,
            {
                out.push(c[k]);
                k = k + 1;
                assert(out@ =~= c@.subrange(start as int, k as int));
            }
            out
        },
    }
}

} // verus!
