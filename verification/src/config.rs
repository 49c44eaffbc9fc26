//! The immutable configuration snapshot the pipeline reads: host-maps in
//! declaration order, each holding URL-maps in declaration order, each URL-map
//! binding an ACL profile, a WAF profile and a list of rate-limit rules.

use vstd::prelude::*;

verus! {

/// Whether the regular expression `pat` matches anywhere in `text`. The
/// result is a function of the two strings alone; a pattern the parser
/// rejects matches nothing.
pub uninterp spec fn regex_match(pat: Seq<char>, text: Seq<char>) -> bool;

/// Relies on `regex::Regex::new` and `regex::Regex::is_match`: whether a
/// pattern matches a haystack is a function of the pattern and haystack
/// strings alone; a pattern rejected by the parser matches nothing.
#[verifier::external_body]
pub fn regex_is_match(pat: &str, text: &str) -> (r: bool)
    ensures
        r == regex_match(pat@, text@),
{
    match regex::Regex::new(pat) {
        Ok(re) => re.is_match(text),
        Err(_) => false,
    }
}

/// An authority or path pattern: exact string equality, or a regular
/// expression tested by the external regex engine.
#[derive(Clone, Debug)]
pub enum Pattern {
    Exact(String),
    Regex(String),
}

/// What it means for a pattern to match a string.
pub open spec fn pattern_matches(p: Pattern, s: Seq<char>) -> bool {
    match p {
        Pattern::Exact(e) => e@ == s,
        Pattern::Regex(r) => regex_match(r@, s),
    }
}

impl Pattern {
    /// Test the pattern against a string.
    pub fn matches(&self, s: &str) -> (r: bool)
        ensures
            r == pattern_matches(*self, s@),
    {
        match self {
            Pattern::Exact(e) => {
                let o: String = s.to_owned();
                *e == o
            },
            Pattern::Regex(rx) => regex_is_match(rx.as_str(), s),
        }
    }
}

/// The four tag lists and the force flag of an access-control profile.
#[derive(Clone, Debug)]
pub struct AclProfile {
    pub id: String,
    pub name: String,
    pub allow: Vec<String>,
    pub allow_bot: Vec<String>,
    pub deny_bot: Vec<String>,
    pub deny: Vec<String>,
    pub force_deny: Vec<String>,
}

/// Structural restrictions on one request section (headers, cookies or
/// arguments): entry count, value length, and name-specific assertions.
#[derive(Clone, Debug)]
pub struct WafSection {
    /// Most entries the section may hold; `0` disables the count check.
    pub max_count: usize,
    /// Longest value the section may hold; `0` disables the length check.
    pub max_length: usize,
    /// Name-specific assertions applied before signature matching.
    pub names: Vec<NameRule>,
}

/// A name-specific assertion: the value stored under `key` must match `reg`.
#[derive(Clone, Debug)]
pub struct NameRule {
    pub key: String,
    pub reg: String,
}

/// A WAF profile: per-section restrictions, the alphanumeric shortcut, and
/// the severity threshold over accumulated signature scores.
#[derive(Clone, Debug)]
pub struct WafProfile {
    pub name: String,
    /// Skip signature matching for purely alphanumeric values.
    pub ignore_alphanum: bool,
    /// Accumulated severity at or above this blocks.
    pub threshold: u64,
    pub headers: WafSection,
    pub cookies: WafSection,
    pub args: WafSection,
}

/// A signature of the shared database: a regular expression with a severity.
#[derive(Clone, Debug)]
pub struct Signature {
    pub id: String,
    pub operand: String,
    pub severity: u64,
}

/// Where a rate-limit counter key draws one of its parts from.
#[derive(Clone, Debug)]
pub enum LimitKeyPart {
    /// The client IP.
    Ip,
    /// The request path.
    Path,
    /// A request header by name.
    Header(String),
    /// A cookie by name.
    Cookie(String),
    /// A query argument by name.
    Arg(String),
}

/// A rate-limit rule: counter key recipe, window, threshold, and the
/// include/exclude tag gates.
#[derive(Clone, Debug)]
pub struct LimitRule {
    pub id: String,
    /// Counter window in seconds; counters expire after it.
    pub window: u64,
    /// Counts above this block.
    pub threshold: u64,
    /// Parts concatenated (after the rule id) into the counter key.
    pub key_parts: Vec<LimitKeyPart>,
    /// Skip the rule unless every listed tag is attached.
    pub include_tags: Vec<String>,
    /// Skip the rule when any listed tag is attached.
    pub exclude_tags: Vec<String>,
}

/// A URL-map: a path pattern bound to one ACL profile, one WAF profile and
/// an ordered list of rate-limit rules.
#[derive(Clone, Debug)]
pub struct UrlMap {
    pub name: String,
    pub path_pattern: Pattern,
    pub acl_profile: AclProfile,
    /// Whether ACL and limit blocks are enforced (else monitored).
    pub acl_active: bool,
    pub waf_profile: WafProfile,
    pub limits: Vec<LimitRule>,
}

/// A host-map: an authority pattern scoping an ordered list of URL-maps.
#[derive(Clone, Debug)]
pub struct HostMap {
    pub name: String,
    pub authority_pattern: Pattern,
    pub urlmaps: Vec<UrlMap>,
}

/// The immutable snapshot: host-maps in declaration order.
#[derive(Clone, Debug)]
pub struct Config {
    pub hostmaps: Vec<HostMap>,
}

} // verus!
