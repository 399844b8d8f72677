//! Rate limiting rules and what their outcomes decide.
use crate::views;
use regex::Regex;
use vstd::prelude::*;

verus! {

/// A compiled regular expression: opaque, reached through `RegexShim` only.
#[verifier::external_type_specification]
#[verifier::external_body]
pub struct ExRegex(Regex);

/// Why `regex::Regex::new` refuses a pattern on a machine with words of so many bits: the text of
/// its error, or nothing where it accepts.
pub uninterp spec fn regex_refusal_at(pattern: Seq<char>, bits: u32) -> Option<Seq<char>>;

/// Why a pattern is refused on this machine, or nothing where it is accepted.
pub open spec fn regex_refusal(pattern: Seq<char>) -> Option<Seq<char>> {
    regex_refusal_at(pattern, usize::BITS)
}

/// Whether a regular expression made by `regex::Regex::new` from `pattern` finds a match in `text`.
pub uninterp spec fn regex_finds(pattern: Seq<char>, text: Seq<char>) -> bool;

/// A regular expression together with the pattern it was compiled from.
///
/// Values come from `RegexShim::new` alone, so the expression is the one that
/// `regex::Regex::new` makes of the pattern.
#[derive(Debug)]
pub struct RegexShim {
    regex: Regex,
    pattern: String,
}

impl View for RegexShim {
    type V = Seq<char>;

    closed spec fn view(&self) -> Seq<char> {
        self.pattern@
    }
}

impl RegexShim {
    /// Compiles a pattern with `regex::Regex::new`. The contract claims that whether the pattern
    /// is accepted, and the text of the error where it is not, depend on the pattern and the size
    /// of a machine word alone: there is a limit on the memory that a compiled pattern takes.
    #[verifier::external_body]
    pub(crate) fn new(pattern: &str) -> (r: Result<RegexShim, String>)
        ensures
            match r {
                Ok(s) => regex_refusal_at(pattern@, usize::BITS) is None && s@ == pattern@,
                Err(e) => regex_refusal_at(pattern@, usize::BITS) == Some(e@),
            },
    {
        match Regex::new(pattern) {
            Ok(regex) => Ok(RegexShim { regex, pattern: pattern.to_string() }),
            Err(e) => Err(format!("{}", e)),
        }
    }

    /// Searches a text with `regex::Regex::is_match`. The contract claims that the answer depends
    /// on the pattern and the text alone.
    #[verifier::external_body]
    pub(crate) fn is_match(&self, text: &str) -> (r: bool)
        ensures
            r == regex_finds(self@, text@),
    {
        self.regex.is_match(text)
    }
}

/// How often a bucket regains tokens.
#[derive(Debug)]
pub enum RefillInterval {
    /// Once in so many milliseconds.
    Millis(usize),
    /// As often in a second as the decimal literal says.
    PerSecond(String),
    /// As often in a minute as the decimal literal says.
    PerMinute(String),
}

/// The contents of a `RefillInterval`.
pub enum RefillIntervalV {
    Millis(usize),
    PerSecond(Seq<char>),
    PerMinute(Seq<char>),
}

impl View for RefillInterval {
    type V = RefillIntervalV;

    open spec fn view(&self) -> RefillIntervalV {
        match self {
            RefillInterval::Millis(n) => RefillIntervalV::Millis(*n),
            RefillInterval::PerSecond(s) => RefillIntervalV::PerSecond(s@),
            RefillInterval::PerMinute(s) => RefillIntervalV::PerMinute(s@),
        }
    }
}

/// Which requests a rule with one bucket covers.
#[derive(Debug)]
pub enum SingleRequestKeyKind {
    /// Requests whose URI matches.
    UriGroup { pattern: RegexShim },
}

/// By what a rule with many buckets tells requests apart.
#[derive(Debug)]
pub enum MultiRequestKeyKind {
    /// By the address of the client.
    SourceIp,
    /// By the URI, where it matches.
    Uri { pattern: RegexShim },
}

/// The contents of a `MultiRequestKeyKind`.
pub enum MultiKindV {
    SourceIp,
    Uri(Seq<char>),
}

impl View for SingleRequestKeyKind {
    type V = Seq<char>;

    open spec fn view(&self) -> Seq<char> {
        match self {
            SingleRequestKeyKind::UriGroup { pattern } => pattern@,
        }
    }
}

impl View for MultiRequestKeyKind {
    type V = MultiKindV;

    open spec fn view(&self) -> MultiKindV {
        match self {
            MultiRequestKeyKind::SourceIp => MultiKindV::SourceIp,
            MultiRequestKeyKind::Uri { pattern } => MultiKindV::Uri(pattern@),
        }
    }
}

impl SingleRequestKeyKind {
    /// Whether a rule of this kind covers requests to a target.
    pub fn covers(&self, uri: &str) -> (r: bool)
        ensures
            r == regex_finds(self@, uri@),
    {
        match self {
            SingleRequestKeyKind::UriGroup { pattern } => pattern.is_match(uri),
        }
    }
}

/// A rule with many buckets covers requests to a target.
pub open spec fn covered(kind: MultiKindV, uri: Seq<char>) -> bool {
    match kind {
        MultiKindV::SourceIp => true,
        MultiKindV::Uri(pattern) => regex_finds(pattern, uri),
    }
}

impl MultiRequestKeyKind {
    /// Whether a rule of this kind covers requests to a target.
    pub fn covers(&self, uri: &str) -> (r: bool)
        ensures
            r == covered(self@, uri@),
    {
        match self {
            MultiRequestKeyKind::SourceIp => true,
            MultiRequestKeyKind::Uri { pattern } => pattern.is_match(uri),
        }
    }
}

/// Settings of a rule with one bucket.
#[derive(Debug)]
pub struct SingleInstanceConfig {
    pub max_tokens_per_bucket: usize,
    pub refill_interval: RefillInterval,
    pub refill_qty: usize,
}

/// Settings of a rule with many buckets.
#[derive(Debug)]
pub struct MultiRaterConfig {
    pub threads: usize,
    pub max_buckets: usize,
    pub max_tokens_per_bucket: usize,
    pub refill_interval: RefillInterval,
    pub refill_qty: usize,
}

/// A rate limiting rule.
#[derive(Debug)]
#[allow(inconsistent_fields)]
pub enum AllRateConfig {
    Single { kind: SingleRequestKeyKind, config: SingleInstanceConfig },
    Multi { kind: MultiRequestKeyKind, config: MultiRaterConfig },
}

/// The contents of an `AllRateConfig`.
pub enum RuleV {
    Single { pattern: Seq<char>, tokens: usize, refill: RefillIntervalV, qty: usize },
    Multi {
        kind: MultiKindV,
        threads: usize,
        max_buckets: usize,
        tokens: usize,
        refill: RefillIntervalV,
        qty: usize,
    },
}

impl View for AllRateConfig {
    type V = RuleV;

    open spec fn view(&self) -> RuleV {
        match self {
            AllRateConfig::Single { kind, config } => RuleV::Single {
                pattern: kind@,
                tokens: config.max_tokens_per_bucket,
                refill: config.refill_interval@,
                qty: config.refill_qty,
            },
            AllRateConfig::Multi { kind, config } => RuleV::Multi {
                kind: kind@,
                threads: config.threads,
                max_buckets: config.max_buckets,
                tokens: config.max_tokens_per_bucket,
                refill: config.refill_interval@,
                qty: config.refill_qty,
            },
        }
    }
}

/// All rate limiting rules of a proxy.
#[derive(Debug)]
pub struct RateLimitingConfig {
    pub rules: Vec<AllRateConfig>,
}

impl View for RateLimitingConfig {
    type V = Seq<RuleV>;

    open spec fn view(&self) -> Seq<RuleV> {
        views::views(self.rules@)
    }
}

impl Default for RateLimitingConfig {
    fn default() -> (r: Self)
        ensures
            r@ == Seq::<RuleV>::empty(),
    {
        let rules: Vec<AllRateConfig> = Vec::new();
        assert(views::views(rules@) =~= Seq::<RuleV>::empty());
        RateLimitingConfig { rules }
    }
}

/// What a rate limiter says of a request.
#[derive(Clone, Copy, Debug, PartialEq, Eq, Structural)]
pub enum Outcome {
    Approved,
    Declined,
}

} // verus!
