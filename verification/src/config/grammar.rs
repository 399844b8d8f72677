//! What a configuration text in the Nginx-like format means.
//!
//! A text is a list of numbered lines without comments and blanks. Blocks end at a line that is a
//! single closing brace, or at the end of the text; any trailing semicolons of a line are dropped.
//! Each block is a function from the position of its first line and the settings made so far to
//! the settings it leaves and the position behind it, or to the fault that ends the reading.
use crate::config::internal::{
    CacheV, ConfigV, DiscoveryKind, FileServerV, HealthCheckKind, HttpPeerV, ListenerV,
    PathControlV, ProxyV, RequestSelector, SelectionKind, SettingsV, TlsV, UpstreamOptions, ALPN,
};
use crate::number;
use crate::proxy::rate_limiting;
use crate::proxy::rate_limiting::{MultiKindV, RefillIntervalV, RuleV};
use crate::text;
use vstd::prelude::*;

verus! {

/// A line of the text that is not blank once its comment is gone.
pub struct Line {
    pub number: nat,
    pub text: Seq<char>,
}

/// The contents of a reported error.
pub struct ErrorV {
    pub message: Seq<char>,
    pub line: nat,
    pub source_code: Seq<char>,
    pub offset: nat,
    pub len: nat,
}

/// Why a text has no meaning.
pub enum FaultV {
    /// It breaks a rule of the format.
    Error(ErrorV),
    /// A line of a block holds nothing but semicolons where a directive is due.
    EmptyDirective,
}

/// What is left of a line without its comment.
pub open spec fn cleaned(line: Seq<char>) -> Seq<char> {
    text::trimmed(text::before_char(line, '#'))
}

/// The lines with content, the first of `lines` being number `number`.
pub open spec fn clean_from(lines: Seq<Seq<char>>, number: nat) -> Seq<Line>
    decreases lines.len(),
{
    if lines.len() == 0 {
        Seq::empty()
    } else {
        let rest = clean_from(lines.skip(1), number + 1);
        if cleaned(lines[0]).len() == 0 {
            rest
        } else {
            seq![Line { number, text: cleaned(lines[0]) }] + rest
        }
    }
}

/// The lines of a text that have content.
pub open spec fn clean_lines(t: Seq<char>) -> Seq<Line> {
    clean_from(text::lines_of(t), 1)
}

/// Where line number `k + 1` starts, in bytes, each line before it counted with one line end.
pub open spec fn offset_before(lines: Seq<Seq<char>>, k: int) -> nat
    decreases lines.len(),
{
    if k <= 0 || lines.len() == 0 {
        0
    } else {
        text::byte_len(lines[0]) + 1 + offset_before(lines.skip(1), k - 1)
    }
}

/// `n`, or the largest machine word where it is beyond that.
pub open spec fn capped(n: nat) -> nat {
    if n > usize::MAX {
        usize::MAX as nat
    } else {
        n
    }
}

/// The error with a message, at a place `offset` bytes into a line and `len` bytes long.
pub open spec fn error(
    t: Seq<char>,
    message: Seq<char>,
    line: nat,
    offset: nat,
    len: nat,
) -> FaultV {
    FaultV::Error(
        ErrorV {
            message,
            line,
            source_code: t,
            offset: capped(offset_before(text::lines_of(t), line - 1) + offset),
            len,
        },
    )
}

/// The directive at a position.
pub open spec fn line_at(t: Seq<char>, pos: nat) -> Seq<char> {
    text::trimmed_end_char(clean_lines(t)[pos as int].text, ';')
}

/// The number of the line at a position.
pub open spec fn number_at(t: Seq<char>, pos: nat) -> nat {
    clean_lines(t)[pos as int].number
}

/// The error that covers the whole directive at a position.
pub open spec fn error_at(t: Seq<char>, pos: nat, message: Seq<char>) -> FaultV {
    error(t, message, number_at(t, pos), 0, text::byte_len(line_at(t, pos)))
}

/// The block that opens at a position lacks its brace.
pub open spec fn brace_error(t: Seq<char>, pos: nat) -> FaultV {
    let n = text::byte_len(line_at(t, pos));
    error(
        t,
        "Expected '{'"@,
        number_at(t, pos),
        if n > 0 {
            (n - 1) as nat
        } else {
            0
        },
        1,
    )
}

/// Words with one space between them.
pub open spec fn spaced(parts: Seq<Seq<char>>) -> Seq<char>
    decreases parts.len(),
{
    if parts.len() == 0 {
        Seq::empty()
    } else if parts.len() == 1 {
        parts[0]
    } else {
        spaced(parts.drop_last()) + " "@ + parts.last()
    }
}

/// A directive has too few words.
pub open spec fn missing(
    t: Seq<char>,
    parts: Seq<Seq<char>>,
    line: nat,
    directive: Seq<char>,
) -> FaultV {
    error(t, "Missing value for "@ + directive, line, 0, text::byte_len(spaced(parts)))
}

/// A word is not a value of its directive.
pub open spec fn invalid(
    t: Seq<char>,
    word: Seq<char>,
    line: nat,
    directive: Seq<char>,
) -> FaultV {
    error(t, "Invalid value for "@ + directive, line, 0, text::byte_len(word))
}

/// The word of a directive that is a whole number.
pub open spec fn usize_value(
    t: Seq<char>,
    parts: Seq<Seq<char>>,
    index: int,
    line: nat,
    directive: Seq<char>,
) -> Result<usize, FaultV> {
    if parts.len() <= index {
        Err(missing(t, parts, line, directive))
    } else {
        match number::unsigned_meaning(parts[index], usize::MAX as int) {
            Some(v) => Ok(v as usize),
            None => Err(invalid(t, parts[index], line, directive)),
        }
    }
}

/// The word of a directive that is a signed number.
pub open spec fn i64_value(
    t: Seq<char>,
    parts: Seq<Seq<char>>,
    index: int,
    line: nat,
    directive: Seq<char>,
) -> Result<i64, FaultV> {
    if parts.len() <= index {
        Err(missing(t, parts, line, directive))
    } else {
        match number::signed_meaning(parts[index], i64::MIN as int, i64::MAX as int) {
            Some(v) => Ok(v as i64),
            None => Err(invalid(t, parts[index], line, directive)),
        }
    }
}

/// The word of a directive that is a truth value.
pub open spec fn bool_value(
    t: Seq<char>,
    parts: Seq<Seq<char>>,
    index: int,
    line: nat,
    directive: Seq<char>,
) -> Result<bool, FaultV> {
    if parts.len() <= index {
        Err(missing(t, parts, line, directive))
    } else {
        match number::bool_meaning(parts[index]) {
            Some(v) => Ok(v),
            None => Err(invalid(t, parts[index], line, directive)),
        }
    }
}

/// The word of a directive that is any text.
pub open spec fn text_value(
    t: Seq<char>,
    parts: Seq<Seq<char>>,
    index: int,
    line: nat,
    directive: Seq<char>,
) -> Result<Seq<char>, FaultV> {
    if parts.len() <= index {
        Err(missing(t, parts, line, directive))
    } else {
        Ok(parts[index])
    }
}

/// The word of a directive, without quotation marks around it.
pub open spec fn quoted_value(
    t: Seq<char>,
    parts: Seq<Seq<char>>,
    index: int,
    line: nat,
    directive: Seq<char>,
) -> Result<Seq<char>, FaultV> {
    if parts.len() <= index {
        Err(missing(t, parts, line, directive))
    } else {
        Ok(text::trimmed_char(parts[index], '"'))
    }
}

/// The value of the last word from `from` on that starts with `name`, without quotation marks.
pub open spec fn last_option(parts: Seq<Seq<char>>, from: int, name: Seq<char>) -> Option<Seq<char>>
    decreases parts.len(),
{
    if parts.len() <= from || parts.len() == 0 {
        None
    } else if text::has_prefix(parts.last(), name) {
        Some(text::trimmed_char(text::without_prefixes(parts.last(), name), '"'))
    } else {
        last_option(parts.drop_last(), from, name)
    }
}

/// The directive at `pos` in the `system` block.
pub open spec fn system_directive(t: Seq<char>, pos: nat, c: ConfigV) -> Result<ConfigV, FaultV> {
    let parts = text::words(line_at(t, pos));
    let line = number_at(t, pos);
    if parts.len() == 0 {
        Err(FaultV::EmptyDirective)
    } else if parts[0] == "threads_per_service"@ {
        match usize_value(t, parts, 1, line, "threads_per_service"@) {
            Ok(v) => Ok(ConfigV { threads_per_service: v, ..c }),
            Err(e) => Err(e),
        }
    } else if parts[0] == "daemonize"@ {
        match bool_value(t, parts, 1, line, "daemonize"@) {
            Ok(v) => Ok(ConfigV { daemonize: v, ..c }),
            Err(e) => Err(e),
        }
    } else if parts[0] == "pid_file"@ {
        match quoted_value(t, parts, 1, line, "pid_file"@) {
            Ok(v) => Ok(ConfigV { pid_file: Some(v), ..c }),
            Err(e) => Err(e),
        }
    } else if parts[0] == "upgrade_socket"@ {
        match quoted_value(t, parts, 1, line, "upgrade_socket"@) {
            Ok(v) => Ok(ConfigV { upgrade_socket: Some(v), ..c }),
            Err(e) => Err(e),
        }
    } else {
        Err(error_at(t, pos, "Unknown system directive"@))
    }
}

/// The `system` block whose first line is at `pos`.
pub open spec fn system_block(t: Seq<char>, pos: nat, c: ConfigV) -> Result<(ConfigV, nat), FaultV>
    decreases clean_lines(t).len() - pos,
{
    if pos >= clean_lines(t).len() {
        Ok((c, pos))
    } else if line_at(t, pos) == "}"@ {
        Ok((c, pos + 1))
    } else {
        match system_directive(t, pos, c) {
            Ok(c2) => system_block(t, pos + 1, c2),
            Err(e) => Err(e),
        }
    }
}

/// The configuration after the directives of a `system` block that stand before its first
/// faulty one.
pub open spec fn system_before_fault(t: Seq<char>, pos: nat, c: ConfigV) -> ConfigV
    decreases clean_lines(t).len() - pos,
{
    if pos >= clean_lines(t).len() || line_at(t, pos) == "}"@ {
        c
    } else {
        match system_directive(t, pos, c) {
            Ok(c2) => system_before_fault(t, pos + 1, c2),
            Err(_) => c,
        }
    }
}

/// The directive at `pos` in a `cache` block.
pub open spec fn cache_directive(t: Seq<char>, pos: nat, k: CacheV) -> Result<CacheV, FaultV> {
    let parts = text::words(line_at(t, pos));
    let line = number_at(t, pos);
    if parts.len() == 0 {
        Err(error_at(t, pos, "Empty directive in cache block"@))
    } else if parts[0] == "cache_enabled"@ {
        match bool_value(t, parts, 1, line, "cache_enabled"@) {
            Ok(v) => Ok(CacheV { enabled: v, ..k }),
            Err(e) => Err(e),
        }
    } else if parts[0] == "cache_ttl"@ {
        match i64_value(t, parts, 1, line, "cache_ttl"@) {
            Ok(v) => if v >= 0 {
                Ok(CacheV { ttl: v as u64, ..k })
            } else {
                Err(error_at(t, pos, "cache_ttl must be non-negative"@))
            },
            Err(e) => Err(e),
        }
    } else if parts[0] == "browser_cache_enabled"@ {
        match bool_value(t, parts, 1, line, "browser_cache_enabled"@) {
            Ok(v) => Ok(CacheV { browser_enabled: v, ..k }),
            Err(e) => Err(e),
        }
    } else if parts[0] == "browser_cache_ttl"@ {
        match i64_value(t, parts, 1, line, "browser_cache_ttl"@) {
            Ok(v) => if v >= 0 {
                Ok(CacheV { browser_ttl: v as u64, ..k })
            } else {
                Err(error_at(t, pos, "browser_cache_ttl must be non-negative"@))
            },
            Err(e) => Err(e),
        }
    } else if parts[0] == "cache_dir"@ {
        match quoted_value(t, parts, 1, line, "cache_dir"@) {
            Ok(v) => Ok(CacheV { dir: Some(v), ..k }),
            Err(e) => Err(e),
        }
    } else if parts[0] == "max_file_size"@ {
        match i64_value(t, parts, 1, line, "max_file_size"@) {
            Ok(v) => if v >= 0 {
                Ok(CacheV { max_file_size: Some(v as usize), ..k })
            } else {
                Err(error_at(t, pos, "max_file_size must be non-negative"@))
            },
            Err(e) => Err(e),
        }
    } else if parts[0] == "shard_count"@ {
        match i64_value(t, parts, 1, line, "shard_count"@) {
            Ok(v) => if v > 0 {
                Ok(CacheV { shard_count: Some(v as usize), ..k })
            } else {
                Err(error_at(t, pos, "shard_count must be positive"@))
            },
            Err(e) => Err(e),
        }
    } else {
        Err(error_at(t, pos, "Unknown cache directive"@))
    }
}

/// The `cache` block whose first line is at `pos`.
pub open spec fn cache_block(t: Seq<char>, pos: nat, k: CacheV) -> Result<(CacheV, nat), FaultV>
    decreases clean_lines(t).len() - pos,
{
    if pos >= clean_lines(t).len() {
        Ok((k, pos))
    } else if line_at(t, pos) == "}"@ {
        Ok((k, pos + 1))
    } else {
        match cache_directive(t, pos, k) {
            Ok(k2) => cache_block(t, pos + 1, k2),
            Err(e) => Err(e),
        }
    }
}

/// The settings after the directives of a `cache` block that stand before its first faulty one.
pub open spec fn cache_before_fault(t: Seq<char>, pos: nat, k: CacheV) -> CacheV
    decreases clean_lines(t).len() - pos,
{
    if pos >= clean_lines(t).len() || line_at(t, pos) == "}"@ {
        k
    } else {
        match cache_directive(t, pos, k) {
            Ok(k2) => cache_before_fault(t, pos + 1, k2),
            Err(_) => k,
        }
    }
}

/// The options of a `listen` directive from word `i` on.
pub open spec fn listen_options(
    t: Seq<char>,
    pos: nat,
    parts: Seq<Seq<char>>,
    i: int,
    tls: Option<TlsV>,
    offer_h2: bool,
) -> Result<(Option<TlsV>, bool), FaultV>
    decreases parts.len() - i,
{
    if i >= parts.len() {
        Ok((tls, offer_h2))
    } else if parts[i] == "ssl"@ {
        match (last_option(parts, i + 1, "cert="@), last_option(parts, i + 1, "key="@)) {
            (Some(cert), Some(key)) => listen_options(
                t,
                pos,
                parts,
                i + 1,
                Some(TlsV { cert_path: cert, key_path: key }),
                offer_h2,
            ),
            _ => Err(error_at(t, pos, "SSL requires both cert and key"@)),
        }
    } else if parts[i] == "http2"@ {
        listen_options(t, pos, parts, i + 1, tls, true)
    } else {
        listen_options(t, pos, parts, i + 1, tls, offer_h2)
    }
}

/// The `listen` directive at `pos`.
pub open spec fn listener(t: Seq<char>, pos: nat) -> Result<ListenerV, FaultV> {
    let parts = text::words(line_at(t, pos));
    if parts.len() < 2 {
        Err(error_at(t, pos, "Invalid listen directive"@))
    } else {
        match listen_options(t, pos, parts, 2, None, false) {
            Ok((tls, offer_h2)) => Ok(ListenerV::Tcp { addr: parts[1], tls, offer_h2 }),
            Err(e) => Err(e),
        }
    }
}

/// A group of backends and how they are used.
pub struct UpstreamV {
    pub peers: Seq<HttpPeerV>,
    pub options: UpstreamOptions,
}

impl UpstreamV {
    /// A group before its first directive.
    pub open spec fn initial() -> UpstreamV {
        UpstreamV { peers: Seq::empty(), options: UpstreamOptions::initial() }
    }
}

/// The protocols that a `proto` option offers.
pub open spec fn proto_alpn(proto: Seq<char>) -> Option<ALPN> {
    if proto == "h1-only"@ {
        Some(ALPN::H1)
    } else if proto == "h2-only"@ {
        Some(ALPN::H2)
    } else if proto == "h2-or-h1"@ {
        Some(ALPN::H2H1)
    } else {
        None
    }
}

/// The `server` directive at `pos` in an `upstream` block.
pub open spec fn peer(t: Seq<char>, pos: nat) -> Result<HttpPeerV, FaultV> {
    let parts = text::words(line_at(t, pos));
    if parts.len() < 2 {
        Err(error_at(t, pos, "Invalid server directive in upstream"@))
    } else {
        match last_option(parts, 2, "tls_sni="@) {
            Some(sni) => {
                let proto = match last_option(parts, 2, "proto="@) {
                    Some(p) => p,
                    None => "h1-only"@,
                };
                match proto_alpn(proto) {
                    Some(alpn) => Ok(HttpPeerV { address: parts[1], tls: true, sni, alpn }),
                    None => Err(error_at(t, pos, "Invalid proto value"@)),
                }
            },
            None => Ok(
                HttpPeerV { address: parts[1], tls: false, sni: Seq::empty(), alpn: ALPN::H1 },
            ),
        }
    }
}

/// The directive at `pos` in an `upstream` block.
pub open spec fn upstream_directive(t: Seq<char>, pos: nat, u: UpstreamV) -> Result<
    UpstreamV,
    FaultV,
> {
    let parts = text::words(line_at(t, pos));
    if parts.len() == 0 {
        Err(error_at(t, pos, "Empty directive in upstream block"@))
    } else if parts[0] == "server"@ {
        match peer(t, pos) {
            Ok(p) => Ok(UpstreamV { peers: u.peers.push(p), ..u }),
            Err(e) => Err(e),
        }
    } else if parts[0] == "hash"@ {
        let options = UpstreamOptions {
            selection: SelectionKind::Ketama,
            selector: RequestSelector::UriPath,
            ..u.options
        };
        if parts.len() > 1 && parts[1] == "consistent"@ {
            Ok(
                UpstreamV {
                    options: UpstreamOptions { discovery: DiscoveryKind::Static, ..options },
                    ..u
                },
            )
        } else {
            Ok(UpstreamV { options, ..u })
        }
    } else if parts[0] == "ip_hash"@ {
        Ok(
            UpstreamV {
                options: UpstreamOptions {
                    selection: SelectionKind::Ketama,
                    selector: RequestSelector::SourceAddrAndUriPath,
                    ..u.options
                },
                ..u
            },
        )
    } else if parts[0] == "least_conn"@ {
        Ok(
            UpstreamV {
                options: UpstreamOptions { selection: SelectionKind::RoundRobin, ..u.options },
                ..u
            },
        )
    } else if parts[0] == "random"@ {
        Ok(
            UpstreamV {
                options: UpstreamOptions { selection: SelectionKind::Random, ..u.options },
                ..u
            },
        )
    } else if parts[0] == "health_check"@ {
        Ok(
            UpstreamV {
                options: UpstreamOptions { health_checks: HealthCheckKind::Off, ..u.options },
                ..u
            },
        )
    } else {
        Err(error_at(t, pos, "Unknown upstream directive: "@ + parts[0]))
    }
}

/// The `upstream` block whose first line is at `pos`.
pub open spec fn upstream_block(t: Seq<char>, pos: nat, u: UpstreamV) -> Result<
    (UpstreamV, nat),
    FaultV,
>
    decreases clean_lines(t).len() - pos,
{
    if pos >= clean_lines(t).len() {
        Ok((u, pos))
    } else if line_at(t, pos) == "}"@ {
        Ok((u, pos + 1))
    } else {
        match upstream_directive(t, pos, u) {
            Ok(u2) => upstream_block(t, pos + 1, u2),
            Err(e) => Err(e),
        }
    }
}

/// How many digits stand in front.
pub open spec fn digit_run(s: Seq<char>) -> int
    decreases s.len(),
{
    if s.len() > 0 && number::digit(s[0]) {
        1 + digit_run(s.skip(1))
    } else {
        0
    }
}

/// `s` without a sign in front.
pub open spec fn unsigned_part(s: Seq<char>) -> Seq<char> {
    if s.len() > 0 && (s[0] == '+' || s[0] == '-') {
        s.skip(1)
    } else {
        s
    }
}

/// An exponent: the letter e, an optional sign, digits.
pub open spec fn exponent(s: Seq<char>) -> bool {
    s.len() > 0 && (s[0] == 'e' || s[0] == 'E') && number::all_digits(unsigned_part(s.skip(1)))
}

/// A decimal number: digits with at most one point among or beside them, and an optional exponent.
pub open spec fn decimal_number(s: Seq<char>) -> bool {
    let a = digit_run(s);
    let rest = s.skip(a);
    if rest.len() > 0 && rest[0] == '.' {
        let b = digit_run(rest.skip(1));
        let tail = rest.skip(1 + b);
        a + b > 0 && (tail.len() == 0 || exponent(tail))
    } else {
        a > 0 && (rest.len() == 0 || exponent(rest))
    }
}

/// A literal of a floating point number: signed or not, a decimal number, infinity or not a number.
pub open spec fn float_literal(s: Seq<char>) -> bool {
    let u = unsigned_part(s);
    ||| decimal_number(u)
    ||| text::lowered(u) == "inf"@
    ||| text::lowered(u) == "infinity"@
    ||| text::lowered(u) == "nan"@
}

/// A `limit_req` directive as far as it has been read.
pub struct LimitV {
    pub tokens: usize,
    pub refill: RefillIntervalV,
    pub multi: Option<MultiKindV>,
    pub single: Option<Seq<char>>,
}

impl LimitV {
    /// A rule before its first option.
    pub open spec fn initial() -> LimitV {
        LimitV { tokens: 10, refill: RefillIntervalV::Millis(10), multi: None, single: None }
    }
}

/// A pattern that does not compile.
pub open spec fn regex_error(t: Seq<char>, line: nat, word: Seq<char>, e: Seq<char>) -> FaultV {
    error(t, "Invalid regex: "@ + e, line, 0, text::byte_len(word))
}

/// The `zone` option `word`.
pub open spec fn limit_zone(t: Seq<char>, line: nat, word: Seq<char>, l: LimitV) -> Result<
    LimitV,
    FaultV,
> {
    let zone = text::trimmed_char(text::without_prefixes(word, "zone="@), '"');
    if zone == "ip"@ {
        Ok(LimitV { multi: Some(MultiKindV::SourceIp), ..l })
    } else if text::has_prefix(zone, "any_"@) {
        let pattern = text::without_prefixes(zone, "any_"@);
        match rate_limiting::regex_refusal(pattern) {
            None => Ok(LimitV { single: Some(pattern), ..l }),
            Some(e) => Err(regex_error(t, line, word, e)),
        }
    } else {
        match rate_limiting::regex_refusal(zone) {
            None => Ok(LimitV { multi: Some(MultiKindV::Uri(zone)), ..l }),
            Some(e) => Err(regex_error(t, line, word, e)),
        }
    }
}

/// The `rate` option `word`.
pub open spec fn limit_rate(t: Seq<char>, line: nat, word: Seq<char>, l: LimitV) -> Result<
    LimitV,
    FaultV,
> {
    let rate = text::without_prefixes(word, "rate="@);
    if text::has_suffix(rate, "r/s"@) {
        let literal = text::without_suffixes(rate, "r/s"@);
        if float_literal(literal) {
            Ok(LimitV { refill: RefillIntervalV::PerSecond(literal), ..l })
        } else {
            Err(error(t, "Invalid rate value"@, line, 0, text::byte_len(rate)))
        }
    } else if text::has_suffix(rate, "r/m"@) {
        let literal = text::without_suffixes(rate, "r/m"@);
        if float_literal(literal) {
            Ok(LimitV { refill: RefillIntervalV::PerMinute(literal), ..l })
        } else {
            Err(error(t, "Invalid rate value"@, line, 0, text::byte_len(rate)))
        }
    } else {
        Ok(l)
    }
}

/// The option `word` of a `limit_req` directive.
pub open spec fn limit_option(t: Seq<char>, line: nat, word: Seq<char>, l: LimitV) -> Result<
    LimitV,
    FaultV,
> {
    if text::has_prefix(word, "zone="@) {
        limit_zone(t, line, word, l)
    } else if text::has_prefix(word, "burst="@) {
        match number::unsigned_meaning(
            text::without_prefixes(word, "burst="@),
            usize::MAX as int,
        ) {
            Some(v) => Ok(LimitV { tokens: v as usize, ..l }),
            None => Err(error(t, "Invalid burst value"@, line, 0, text::byte_len(word))),
        }
    } else if text::has_prefix(word, "rate="@) {
        limit_rate(t, line, word, l)
    } else {
        Ok(l)
    }
}

/// The options of a `limit_req` directive from word `i` on.
pub open spec fn limit_options(
    t: Seq<char>,
    line: nat,
    parts: Seq<Seq<char>>,
    i: int,
    l: LimitV,
) -> Result<LimitV, FaultV>
    decreases parts.len() - i,
{
    if i >= parts.len() {
        Ok(l)
    } else {
        match limit_option(t, line, parts[i], l) {
            Ok(l2) => limit_options(t, line, parts, i + 1, l2),
            Err(e) => Err(e),
        }
    }
}

/// The rule that a `limit_req` directive makes.
pub open spec fn limit_rule(t: Seq<char>, line: nat, parts: Seq<Seq<char>>) -> Result<
    RuleV,
    FaultV,
> {
    match limit_options(t, line, parts, 1, LimitV::initial()) {
        Ok(l) => match (l.multi, l.single) {
            (Some(kind), _) => Ok(
                RuleV::Multi {
                    kind,
                    threads: 4,
                    max_buckets: 4000,
                    tokens: l.tokens,
                    refill: l.refill,
                    qty: 1,
                },
            ),
            (None, Some(pattern)) => Ok(
                RuleV::Single { pattern, tokens: l.tokens, refill: l.refill, qty: 1 },
            ),
            (None, None) => Err(
                error(
                    t,
                    "Invalid or missing zone in limit_req"@,
                    line,
                    0,
                    text::byte_len(spaced(parts)),
                ),
            ),
        },
        Err(e) => Err(e),
    }
}

/// What the `location` blocks of a server add to.
pub struct LocationV {
    pub path: PathControlV,
    pub rules: Seq<RuleV>,
}

/// Filter settings with a kind and one value.
pub open spec fn filter_one(kind: Seq<char>, key: Seq<char>, value: Seq<char>) -> SettingsV {
    Map::<Seq<char>, Seq<char>>::empty().insert("kind"@, kind).insert(key, value)
}

/// The settings of a filter that sets a header.
pub open spec fn filter_upsert(key: Seq<char>, value: Seq<char>) -> SettingsV {
    Map::<Seq<char>, Seq<char>>::empty().insert("kind"@, "upsert-header"@).insert(
        "key"@,
        key,
    ).insert("value"@, value)
}

/// The header name and value that a directive sets.
pub open spec fn header_values(
    t: Seq<char>,
    parts: Seq<Seq<char>>,
    line: nat,
    key_directive: Seq<char>,
    value_directive: Seq<char>,
) -> Result<SettingsV, FaultV> {
    match text_value(t, parts, 1, line, key_directive) {
        Ok(key) => match quoted_value(t, parts, 2, line, value_directive) {
            Ok(value) => Ok(filter_upsert(key, value)),
            Err(e) => Err(e),
        },
        Err(e) => Err(e),
    }
}

/// The directive at `pos` in a `location` block.
pub open spec fn location_directive(t: Seq<char>, pos: nat, l: LocationV) -> Result<
    LocationV,
    FaultV,
> {
    let parts = text::words(line_at(t, pos));
    let line = number_at(t, pos);
    if parts.len() == 0 {
        Err(FaultV::EmptyDirective)
    } else if parts[0] == "deny"@ {
        match text_value(t, parts, 1, line, "deny"@) {
            Ok(v) => Ok(
                LocationV {
                    path: PathControlV {
                        request_filters: l.path.request_filters.push(
                            filter_one("block-cidr-range"@, "addrs"@, v),
                        ),
                        ..l.path
                    },
                    ..l
                },
            ),
            Err(e) => Err(e),
        }
    } else if parts[0] == "proxy_set_header"@ {
        match header_values(t, parts, line, "proxy_set_header key"@, "proxy_set_header value"@) {
            Ok(f) => Ok(with_request_filter(l, f)),
            Err(e) => Err(e),
        }
    } else if parts[0] == "add_header"@ {
        match header_values(t, parts, line, "add_header key"@, "add_header value"@) {
            Ok(f) => Ok(with_response_filter(l, f)),
            Err(e) => Err(e),
        }
    } else if parts[0] == "proxy_hide_header"@ {
        match text_value(t, parts, 1, line, "proxy_hide_header"@) {
            Ok(v) => Ok(
                with_request_filter(l, filter_one("remove-header-key-regex"@, "pattern"@, v)),
            ),
            Err(e) => Err(e),
        }
    } else if parts[0] == "hide_header"@ {
        match text_value(t, parts, 1, line, "hide_header"@) {
            Ok(v) => Ok(
                with_response_filter(l, filter_one("remove-header-key-regex"@, "pattern"@, v)),
            ),
            Err(e) => Err(e),
        }
    } else if parts[0] == "limit_req"@ {
        match limit_rule(t, line, parts) {
            Ok(rule) => Ok(LocationV { rules: l.rules.push(rule), ..l }),
            Err(e) => Err(e),
        }
    } else if parts[0] == "proxy_pass"@ {
        match text_value(t, parts, 1, line, "proxy_pass"@) {
            Ok(v) => Ok(with_request_filter(l, filter_one("proxy_pass"@, "value"@, v))),
            Err(e) => Err(e),
        }
    } else {
        Err(error_at(t, pos, "Unknown location directive"@))
    }
}

/// One more filter for requests on their way to the backend.
pub open spec fn with_request_filter(l: LocationV, f: SettingsV) -> LocationV {
    LocationV {
        path: PathControlV {
            upstream_request_filters: l.path.upstream_request_filters.push(f),
            ..l.path
        },
        ..l
    }
}

/// One more filter for responses on their way back.
pub open spec fn with_response_filter(l: LocationV, f: SettingsV) -> LocationV {
    LocationV {
        path: PathControlV {
            upstream_response_filters: l.path.upstream_response_filters.push(f),
            ..l.path
        },
        ..l
    }
}

/// The lines of a `location` block from `pos` on.
pub open spec fn location_lines(t: Seq<char>, pos: nat, l: LocationV) -> Result<
    (LocationV, nat),
    FaultV,
>
    decreases clean_lines(t).len() - pos,
{
    if pos >= clean_lines(t).len() {
        Ok((l, pos))
    } else if line_at(t, pos) == "}"@ {
        Ok((l, pos + 1))
    } else {
        match location_directive(t, pos, l) {
            Ok(l2) => location_lines(t, pos + 1, l2),
            Err(e) => Err(e),
        }
    }
}

/// What the directives of a `location` block that stand before its first faulty one add.
pub open spec fn location_lines_before_fault(t: Seq<char>, pos: nat, l: LocationV) -> LocationV
    decreases clean_lines(t).len() - pos,
{
    if pos >= clean_lines(t).len() || line_at(t, pos) == "}"@ {
        l
    } else {
        match location_directive(t, pos, l) {
            Ok(l2) => location_lines_before_fault(t, pos + 1, l2),
            Err(_) => l,
        }
    }
}

/// The `location` block that opens at `pos`.
pub open spec fn location_block(t: Seq<char>, pos: nat, l: LocationV) -> Result<
    (LocationV, nat),
    FaultV,
> {
    if text::words(line_at(t, pos)).len() < 2 || !text::has_suffix(
        text::trimmed(line_at(t, pos)),
        "{"@,
    ) {
        Err(error_at(t, pos, "Invalid location directive"@))
    } else {
        location_lines(t, pos + 1, l)
    }
}

/// What a `location` block with a fault has added.
pub open spec fn location_before_fault(t: Seq<char>, pos: nat, l: LocationV) -> LocationV {
    if text::words(line_at(t, pos)).len() < 2 || !text::has_suffix(
        text::trimmed(line_at(t, pos)),
        "{"@,
    ) {
        l
    } else {
        location_lines_before_fault(t, pos + 1, l)
    }
}

/// A `server` block as far as it has been read.
pub struct DraftV {
    pub name: Seq<char>,
    pub listeners: Seq<ListenerV>,
    pub upstream: UpstreamV,
    pub location: LocationV,
    pub base_path: Option<Seq<char>>,
    pub proxy_pass: Option<Seq<char>>,
    pub cache: CacheV,
}

/// The cache settings where a configuration gives none.
pub open spec fn initial_cache() -> CacheV {
    CacheV {
        enabled: false,
        ttl: 300,
        browser_enabled: false,
        browser_ttl: 3600,
        dir: None,
        max_file_size: None,
        shard_count: None,
    }
}

/// The server number `count` before its first directive.
pub open spec fn initial_draft(count: nat) -> DraftV {
    DraftV {
        name: "Server"@ + number::decimal(count),
        listeners: Seq::empty(),
        upstream: UpstreamV::initial(),
        location: LocationV { path: PathControlV::initial(), rules: Seq::empty() },
        base_path: None,
        proxy_pass: None,
        cache: initial_cache(),
    }
}

/// The backends of a server, extended by a group of the whole configuration.
pub open spec fn with_group(d: DraftV, name: Seq<char>, g: UpstreamV) -> DraftV {
    DraftV {
        upstream: UpstreamV { peers: d.upstream.peers + g.peers, options: g.options },
        proxy_pass: Some(name),
        ..d
    }
}

/// Whether the `upstream` directive at `pos` is complete in one line.
pub open spec fn single_line(line: Seq<char>) -> bool {
    line.contains('{') && text::has_suffix(line, "}"@)
}

/// What stands between the first opening and the last closing brace.
pub open spec fn braced(line: Seq<char>) -> Seq<char> {
    text::trimmed(
        line.subrange(text::before_char(line, '{').len() as int + 1, line.len() - 1),
    )
}

/// The directive that starts at `pos` in a `server` block, and where the next one starts.
pub open spec fn server_directive(
    t: Seq<char>,
    pos: nat,
    d: DraftV,
    ups: Map<Seq<char>, UpstreamV>,
) -> Result<(DraftV, nat), FaultV> {
    let line = line_at(t, pos);
    let parts = text::words(line);
    if parts.len() == 0 {
        Err(FaultV::EmptyDirective)
    } else if parts[0] == "server_name"@ {
        match text_value(t, parts, 1, number_at(t, pos), "server_name"@) {
            Ok(v) => Ok((DraftV { name: v, ..d }, pos + 1)),
            Err(e) => Err(e),
        }
    } else if parts[0] == "listen"@ {
        match listener(t, pos) {
            Ok(l) => Ok((DraftV { listeners: d.listeners.push(l), ..d }, pos + 1)),
            Err(e) => Err(e),
        }
    } else if parts[0] == "upstream"@ {
        server_upstream(t, pos, d)
    } else if parts[0] == "proxy_pass"@ {
        match text_value(t, parts, 1, number_at(t, pos), "proxy_pass"@) {
            Ok(url) => if text::has_prefix(url, "http://"@) || text::has_prefix(url, "https://"@) {
                Ok((DraftV { proxy_pass: Some(url), ..d }, pos + 1))
            } else if ups.dom().contains(url) {
                Ok((with_group(d, url, ups[url]), pos + 1))
            } else {
                Err(error_at(t, pos, "Unknown upstream reference"@))
            },
            Err(e) => Err(e),
        }
    } else if parts[0] == "location"@ {
        match location_block(t, pos, d.location) {
            Ok((l, next)) => Ok((DraftV { location: l, ..d }, next)),
            Err(e) => Err(e),
        }
    } else if parts[0] == "root"@ {
        match quoted_value(t, parts, 1, number_at(t, pos), "root"@) {
            Ok(v) => Ok((DraftV { base_path: Some(v), ..d }, pos + 1)),
            Err(e) => Err(e),
        }
    } else if parts[0] == "cache"@ {
        if !text::has_suffix(line, "{"@) {
            Err(brace_error(t, pos))
        } else {
            match cache_block(t, pos + 1, d.cache) {
                Ok((k, next)) => Ok((DraftV { cache: k, ..d }, next)),
                Err(e) => Err(e),
            }
        }
    } else {
        Err(error_at(t, pos, "Unknown server directive"@))
    }
}

/// The `upstream` directive at `pos` in a `server` block.
pub open spec fn server_upstream(t: Seq<char>, pos: nat, d: DraftV) -> Result<
    (DraftV, nat),
    FaultV,
> {
    let line = line_at(t, pos);
    if single_line(line) {
        let inner = text::words(braced(line));
        if inner.len() < 2 || inner[0] != "server"@ {
            Err(error_at(t, pos, "Invalid single-line upstream directive"@))
        } else {
            let p = HttpPeerV {
                address: text::trimmed_end_char(inner[1], ';'),
                tls: false,
                sni: Seq::empty(),
                alpn: ALPN::H1,
            };
            Ok(
                (
                    DraftV {
                        upstream: UpstreamV { peers: d.upstream.peers.push(p), ..d.upstream },
                        ..d
                    },
                    pos + 1,
                ),
            )
        }
    } else if !text::has_suffix(line, "{"@) {
        Err(brace_error(t, pos))
    } else {
        match upstream_block(t, pos + 1, UpstreamV::initial()) {
            Ok((u, next)) => Ok(
                (
                    DraftV {
                        upstream: UpstreamV {
                            peers: d.upstream.peers + u.peers,
                            options: u.options,
                        },
                        ..d
                    },
                    next,
                ),
            ),
            Err(e) => Err(e),
        }
    }
}

/// The lines of a `server` block from `pos` on.
pub open spec fn server_lines(
    t: Seq<char>,
    pos: nat,
    d: DraftV,
    ups: Map<Seq<char>, UpstreamV>,
) -> Result<(DraftV, nat), FaultV>
    decreases clean_lines(t).len() - pos,
{
    if pos >= clean_lines(t).len() {
        Ok((d, pos))
    } else if line_at(t, pos) == "}"@ {
        Ok((d, pos + 1))
    } else {
        match server_directive(t, pos, d, ups) {
            Ok((d2, next)) => if pos < next <= clean_lines(t).len() {
                server_lines(t, next, d2, ups)
            } else {
                Ok((d2, next))
            },
            Err(e) => Err(e),
        }
    }
}

/// The draft after a faulty directive of a `server` block: only a block inside it leaves traces.
pub open spec fn directive_before_fault(t: Seq<char>, pos: nat, d: DraftV) -> DraftV {
    let parts = text::words(line_at(t, pos));
    if parts.len() == 0 {
        d
    } else if parts[0] == "location"@ {
        DraftV { location: location_before_fault(t, pos, d.location), ..d }
    } else if parts[0] == "cache"@ && text::has_suffix(line_at(t, pos), "{"@) {
        DraftV { cache: cache_before_fault(t, pos + 1, d.cache), ..d }
    } else {
        d
    }
}

/// The draft where the lines of a `server` block from `pos` on hold a fault.
pub open spec fn server_before_fault(
    t: Seq<char>,
    pos: nat,
    d: DraftV,
    ups: Map<Seq<char>, UpstreamV>,
) -> DraftV
    decreases clean_lines(t).len() - pos,
{
    if pos >= clean_lines(t).len() || line_at(t, pos) == "}"@ {
        d
    } else {
        match server_directive(t, pos, d, ups) {
            Ok((d2, next)) => if pos < next <= clean_lines(t).len() {
                server_before_fault(t, next, d2, ups)
            } else {
                d2
            },
            Err(_) => directive_before_fault(t, pos, d),
        }
    }
}

/// A filter that only names where requests go.
pub open spec fn is_proxy_pass(f: SettingsV) -> bool {
    f.dom().contains("kind"@) && f["kind"@] == "proxy_pass"@
}

/// The first group that a location names and the configuration knows.
pub open spec fn promoted(filters: Seq<SettingsV>, ups: Map<Seq<char>, UpstreamV>) -> Option<
    Seq<char>,
>
    decreases filters.len(),
{
    if filters.len() == 0 {
        None
    } else {
        let f = filters[0];
        if is_proxy_pass(f) && f.dom().contains("value"@) && ups.dom().contains(f["value"@]) {
            Some(f["value"@])
        } else {
            promoted(filters.skip(1), ups)
        }
    }
}

/// The filters without those that only name where requests go.
pub open spec fn without_proxy_pass(filters: Seq<SettingsV>) -> Seq<SettingsV>
    decreases filters.len(),
{
    if filters.len() == 0 {
        Seq::empty()
    } else {
        let rest = without_proxy_pass(filters.drop_last());
        if is_proxy_pass(filters.last()) {
            rest
        } else {
            rest.push(filters.last())
        }
    }
}

/// All servers that have been read.
pub struct ServersV {
    pub proxies: Seq<ProxyV>,
    pub files: Seq<FileServerV>,
}

/// A server whose group of backends comes from a location, where it has none of its own.
pub open spec fn settled(d: DraftV, ups: Map<Seq<char>, UpstreamV>) -> DraftV {
    let filters = d.location.path.upstream_request_filters;
    let chosen = if d.upstream.peers.len() == 0 && d.proxy_pass is None {
        match promoted(filters, ups) {
            Some(name) => with_group(d, name, ups[name]),
            None => d,
        }
    } else {
        d
    };
    DraftV {
        location: LocationV {
            path: PathControlV {
                upstream_request_filters: without_proxy_pass(filters),
                ..d.location.path
            },
            ..d.location
        },
        ..chosen
    }
}

/// The servers with one more, whose block ended before position `pos`.
pub open spec fn server_added(
    t: Seq<char>,
    pos: nat,
    d: DraftV,
    ups: Map<Seq<char>, UpstreamV>,
    s: ServersV,
) -> Result<ServersV, FaultV> {
    let e = settled(d, ups);
    if e.listeners.len() == 0 {
        Err(error(t, "Server must have at least one listener"@, pos, 0, 0))
    } else if e.base_path is Some {
        Ok(
            ServersV {
                files: s.files.push(
                    FileServerV { name: e.name, listeners: e.listeners, base_path: e.base_path },
                ),
                ..s
            },
        )
    } else if e.upstream.peers.len() == 0 && e.proxy_pass is None {
        Err(error(t, "Proxy server must have at least one upstream"@, pos, 0, 0))
    } else {
        Ok(
            ServersV {
                proxies: s.proxies.push(
                    ProxyV {
                        name: e.name,
                        listeners: e.listeners,
                        upstream_options: e.upstream.options,
                        upstreams: e.upstream.peers,
                        path_control: e.location.path,
                        rate_limiting: e.location.rules,
                        cache: e.cache,
                    },
                ),
                ..s
            },
        )
    }
}

/// The `server` block whose first line is at `pos`.
pub open spec fn server_block(
    t: Seq<char>,
    pos: nat,
    ups: Map<Seq<char>, UpstreamV>,
    s: ServersV,
) -> Result<(ServersV, nat), FaultV> {
    match server_lines(t, pos, initial_draft(s.proxies.len() + s.files.len()), ups) {
        Ok((d, next)) => match server_added(t, next, d, ups, s) {
            Ok(s2) => Ok((s2, next)),
            Err(e) => Err(e),
        },
        Err(e) => Err(e),
    }
}

/// The `http` block whose first line is at `pos`.
pub open spec fn http_block(
    t: Seq<char>,
    pos: nat,
    ups: Map<Seq<char>, UpstreamV>,
    s: ServersV,
) -> Result<(ServersV, nat), FaultV>
    decreases clean_lines(t).len() - pos,
{
    if pos >= clean_lines(t).len() {
        Ok((s, pos))
    } else if line_at(t, pos) == "}"@ {
        Ok((s, pos + 1))
    } else if text::has_prefix(line_at(t, pos), "server"@) {
        if !text::has_suffix(line_at(t, pos), "{"@) {
            Err(brace_error(t, pos))
        } else {
            match server_block(t, pos + 1, ups, s) {
                Ok((s2, next)) => if pos < next <= clean_lines(t).len() {
                    http_block(t, next, ups, s2)
                } else {
                    Ok((s2, next))
                },
                Err(e) => Err(e),
            }
        }
    } else {
        http_block(t, pos + 1, ups, s)
    }
}

/// The servers of an `http` block that stand before its first fault.
pub open spec fn servers_before_fault(
    t: Seq<char>,
    pos: nat,
    ups: Map<Seq<char>, UpstreamV>,
    s: ServersV,
) -> ServersV
    decreases clean_lines(t).len() - pos,
{
    if pos >= clean_lines(t).len() || line_at(t, pos) == "}"@ {
        s
    } else if !text::has_prefix(line_at(t, pos), "server"@) {
        servers_before_fault(t, pos + 1, ups, s)
    } else if !text::has_suffix(line_at(t, pos), "{"@) {
        s
    } else {
        match server_block(t, pos + 1, ups, s) {
            Ok((s2, next)) => if pos < next <= clean_lines(t).len() {
                servers_before_fault(t, next, ups, s2)
            } else {
                s2
            },
            Err(_) => s,
        }
    }
}

/// The configuration as far as it has been read.
pub struct TopV {
    pub config: ConfigV,
    pub servers: ServersV,
    pub ups: Map<Seq<char>, UpstreamV>,
}

/// The block that opens at `pos`, or the line there where none does.
pub open spec fn top_directive(t: Seq<char>, pos: nat, s: TopV) -> Result<(TopV, nat), FaultV> {
    let line = line_at(t, pos);
    let parts = text::words(line);
    if text::has_prefix(line, "system"@) {
        if !text::has_suffix(line, "{"@) {
            Err(brace_error(t, pos))
        } else {
            match system_block(t, pos + 1, s.config) {
                Ok((c, next)) => Ok((TopV { config: c, ..s }, next)),
                Err(e) => Err(e),
            }
        }
    } else if text::has_prefix(line, "http"@) {
        if !text::has_suffix(line, "{"@) {
            Err(brace_error(t, pos))
        } else {
            match http_block(t, pos + 1, s.ups, s.servers) {
                Ok((v, next)) => Ok((TopV { servers: v, ..s }, next)),
                Err(e) => Err(e),
            }
        }
    } else if text::has_prefix(line, "upstream"@) {
        if parts.len() < 2 {
            Err(error_at(t, pos, "Invalid upstream directive: missing name"@))
        } else if !text::has_suffix(line, "{"@) {
            Err(brace_error(t, pos))
        } else {
            match upstream_block(t, pos + 1, UpstreamV::initial()) {
                Ok((u, next)) => Ok(
                    (
                        TopV { ups: s.ups.insert(text::trimmed_end_char(parts[1], '{'), u), ..s },
                        next,
                    ),
                ),
                Err(e) => Err(e),
            }
        }
    } else {
        Ok((s, pos + 1))
    }
}

/// The whole text from `pos` on.
pub open spec fn top_lines(t: Seq<char>, pos: nat, s: TopV) -> Result<TopV, FaultV>
    decreases clean_lines(t).len() - pos,
{
    if pos >= clean_lines(t).len() {
        Ok(s)
    } else {
        match top_directive(t, pos, s) {
            Ok((s2, next)) => if pos < next <= clean_lines(t).len() {
                top_lines(t, next, s2)
            } else {
                Ok(s2)
            },
            Err(e) => Err(e),
        }
    }
}

/// The reading before its first line.
pub open spec fn initial_top() -> TopV {
    TopV {
        config: ConfigV::initial(),
        servers: ServersV { proxies: Seq::empty(), files: Seq::empty() },
        ups: Map::empty(),
    }
}

/// The configuration that a text stands for, or why it stands for none.
pub open spec fn meaning(t: Seq<char>) -> Result<ConfigV, FaultV> {
    match top_lines(t, 0, initial_top()) {
        Ok(s) => Ok(
            ConfigV {
                basic_proxies: s.servers.proxies,
                file_servers: s.servers.files,
                ..s.config
            },
        ),
        Err(e) => Err(e),
    }
}

} // verus!
