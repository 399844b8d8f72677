//! Laws on single directives of the configuration format: which setting each word of a line makes.
use crate::config::grammar;
use crate::config::grammar::{DraftV, FaultV, LimitV, LocationV, UpstreamV};
use crate::config::internal::{
    CacheV, ConfigV, DiscoveryKind, HealthCheckKind, HttpPeerV, ListenerV, PathControlV,
    RequestSelector, SelectionKind, SettingsV, TlsV, UpstreamOptions, ALPN,
};
use crate::laws::numbers;
use crate::laws::texts;
use crate::number;
use crate::proxy::rate_limiting;
use crate::proxy::rate_limiting::{MultiKindV, RefillIntervalV, RuleV};
use crate::text;
use vstd::prelude::*;
use vstd::string::*;

verus! {

/// The words of the directive at a position.
pub open spec fn words_at(t: Seq<char>, pos: nat) -> Seq<Seq<char>> {
    text::words(grammar::line_at(t, pos))
}

/// The reading fails with a message.
pub open spec fn fails_with<T>(r: Result<T, FaultV>, message: Seq<char>) -> bool {
    r matches Err(FaultV::Error(e)) && e.message == message
}

/// A text in quotation marks.
pub open spec fn in_quotes(v: Seq<char>) -> Seq<char> {
    seq!['"'] + v + seq!['"']
}

/// A text that does not start or end with a quotation mark, and is not empty.
pub open spec fn unquoted(v: Seq<char>) -> bool {
    v.len() > 0 && v[0] != '"' && v.last() != '"'
}

proof fn lemma_quotes(v: Seq<char>)
    requires
        unquoted(v),
    ensures
        text::trimmed_char(in_quotes(v), '"') == v,
        text::trimmed_char(v, '"') == v,
{
    texts::law_trimming_a_character(seq!['"'], v, seq!['"'], '"');
    let none = Seq::<char>::empty();
    texts::law_trimming_a_character(none, v, none, '"');
    assert(none + v + none =~= v);
}

/// A line is what is left of it without its comment and the white space around it; a directive is
/// its line without the semicolons at the end.
pub proof fn law_comments_and_semicolons(
    a: Seq<char>,
    m: Seq<char>,
    b: Seq<char>,
    comment: Seq<char>,
)
    requires
        texts::blank(a),
        texts::blank(b),
        texts::bare(m),
        !(a + m + b).contains('#'),
    ensures
        grammar::cleaned(a + m + b) == m,
        grammar::cleaned((a + m + b).push('#') + comment) == m,
{
    texts::law_before_a_character(a + m + b, '#', comment);
    texts::law_trimming(a, m, b);
}

/// A directive is its line without the semicolons at the end.
pub proof fn law_semicolons(t: Seq<char>, pos: nat, m: Seq<char>, semicolons: Seq<char>)
    requires
        grammar::clean_lines(t)[pos as int].text == m + semicolons,
        texts::run_of(semicolons, ';'),
        m.len() > 0 ==> m.last() != ';',
    ensures
        grammar::line_at(t, pos) == m,
{
    texts::law_trimming_a_character_at_the_end(m, semicolons, ';');
}

/// Lines count from one, blank ones and comments too; only lines with content are read.
pub proof fn law_line_numbers(line: Seq<char>, rest: Seq<Seq<char>>, n: nat, t: Seq<char>)
    ensures
        grammar::clean_from(Seq::empty(), n) == Seq::<grammar::Line>::empty(),
        grammar::cleaned(line).len() == 0 ==> grammar::clean_from(seq![line] + rest, n)
            == grammar::clean_from(rest, n + 1),
        grammar::cleaned(line).len() > 0 ==> grammar::clean_from(seq![line] + rest, n) == seq![
            grammar::Line { number: n, text: grammar::cleaned(line) },
        ] + grammar::clean_from(rest, n + 1),
        grammar::clean_lines(t) == grammar::clean_from(text::lines_of(t), 1),
{
    assert((seq![line] + rest).skip(1) =~= rest);
    assert((seq![line] + rest)[0] == line);
}

/// A fault names its line, and its place in the text in bytes: what stands in the lines before it,
/// with one byte for each line end.
pub proof fn law_places_of_faults(t: Seq<char>, pos: nat, message: Seq<char>, k: int)
    requires
        grammar::offset_before(text::lines_of(t), grammar::number_at(t, pos) - 1) <= usize::MAX,
        0 <= k < text::lines_of(t).len(),
    ensures
        grammar::error_at(t, pos, message) matches FaultV::Error(e) && e.message == message && e.line
            == grammar::clean_lines(t)[pos as int].number && e.source_code == t && e.offset
            == grammar::offset_before(text::lines_of(t), e.line - 1) && e.len == text::byte_len(
            grammar::line_at(t, pos),
        ),
        grammar::offset_before(text::lines_of(t), 0) == 0,
        grammar::offset_before(text::lines_of(t), k + 1) == grammar::offset_before(
            text::lines_of(t),
            k,
        ) + text::byte_len(text::lines_of(t)[k]) + 1,
{
    lemma_offsets(text::lines_of(t), k);
}

proof fn lemma_offsets(lines: Seq<Seq<char>>, k: int)
    requires
        0 <= k < lines.len(),
    ensures
        grammar::offset_before(lines, k + 1) == grammar::offset_before(lines, k)
            + text::byte_len(lines[k]) + 1,
    decreases lines.len(),
{
    if k == 0 {
        assert(grammar::offset_before(lines.skip(1), 0) == 0);
    } else {
        lemma_offsets(lines.skip(1), k - 1);
        assert(lines.skip(1)[k - 1] == lines[k]);
    }
}

/// A directive without its value is a fault that says so, and so is one with a value of the wrong
/// kind.
pub proof fn law_values(
    t: Seq<char>,
    w: Seq<Seq<char>>,
    i: int,
    line: nat,
    directive: Seq<char>,
    n: nat,
)
    requires
        0 <= i,
    ensures
        w.len() <= i ==> fails_with(
            grammar::usize_value(t, w, i, line, directive),
            "Missing value for "@ + directive,
        ) && fails_with(
            grammar::i64_value(t, w, i, line, directive),
            "Missing value for "@ + directive,
        ) && fails_with(
            grammar::bool_value(t, w, i, line, directive),
            "Missing value for "@ + directive,
        ) && fails_with(
            grammar::text_value(t, w, i, line, directive),
            "Missing value for "@ + directive,
        ) && fails_with(
            grammar::quoted_value(t, w, i, line, directive),
            "Missing value for "@ + directive,
        ),
        w.len() > i && w[i] == number::decimal(n) && n <= usize::MAX ==> grammar::usize_value(
            t,
            w,
            i,
            line,
            directive,
        ) == Ok::<usize, FaultV>(n as usize),
        w.len() > i && number::unsigned_meaning(w[i], usize::MAX as int) is None ==> fails_with(
            grammar::usize_value(t, w, i, line, directive),
            "Invalid value for "@ + directive,
        ),
        w.len() > i && number::signed_meaning(w[i], i64::MIN as int, i64::MAX as int) is None
            ==> fails_with(
            grammar::i64_value(t, w, i, line, directive),
            "Invalid value for "@ + directive,
        ),
        w.len() > i && w[i] != "true"@ && w[i] != "false"@ ==> fails_with(
            grammar::bool_value(t, w, i, line, directive),
            "Invalid value for "@ + directive,
        ),
        w.len() > i ==> grammar::text_value(t, w, i, line, directive) == Ok::<Seq<char>, FaultV>(
            w[i],
        ),
{
    numbers::law_numbers_are_read_back(n, 0, usize::MAX as int);
    numbers::law_truth_values(w[i]);
}

proof fn lemma_system_words()
    ensures
        "threads_per_service"@ != "daemonize"@ && "threads_per_service"@ != "pid_file"@,
        "threads_per_service"@ != "upgrade_socket"@ && "daemonize"@ != "pid_file"@,
        "daemonize"@ != "upgrade_socket"@ && "pid_file"@ != "upgrade_socket"@,
{
    reveal_strlit("threads_per_service");
    reveal_strlit("daemonize");
    reveal_strlit("pid_file");
    reveal_strlit("upgrade_socket");
    assert("threads_per_service"@.len() == 19 && "daemonize"@.len() == 9);
    assert("pid_file"@.len() == 8 && "upgrade_socket"@.len() == 14);
}

/// What each directive of the `system` block sets: its own setting, to its value, and no other.
pub proof fn law_system_directives(t: Seq<char>, pos: nat, c: ConfigV, n: nat, v: Seq<char>)
    requires
        words_at(t, pos).len() >= 1,
        unquoted(v),
    ensures
        ({
            let w = words_at(t, pos);
            let r = grammar::system_directive(t, pos, c);
            let valued = w.len() >= 2;
            &&& valued && w[0] == "threads_per_service"@ && number::unsigned_meaning(
                w[1],
                usize::MAX as int,
            ) == Some(n as int) ==> r == Ok::<ConfigV, FaultV>(ConfigV { threads_per_service: n as usize, ..c })
            &&& valued && w[0] == "daemonize"@ && w[1] == "true"@ ==> r == Ok::<ConfigV, FaultV>(
                ConfigV { daemonize: true, ..c },
            )
            &&& valued && w[0] == "daemonize"@ && w[1] == "false"@ ==> r == Ok::<ConfigV, FaultV>(
                ConfigV { daemonize: false, ..c },
            )
            &&& valued && w[0] == "pid_file"@ && (w[1] == v || w[1] == in_quotes(v)) ==> r == Ok::<
                ConfigV,
                FaultV,
            >(ConfigV { pid_file: Some(v), ..c })
            &&& valued && w[0] == "upgrade_socket"@ && (w[1] == v || w[1] == in_quotes(v)) ==> r == Ok::<
                ConfigV,
                FaultV,
            >(ConfigV { upgrade_socket: Some(v), ..c })
            &&& valued && w[0] == "threads_per_service"@ && number::unsigned_meaning(
                w[1],
                usize::MAX as int,
            ) is None ==> fails_with(r, "Invalid value for "@ + w[0])
            &&& valued && w[0] == "daemonize"@ && w[1] != "true"@ && w[1] != "false"@ ==> fails_with(
                r,
                "Invalid value for "@ + w[0],
            )
            &&& !valued && (w[0] == "threads_per_service"@ || w[0] == "daemonize"@ || w[0]
                == "pid_file"@ || w[0] == "upgrade_socket"@) ==> fails_with(
                r,
                "Missing value for "@ + w[0],
            )
            &&& w[0] != "threads_per_service"@ && w[0] != "daemonize"@ && w[0] != "pid_file"@ && w[0]
                != "upgrade_socket"@ ==> fails_with(r, "Unknown system directive"@)
        }),
{
    lemma_system_words();
    lemma_quotes(v);
    numbers::law_truth_values(words_at(t, pos)[1]);
}

proof fn lemma_cache_words()
    ensures
        "cache_enabled"@ != "cache_ttl"@ && "cache_enabled"@ != "browser_cache_enabled"@,
        "cache_enabled"@ != "browser_cache_ttl"@ && "cache_enabled"@ != "cache_dir"@,
        "cache_enabled"@ != "max_file_size"@ && "cache_enabled"@ != "shard_count"@,
        "cache_ttl"@ != "browser_cache_enabled"@ && "cache_ttl"@ != "browser_cache_ttl"@,
        "cache_ttl"@ != "cache_dir"@ && "cache_ttl"@ != "max_file_size"@,
        "cache_ttl"@ != "shard_count"@ && "browser_cache_enabled"@ != "browser_cache_ttl"@,
        "browser_cache_enabled"@ != "cache_dir"@ && "browser_cache_enabled"@ != "max_file_size"@,
        "browser_cache_enabled"@ != "shard_count"@ && "browser_cache_ttl"@ != "cache_dir"@,
        "browser_cache_ttl"@ != "max_file_size"@ && "browser_cache_ttl"@ != "shard_count"@,
        "cache_dir"@ != "max_file_size"@ && "cache_dir"@ != "shard_count"@,
        "max_file_size"@ != "shard_count"@,
{
    reveal_strlit("cache_enabled");
    reveal_strlit("cache_ttl");
    reveal_strlit("browser_cache_enabled");
    reveal_strlit("browser_cache_ttl");
    reveal_strlit("cache_dir");
    reveal_strlit("max_file_size");
    reveal_strlit("shard_count");
    assert("cache_enabled"@.len() == 13 && "cache_ttl"@.len() == 9);
    assert("browser_cache_enabled"@.len() == 21 && "browser_cache_ttl"@.len() == 17);
    assert("cache_dir"@.len() == 9 && "max_file_size"@.len() == 13 && "shard_count"@.len() == 11);
    assert("cache_enabled"@[0] != "max_file_size"@[0]);
    assert("cache_ttl"@[6] != "cache_dir"@[6]);
}

/// What each directive of a `cache` block sets: its own setting, to its value, and no other. Times
/// and sizes are not negative, and there is at least one shard.
pub proof fn law_cache_directives(t: Seq<char>, pos: nat, k: CacheV, n: nat, v: Seq<char>)
    requires
        words_at(t, pos).len() >= 1,
        unquoted(v),
        n <= i64::MAX,
        n <= usize::MAX,
    ensures
        ({
            let w = words_at(t, pos);
            let r = grammar::cache_directive(t, pos, k);
            let valued = w.len() >= 2;
            let number = number::signed_meaning(w[1], i64::MIN as int, i64::MAX as int);
            let is_n = valued && number == Some(n as int);
            let is_minus = valued && number == Some(-(n as int)) && n > 0;
            let is_v = valued && (w[1] == v || w[1] == in_quotes(v));
            &&& w[0] == "cache_enabled"@ && valued && w[1] == "true"@ ==> r == Ok::<CacheV, FaultV>(
                CacheV { enabled: true, ..k },
            )
            &&& w[0] == "cache_enabled"@ && valued && w[1] == "false"@ ==> r == Ok::<CacheV, FaultV>(
                CacheV { enabled: false, ..k },
            )
            &&& w[0] == "browser_cache_enabled"@ && valued && w[1] == "true"@ ==> r == Ok::<CacheV, FaultV>(
                CacheV { browser_enabled: true, ..k },
            )
            &&& w[0] == "browser_cache_enabled"@ && valued && w[1] == "false"@ ==> r == Ok::<CacheV, FaultV>(
                CacheV { browser_enabled: false, ..k },
            )
            &&& w[0] == "cache_ttl"@ && is_n ==> r == Ok::<CacheV, FaultV>(
                CacheV { ttl: n as u64, ..k },
            )
            &&& w[0] == "cache_ttl"@ && is_minus ==> fails_with(r, "cache_ttl must be non-negative"@)
            &&& w[0] == "browser_cache_ttl"@ && is_n ==> r == Ok::<CacheV, FaultV>(
                CacheV { browser_ttl: n as u64, ..k },
            )
            &&& w[0] == "browser_cache_ttl"@ && is_minus ==> fails_with(
                r,
                "browser_cache_ttl must be non-negative"@,
            )
            &&& w[0] == "cache_dir"@ && is_v ==> r == Ok::<CacheV, FaultV>(
                CacheV { dir: Some(v), ..k },
            )
            &&& w[0] == "max_file_size"@ && is_n ==> r == Ok::<CacheV, FaultV>(
                CacheV { max_file_size: Some(n as usize), ..k },
            )
            &&& w[0] == "max_file_size"@ && is_minus ==> fails_with(
                r,
                "max_file_size must be non-negative"@,
            )
            &&& w[0] == "shard_count"@ && is_n && n > 0 ==> r == Ok::<CacheV, FaultV>(
                CacheV { shard_count: Some(n as usize), ..k },
            )
            &&& w[0] == "shard_count"@ && (is_minus || is_n && n == 0) ==> fails_with(
                r,
                "shard_count must be positive"@,
            )
            &&& valued && (w[0] == "cache_enabled"@ || w[0] == "browser_cache_enabled"@) && w[1]
                != "true"@ && w[1] != "false"@ ==> fails_with(r, "Invalid value for "@ + w[0])
            &&& valued && (w[0] == "cache_ttl"@ || w[0] == "browser_cache_ttl"@ || w[0]
                == "max_file_size"@ || w[0] == "shard_count"@) && number is None ==> fails_with(
                r,
                "Invalid value for "@ + w[0],
            )
            &&& !valued && (w[0] == "cache_enabled"@ || w[0] == "cache_ttl"@ || w[0]
                == "browser_cache_enabled"@ || w[0] == "browser_cache_ttl"@ || w[0] == "cache_dir"@
                || w[0] == "max_file_size"@ || w[0] == "shard_count"@) ==> fails_with(
                r,
                "Missing value for "@ + w[0],
            )
            &&& w[0] != "cache_enabled"@ && w[0] != "cache_ttl"@ && w[0]
                != "browser_cache_enabled"@ && w[0] != "browser_cache_ttl"@ && w[0] != "cache_dir"@
                && w[0] != "max_file_size"@ && w[0] != "shard_count"@ ==> fails_with(
                r,
                "Unknown cache directive"@,
            )
        }),
{
    lemma_cache_words();
    lemma_quotes(v);
    numbers::law_truth_values(words_at(t, pos)[1]);
}

/// Where a configuration gives no cache settings, there is no cache, stored responses would live for
/// five minutes, and browsers may keep nothing and would keep it for an hour.
pub proof fn law_cache_settings_that_are_not_given()
    ensures
        grammar::initial_cache() == (CacheV {
            enabled: false,
            ttl: 300,
            browser_enabled: false,
            browser_ttl: 3600,
            dir: None,
            max_file_size: None,
            shard_count: None,
        }),
        ConfigV::initial().threads_per_service == 8,
        !ConfigV::initial().daemonize && !ConfigV::initial().upgrade,
        !ConfigV::initial().validate_configs,
        ConfigV::initial().pid_file is None && ConfigV::initial().upgrade_socket is None,
{
}

/// The last word that starts with a name gives its option.
pub proof fn law_last_option_counts(
    w: Seq<Seq<char>>,
    from: int,
    name: Seq<char>,
    v: Seq<char>,
    other: Seq<char>,
)
    requires
        0 <= from <= w.len(),
        name.len() > 0,
        unquoted(v),
        !text::has_prefix(v, name),
        !text::has_prefix(in_quotes(v), name),
        !text::has_prefix(other, name),
    ensures
        grammar::last_option(w.push(name + v), from, name) == Some(v),
        grammar::last_option(w.push(name + in_quotes(v)), from, name) == Some(v),
        grammar::last_option(w.push(other), from, name) == grammar::last_option(w, from, name),
        grammar::last_option(w, w.len() as int, name) is None,
{
    lemma_quotes(v);
    let q = in_quotes(v);
    assert((name + v).take(name.len() as int) =~= name);
    assert((name + q).take(name.len() as int) =~= name);
    assert((name + v).skip(name.len() as int) =~= v);
    assert((name + q).skip(name.len() as int) =~= q);
    assert(w.push(other).drop_last() =~= w);
    assert(text::without_prefixes(name + v, name) == v) by {
        assert(text::without_prefixes(v, name) == v);
    }
    assert(text::without_prefixes(name + q, name) == q) by {
        assert(text::without_prefixes(q, name) == q);
    }
}

proof fn lemma_listen_options(
    t: Seq<char>,
    pos: nat,
    w: Seq<Seq<char>>,
    i: int,
    tls: Option<TlsV>,
    h2: bool,
)
    requires
        0 <= i,
    ensures
        grammar::listen_options(t, pos, w, i, tls, h2) matches Ok((tls2, h22)) ==> {
            &&& h22 <==> h2 || exists|j: int| i <= j < w.len() && #[trigger] w[j] == "http2"@
            &&& tls2 is Some <==> tls is Some || exists|j: int|
                i <= j < w.len() && #[trigger] w[j] == "ssl"@
        },
    decreases w.len() - i,
{
    reveal_strlit("ssl");
    reveal_strlit("http2");
    assert("ssl"@.len() != "http2"@.len());
    if i < w.len() {
        if w[i] == "ssl"@ {
            if let (Some(cert), Some(key)) = (
                grammar::last_option(w, i + 1, "cert="@),
                grammar::last_option(w, i + 1, "key="@),
            ) {
                lemma_listen_options(
                    t,
                    pos,
                    w,
                    i + 1,
                    Some(TlsV { cert_path: cert, key_path: key }),
                    h2,
                );
            }
        } else if w[i] == "http2"@ {
            lemma_listen_options(t, pos, w, i + 1, tls, true);
        } else {
            lemma_listen_options(t, pos, w, i + 1, tls, h2);
        }
    }
}

/// A listener is opened on the address that is given, with TLS exactly if the word ssl is given, and
/// offers HTTP/2 exactly if the word http2 is given.
pub proof fn law_listen_directives(t: Seq<char>, pos: nat)
    ensures
        words_at(t, pos).len() < 2 ==> fails_with(
            grammar::listener(t, pos),
            "Invalid listen directive"@,
        ),
        grammar::listener(t, pos) matches Ok(l) ==> (l matches ListenerV::Tcp { addr, tls, offer_h2 }
            && {
            let w = words_at(t, pos);
            &&& addr == w[1]
            &&& offer_h2 <==> exists|j: int| 2 <= j < w.len() && #[trigger] w[j] == "http2"@
            &&& tls is Some <==> exists|j: int| 2 <= j < w.len() && #[trigger] w[j] == "ssl"@
        }),
        words_at(t, pos).len() == 2 ==> grammar::listener(t, pos) == Ok::<ListenerV, FaultV>(
            ListenerV::Tcp { addr: words_at(t, pos)[1], tls: None, offer_h2: false },
        ),
{
    lemma_listen_options(t, pos, words_at(t, pos), 2, None, false);
}

/// A listener with TLS has the certificate and the key that are given behind the last word ssl; it is
/// refused where one of them is missing.
pub proof fn law_listen_with_tls(t: Seq<char>, pos: nat, k: int)
    requires
        2 <= k < words_at(t, pos).len(),
        words_at(t, pos)[k] == "ssl"@,
        forall|j: int|
            k < j < words_at(t, pos).len() ==> #[trigger] words_at(t, pos)[j] != "ssl"@,
    ensures
        ({
            let w = words_at(t, pos);
            match (
                grammar::last_option(w, k + 1, "cert="@),
                grammar::last_option(w, k + 1, "key="@),
            ) {
                (Some(cert), Some(key)) => grammar::listener(t, pos) matches Ok(
                    ListenerV::Tcp { tls, .. },
                ) && tls == Some(TlsV { cert_path: cert, key_path: key }),
                _ => fails_with(grammar::listener(t, pos), "SSL requires both cert and key"@),
            }
        }),
{
    lemma_last_ssl(t, pos, words_at(t, pos), 2, None, false, k);
}

proof fn lemma_last_ssl(
    t: Seq<char>,
    pos: nat,
    w: Seq<Seq<char>>,
    i: int,
    tls: Option<TlsV>,
    h2: bool,
    k: int,
)
    requires
        0 <= i <= k < w.len(),
        w[k] == "ssl"@,
        forall|j: int| k < j < w.len() ==> #[trigger] w[j] != "ssl"@,
    ensures
        match (
            grammar::last_option(w, k + 1, "cert="@),
            grammar::last_option(w, k + 1, "key="@),
        ) {
            (Some(cert), Some(key)) => grammar::listen_options(t, pos, w, i, tls, h2) matches Ok(
                (got, _),
            ) && got == Some(TlsV { cert_path: cert, key_path: key }),
            _ => fails_with(
                grammar::listen_options(t, pos, w, i, tls, h2),
                "SSL requires both cert and key"@,
            ),
        },
    decreases k - i,
{
    if i == k {
        if let (Some(cert), Some(key)) = (
            grammar::last_option(w, k + 1, "cert="@),
            grammar::last_option(w, k + 1, "key="@),
        ) {
            lemma_tls_stays(t, pos, w, k + 1, Some(TlsV { cert_path: cert, key_path: key }), h2);
        }
    } else if w[i] == "ssl"@ {
        lemma_option_from(w, i + 1, k + 1, "cert="@);
        lemma_option_from(w, i + 1, k + 1, "key="@);
        if let (Some(cert), Some(key)) = (
            grammar::last_option(w, i + 1, "cert="@),
            grammar::last_option(w, i + 1, "key="@),
        ) {
            lemma_last_ssl(
                t,
                pos,
                w,
                i + 1,
                Some(TlsV { cert_path: cert, key_path: key }),
                h2,
                k,
            );
        }
    } else if w[i] == "http2"@ {
        lemma_last_ssl(t, pos, w, i + 1, tls, true, k);
    } else {
        lemma_last_ssl(t, pos, w, i + 1, tls, h2, k);
    }
}

/// An option that is found from a position on is found from an earlier one on.
proof fn lemma_option_from(w: Seq<Seq<char>>, a: int, b: int, name: Seq<char>)
    requires
        0 <= a <= b,
    ensures
        grammar::last_option(w, b, name) is Some ==> grammar::last_option(w, a, name)
            == grammar::last_option(w, b, name),
    decreases w.len(),
{
    if w.len() > b {
        lemma_option_from(w.drop_last(), a, b, name);
    }
}

proof fn lemma_tls_stays(
    t: Seq<char>,
    pos: nat,
    w: Seq<Seq<char>>,
    i: int,
    tls: Option<TlsV>,
    h2: bool,
)
    requires
        0 <= i,
        forall|j: int| i <= j < w.len() ==> #[trigger] w[j] != "ssl"@,
    ensures
        grammar::listen_options(t, pos, w, i, tls, h2) matches Ok((tls2, _)) && tls2 == tls,
    decreases w.len() - i,
{
    if i < w.len() {
        assert(w[i] != "ssl"@);
        if w[i] == "http2"@ {
            lemma_tls_stays(t, pos, w, i + 1, tls, true);
        } else {
            lemma_tls_stays(t, pos, w, i + 1, tls, h2);
        }
    }
}

/// A backend has the address that is given. It is reached over TLS exactly if a name for that is
/// given, and then with the protocols that are asked for: HTTP/1 where none is.
pub proof fn law_backends(t: Seq<char>, pos: nat)
    ensures
        words_at(t, pos).len() < 2 ==> fails_with(
            grammar::peer(t, pos),
            "Invalid server directive in upstream"@,
        ),
        words_at(t, pos).len() >= 2 ==> ({
            let w = words_at(t, pos);
            let sni = grammar::last_option(w, 2, "tls_sni="@);
            let proto = grammar::last_option(w, 2, "proto="@);
            let r = grammar::peer(t, pos);
            &&& sni is None ==> r == Ok::<HttpPeerV, FaultV>(
                HttpPeerV { address: w[1], tls: false, sni: Seq::empty(), alpn: ALPN::H1 },
            )
            &&& sni matches Some(s) ==> {
                let with = |alpn: ALPN|
                    Ok::<HttpPeerV, FaultV>(
                        HttpPeerV { address: w[1], tls: true, sni: s, alpn },
                    );
                &&& proto is None || proto == Some("h1-only"@) ==> r == with(ALPN::H1)
                &&& proto == Some("h2-only"@) ==> r == with(ALPN::H2)
                &&& proto == Some("h2-or-h1"@) ==> r == with(ALPN::H2H1)
                &&& proto matches Some(p) ==> p != "h1-only"@ && p != "h2-only"@ && p
                    != "h2-or-h1"@ ==> fails_with(r, "Invalid proto value"@)
            }
        }),
{
    reveal_strlit("h1-only");
    reveal_strlit("h2-only");
    reveal_strlit("h2-or-h1");
    assert("h1-only"@[1] != "h2-only"@[1]);
    assert("h1-only"@.len() == 7 && "h2-only"@.len() == 7 && "h2-or-h1"@.len() == 8);
}

proof fn lemma_upstream_words()
    ensures
        "server"@ != "hash"@ && "server"@ != "ip_hash"@ && "server"@ != "least_conn"@,
        "server"@ != "random"@ && "server"@ != "health_check"@ && "hash"@ != "ip_hash"@,
        "hash"@ != "least_conn"@ && "hash"@ != "random"@ && "hash"@ != "health_check"@,
        "ip_hash"@ != "least_conn"@ && "ip_hash"@ != "random"@ && "ip_hash"@ != "health_check"@,
        "least_conn"@ != "random"@ && "least_conn"@ != "health_check"@,
        "random"@ != "health_check"@,
{
    reveal_strlit("server");
    reveal_strlit("hash");
    reveal_strlit("ip_hash");
    reveal_strlit("least_conn");
    reveal_strlit("random");
    reveal_strlit("health_check");
    assert("server"@.len() == 6 && "hash"@.len() == 4 && "ip_hash"@.len() == 7);
    assert("least_conn"@.len() == 10 && "random"@.len() == 6 && "health_check"@.len() == 12);
    assert("server"@[0] != "random"@[0]);
}

/// What each directive of an `upstream` block does: a server is added behind those before it, or one
/// of the ways to pick a backend is set; nothing else changes.
pub proof fn law_upstream_directives(t: Seq<char>, pos: nat, u: UpstreamV)
    requires
        words_at(t, pos).len() >= 1,
    ensures
        ({
            let w = words_at(t, pos);
            let r = grammar::upstream_directive(t, pos, u);
            let set = |selection: SelectionKind, selector: RequestSelector|
                Ok::<UpstreamV, FaultV>(
                    UpstreamV {
                        peers: u.peers,
                        options: UpstreamOptions { selection, selector, ..u.options },
                    },
                );
            &&& w[0] == "server"@ ==> match grammar::peer(t, pos) {
                Ok(p) => r == Ok::<UpstreamV, FaultV>(
                    UpstreamV { peers: u.peers.push(p), options: u.options },
                ),
                Err(e) => r == Err::<UpstreamV, FaultV>(e),
            }
            &&& w[0] == "hash"@ ==> r == set(SelectionKind::Ketama, RequestSelector::UriPath)
            &&& w[0] == "ip_hash"@ ==> r == set(
                SelectionKind::Ketama,
                RequestSelector::SourceAddrAndUriPath,
            )
            &&& w[0] == "least_conn"@ ==> r == set(SelectionKind::RoundRobin, u.options.selector)
            &&& w[0] == "random"@ ==> r == set(SelectionKind::Random, u.options.selector)
            &&& w[0] == "health_check"@ ==> r == Ok::<UpstreamV, FaultV>(u)
            &&& w[0] != "server"@ && w[0] != "hash"@ && w[0] != "ip_hash"@ && w[0] != "least_conn"@
                && w[0] != "random"@ && w[0] != "health_check"@ ==> fails_with(
                r,
                "Unknown upstream directive: "@ + w[0],
            )
        }),
        UpstreamV::initial().peers == Seq::<HttpPeerV>::empty(),
        UpstreamV::initial().options.selection == SelectionKind::RoundRobin,
        UpstreamV::initial().options.selector == RequestSelector::Null,
        UpstreamV::initial().options.health_checks == HealthCheckKind::Off,
        UpstreamV::initial().options.discovery == DiscoveryKind::Static,
{
    lemma_upstream_words();
}

/// The zone of a rate limit says whom it concerns: each client, the targets that match a pattern
/// together, or each of the targets that match one. A pattern has to compile.
pub proof fn law_zones(t: Seq<char>, line: nat, v: Seq<char>, l: LimitV)
    requires
        unquoted(v),
        !text::has_prefix(v, "zone="@),
        !text::has_prefix(v, "any_"@),
    ensures
        grammar::limit_option(t, line, "zone="@ + "ip"@, l) == Ok::<LimitV, FaultV>(
            LimitV { multi: Some(MultiKindV::SourceIp), ..l },
        ),
        match rate_limiting::regex_refusal(v) {
            None => {
                &&& grammar::limit_option(t, line, "zone="@ + ("any_"@ + v), l) == Ok::<
                    LimitV,
                    FaultV,
                >(LimitV { single: Some(v), ..l })
                &&& v != "ip"@ ==> grammar::limit_option(t, line, "zone="@ + v, l) == Ok::<
                    LimitV,
                    FaultV,
                >(LimitV { multi: Some(MultiKindV::Uri(v)), ..l })
            },
            Some(e) => {
                &&& fails_with(
                    grammar::limit_option(t, line, "zone="@ + ("any_"@ + v), l),
                    "Invalid regex: "@ + e,
                )
                &&& v != "ip"@ ==> fails_with(
                    grammar::limit_option(t, line, "zone="@ + v, l),
                    "Invalid regex: "@ + e,
                )
            },
        },
{
    reveal_strlit("zone=");
    reveal_strlit("ip");
    reveal_strlit("any_");
    let zone = "zone="@;
    let any = "any_"@ + v;
    lemma_quotes(v);
    lemma_quotes("ip"@);
    assert(any[0] == 'a' && any.last() == v.last());
    lemma_quotes(any);
    lemma_option(zone, "ip"@);
    lemma_option(zone, v);
    assert(!text::has_prefix(any, zone)) by {
        if text::has_prefix(any, zone) {
            assert(any.take(5)[0] == zone[0]);
            assert(any.take(5)[0] == any[0]);
        }
    }
    lemma_option(zone, any);
    lemma_option("any_"@, v);
    assert(any != "ip"@) by {
        assert(any[0] != "ip"@[0]);
    }
}

/// The option of a word that is made of its name and a value.
proof fn lemma_option(name: Seq<char>, v: Seq<char>)
    requires
        name.len() > 0,
    ensures
        text::has_prefix(name + v, name),
        !text::has_prefix(v, name) ==> text::without_prefixes(name + v, name) == v,
{
    assert((name + v).take(name.len() as int) =~= name);
    assert((name + v).skip(name.len() as int) =~= v);
    if !text::has_prefix(v, name) {
        assert(text::without_prefixes(v, name) == v);
    }
}

/// The burst of a rate limit is how many requests may come at once.
pub proof fn law_bursts(t: Seq<char>, line: nat, n: nat, v: Seq<char>, l: LimitV)
    requires
        n <= usize::MAX,
        number::unsigned_meaning(v, usize::MAX as int) is None,
        !text::has_prefix(v, "burst="@),
    ensures
        grammar::limit_option(t, line, "burst="@ + number::decimal(n), l) == Ok::<LimitV, FaultV>(
            LimitV { tokens: n as usize, ..l },
        ),
        fails_with(grammar::limit_option(t, line, "burst="@ + v, l), "Invalid burst value"@),
{
    reveal_strlit("burst=");
    reveal_strlit("zone=");
    let d = number::decimal(n);
    number::lemma_decimal_value(n);
    assert(number::digit(d[0]));
    numbers::law_numbers_are_read_back(n, 0, usize::MAX as int);
    assert(!text::has_prefix(d, "burst="@)) by {
        if text::has_prefix(d, "burst="@) {
            assert(d.take(6)[0] == d[0]);
        }
    }
    lemma_option("burst="@, d);
    lemma_option("burst="@, v);
    lemma_not_zone("burst="@, d);
    lemma_not_zone("burst="@, v);
}

proof fn lemma_not_zone(name: Seq<char>, v: Seq<char>)
    requires
        name.len() > 0,
        name[0] != 'z',
    ensures
        !text::has_prefix(name + v, "zone="@),
{
    reveal_strlit("zone=");
    if text::has_prefix(name + v, "zone="@) {
        assert((name + v).take(5)[0] == (name + v)[0]);
        assert((name + v)[0] == name[0]);
    }
}

/// The rate of a rate limit is a number of requests per second or per minute; what is no number is
/// refused.
pub proof fn law_rates(t: Seq<char>, line: nat, v: Seq<char>, l: LimitV)
    requires
        v.len() > 0,
        !text::has_prefix(v, "rate="@),
        !text::has_suffix(v, "r/s"@),
        !text::has_suffix(v, "r/m"@),
    ensures
        grammar::float_literal(v) ==> grammar::limit_rate(t, line, "rate="@ + (v + "r/s"@), l)
            == Ok::<LimitV, FaultV>(LimitV { refill: RefillIntervalV::PerSecond(v), ..l }),
        grammar::float_literal(v) ==> grammar::limit_rate(t, line, "rate="@ + (v + "r/m"@), l)
            == Ok::<LimitV, FaultV>(LimitV { refill: RefillIntervalV::PerMinute(v), ..l }),
        !grammar::float_literal(v) ==> fails_with(
            grammar::limit_rate(t, line, "rate="@ + (v + "r/s"@), l),
            "Invalid rate value"@,
        ) && fails_with(
            grammar::limit_rate(t, line, "rate="@ + (v + "r/m"@), l),
            "Invalid rate value"@,
        ),
        grammar::limit_option(t, line, "rate="@ + v, l) == grammar::limit_rate(
            t,
            line,
            "rate="@ + v,
            l,
        ),
{
    reveal_strlit("rate=");
    reveal_strlit("r/s");
    reveal_strlit("r/m");
    reveal_strlit("burst=");
    let rate = "rate="@;
    let s = v + "r/s"@;
    let m = v + "r/m"@;
    assert(!text::has_prefix(s, rate) && !text::has_prefix(m, rate)) by {
        assert(s.take(5) =~= m.take(5) || s.len() < 8);
        if text::has_prefix(s, rate) || text::has_prefix(m, rate) {
            if v.len() >= 5 {
                assert(s.take(5) =~= v.take(5));
                assert(m.take(5) =~= v.take(5));
            } else {
                let k = v.len() as int;
                assert(s[k + 1] == '/' && m[k + 1] == '/');
                if k + 1 < 5 {
                    assert(s.take(5)[k + 1] == s[k + 1]);
                    assert(m.take(5)[k + 1] == m[k + 1]);
                    assert(rate[k + 1] != '/');
                } else {
                    assert(k == 4);
                    assert(s.take(5)[4] == s[4] && m.take(5)[4] == m[4]);
                    assert(s[4] == 'r');
                }
            }
        }
    }
    lemma_option(rate, s);
    lemma_option(rate, m);
    texts::law_taking_off_suffixes("r/s"@, v);
    texts::law_taking_off_suffixes("r/m"@, v);
    assert(s.skip(s.len() - 3) =~= "r/s"@);
    assert(m.skip(m.len() - 3) =~= "r/m"@);
    assert("r/s"@[2] != "r/m"@[2]);
    assert(!text::has_suffix(m, "r/s"@)) by {
        assert(m.skip(m.len() - 3)[2] == 'm');
    }
    assert(text::without_suffixes(v, "r/s"@) == v);
    assert(text::without_suffixes(v, "r/m"@) == v);
    lemma_option(rate, v);
    lemma_not_zone(rate, v);
    assert(!text::has_prefix(rate + v, "burst="@)) by {
        if text::has_prefix(rate + v, "burst="@) {
            assert((rate + v).take(6)[0] == (rate + v)[0]);
        }
    }
}

/// Whole numbers and decimal fractions are numbers, with a sign in front or not; nothing is one that
/// holds a character that no number has.
pub proof fn law_literals(s: Seq<char>, f: Seq<char>)
    requires
        number::all_digits(s),
        number::all_digits(f),
    ensures
        grammar::float_literal(s),
        grammar::float_literal(s + seq!['.'] + f),
        grammar::float_literal(seq!['.'] + f),
        grammar::float_literal(s.push('.')),
        grammar::float_literal(seq!['-'] + s),
        grammar::float_literal(seq!['+'] + s),
        !grammar::float_literal(Seq::empty()),
        !grammar::float_literal(seq!['.']),
{
    reveal_strlit("inf");
    reveal_strlit("infinity");
    reveal_strlit("nan");
    assert(number::digit(s[0]) && number::digit(f[0]));
    let none = Seq::<char>::empty();
    lemma_digit_run(s, none);
    assert(s + none =~= s);
    lemma_digit_run(s, seq!['.'] + f);
    assert(s + (seq!['.'] + f) =~= s + seq!['.'] + f);
    assert((seq!['.'] + f).skip(1) =~= f);
    lemma_digit_run(f, none);
    assert(f + none =~= f);
    assert((s + seq!['.'] + f).skip(s.len() as int) =~= seq!['.'] + f);
    assert((seq!['.'] + f).skip(1 + f.len() as int) =~= none);
    assert(s.skip(s.len() as int) =~= none);
    lemma_digit_run(s, seq!['.']);
    assert(s + seq!['.'] =~= s.push('.'));
    assert(s.push('.').skip(s.len() as int) =~= seq!['.']);
    assert(seq!['.'].skip(1) =~= none);
    assert((seq!['.'] + f).skip(0) =~= seq!['.'] + f);
    assert((seq!['-'] + s).skip(1) =~= s);
    assert((seq!['+'] + s).skip(1) =~= s);
    assert(grammar::decimal_number(s));
    assert(text::lowered(none).len() == 0);
    assert(text::lowered(seq!['.']).len() == 1);
    assert(seq!['.'].skip(0) =~= seq!['.']);
    assert(none.skip(0) =~= none);
}

proof fn lemma_digit_run(s: Seq<char>, rest: Seq<char>)
    requires
        forall|i: int| 0 <= i < s.len() ==> number::digit(#[trigger] s[i]),
        rest.len() > 0 ==> !number::digit(rest[0]),
    ensures
        grammar::digit_run(s + rest) == s.len(),
    decreases s.len(),
{
    if s.len() == 0 {
        assert(s + rest =~= rest);
    } else {
        assert(number::digit(s[0]));
        assert((s + rest).skip(1) =~= s.skip(1) + rest);
        assert forall|i: int| 0 <= i < s.skip(1).len() implies number::digit(
            #[trigger] s.skip(1)[i],
        ) by {
            assert(number::digit(s[i + 1]));
        }
        lemma_digit_run(s.skip(1), rest);
    }
}

/// A rate limit starts with ten tokens and a refill of one in ten milliseconds, and counts with the
/// last of each of its options. It is a rule for each of many where its zone says so, with four
/// thousand buckets at most, else one for all that its pattern matches; without a zone it is refused.
pub proof fn law_rate_limits(t: Seq<char>, line: nat, w: Seq<Seq<char>>)
    ensures
        match grammar::limit_options(
            t,
            line,
            w,
            1,
            LimitV { tokens: 10, refill: RefillIntervalV::Millis(10), multi: None, single: None },
        ) {
            Ok(l) => {
                let r = grammar::limit_rule(t, line, w);
                &&& l.multi matches Some(kind) ==> r == Ok::<RuleV, FaultV>(
                    RuleV::Multi {
                        kind,
                        threads: 4,
                        max_buckets: 4000,
                        tokens: l.tokens,
                        refill: l.refill,
                        qty: 1,
                    },
                )
                &&& l.multi is None ==> (l.single matches Some(pattern) ==> r == Ok::<
                    RuleV,
                    FaultV,
                >(RuleV::Single { pattern, tokens: l.tokens, refill: l.refill, qty: 1 }))
                &&& l.multi is None && l.single is None ==> fails_with(
                    r,
                    "Invalid or missing zone in limit_req"@,
                )
            },
            Err(e) => grammar::limit_rule(t, line, w) == Err::<RuleV, FaultV>(e),
        },
{
}

/// The options of a rate limit are read one by one, in their order, up to the first fault.
pub proof fn law_options_of_rate_limits(
    t: Seq<char>,
    line: nat,
    w: Seq<Seq<char>>,
    i: int,
    l: LimitV,
)
    ensures
        i >= w.len() ==> grammar::limit_options(t, line, w, i, l) == Ok::<LimitV, FaultV>(l),
        i < w.len() ==> match grammar::limit_option(t, line, w[i], l) {
            Ok(l2) => grammar::limit_options(t, line, w, i, l) == grammar::limit_options(
                t,
                line,
                w,
                i + 1,
                l2,
            ),
            Err(e) => grammar::limit_options(t, line, w, i, l) == Err::<LimitV, FaultV>(e),
        },
{
}

proof fn lemma_location_words()
    ensures
        "deny"@ != "proxy_set_header"@ && "deny"@ != "add_header"@ && "deny"@
            != "proxy_hide_header"@,
        "deny"@ != "hide_header"@ && "deny"@ != "limit_req"@ && "deny"@ != "proxy_pass"@,
        "proxy_set_header"@ != "add_header"@ && "proxy_set_header"@ != "proxy_hide_header"@,
        "proxy_set_header"@ != "hide_header"@ && "proxy_set_header"@ != "limit_req"@,
        "proxy_set_header"@ != "proxy_pass"@ && "add_header"@ != "proxy_hide_header"@,
        "add_header"@ != "hide_header"@ && "add_header"@ != "limit_req"@,
        "add_header"@ != "proxy_pass"@ && "proxy_hide_header"@ != "hide_header"@,
        "proxy_hide_header"@ != "limit_req"@ && "proxy_hide_header"@ != "proxy_pass"@,
        "hide_header"@ != "limit_req"@ && "hide_header"@ != "proxy_pass"@,
        "limit_req"@ != "proxy_pass"@,
{
    reveal_strlit("deny");
    reveal_strlit("proxy_set_header");
    reveal_strlit("add_header");
    reveal_strlit("proxy_hide_header");
    reveal_strlit("hide_header");
    reveal_strlit("limit_req");
    reveal_strlit("proxy_pass");
    assert("deny"@.len() == 4 && "proxy_set_header"@.len() == 16 && "add_header"@.len() == 10);
    assert("proxy_hide_header"@.len() == 17 && "hide_header"@.len() == 11);
    assert("limit_req"@.len() == 9 && "proxy_pass"@.len() == 10);
    assert("add_header"@[0] != "proxy_pass"@[0]);
}

/// What each directive of a `location` block adds, and where: address ranges that are refused, header
/// fields that are set or removed on the way to the backend or on the way back, rate limits. Each is
/// added behind those before it, and nothing else changes.
pub proof fn law_location_directives(t: Seq<char>, pos: nat, l: LocationV, v: Seq<char>)
    requires
        words_at(t, pos).len() >= 1,
        unquoted(v),
    ensures
        ({
            let w = words_at(t, pos);
            let r = grammar::location_directive(t, pos, l);
            let set = map![
                "kind"@ => "upsert-header"@,
                "key"@ => w[1],
                "value"@ => v,
            ];
            let hide = map!["kind"@ => "remove-header-key-regex"@, "pattern"@ => w[1]];
            let valued = w.len() >= 2;
            let is_v = w.len() >= 3 && (w[2] == v || w[2] == in_quotes(v));
            let on_request = |f: SettingsV|
                Ok::<LocationV, FaultV>(
                    LocationV {
                        path: PathControlV {
                            upstream_request_filters: l.path.upstream_request_filters.push(f),
                            request_filters: l.path.request_filters,
                            upstream_response_filters: l.path.upstream_response_filters,
                        },
                        rules: l.rules,
                    },
                );
            let on_response = |f: SettingsV|
                Ok::<LocationV, FaultV>(
                    LocationV {
                        path: PathControlV {
                            upstream_response_filters: l.path.upstream_response_filters.push(f),
                            request_filters: l.path.request_filters,
                            upstream_request_filters: l.path.upstream_request_filters,
                        },
                        rules: l.rules,
                    },
                );
            &&& valued && w[0] == "deny"@ ==> r == Ok::<LocationV, FaultV>(
                LocationV {
                    path: PathControlV {
                        request_filters: l.path.request_filters.push(
                            map!["kind"@ => "block-cidr-range"@, "addrs"@ => w[1]],
                        ),
                        upstream_request_filters: l.path.upstream_request_filters,
                        upstream_response_filters: l.path.upstream_response_filters,
                    },
                    rules: l.rules,
                },
            )
            &&& w[0] == "proxy_set_header"@ && is_v ==> r == on_request(set)
            &&& w[0] == "add_header"@ && is_v ==> r == on_response(set)
            &&& valued && w[0] == "proxy_hide_header"@ ==> r == on_request(hide)
            &&& valued && w[0] == "hide_header"@ ==> r == on_response(hide)
            &&& valued && w[0] == "proxy_pass"@ ==> r == on_request(
                map!["kind"@ => "proxy_pass"@, "value"@ => w[1]],
            )
            &&& w[0] == "limit_req"@ ==> match grammar::limit_rule(t, grammar::number_at(t, pos), w) {
                Ok(rule) => r == Ok::<LocationV, FaultV>(
                    LocationV { path: l.path, rules: l.rules.push(rule) },
                ),
                Err(e) => r == Err::<LocationV, FaultV>(e),
            }
            &&& !valued && (w[0] == "deny"@ || w[0] == "proxy_hide_header"@ || w[0] == "hide_header"@
                || w[0] == "proxy_pass"@) ==> fails_with(r, "Missing value for "@ + w[0])
            &&& !valued && w[0] == "proxy_set_header"@ ==> fails_with(
                r,
                "Missing value for "@ + "proxy_set_header key"@,
            )
            &&& w.len() == 2 && w[0] == "proxy_set_header"@ ==> fails_with(
                r,
                "Missing value for "@ + "proxy_set_header value"@,
            )
            &&& !valued && w[0] == "add_header"@ ==> fails_with(
                r,
                "Missing value for "@ + "add_header key"@,
            )
            &&& w.len() == 2 && w[0] == "add_header"@ ==> fails_with(
                r,
                "Missing value for "@ + "add_header value"@,
            )
            &&& w[0] != "deny"@ && w[0] != "proxy_set_header"@ && w[0] != "add_header"@ && w[0]
                != "proxy_hide_header"@ && w[0] != "hide_header"@ && w[0] != "limit_req"@ && w[0]
                != "proxy_pass"@ ==> fails_with(r, "Unknown location directive"@)
        }),
{
    lemma_location_words();
    lemma_quotes(v);
    let w = words_at(t, pos);
    let none = Map::<Seq<char>, Seq<char>>::empty();
    assert(grammar::filter_one("block-cidr-range"@, "addrs"@, w[1]) =~= map![
        "kind"@ => "block-cidr-range"@,
        "addrs"@ => w[1],
    ]);
    assert(grammar::filter_one("remove-header-key-regex"@, "pattern"@, w[1]) =~= map![
        "kind"@ => "remove-header-key-regex"@,
        "pattern"@ => w[1],
    ]);
    assert(grammar::filter_one("proxy_pass"@, "value"@, w[1]) =~= map![
        "kind"@ => "proxy_pass"@,
        "value"@ => w[1],
    ]);
    assert(grammar::filter_upsert(w[1], v) =~= map![
        "kind"@ => "upsert-header"@,
        "key"@ => w[1],
        "value"@ => v,
    ]);
}

proof fn lemma_server_words()
    ensures
        "server_name"@ != "listen"@ && "server_name"@ != "upstream"@,
        "server_name"@ != "proxy_pass"@ && "server_name"@ != "location"@,
        "server_name"@ != "root"@ && "server_name"@ != "cache"@ && "listen"@ != "upstream"@,
        "listen"@ != "proxy_pass"@ && "listen"@ != "location"@ && "listen"@ != "root"@,
        "listen"@ != "cache"@ && "upstream"@ != "proxy_pass"@ && "upstream"@ != "location"@,
        "upstream"@ != "root"@ && "upstream"@ != "cache"@ && "proxy_pass"@ != "location"@,
        "proxy_pass"@ != "root"@ && "proxy_pass"@ != "cache"@ && "location"@ != "root"@,
        "location"@ != "cache"@ && "root"@ != "cache"@,
{
    reveal_strlit("server_name");
    reveal_strlit("listen");
    reveal_strlit("upstream");
    reveal_strlit("proxy_pass");
    reveal_strlit("location");
    reveal_strlit("root");
    reveal_strlit("cache");
    assert("server_name"@.len() == 11 && "listen"@.len() == 6 && "upstream"@.len() == 8);
    assert("proxy_pass"@.len() == 10 && "location"@.len() == 8 && "root"@.len() == 4);
    assert("cache"@.len() == 5 && "upstream"@[0] != "location"@[0]);
}

/// What the directives of a `server` block that stand on one line set: the name, one more listener,
/// the directory of files, or where requests go. An address with a scheme is kept as it is; any other
/// name has to be that of a group that is known, whose backends are added and whose ways to pick one
/// are taken. Nothing else changes.
pub proof fn law_server_directives(
    t: Seq<char>,
    pos: nat,
    d: DraftV,
    ups: Map<Seq<char>, UpstreamV>,
    v: Seq<char>,
)
    requires
        words_at(t, pos).len() >= 1,
        unquoted(v),
    ensures
        ({
            let w = words_at(t, pos);
            let r = grammar::server_directive(t, pos, d, ups);
            let valued = w.len() >= 2;
            let url = (exists|x: Seq<char>| w[1] == #[trigger] ("http://"@ + x)) || (exists|
                x: Seq<char>,
            |
                w[1] == #[trigger] ("https://"@ + x));
            &&& valued && w[0] == "server_name"@ ==> r == Ok::<(DraftV, nat), FaultV>(
                (DraftV { name: w[1], ..d }, pos + 1),
            )
            &&& w[0] == "listen"@ ==> match grammar::listener(t, pos) {
                Ok(l) => r == Ok::<(DraftV, nat), FaultV>(
                    (DraftV { listeners: d.listeners.push(l), ..d }, pos + 1),
                ),
                Err(e) => r == Err::<(DraftV, nat), FaultV>(e),
            }
            &&& valued && w[0] == "root"@ && (w[1] == v || w[1] == in_quotes(v)) ==> r == Ok::<
                (DraftV, nat),
                FaultV,
            >((DraftV { base_path: Some(v), ..d }, pos + 1))
            &&& valued && w[0] == "proxy_pass"@ && url ==> r == Ok::<(DraftV, nat), FaultV>(
                (DraftV { proxy_pass: Some(w[1]), ..d }, pos + 1),
            )
            &&& valued && w[0] == "proxy_pass"@ && !url && ups.dom().contains(w[1]) ==> r == Ok::<
                (DraftV, nat),
                FaultV,
            >(
                (
                    DraftV {
                        upstream: UpstreamV {
                            peers: d.upstream.peers + ups[w[1]].peers,
                            options: ups[w[1]].options,
                        },
                        proxy_pass: Some(w[1]),
                        ..d
                    },
                    pos + 1,
                ),
            )
            &&& valued && w[0] == "proxy_pass"@ && !url && !ups.dom().contains(w[1]) ==> fails_with(
                r,
                "Unknown upstream reference"@,
            )
            &&& !valued && (w[0] == "server_name"@ || w[0] == "root"@ || w[0] == "proxy_pass"@)
                ==> fails_with(r, "Missing value for "@ + w[0])
            &&& w[0] != "server_name"@ && w[0] != "listen"@ && w[0] != "upstream"@ && w[0]
                != "proxy_pass"@ && w[0] != "location"@ && w[0] != "root"@ && w[0] != "cache"@
                ==> fails_with(r, "Unknown server directive"@)
        }),
{
    lemma_server_words();
    lemma_quotes(v);
    texts::law_prefix(words_at(t, pos)[1], "http://"@);
    texts::law_prefix(words_at(t, pos)[1], "https://"@);
}

/// The blocks inside a `server` block: a location adds to what the locations before it gave, and a
/// cache block to the cache settings; both leave all else as it is.
pub proof fn law_blocks_of_servers(
    t: Seq<char>,
    pos: nat,
    d: DraftV,
    ups: Map<Seq<char>, UpstreamV>,
)
    requires
        words_at(t, pos).len() >= 1,
    ensures
        ({
            let w = words_at(t, pos);
            let line = grammar::line_at(t, pos);
            let r = grammar::server_directive(t, pos, d, ups);
            &&& w[0] == "location"@ && w.len() >= 2 && text::has_suffix(text::trimmed(line), "{"@)
                ==> match grammar::location_lines(t, pos + 1, d.location) {
                Ok((l, next)) => r == Ok::<(DraftV, nat), FaultV>(
                    (DraftV { location: l, ..d }, next),
                ),
                Err(e) => r == Err::<(DraftV, nat), FaultV>(e),
            }
            &&& w[0] == "location"@ && !(w.len() >= 2 && text::has_suffix(
                text::trimmed(line),
                "{"@,
            )) ==> fails_with(r, "Invalid location directive"@)
            &&& w[0] == "cache"@ && text::has_suffix(line, "{"@) ==> match grammar::cache_block(
                t,
                pos + 1,
                d.cache,
            ) {
                Ok((k, next)) => r == Ok::<(DraftV, nat), FaultV>((DraftV { cache: k, ..d }, next)),
                Err(e) => r == Err::<(DraftV, nat), FaultV>(e),
            }
            &&& w[0] == "cache"@ && !text::has_suffix(line, "{"@) ==> fails_with(r, "Expected '{'"@)
            &&& w[0] == "upstream"@ && !grammar::single_line(line) && !text::has_suffix(line, "{"@)
                ==> fails_with(r, "Expected '{'"@)
            &&& w[0] == "upstream"@ && !grammar::single_line(line) && text::has_suffix(line, "{"@)
                ==> match grammar::upstream_block(t, pos + 1, UpstreamV::initial()) {
                Ok((u, next)) => r == Ok::<(DraftV, nat), FaultV>(
                    (
                        DraftV {
                            upstream: UpstreamV {
                                peers: d.upstream.peers + u.peers,
                                options: u.options,
                            },
                            ..d
                        },
                        next,
                    ),
                ),
                Err(e) => r == Err::<(DraftV, nat), FaultV>(e),
            }
        }),
{
    lemma_server_words();
}

/// A group that stands on one line with its braces has one backend, without TLS; it is added behind
/// those before it, and how one is picked stays.
pub proof fn law_groups_on_one_line(
    t: Seq<char>,
    pos: nat,
    d: DraftV,
    ups: Map<Seq<char>, UpstreamV>,
    head: Seq<char>,
    inner: Seq<char>,
    addr: Seq<char>,
    semicolons: Seq<char>,
)
    requires
        words_at(t, pos).len() >= 1,
        words_at(t, pos)[0] == "upstream"@,
        !head.contains('{'),
        grammar::line_at(t, pos) == head.push('{') + inner + seq!['}'],
    ensures
        text::words(text::trimmed(inner)) == seq!["server"@, addr + semicolons] && texts::run_of(
            semicolons,
            ';',
        ) && (addr.len() > 0 ==> addr.last() != ';') ==> grammar::server_directive(t, pos, d, ups) == Ok::<(DraftV, nat), FaultV>(
            (
                DraftV {
                    upstream: UpstreamV {
                        peers: d.upstream.peers.push(
                            HttpPeerV {
                                address: addr,
                                tls: false,
                                sni: Seq::empty(),
                                alpn: ALPN::H1,
                            },
                        ),
                        options: d.upstream.options,
                    },
                    ..d
                },
                pos + 1,
            ),
        ),
        text::words(text::trimmed(inner)).len() < 2 || text::words(text::trimmed(inner))[0]
            != "server"@ ==> fails_with(
            grammar::server_directive(t, pos, d, ups),
            "Invalid single-line upstream directive"@,
        ),
{
    lemma_server_words();
    reveal_strlit("}");
    let line = grammar::line_at(t, pos);
    assert(line.skip(line.len() - 1) =~= "}"@);
    assert(line[head.len() as int] == '{');
    texts::law_before_a_character(head, '{', inner + seq!['}']);
    assert(head.push('{') + (inner + seq!['}']) =~= line);
    assert(line.subrange(head.len() as int + 1, line.len() - 1) =~= inner);
    if texts::run_of(semicolons, ';') && (addr.len() > 0 ==> addr.last() != ';') {
        texts::law_trimming_a_character_at_the_end(addr, semicolons, ';');
    }
}

/// A missing value is a fault on its line, as long as the words of the directive with one space
/// between them; a value of the wrong kind is one as long as the word. A block without its brace is
/// one at the last byte of its line.
pub proof fn law_extent_of_faults(
    t: Seq<char>,
    w: Seq<Seq<char>>,
    line: nat,
    directive: Seq<char>,
    pos: nat,
    more: Seq<char>,
)
    requires
        line > 0,
        grammar::offset_before(text::lines_of(t), line - 1) <= usize::MAX,
        grammar::offset_before(text::lines_of(t), grammar::number_at(t, pos) - 1) + text::byte_len(
            grammar::line_at(t, pos),
        ) <= usize::MAX,
    ensures
        grammar::missing(t, w, line, directive) matches FaultV::Error(e) && e.line == line && e.offset
            == grammar::offset_before(text::lines_of(t), line - 1) && e.len == text::byte_len(
            grammar::spaced(w),
        ) && e.source_code == t,
        grammar::invalid(t, more, line, directive) matches FaultV::Error(e) && e.line == line
            && e.offset == grammar::offset_before(text::lines_of(t), line - 1) && e.len
            == text::byte_len(more) && e.source_code == t,
        text::byte_len(grammar::line_at(t, pos)) > 0 ==> (grammar::brace_error(t, pos)
            matches FaultV::Error(e) && e.line == grammar::number_at(t, pos) && e.offset
            == grammar::offset_before(text::lines_of(t), grammar::number_at(t, pos) - 1)
            + text::byte_len(grammar::line_at(t, pos)) - 1 && e.len == 1 && e.source_code == t
            && e.message == "Expected '{'"@),
        grammar::spaced(seq![more]) == more,
        w.len() > 0 ==> grammar::spaced(w.push(more)) == grammar::spaced(w) + " "@ + more,
{
    assert(w.push(more).drop_last() =~= w);
}

/// A place that is beyond what a machine word holds is told as the largest one.
pub proof fn law_places_beyond_machine_words(n: nat)
    ensures
        n <= usize::MAX ==> grammar::capped(n) == n,
        n > usize::MAX ==> grammar::capped(n) == usize::MAX,
{
}

/// A line is that of a whole group exactly if it holds an opening brace and ends with a closing one.
pub proof fn law_lines_of_whole_groups(line: Seq<char>)
    ensures
        grammar::single_line(line) <==> line.contains('{') && line.len() > 0 && line.last() == '}',
{
    reveal_strlit("}");
    if line.len() > 0 {
        assert(line.skip(line.len() - 1) =~= seq![line.last()]);
        assert("}"@ =~= seq!['}']);
        assert(seq![line.last()][0] == line.last());
        assert("}"@[0] == '}');
    }
}

/// A directive without a word is a fault.
pub proof fn law_directives_without_words(
    t: Seq<char>,
    pos: nat,
    c: ConfigV,
    k: CacheV,
    u: UpstreamV,
    l: LocationV,
    d: DraftV,
    ups: Map<Seq<char>, UpstreamV>,
)
    requires
        words_at(t, pos).len() == 0,
    ensures
        grammar::system_directive(t, pos, c) == Err::<ConfigV, FaultV>(FaultV::EmptyDirective),
        fails_with(grammar::cache_directive(t, pos, k), "Empty directive in cache block"@),
        fails_with(grammar::upstream_directive(t, pos, u), "Empty directive in upstream block"@),
        grammar::location_directive(t, pos, l) == Err::<LocationV, FaultV>(FaultV::EmptyDirective),
        grammar::server_directive(t, pos, d, ups) == Err::<(DraftV, nat), FaultV>(
            FaultV::EmptyDirective,
        ),
{
}

/// Words of a rate limit that start with none of its options change nothing, nor does a rate that is
/// neither per second nor per minute.
pub proof fn law_other_words_of_rate_limits(t: Seq<char>, line: nat, word: Seq<char>, l: LimitV)
    ensures
        !text::has_prefix(word, "zone="@) && !text::has_prefix(word, "burst="@)
            && !text::has_prefix(word, "rate="@) ==> grammar::limit_option(t, line, word, l)
            == Ok::<LimitV, FaultV>(l),
        !text::has_suffix(text::without_prefixes(word, "rate="@), "r/s"@) && !text::has_suffix(
            text::without_prefixes(word, "rate="@),
            "r/m"@,
        ) ==> grammar::limit_rate(t, line, word, l) == Ok::<LimitV, FaultV>(l),
{
}

/// A text of digits alone, which may be empty.
pub open spec fn digits_only(s: Seq<char>) -> bool {
    forall|i: int| 0 <= i < s.len() ==> numbers::is_digit(#[trigger] s[i])
}

/// Nothing, or an exponent: the letter e, a sign or none, and digits.
pub open spec fn exponent_part(x: Seq<char>) -> bool {
    x.len() == 0 || ((x[0] == 'e' || x[0] == 'E') && exists|sign: Seq<char>, d: Seq<char>|
        (sign.len() == 0 || sign == seq!['+'] || sign == seq!['-']) && d.len() > 0 && digits_only(d)
            && x.skip(1) == #[trigger] (sign + d))
}

/// A number is made of digits with at most one point among or beside them, and of an exponent where
/// there is one; nothing else is a number.
pub proof fn law_decimal_numbers(u: Seq<char>)
    ensures
        grammar::decimal_number(u) <==> {
            ||| exists|a: Seq<char>, x: Seq<char>|
                a.len() > 0 && digits_only(a) && exponent_part(x) && u == #[trigger] (a + x)
            ||| exists|a: Seq<char>, f: Seq<char>, x: Seq<char>|
                a.len() + f.len() > 0 && digits_only(a) && digits_only(f) && exponent_part(x) && u
                    == #[trigger] (a + seq!['.'] + f + x)
        },
{
    lemma_run(u);
    let n = grammar::digit_run(u);
    let rest = u.skip(n);
    if grammar::decimal_number(u) {
        if rest.len() > 0 && rest[0] == '.' {
            lemma_run(rest.skip(1));
            let m = grammar::digit_run(rest.skip(1));
            let x = rest.skip(1 + m);
            assert(u =~= u.take(n) + seq!['.'] + rest.skip(1).take(m) + x);
            lemma_exponent(x);
        } else {
            assert(u =~= u.take(n) + rest);
            lemma_exponent(rest);
        }
    }
    if exists|a: Seq<char>, x: Seq<char>|
        a.len() > 0 && digits_only(a) && exponent_part(x) && u == #[trigger] (a + x) {
        let (a, x) = choose|a: Seq<char>, x: Seq<char>|
            a.len() > 0 && digits_only(a) && exponent_part(x) && u == #[trigger] (a + x);
        lemma_exponent(x);
        lemma_digit_run(a, x);
        assert(u.skip(a.len() as int) =~= x);
    }
    if exists|a: Seq<char>, f: Seq<char>, x: Seq<char>|
        a.len() + f.len() > 0 && digits_only(a) && digits_only(f) && exponent_part(x) && u
            == #[trigger] (a + seq!['.'] + f + x) {
        let (a, f, x) = choose|a: Seq<char>, f: Seq<char>, x: Seq<char>|
            a.len() + f.len() > 0 && digits_only(a) && digits_only(f) && exponent_part(x) && u
                == #[trigger] (a + seq!['.'] + f + x);
        lemma_exponent(x);
        let tail = seq!['.'] + f + x;
        assert(u =~= a + tail);
        lemma_digit_run(a, tail);
        assert(u.skip(a.len() as int) =~= tail);
        assert(tail.skip(1) =~= f + x);
        lemma_digit_run(f, x);
        assert(tail.skip(1 + f.len() as int) =~= x);
    }
}

proof fn lemma_run(s: Seq<char>)
    ensures
        0 <= grammar::digit_run(s) <= s.len(),
        digits_only(s.take(grammar::digit_run(s))),
    decreases s.len(),
{
    if s.len() > 0 && number::digit(s[0]) {
        lemma_run(s.skip(1));
        let n = grammar::digit_run(s);
        assert forall|i: int| 0 <= i < n implies numbers::is_digit(#[trigger] s.take(n)[i]) by {
            if i > 0 {
                assert(s.skip(1).take(n - 1)[i - 1] == s[i]);
            }
        }
    }
}

proof fn lemma_exponent(x: Seq<char>)
    ensures
        exponent_part(x) <==> x.len() == 0 || grammar::exponent(x),
        exponent_part(x) && x.len() > 0 ==> !number::digit(x[0]) && x[0] != '.',
{
    if x.len() > 0 {
        let y = x.skip(1);
        if grammar::exponent(x) {
            let d = grammar::unsigned_part(y);
            let sign = y.take(y.len() - d.len());
            assert(y =~= sign + d);
            if y.len() > d.len() {
                assert(sign =~= seq![y[0]]);
            }
            assert forall|i: int| 0 <= i < d.len() implies numbers::is_digit(#[trigger] d[i]) by {
                assert(number::digit(d[i]));
            }
        }
        if exponent_part(x) {
            let (sign, d) = choose|sign: Seq<char>, d: Seq<char>|
                (sign.len() == 0 || sign == seq!['+'] || sign == seq!['-']) && d.len() > 0
                    && digits_only(d) && y == #[trigger] (sign + d);
            assert(numbers::is_digit(d[0]));
            assert(y.skip(sign.len() as int) =~= d);
            if sign.len() == 0 {
                assert(y =~= d);
            }
            assert forall|i: int| 0 <= i < d.len() implies number::digit(#[trigger] d[i]) by {
                assert(numbers::is_digit(d[i]));
            }
        }
    }
}

/// A literal is a number, infinity or what is not a number, in any case, behind a sign or without
/// one.
pub proof fn law_signs_of_literals(u: Seq<char>)
    ensures
        ({
            let known = grammar::decimal_number(u) || text::lowered(u) == "inf"@ || text::lowered(u)
                == "infinity"@ || text::lowered(u) == "nan"@;
            &&& grammar::float_literal(seq!['+'] + u) <==> known
            &&& grammar::float_literal(seq!['-'] + u) <==> known
            &&& u.len() == 0 || (u[0] != '+' && u[0] != '-') ==> (grammar::float_literal(u)
                <==> known)
        }),
{
    assert((seq!['+'] + u).skip(1) =~= u);
    assert((seq!['-'] + u).skip(1) =~= u);
}

} // verus!
