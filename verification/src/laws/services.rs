//! Laws on what is made of a configuration: listeners, rate limits, caches and filters, and on what
//! the access log tells.
use crate::clock::Instant;
use crate::config;
use crate::config::internal::{ConfigV, ListenerV, PathControlV, ProxyV, SettingsV, TlsV};
use crate::config::listeners;
use crate::config::listeners::ListenerActionV;
use crate::config::{Cli, ConfigSource, Contradiction};
use crate::logging;
use crate::logging::{AccessV, LogEntry, WriterV};
use crate::number;
use crate::path;
use crate::proxy::cache;
use crate::proxy::compression;
use crate::proxy::compression::CompressionStrategy;
use crate::proxy::context::StryvoContext;
use crate::proxy::header_utils;
use crate::proxy::headers;
use crate::proxy::headers::Fields;
use crate::proxy::modifiers;
use crate::proxy::modifiers::ModifiersV;
use crate::proxy::pipeline;
use crate::proxy::pipeline::FilterStepV;
use crate::proxy::rate_limiting;
use crate::proxy::rate_limiting::{MultiKindV, RuleV};
use crate::proxy::request_modifiers;
use crate::proxy::request_modifiers::ModifierV;
use crate::proxy::service;
use crate::proxy::service::{RequestStage, ServicePlan};
use crate::views;
use pingora_http::RequestHeader;
use vstd::prelude::*;
use vstd::string::*;
use vstd::utf8::*;

verus! {

/// Each listener is opened on its own address: with its certificate and its key where it has them,
/// else without encryption, where HTTP/2 cannot be offered; or on its socket.
pub proof fn law_listeners(addr: Seq<char>, t: TlsV, h2: bool)
    ensures
        listeners::action_of(ListenerV::Tcp { addr, tls: Some(t), offer_h2: h2 }) == Ok::<
            ListenerActionV,
            Seq<char>,
        >(
            ListenerActionV::Tls {
                addr,
                cert_path: t.cert_path,
                key_path: t.key_path,
                offer_h2: h2,
            },
        ),
        listeners::action_of(ListenerV::Tcp { addr, tls: None, offer_h2: false }) == Ok::<
            ListenerActionV,
            Seq<char>,
        >(ListenerActionV::Tcp { addr }),
        listeners::action_of(ListenerV::Tcp { addr, tls: None, offer_h2: true }) == Err::<
            ListenerActionV,
            Seq<char>,
        >(addr),
        listeners::action_of(ListenerV::Uds(addr)) == Ok::<ListenerActionV, Seq<char>>(
            ListenerActionV::Uds { path: addr },
        ),
{
}

/// The rules of a proxy are kept apart by how many buckets they have; each kind keeps all of its
/// rules, in their order.
pub proof fn law_rules_by_buckets(rules: Seq<RuleV>)
    ensures
        service::multi_rules(rules) == rules.filter(|r: RuleV| r is Multi),
        service::single_rules(rules) == rules.filter(|r: RuleV| r is Single),
    decreases rules.len(),
{
    reveal(Seq::filter);
    if rules.len() > 0 {
        law_rules_by_buckets(rules.drop_last());
    }
}

/// The cache of a proxy lies in a directory of its own, below the one that is given or else below
/// that for temporary files; it has as many shards as are given, or else 32, room for 8192 entries,
/// the time to live and the limit that are given, and its metadata are written every five seconds.
pub proof fn law_caches_of_proxies(p: ProxyV)
    ensures
        ({
            let s = service::cache_settings_of(p);
            let k = service::persistence_of(p);
            &&& s.cache_dir == (match p.cache.dir {
                Some(dir) => path::joined(dir, p.name),
                None => "/tmp/stryvo-cache/"@ + p.name,
            })
            &&& s.shard_count == (match p.cache.shard_count {
                Some(n) => n,
                None => 32,
            })
            &&& s.capacity == 8192
            &&& s.compression == CompressionStrategy::Auto
            &&& s.ttl == p.cache.ttl
            &&& s.max_file_size == p.cache.max_file_size
            &&& s.persistence == Some(k)
            &&& k.cache_dir == s.cache_dir
            &&& k.metadata_dir == path::joined(s.cache_dir, "metadata"@)
            &&& k.metadata_sync_interval == 5
            &&& k.shard_count == s.shard_count
        }),
{
}

/// Two proxies whose names differ and do not start at the root never share a cache directory, where
/// they are given the same one or none.
pub proof fn law_caches_are_apart(p: ProxyV, q: ProxyV)
    requires
        p.name != q.name,
        p.cache.dir == q.cache.dir,
        p.name.len() > 0 && p.name[0] != '/',
        q.name.len() > 0 && q.name[0] != '/',
    ensures
        service::cache_dir_of(p) != service::cache_dir_of(q),
{
    if service::cache_dir_of(p) == service::cache_dir_of(q) {
        let front = match p.cache.dir {
            Some(dir) => if dir.len() == 0 || dir.last() == '/' {
                dir
            } else {
                dir + seq!['/']
            },
            None => "/tmp/stryvo-cache/"@,
        };
        assert(service::cache_dir_of(p) == front + p.name);
        assert(service::cache_dir_of(q) == front + q.name);
        assert((front + p.name).skip(front.len() as int) =~= p.name);
        assert((front + q.name).skip(front.len() as int) =~= q.name);
    }
}

/// The stages come in their order: the cache, then the rate limits, then the filters; what is decided
/// stays decided.
pub proof fn law_order_of_the_stages(answered: bool, decided: bool)
    ensures
        service::stage_after(RequestStage::Cache, false) == RequestStage::RateLimits,
        service::stage_after(RequestStage::RateLimits, false) == RequestStage::Filters,
        service::stage_after(RequestStage::Filters, answered) == RequestStage::Decided(answered),
        service::stage_after(RequestStage::Decided(decided), answered) == RequestStage::Decided(
            decided,
        ),
{
}

/// A list of filters is built one by one and in order; it is refused with what is wrong with the
/// first one that cannot be built.
pub proof fn law_filters_are_built_in_turn<T>(
    list: Seq<SettingsV>,
    s: SettingsV,
    make: spec_fn(SettingsV) -> Result<T, Seq<char>>,
)
    ensures
        modifiers::all_of(Seq::empty(), make) == Ok::<Seq<T>, Seq<char>>(Seq::empty()),
        modifiers::all_of(list.push(s), make) == match modifiers::all_of(list, make) {
            Ok(done) => match make(s) {
                Ok(x) => Ok::<Seq<T>, Seq<char>>(done.push(x)),
                Err(e) => Err::<Seq<T>, Seq<char>>(e),
            },
            Err(e) => Err::<Seq<T>, Seq<char>>(e),
        },
{
    assert(list.push(s).drop_last() =~= list);
}

/// Where all filters can be built, there is one for each settings, in their order.
pub proof fn law_each_filter_is_built(p: PathControlV, m: ModifiersV, i: int)
    requires
        modifiers::modifiers_of(p) == Ok::<ModifiersV, Seq<char>>(m),
    ensures
        m.request_filters.len() == p.request_filters.len(),
        m.upstream_request_filters.len() == p.upstream_request_filters.len(),
        m.upstream_response_filters.len() == p.upstream_response_filters.len(),
        0 <= i < p.request_filters.len() ==> modifiers::request_filter_of(p.request_filters[i])
            == Ok::<SettingsV, Seq<char>>(m.request_filters[i]),
        0 <= i < p.upstream_request_filters.len() ==> modifiers::request_modifier_of(
            p.upstream_request_filters[i],
        ) == Ok::<ModifierV, Seq<char>>(m.upstream_request_filters[i]),
        0 <= i < p.upstream_response_filters.len() ==> modifiers::response_modifier_of(
            p.upstream_response_filters[i],
        ) == Ok::<ModifierV, Seq<char>>(m.upstream_response_filters[i]),
{
    lemma_all_of(p.request_filters, |s: SettingsV| modifiers::request_filter_of(s), i);
    lemma_all_of(p.upstream_request_filters, |s: SettingsV| modifiers::request_modifier_of(s), i);
    lemma_all_of(p.upstream_response_filters, |s: SettingsV| modifiers::response_modifier_of(s), i);
}

proof fn lemma_all_of<T>(
    list: Seq<SettingsV>,
    make: spec_fn(SettingsV) -> Result<T, Seq<char>>,
    i: int,
)
    ensures
        modifiers::all_of(list, make) matches Ok(done) ==> done.len() == list.len() && (0 <= i
            < list.len() ==> make(list[i]) == Ok::<T, Seq<char>>(done[i])),
    decreases list.len(),
{
    if list.len() > 0 {
        lemma_all_of(list.drop_last(), make, i);
    }
}

proof fn lemma_kinds()
    ensures
        "upsert-header"@ != "remove-header-key-regex"@,
        "upsert-header"@ != "block-cidr-range"@,
        "remove-header-key-regex"@ != "block-cidr-range"@,
        "kind"@ != "key"@ && "kind"@ != "value"@ && "key"@ != "value"@ && "kind"@ != "pattern"@,
{
    reveal_strlit("upsert-header");
    reveal_strlit("remove-header-key-regex");
    reveal_strlit("block-cidr-range");
    reveal_strlit("kind");
    reveal_strlit("key");
    reveal_strlit("value");
    reveal_strlit("pattern");
    assert("upsert-header"@.len() == 13 && "remove-header-key-regex"@.len() == 23);
    assert("block-cidr-range"@.len() == 16 && "kind"@.len() == 4 && "key"@.len() == 3);
    assert("value"@.len() == 5 && "pattern"@.len() == 7);
}

/// Which filter each settings make: the kind says what it does, and the other settings with what.
pub proof fn law_filters_by_kind(
    s: SettingsV,
    key: Seq<char>,
    value: Seq<char>,
    missing: Seq<char>,
    unsupported: Seq<char>,
)
    ensures
        modifiers::modifier_of(
            map!["kind"@ => "upsert-header"@, "key"@ => key, "value"@ => value],
            missing,
            unsupported,
        ) == Ok::<ModifierV, Seq<char>>(ModifierV::UpsertHeader { key, value }),
        ({
            let r = modifiers::modifier_of(
                map!["kind"@ => "remove-header-key-regex"@, "pattern"@ => value],
                missing,
                unsupported,
            );
            match rate_limiting::regex_refusal(value) {
                None => r == Ok::<ModifierV, Seq<char>>(
                    ModifierV::RemoveHeaderKeyRegex { pattern: value },
                ),
                Some(_) => r == Err::<ModifierV, Seq<char>>("Error building regex"@),
            }
        }),
        modifiers::modifier_of(
            map!["kind"@ => "upsert-header"@, "key"@ => key],
            missing,
            unsupported,
        ) == Err::<ModifierV, Seq<char>>("Missing configuration field!"@),
        modifiers::modifier_of(
            map!["kind"@ => "remove-header-key-regex"@],
            missing,
            unsupported,
        ) == Err::<ModifierV, Seq<char>>("Missing configuration field!"@),
        !s.dom().contains("kind"@) ==> modifiers::modifier_of(s, missing, unsupported) == Err::<
            ModifierV,
            Seq<char>,
        >(missing),
        s.dom().contains("kind"@) && s["kind"@] != "upsert-header"@ && s["kind"@]
            != "remove-header-key-regex"@ ==> modifiers::modifier_of(s, missing, unsupported)
            == Err::<ModifierV, Seq<char>>(unsupported),
        modifiers::request_modifier_of(s) == modifiers::modifier_of(
            s,
            "Missing 'kind' field in upstream request filter"@,
            "Unsupported upstream request filter type"@,
        ),
        modifiers::response_modifier_of(s) == modifiers::modifier_of(
            s,
            "Missing 'kind' field in upstream response filter"@,
            "Unsupported upstream response filter type"@,
        ),
{
    lemma_kinds();
    let set = map!["kind"@ => "upsert-header"@, "key"@ => key, "value"@ => value];
    assert(set["kind"@] == "upsert-header"@);
    assert(set["key"@] == key && set["value"@] == value);
    let hide = map!["kind"@ => "remove-header-key-regex"@, "pattern"@ => value];
    assert(hide["kind"@] == "remove-header-key-regex"@ && hide["pattern"@] == value);
    assert(hide.remove("kind"@).remove("pattern"@) =~= Map::<Seq<char>, Seq<char>>::empty());
    let part = map!["kind"@ => "upsert-header"@, "key"@ => key];
    assert(part["kind"@] == "upsert-header"@);
    let bare = map!["kind"@ => "remove-header-key-regex"@];
    assert(bare["kind"@] == "remove-header-key-regex"@);
}

/// A filter that removes fields takes no settings but its pattern.
pub proof fn law_extra_settings_are_refused(s: SettingsV, extra: Seq<char>)
    requires
        s.dom().contains("pattern"@),
        rate_limiting::regex_refusal(s["pattern"@]) is None,
        s.dom().contains(extra),
        extra != "pattern"@,
    ensures
        request_modifiers::remove_header_of(s) == Err::<ModifierV, Seq<char>>(
            "Extra settings found!"@,
        ),
{
    assert(s.remove("pattern"@).dom().contains(extra));
    assert(!Map::<Seq<char>, Seq<char>>::empty().dom().contains(extra));
}

/// Requests are refused by address ranges alone; such a filter keeps all its settings but the kind.
pub proof fn law_request_filters_by_kind(s: SettingsV, name: Seq<char>)
    ensures
        !s.dom().contains("kind"@) ==> modifiers::request_filter_of(s) == Err::<
            SettingsV,
            Seq<char>,
        >("Missing 'kind' field in request filter"@),
        s.dom().contains("kind"@) && s["kind"@] != "block-cidr-range"@
            ==> modifiers::request_filter_of(s) == Err::<SettingsV, Seq<char>>(
            "Unsupported request filter type"@,
        ),
        s.dom().contains("kind"@) && s["kind"@] == "block-cidr-range"@ ==> (
        modifiers::request_filter_of(s) matches Ok(t) && !t.dom().contains("kind"@) && (name
            != "kind"@ ==> (t.dom().contains(name) <==> s.dom().contains(name)) && (
        s.dom().contains(name) ==> t[name] == s[name]))),
{
}

/// A line of the access log tells all there is to tell, each under its label and in one order.
pub proof fn law_access_lines(a: AccessV)
    ensures
        logging::access_line(a) == "timestamp="@ + a.timestamp + " method="@ + a.method + " uri="@
            + a.uri + " status="@ + number::decimal(a.status as nat) + " upstream="@ + a.upstream
            + " elapsed_ms="@ + number::decimal(a.elapsed_ms as nat) + " http_version="@
            + a.http_version + " user_agent="@ + a.user_agent + " referer="@ + a.referer
            + " cache="@ + a.cache_status,
{
}

/// An entry of the access log tells of its request, of the response, of the backend, and of the
/// cache.
pub proof fn law_log_entries(
    entry: LogEntry,
    req: RequestHeader,
    status: u16,
    ctx: StryvoContext,
    current: u128,
    cache_status: Seq<char>,
)
    requires
        pipeline::logs(entry, req, status, ctx, current, cache_status),
    ensures
        entry.method@ == headers::request_method(req),
        entry.uri@ == headers::request_uri(req),
        entry.http_version@ == headers::request_version(req),
        entry.status == status,
        entry.cache_status@ == cache_status,
        ctx.upstream_addr matches Some(a) ==> entry.upstream@ == a@,
        ctx.upstream_addr is None ==> entry.upstream@ == "unknown"@,
        ctx.selector_buf@.len() < 16 ==> entry.elapsed_ms == 0,
        ({
            let f = headers::request_fields(req);
            &&& headers::first_text(f, "user-agent"@) matches Some(t) ==> entry.user_agent@ == t
            &&& headers::first_text(f, "user-agent"@) is None ==> entry.user_agent@ == "unknown"@
            &&& headers::first_text(f, "referer"@) matches Some(t) ==> entry.referer@ == t
            &&& headers::first_text(f, "referer"@) is None ==> entry.referer@ == ""@
        }),
{
}

/// The log writer writes once it holds more than 32768 bytes, or once more than a tenth of a second
/// is over since it last wrote, and then all it holds; else it holds the message back, with a line
/// feed behind it.
pub proof fn law_when_logs_are_written(w: WriterV, content: Seq<char>, now: Instant)
    ensures
        ({
            let held = w.held + encode_utf8(content) + seq![10u8];
            let after = logging::after_message(w, content, now);
            if held.len() > 32768 || now.nanos - w.last_flush.nanos > 100_000_000 {
                after.written == w.written + held && after.held == Seq::<u8>::empty()
                    && after.last_flush == now
            } else {
                after.written == w.written && after.held == held && after.last_flush
                    == w.last_flush
            }
        }),
        logging::flush_due(w.held, w.last_flush, now) <==> w.held.len() > 32768 || now.nanos
            - w.last_flush.nanos > 100_000_000,
        logging::log_bytes(content) == encode_utf8(content) + seq![10u8],
{
    assert(logging::log_bytes(content) =~= encode_utf8(content) + seq![10u8]);
    assert(w.held + logging::log_bytes(content) =~= w.held + encode_utf8(content) + seq![10u8]);
}

/// A response gets its cache fields first, then the encoding that suits the client, and then what the
/// filters make of it.
pub proof fn law_stages_of_responses(
    f: Fields,
    status: Seq<char>,
    enabled: bool,
    ttl: Option<u64>,
    accept: Option<Seq<char>>,
    m: ModifiersV,
    name: Seq<char>,
)
    requires
        m.upstream_response_filters.len() == 0,
        headers::valid_value(encode_utf8(status)),
        name != "x-cache"@ && name != "server"@ && name != "cache-control"@ && name != "pragma"@,
        name != "content-encoding"@ && name != "content-length"@ && name != "transfer-encoding"@,
    ensures
        ({
            let g = service::final_fields(f, status, enabled, ttl, accept, m);
            &&& headers::values_at(g, name) == headers::values_at(f, name)
            &&& headers::values_at(g, "x-cache"@) == seq![encode_utf8(status)]
            &&& headers::values_at(g, "server"@) == seq![encode_utf8("Stryvo"@)]
            &&& compression::compressible(f) ==> (compression::preferred(accept) matches Some(e)
                ==> headers::values_at(g, "content-encoding"@) == seq![encode_utf8(e.name())])
            &&& !compression::compressible(f) || compression::preferred(accept) is None
                ==> headers::values_at(g, "content-encoding"@) == headers::values_at(
                f,
                "content-encoding"@,
            )
        }),
{
    headers::lemma_own_names();
    lemma_field_names();
    let g = header_utils::cache_fields(f, status, enabled, ttl);
    assert(g.dom().contains("content-encoding"@) == f.dom().contains("content-encoding"@));
    assert(headers::first_text(g, "content-type"@) == headers::first_text(f, "content-type"@));
    assert(compression::compressible(g) == compression::compressible(f));
    lemma_preferred_is_no_identity(accept);
}

proof fn lemma_preferred_is_no_identity(accept: Option<Seq<char>>)
    ensures
        compression::preferred(accept) matches Some(e) ==> e
            != compression::CompressionEncoding::Identity,
{
}

/// The filters of a response see it with its cache fields and its encoding, and what they make of it
/// is sent.
pub proof fn law_filters_come_last(
    f: Fields,
    status: Seq<char>,
    enabled: bool,
    ttl: Option<u64>,
    accept: Option<Seq<char>>,
    m: ModifiersV,
    none: ModifiersV,
)
    requires
        none.upstream_response_filters.len() == 0,
    ensures
        service::final_fields(f, status, enabled, ttl, accept, m) == modifiers::response_changes(
            m.upstream_response_filters,
            service::final_fields(f, status, enabled, ttl, accept, none),
        ),
        cache::filtered_fields(f, status, m.upstream_response_filters)
            == modifiers::response_changes(
            m.upstream_response_filters,
            cache::filtered_fields(f, status, none.upstream_response_filters),
        ),
{
}

/// The caching service puts the cache status in place of any other, and names the encoding that suits
/// the client behind those that are there; no other field changes.
pub proof fn law_responses_of_the_caching_service(
    f: Fields,
    status: Seq<char>,
    accept: Option<Seq<char>>,
    none: Seq<ModifierV>,
    name: Seq<char>,
)
    requires
        none.len() == 0,
        headers::valid_value(encode_utf8(status)),
    ensures
        headers::values_at(cache::filtered_fields(f, status, none), "x-cache"@) == seq![
            encode_utf8(status),
        ],
        name != "x-cache"@ ==> headers::values_at(cache::filtered_fields(f, status, none), name)
            == headers::values_at(f, name),
        compression::preferred(accept) is None ==> cache::encoded_fields(f, accept) == f,
        compression::preferred(accept) matches Some(e) ==> headers::values_at(
            cache::encoded_fields(f, accept),
            "content-encoding"@,
        ) == headers::values_at(f, "content-encoding"@).push(encode_utf8(e.name())),
        name != "content-encoding"@ ==> headers::values_at(cache::encoded_fields(f, accept), name)
            == headers::values_at(f, name),
{
    headers::lemma_own_names();
}

proof fn lemma_field_names()
    ensures
        "x-cache"@ != "server"@ && "x-cache"@ != "cache-control"@ && "x-cache"@ != "pragma"@,
        "x-cache"@ != "content-encoding"@ && "x-cache"@ != "content-length"@,
        "x-cache"@ != "transfer-encoding"@ && "x-cache"@ != "content-type"@,
        "server"@ != "cache-control"@ && "server"@ != "pragma"@ && "server"@ != "content-encoding"@,
        "server"@ != "content-length"@ && "server"@ != "transfer-encoding"@,
        "server"@ != "content-type"@ && "cache-control"@ != "pragma"@,
        "cache-control"@ != "content-encoding"@ && "cache-control"@ != "content-length"@,
        "cache-control"@ != "transfer-encoding"@ && "cache-control"@ != "content-type"@,
        "pragma"@ != "content-encoding"@ && "pragma"@ != "content-length"@,
        "pragma"@ != "transfer-encoding"@ && "pragma"@ != "content-type"@,
        "content-encoding"@ != "content-length"@ && "content-encoding"@ != "transfer-encoding"@,
        "content-encoding"@ != "content-type"@ && "content-length"@ != "transfer-encoding"@,
        "content-length"@ != "content-type"@ && "transfer-encoding"@ != "content-type"@,
{
    reveal_strlit("x-cache");
    reveal_strlit("server");
    reveal_strlit("cache-control");
    reveal_strlit("pragma");
    reveal_strlit("content-encoding");
    reveal_strlit("content-length");
    reveal_strlit("transfer-encoding");
    reveal_strlit("content-type");
    assert("x-cache"@.len() == 7 && "server"@.len() == 6 && "cache-control"@.len() == 13);
    assert("pragma"@.len() == 6 && "content-encoding"@.len() == 16);
    assert("content-length"@.len() == 14 && "transfer-encoding"@.len() == 17);
    assert("content-type"@.len() == 12);
    assert("server"@[0] != "pragma"@[0]);
}

/// A configuration comes from the one file that is named, or from none where none is; more than one
/// are too many.
pub proof fn law_sources(toml: bool, kdl: bool, nginx: bool)
    ensures
        ({
            let r = config::source_of(toml, kdl, nginx);
            let more = (toml && kdl) || (toml && nginx) || (kdl && nginx);
            &&& more ==> r == Err::<ConfigSource, Seq<char>>(
                "Too many configuration options selected!"@,
            )
            &&& !more && toml ==> r == Ok::<ConfigSource, Seq<char>>(ConfigSource::Toml)
            &&& !more && kdl ==> r == Ok::<ConfigSource, Seq<char>>(ConfigSource::Kdl)
            &&& !more && nginx ==> r == Ok::<ConfigSource, Seq<char>>(ConfigSource::Nginx)
            &&& !toml && !kdl && !nginx ==> r == Ok::<ConfigSource, Seq<char>>(
                ConfigSource::Defaults,
            )
        }),
{
}

/// The command line contradicts a configuration exactly where both give a file for the process, or
/// both a socket, and these are not the same path; the first of the two is told.
pub proof fn law_contradictions(cli: Cli, c: ConfigV)
    ensures
        ({
            let pid = cli.pidfile matches Some(x) && (c.pid_file matches Some(y)
                && !path::same_path(x@, y));
            let socket = cli.upgrade_socket matches Some(x) && (c.upgrade_socket matches Some(y)
                && !path::same_path(x@, y));
            &&& config::contradicts(cli, c) <==> pid || socket
            &&& config::contradiction(cli, c) == Some(Contradiction::PidFile) <==> pid
            &&& config::contradiction(cli, c) == Some(Contradiction::UpgradeSocket) <==> !pid
                && socket
        }),
{
}

/// A TOML file gives the proxies and the number of threads; all else stays.
pub proof fn law_toml_files(c: ConfigV, threads: usize, proxies: Seq<ProxyV>)
    ensures
        ({
            let d = config::with_toml(c, threads, proxies);
            &&& d.basic_proxies == proxies
            &&& d.threads_per_service == threads
            &&& d.file_servers == c.file_servers
            &&& d.daemonize == c.daemonize && d.upgrade == c.upgrade
            &&& d.validate_configs == c.validate_configs
            &&& d.pid_file == c.pid_file && d.upgrade_socket == c.upgrade_socket
        }),
{
}

/// A rule by address covers every request; one by target covers those that its pattern matches.
pub proof fn law_requests_that_rules_cover(pattern: Seq<char>, uri: Seq<char>)
    ensures
        rate_limiting::covered(MultiKindV::SourceIp, uri),
        rate_limiting::covered(MultiKindV::Uri(pattern), uri) <==> rate_limiting::regex_finds(
            pattern,
            uri,
        ),
{
}

/// The cache is asked first, where there is one; else the rate limiters are.
pub proof fn law_first_stages()
    ensures
        service::stage_first(true) == RequestStage::Cache,
        service::stage_first(false) == RequestStage::RateLimits,
{
}

/// Filters of requests are asked in turn until one answers or fails; a request that none answers
/// passes once all have been asked.
pub proof fn law_filters_are_asked_in_turn(filters: usize, asked: usize, e: Seq<char>)
    ensures
        pipeline::filter_step(filters, asked, Some(Ok(true))) == FilterStepV::Handled,
        pipeline::filter_step(filters, asked, Some(Err(e))) == (FilterStepV::Failed {
            error: e,
            message: "Request filter error: "@ + e,
        }),
        asked < filters ==> pipeline::filter_step(filters, asked, Some(Ok(false)))
            == FilterStepV::Ask(asked) && pipeline::filter_step(filters, asked, None)
            == FilterStepV::Ask(asked),
        asked >= filters ==> pipeline::filter_step(filters, asked, Some(Ok(false)))
            == FilterStepV::Passed && pipeline::filter_step(filters, asked, None)
            == FilterStepV::Passed,
{
}

/// What a proxy is started with is what its configuration says: its name, its listeners and backends
/// in their order, how one is picked, all its rules and filters, and what browsers may do. It has a
/// cache exactly if that is on, which is empty.
pub proof fn law_plans_of_proxies(plan: ServicePlan, p: ProxyV, m: ModifiersV)
    requires
        service::is_plan_for(plan, p, m),
    ensures
        plan.name@ == p.name,
        views::views(plan.listeners@) == p.listeners,
        views::views(plan.backends@) == p.upstreams,
        plan.service.selection == p.upstream_options.selection,
        plan.service.request_selector == p.upstream_options.selector,
        plan.service.modifiers@ == m,
        views::views(plan.service.rate_limiters.request_filter_stage_multi@)
            == p.rate_limiting.filter(|r: RuleV| r is Multi),
        views::views(plan.service.rate_limiters.request_filter_stage_single@)
            == p.rate_limiting.filter(|r: RuleV| r is Single),
        plan.service.browser_cache_enabled == p.cache.browser_enabled,
        p.cache.browser_enabled ==> plan.service.browser_cache_ttl == Some(p.cache.browser_ttl),
        !p.cache.browser_enabled ==> plan.service.browser_cache_ttl is None,
        !p.cache.enabled ==> plan.service.cache_service is None && plan.persistence is None,
        p.cache.enabled ==> (plan.service.cache_service matches Some(c) && c.name@ == "cache-"@
            + p.name && c.bucket.storage.entries().dom() == Set::<Seq<char>>::empty()
            && c.bucket.storage.settings() == service::cache_settings_of(p)),
        p.cache.enabled ==> (plan.persistence matches Some(c) && c@ == service::persistence_of(p)),
{
    law_rules_by_buckets(p.rate_limiting);
}

/// The filters that add a field are those that need room for one, and no others.
pub proof fn law_room_for_filters(mods: Seq<ModifierV>, f: Fields, more: int)
    ensures
        modifiers::appending(mods) == mods.filter(|m: ModifierV| m is UpsertHeader).len(),
        modifiers::fits(mods, f) <==> modifiers::appending(mods) == 0 || headers::room(
            f,
            modifiers::appending(mods) as int,
        ),
        headers::room(f, more) <==> f.dom().finite() && f.dom().len() + more <= 6554,
{
    lemma_appending(mods);
}

proof fn lemma_appending(mods: Seq<ModifierV>)
    ensures
        modifiers::appending(mods) == mods.filter(|m: ModifierV| m is UpsertHeader).len(),
    decreases mods.len(),
{
    reveal(Seq::filter);
    if mods.len() > 0 {
        lemma_appending(mods.drop_last());
        lemma_appending_last(mods);
    }
}

proof fn lemma_appending_last(mods: Seq<ModifierV>)
    requires
        mods.len() > 0,
    ensures
        modifiers::appending(mods) == modifiers::appending(mods.drop_last()) + (if mods.last()
            is UpsertHeader {
            1nat
        } else {
            0nat
        }),
    decreases mods.len(),
{
    if mods.len() == 1 {
        assert(mods.skip(1) =~= Seq::<ModifierV>::empty());
        assert(mods.drop_last() =~= Seq::<ModifierV>::empty());
        assert(modifiers::appending(mods.skip(1)) == 0);
    } else {
        lemma_appending_last(mods.skip(1));
        assert(mods.skip(1).drop_last() =~= mods.drop_last().skip(1));
    }
}

/// What the access log tells of an entry is what the entry holds, at the time that is given.
pub proof fn law_entries_as_told(entry: LogEntry, timestamp: Seq<char>)
    ensures
        ({
            let a = entry.at(timestamp);
            &&& a.timestamp == timestamp && a.method == entry.method@ && a.uri == entry.uri@
            &&& a.status == entry.status && a.upstream == entry.upstream@
            &&& a.elapsed_ms == entry.elapsed_ms && a.http_version == entry.http_version@
            &&& a.user_agent == entry.user_agent@ && a.referer == entry.referer@
            &&& a.cache_status == entry.cache_status@
        }),
{
}

} // verus!
