//! What holds of every configuration that can be read from a text.
use crate::config::grammar;
use crate::config::grammar::{DraftV, FaultV, LimitV, LocationV, ServersV, TopV, UpstreamV};
use crate::config::internal::{
    CacheV, ConfigV, FileServerV, PathControlV, ProxyV, SettingsV, TlsV,
};
use crate::text;
use vstd::prelude::*;

verus! {

/// A filter that refuses requests by address.
pub open spec fn is_block_filter(f: SettingsV) -> bool {
    exists|v: Seq<char>| f == grammar::filter_one("block-cidr-range"@, "addrs"@, v)
}

/// A filter that changes headers.
pub open spec fn is_header_filter(f: SettingsV) -> bool {
    ||| exists|v: Seq<char>|
        f == grammar::filter_one("remove-header-key-regex"@, "pattern"@, v)
    ||| exists|k: Seq<char>, v: Seq<char>| f == #[trigger] grammar::filter_upsert(k, v)
}

/// Filters of a proxy that is complete.
pub open spec fn complete_filters(p: PathControlV) -> bool {
    &&& forall|i: int|
        0 <= i < p.request_filters.len() ==> is_block_filter(#[trigger] p.request_filters[i])
    &&& forall|i: int|
        0 <= i < p.upstream_request_filters.len() ==> is_header_filter(
            #[trigger] p.upstream_request_filters[i],
        )
    &&& forall|i: int|
        0 <= i < p.upstream_response_filters.len() ==> is_header_filter(
            #[trigger] p.upstream_response_filters[i],
        )
}

/// Filters of a proxy whose block is being read.
pub open spec fn draft_filters(p: PathControlV) -> bool {
    &&& forall|i: int|
        0 <= i < p.request_filters.len() ==> is_block_filter(#[trigger] p.request_filters[i])
    &&& forall|i: int|
        0 <= i < p.upstream_request_filters.len() ==> grammar::is_proxy_pass(
            #[trigger] p.upstream_request_filters[i],
        ) || is_header_filter(p.upstream_request_filters[i])
    &&& forall|i: int|
        0 <= i < p.upstream_response_filters.len() ==> is_header_filter(
            #[trigger] p.upstream_response_filters[i],
        )
}

/// Cache settings that name no empty set of shards.
pub open spec fn cache_usable(k: CacheV) -> bool {
    k.shard_count matches Some(n) ==> usize::BITS == 64 ==> n > 0
}

/// A proxy that can be started.
pub open spec fn proxy_complete(p: ProxyV) -> bool {
    &&& p.listeners.len() > 0
    &&& complete_filters(p.path_control)
    &&& cache_usable(p.cache)
}

/// A file server that can be started.
pub open spec fn file_server_complete(f: FileServerV) -> bool {
    f.listeners.len() > 0 && f.base_path is Some
}

/// All servers that have been read can be started.
pub open spec fn servers_complete(s: ServersV) -> bool {
    &&& forall|i: int| 0 <= i < s.proxies.len() ==> proxy_complete(#[trigger] s.proxies[i])
    &&& forall|i: int| 0 <= i < s.files.len() ==> file_server_complete(#[trigger] s.files[i])
}

proof fn lemma_kinds_differ()
    ensures
        "proxy_pass"@ != "upsert-header"@,
        "proxy_pass"@ != "remove-header-key-regex"@,
        "kind"@ != "value"@,
        "kind"@ != "key"@,
        "kind"@ != "pattern"@,
        "kind"@ != "addrs"@,
        "key"@ != "value"@,
{
    reveal_strlit("proxy_pass");
    reveal_strlit("upsert-header");
    reveal_strlit("remove-header-key-regex");
    reveal_strlit("kind");
    reveal_strlit("value");
    reveal_strlit("key");
    reveal_strlit("pattern");
    reveal_strlit("addrs");
    assert("proxy_pass"@.len() == 10 && "upsert-header"@.len() == 13);
    assert("remove-header-key-regex"@.len() == 23);
    assert("kind"@.len() == 4 && "value"@.len() == 5 && "key"@.len() == 3);
    assert("pattern"@.len() == 7 && "addrs"@.len() == 5);
}

proof fn lemma_location_directive(t: Seq<char>, pos: nat, l: LocationV)
    requires
        draft_filters(l.path),
    ensures
        grammar::location_directive(t, pos, l) matches Ok(l2) ==> draft_filters(l2.path),
{
    lemma_kinds_differ();
    if let Ok(l2) = grammar::location_directive(t, pos, l) {
        let parts = text::words(grammar::line_at(t, pos));
        let line = grammar::number_at(t, pos);
        if parts[0] == "deny"@ {
            let v = parts[1];
            assert(is_block_filter(grammar::filter_one("block-cidr-range"@, "addrs"@, v)));
        } else if parts[0] == "proxy_set_header"@ || parts[0] == "add_header"@ {
            let f = grammar::filter_upsert(parts[1], text::trimmed_char(parts[2], '"'));
            assert(is_header_filter(f));
        } else if parts[0] == "proxy_hide_header"@ || parts[0] == "hide_header"@ {
            let v = parts[1];
            assert(is_header_filter(
                grammar::filter_one("remove-header-key-regex"@, "pattern"@, v),
            ));
        } else if parts[0] == "proxy_pass"@ {
            assert(grammar::is_proxy_pass(grammar::filter_one("proxy_pass"@, "value"@, parts[1])));
        }
        assert forall|i: int| 0 <= i < l2.path.upstream_request_filters.len() implies (
        grammar::is_proxy_pass(#[trigger] l2.path.upstream_request_filters[i]) || is_header_filter(
            l2.path.upstream_request_filters[i],
        )) by {
            if i < l.path.upstream_request_filters.len() {
                assert(l2.path.upstream_request_filters[i] == l.path.upstream_request_filters[i]);
            }
        }
    }
}

proof fn lemma_location_lines(t: Seq<char>, pos: nat, l: LocationV)
    requires
        draft_filters(l.path),
    ensures
        grammar::location_lines(t, pos, l) matches Ok((l2, _)) ==> draft_filters(l2.path),
    decreases grammar::clean_lines(t).len() - pos,
{
    if pos < grammar::clean_lines(t).len() && grammar::line_at(t, pos) != "}"@ {
        lemma_location_directive(t, pos, l);
        if let Ok(l2) = grammar::location_directive(t, pos, l) {
            lemma_location_lines(t, pos + 1, l2);
        }
    }
}

proof fn lemma_cache_block(t: Seq<char>, pos: nat, k: CacheV)
    requires
        cache_usable(k),
    ensures
        grammar::cache_block(t, pos, k) matches Ok((k2, _)) ==> cache_usable(k2),
    decreases grammar::clean_lines(t).len() - pos,
{
    if pos < grammar::clean_lines(t).len() && grammar::line_at(t, pos) != "}"@ {
        if let Ok(k2) = grammar::cache_directive(t, pos, k) {
            assert(cache_usable(k2));
            lemma_cache_block(t, pos + 1, k2);
        }
    }
}

/// A server whose block is being read, with filters and cache settings of the known forms.
spec fn draft_sound(d: DraftV) -> bool {
    draft_filters(d.location.path) && cache_usable(d.cache)
}

proof fn lemma_server_lines(t: Seq<char>, pos: nat, d: DraftV, ups: Map<Seq<char>, UpstreamV>)
    requires
        draft_sound(d),
    ensures
        grammar::server_lines(t, pos, d, ups) matches Ok((d2, _)) ==> draft_sound(d2),
    decreases grammar::clean_lines(t).len() - pos,
{
    if pos < grammar::clean_lines(t).len() && grammar::line_at(t, pos) != "}"@ {
        lemma_location_lines(t, pos + 1, d.location);
        lemma_cache_block(t, pos + 1, d.cache);
        if let Ok((d2, next)) = grammar::server_directive(t, pos, d, ups) {
            assert(draft_sound(d2));
            if pos < next <= grammar::clean_lines(t).len() {
                lemma_server_lines(t, next, d2, ups);
            }
        }
    }
}

/// What is left without the filters that only name where requests go.
proof fn lemma_without_proxy_pass(filters: Seq<SettingsV>)
    requires
        forall|i: int|
            0 <= i < filters.len() ==> grammar::is_proxy_pass(#[trigger] filters[i])
                || is_header_filter(filters[i]),
    ensures
        forall|i: int|
            0 <= i < grammar::without_proxy_pass(filters).len() ==> is_header_filter(
                #[trigger] grammar::without_proxy_pass(filters)[i],
            ),
    decreases filters.len(),
{
    if filters.len() > 0 {
        let front = filters.drop_last();
        assert forall|i: int| 0 <= i < front.len() implies grammar::is_proxy_pass(
            #[trigger] front[i],
        ) || is_header_filter(front[i]) by {
            assert(front[i] == filters[i]);
        }
        lemma_without_proxy_pass(front);
        let kept = grammar::without_proxy_pass(filters);
        let rest = grammar::without_proxy_pass(front);
        assert(grammar::is_proxy_pass(filters[filters.len() - 1]) || is_header_filter(
            filters[filters.len() - 1],
        ));
        assert forall|i: int| 0 <= i < kept.len() implies is_header_filter(#[trigger] kept[i]) by {
            if i < rest.len() {
                assert(kept[i] == rest[i]);
            }
        }
    }
}

proof fn lemma_server_added(
    t: Seq<char>,
    pos: nat,
    d: DraftV,
    ups: Map<Seq<char>, UpstreamV>,
    s: ServersV,
)
    requires
        draft_sound(d),
        servers_complete(s),
    ensures
        grammar::server_added(t, pos, d, ups, s) matches Ok(s2) ==> servers_complete(s2),
{
    lemma_without_proxy_pass(d.location.path.upstream_request_filters);
    if let Ok(s2) = grammar::server_added(t, pos, d, ups, s) {
        assert forall|i: int| 0 <= i < s2.proxies.len() implies proxy_complete(
            #[trigger] s2.proxies[i],
        ) by {
            if i < s.proxies.len() {
                assert(s2.proxies[i] == s.proxies[i]);
            }
        }
        assert forall|i: int| 0 <= i < s2.files.len() implies file_server_complete(
            #[trigger] s2.files[i],
        ) by {
            if i < s.files.len() {
                assert(s2.files[i] == s.files[i]);
            }
        }
    }
}

proof fn lemma_http_block(t: Seq<char>, pos: nat, ups: Map<Seq<char>, UpstreamV>, s: ServersV)
    requires
        servers_complete(s),
    ensures
        grammar::http_block(t, pos, ups, s) matches Ok((s2, _)) ==> servers_complete(s2),
    decreases grammar::clean_lines(t).len() - pos,
{
    if pos < grammar::clean_lines(t).len() && grammar::line_at(t, pos) != "}"@ {
        if text::has_prefix(grammar::line_at(t, pos), "server"@) {
            let first = grammar::initial_draft(s.proxies.len() + s.files.len());
            assert(draft_sound(first));
            lemma_server_lines(t, pos + 1, first, ups);
            if let Ok((d, next)) = grammar::server_lines(t, pos + 1, first, ups) {
                lemma_server_added(t, next, d, ups, s);
                if let Ok(s2) = grammar::server_added(t, next, d, ups, s) {
                    if pos < next <= grammar::clean_lines(t).len() {
                        lemma_http_block(t, next, ups, s2);
                    }
                }
            }
        } else {
            lemma_http_block(t, pos + 1, ups, s);
        }
    }
}

proof fn lemma_top_lines(t: Seq<char>, pos: nat, s: TopV)
    requires
        servers_complete(s.servers),
    ensures
        grammar::top_lines(t, pos, s) matches Ok(s2) ==> servers_complete(s2.servers),
    decreases grammar::clean_lines(t).len() - pos,
{
    if pos < grammar::clean_lines(t).len() {
        lemma_http_block(t, pos + 1, s.ups, s.servers);
        if let Ok((s2, next)) = grammar::top_directive(t, pos, s) {
            assert(servers_complete(s2.servers));
            if pos < next <= grammar::clean_lines(t).len() {
                lemma_top_lines(t, next, s2);
            }
        }
    }
}

/// Every proxy that is read from a text has a listener, only filters of the kinds that can be
/// built, and a number of cache shards that is not zero where one is given (for machine words of
/// 64 bits); every file server that is read has a listener and a directory.
pub proof fn law_servers_are_complete(t: Seq<char>)
    ensures
        grammar::meaning(t) matches Ok(c) ==> {
            &&& forall|i: int|
                0 <= i < c.basic_proxies.len() ==> proxy_complete(#[trigger] c.basic_proxies[i])
            &&& forall|i: int|
                0 <= i < c.file_servers.len() ==> file_server_complete(#[trigger] c.file_servers[i])
        },
{
    lemma_top_lines(t, 0, grammar::initial_top());
}

/// Two texts with the same lines once comments and blank lines are gone.
pub open spec fn same_lines(t: Seq<char>, u: Seq<char>) -> bool {
    &&& grammar::clean_lines(t).len() == grammar::clean_lines(u).len()
    &&& forall|i: int|
        0 <= i < grammar::clean_lines(t).len() ==> (#[trigger] grammar::clean_lines(t)[i]).text
            == grammar::clean_lines(u)[i].text
}

/// The same value, or two faults of the same kind and message.
pub open spec fn agree<T>(a: Result<T, FaultV>, b: Result<T, FaultV>) -> bool {
    match (a, b) {
        (Ok(x), Ok(y)) => x == y,
        (Err(FaultV::Error(e)), Err(FaultV::Error(f))) => e.message == f.message,
        (Err(FaultV::EmptyDirective), Err(FaultV::EmptyDirective)) => true,
        _ => false,
    }
}

proof fn lemma_same_line(t: Seq<char>, u: Seq<char>, pos: nat)
    requires
        same_lines(t, u),
        pos < grammar::clean_lines(t).len(),
    ensures
        grammar::line_at(t, pos) == grammar::line_at(u, pos),
{
    assert(grammar::clean_lines(t)[pos as int].text == grammar::clean_lines(u)[pos as int].text);
}

proof fn lemma_same_system(t: Seq<char>, u: Seq<char>, pos: nat, c: ConfigV)
    requires
        same_lines(t, u),
    ensures
        agree(grammar::system_block(t, pos, c), grammar::system_block(u, pos, c)),
    decreases grammar::clean_lines(t).len() - pos,
{
    if pos < grammar::clean_lines(t).len() {
        lemma_same_line(t, u, pos);
        if grammar::line_at(t, pos) != "}"@ {
            assert(agree(
                grammar::system_directive(t, pos, c),
                grammar::system_directive(u, pos, c),
            ));
            if let Ok(c2) = grammar::system_directive(t, pos, c) {
                lemma_same_system(t, u, pos + 1, c2);
            }
        }
    }
}

proof fn lemma_same_cache(t: Seq<char>, u: Seq<char>, pos: nat, k: CacheV)
    requires
        same_lines(t, u),
    ensures
        agree(grammar::cache_block(t, pos, k), grammar::cache_block(u, pos, k)),
    decreases grammar::clean_lines(t).len() - pos,
{
    if pos < grammar::clean_lines(t).len() {
        lemma_same_line(t, u, pos);
        if grammar::line_at(t, pos) != "}"@ {
            assert(agree(
                grammar::cache_directive(t, pos, k),
                grammar::cache_directive(u, pos, k),
            ));
            if let Ok(k2) = grammar::cache_directive(t, pos, k) {
                lemma_same_cache(t, u, pos + 1, k2);
            }
        }
    }
}

proof fn lemma_same_listen_options(
    t: Seq<char>,
    u: Seq<char>,
    pos: nat,
    parts: Seq<Seq<char>>,
    i: int,
    tls: Option<TlsV>,
    offer_h2: bool,
)
    ensures
        agree(
            grammar::listen_options(t, pos, parts, i, tls, offer_h2),
            grammar::listen_options(u, pos, parts, i, tls, offer_h2),
        ),
    decreases parts.len() - i,
{
    if i < parts.len() {
        if parts[i] == "ssl"@ {
            if let (Some(cert), Some(key)) = (
                grammar::last_option(parts, i + 1, "cert="@),
                grammar::last_option(parts, i + 1, "key="@),
            ) {
                let set = Some(TlsV { cert_path: cert, key_path: key });
                lemma_same_listen_options(t, u, pos, parts, i + 1, set, offer_h2);
            }
        } else if parts[i] == "http2"@ {
            lemma_same_listen_options(t, u, pos, parts, i + 1, tls, true);
        } else {
            lemma_same_listen_options(t, u, pos, parts, i + 1, tls, offer_h2);
        }
    }
}

proof fn lemma_same_upstream(t: Seq<char>, u: Seq<char>, pos: nat, g: UpstreamV)
    requires
        same_lines(t, u),
    ensures
        agree(grammar::upstream_block(t, pos, g), grammar::upstream_block(u, pos, g)),
    decreases grammar::clean_lines(t).len() - pos,
{
    if pos < grammar::clean_lines(t).len() {
        lemma_same_line(t, u, pos);
        if grammar::line_at(t, pos) != "}"@ {
            assert(agree(grammar::peer(t, pos), grammar::peer(u, pos)));
            assert(agree(
                grammar::upstream_directive(t, pos, g),
                grammar::upstream_directive(u, pos, g),
            ));
            if let Ok(g2) = grammar::upstream_directive(t, pos, g) {
                lemma_same_upstream(t, u, pos + 1, g2);
            }
        }
    }
}

proof fn lemma_same_limit_options(
    t: Seq<char>,
    u: Seq<char>,
    m: nat,
    n: nat,
    parts: Seq<Seq<char>>,
    i: int,
    l: LimitV,
)
    ensures
        agree(
            grammar::limit_options(t, m, parts, i, l),
            grammar::limit_options(u, n, parts, i, l),
        ),
    decreases parts.len() - i,
{
    if i < parts.len() {
        assert(agree(
            grammar::limit_option(t, m, parts[i], l),
            grammar::limit_option(u, n, parts[i], l),
        ));
        if let Ok(l2) = grammar::limit_option(t, m, parts[i], l) {
            lemma_same_limit_options(t, u, m, n, parts, i + 1, l2);
        }
    }
}

proof fn lemma_same_location(t: Seq<char>, u: Seq<char>, pos: nat, l: LocationV)
    requires
        same_lines(t, u),
    ensures
        agree(grammar::location_lines(t, pos, l), grammar::location_lines(u, pos, l)),
    decreases grammar::clean_lines(t).len() - pos,
{
    if pos < grammar::clean_lines(t).len() {
        lemma_same_line(t, u, pos);
        if grammar::line_at(t, pos) != "}"@ {
            let parts = text::words(grammar::line_at(t, pos));
            let m = grammar::number_at(t, pos);
            let n = grammar::number_at(u, pos);
            lemma_same_limit_options(t, u, m, n, parts, 1, LimitV::initial());
            assert(agree(grammar::limit_rule(t, m, parts), grammar::limit_rule(u, n, parts)));
            assert(agree(
                grammar::location_directive(t, pos, l),
                grammar::location_directive(u, pos, l),
            ));
            if let Ok(l2) = grammar::location_directive(t, pos, l) {
                lemma_same_location(t, u, pos + 1, l2);
            }
        }
    }
}

proof fn lemma_same_server_directive(
    t: Seq<char>,
    u: Seq<char>,
    pos: nat,
    d: DraftV,
    ups: Map<Seq<char>, UpstreamV>,
)
    requires
        same_lines(t, u),
        pos < grammar::clean_lines(t).len(),
    ensures
        agree(
            grammar::server_directive(t, pos, d, ups),
            grammar::server_directive(u, pos, d, ups),
        ),
{
    lemma_same_line(t, u, pos);
    let parts = text::words(grammar::line_at(t, pos));
    lemma_same_listen_options(t, u, pos, parts, 2, None, false);
    lemma_same_upstream(t, u, pos + 1, UpstreamV::initial());
    lemma_same_location(t, u, pos + 1, d.location);
    lemma_same_cache(t, u, pos + 1, d.cache);
    assert(agree(grammar::listener(t, pos), grammar::listener(u, pos)));
    assert(agree(grammar::server_upstream(t, pos, d), grammar::server_upstream(u, pos, d)));
    assert(agree(
        grammar::location_block(t, pos, d.location),
        grammar::location_block(u, pos, d.location),
    ));
}

proof fn lemma_same_server(
    t: Seq<char>,
    u: Seq<char>,
    pos: nat,
    d: DraftV,
    ups: Map<Seq<char>, UpstreamV>,
)
    requires
        same_lines(t, u),
    ensures
        agree(grammar::server_lines(t, pos, d, ups), grammar::server_lines(u, pos, d, ups)),
    decreases grammar::clean_lines(t).len() - pos,
{
    if pos < grammar::clean_lines(t).len() {
        lemma_same_line(t, u, pos);
        if grammar::line_at(t, pos) != "}"@ {
            lemma_same_server_directive(t, u, pos, d, ups);
            if let Ok((d2, next)) = grammar::server_directive(t, pos, d, ups) {
                if pos < next <= grammar::clean_lines(t).len() {
                    lemma_same_server(t, u, next, d2, ups);
                }
            }
        }
    }
}

proof fn lemma_same_http(
    t: Seq<char>,
    u: Seq<char>,
    pos: nat,
    ups: Map<Seq<char>, UpstreamV>,
    s: ServersV,
)
    requires
        same_lines(t, u),
    ensures
        agree(grammar::http_block(t, pos, ups, s), grammar::http_block(u, pos, ups, s)),
    decreases grammar::clean_lines(t).len() - pos,
{
    if pos < grammar::clean_lines(t).len() {
        lemma_same_line(t, u, pos);
        if grammar::line_at(t, pos) != "}"@ {
            if text::has_prefix(grammar::line_at(t, pos), "server"@) {
                let first = grammar::initial_draft(s.proxies.len() + s.files.len());
                lemma_same_server(t, u, pos + 1, first, ups);
                assert(agree(
                    grammar::server_block(t, pos + 1, ups, s),
                    grammar::server_block(u, pos + 1, ups, s),
                ));
                if let Ok((s2, next)) = grammar::server_block(t, pos + 1, ups, s) {
                    if pos < next <= grammar::clean_lines(t).len() {
                        lemma_same_http(t, u, next, ups, s2);
                    }
                }
            } else {
                lemma_same_http(t, u, pos + 1, ups, s);
            }
        }
    }
}

proof fn lemma_same_top(t: Seq<char>, u: Seq<char>, pos: nat, s: TopV)
    requires
        same_lines(t, u),
    ensures
        agree(grammar::top_lines(t, pos, s), grammar::top_lines(u, pos, s)),
    decreases grammar::clean_lines(t).len() - pos,
{
    if pos < grammar::clean_lines(t).len() {
        lemma_same_line(t, u, pos);
        lemma_same_system(t, u, pos + 1, s.config);
        lemma_same_http(t, u, pos + 1, s.ups, s.servers);
        lemma_same_upstream(t, u, pos + 1, UpstreamV::initial());
        assert(agree(grammar::top_directive(t, pos, s), grammar::top_directive(u, pos, s)));
        if let Ok((s2, next)) = grammar::top_directive(t, pos, s) {
            if pos < next <= grammar::clean_lines(t).len() {
                lemma_same_top(t, u, next, s2);
            }
        }
    }
}

/// Comments, blank lines and the white space around lines change nothing: two texts that differ
/// in these alone give the same configuration, or are refused with the same message.
pub proof fn law_comments_and_blanks_change_nothing(t: Seq<char>, u: Seq<char>)
    requires
        same_lines(t, u),
    ensures
        agree(grammar::meaning(t), grammar::meaning(u)),
{
    lemma_same_top(t, u, 0, grammar::initial_top());
}

} // verus!
