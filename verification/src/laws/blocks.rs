//! Laws on the blocks of a configuration: what a block reads, what it leaves alone, and what the
//! blocks that come later know of those before them.
use crate::config::grammar;
use crate::config::grammar::{DraftV, FaultV, LocationV, ServersV, TopV, UpstreamV};
use crate::config::internal::{
    CacheV, ConfigV, FileServerV, ListenerV, PathControlV, ProxyV, SettingsV,
};
use crate::laws::directives;
use crate::laws::texts;
use crate::number;
use crate::proxy::rate_limiting::RuleV;
use crate::text;
use vstd::prelude::*;
use vstd::string::*;

verus! {

/// The number of lines with content.
pub open spec fn lines_in(t: Seq<char>) -> nat {
    grammar::clean_lines(t).len()
}

/// A block is open from a position up to its closing brace, right behind which the next position
/// lies.
pub open spec fn spans(t: Seq<char>, pos: nat, next: nat) -> bool {
    &&& pos <= next <= lines_in(t)
    &&& next < lines_in(t) ==> pos < next
    &&& pos < next && grammar::line_at(t, (next - 1) as nat) != "}"@ ==> next == lines_in(t)
    &&& forall|p: nat| pos <= p && p + 1 < next ==> #[trigger] grammar::line_at(t, p) != "}"@
}

/// A block of settings reaches up to the first closing brace, or to the end of the text.
pub proof fn law_extent_of_cache_blocks(t: Seq<char>, pos: nat, k: CacheV)
    requires
        pos <= lines_in(t),
    ensures
        grammar::cache_block(t, pos, k) matches Ok((k2, next)) ==> spans(t, pos, next),
    decreases lines_in(t) - pos,
{
    if pos < lines_in(t) && grammar::line_at(t, pos) != "}"@ {
        if let Ok(k2) = grammar::cache_directive(t, pos, k) {
            law_extent_of_cache_blocks(t, pos + 1, k2);
        }
    }
}

/// A system block reaches up to the first closing brace, or to the end of the text.
pub proof fn law_extent_of_system_blocks(t: Seq<char>, pos: nat, c: ConfigV)
    requires
        pos <= lines_in(t),
    ensures
        grammar::system_block(t, pos, c) matches Ok((c2, next)) ==> spans(t, pos, next),
    decreases lines_in(t) - pos,
{
    if pos < lines_in(t) && grammar::line_at(t, pos) != "}"@ {
        if let Ok(c2) = grammar::system_directive(t, pos, c) {
            law_extent_of_system_blocks(t, pos + 1, c2);
        }
    }
}

/// A group of backends reaches up to the first closing brace, or to the end of the text.
pub proof fn law_extent_of_upstream_blocks(t: Seq<char>, pos: nat, u: UpstreamV)
    requires
        pos <= lines_in(t),
    ensures
        grammar::upstream_block(t, pos, u) matches Ok((u2, next)) ==> spans(t, pos, next),
    decreases lines_in(t) - pos,
{
    if pos < lines_in(t) && grammar::line_at(t, pos) != "}"@ {
        if let Ok(u2) = grammar::upstream_directive(t, pos, u) {
            law_extent_of_upstream_blocks(t, pos + 1, u2);
        }
    }
}

/// A location reaches up to the first closing brace, or to the end of the text.
pub proof fn law_extent_of_locations(t: Seq<char>, pos: nat, l: LocationV)
    requires
        pos <= lines_in(t),
    ensures
        grammar::location_lines(t, pos, l) matches Ok((l2, next)) ==> spans(t, pos, next),
    decreases lines_in(t) - pos,
{
    if pos < lines_in(t) && grammar::line_at(t, pos) != "}"@ {
        if let Ok(l2) = grammar::location_directive(t, pos, l) {
            law_extent_of_locations(t, pos + 1, l2);
        }
    }
}

/// Every line of a block counts, in its order: reading a block is reading its first line and then
/// the rest with what that line made; a fault in a line is the fault of the block.
pub proof fn law_blocks_are_read_line_by_line(
    t: Seq<char>,
    pos: nat,
    c: ConfigV,
    k: CacheV,
    u: UpstreamV,
    l: LocationV,
)
    requires
        pos < lines_in(t),
        grammar::line_at(t, pos) != "}"@,
    ensures
        grammar::system_block(t, pos, c) == match grammar::system_directive(t, pos, c) {
            Ok(c2) => grammar::system_block(t, pos + 1, c2),
            Err(e) => Err::<(ConfigV, nat), FaultV>(e),
        },
        grammar::cache_block(t, pos, k) == match grammar::cache_directive(t, pos, k) {
            Ok(k2) => grammar::cache_block(t, pos + 1, k2),
            Err(e) => Err::<(CacheV, nat), FaultV>(e),
        },
        grammar::upstream_block(t, pos, u) == match grammar::upstream_directive(t, pos, u) {
            Ok(u2) => grammar::upstream_block(t, pos + 1, u2),
            Err(e) => Err::<(UpstreamV, nat), FaultV>(e),
        },
        grammar::location_lines(t, pos, l) == match grammar::location_directive(t, pos, l) {
            Ok(l2) => grammar::location_lines(t, pos + 1, l2),
            Err(e) => Err::<(LocationV, nat), FaultV>(e),
        },
{
}

/// A closing brace, like the end of the text, ends a block and changes nothing.
pub proof fn law_closing_braces(
    t: Seq<char>,
    pos: nat,
    c: ConfigV,
    k: CacheV,
    u: UpstreamV,
    l: LocationV,
    d: DraftV,
    ups: Map<Seq<char>, UpstreamV>,
    s: ServersV,
)
    requires
        pos <= lines_in(t),
        pos < lines_in(t) ==> grammar::line_at(t, pos) == "}"@,
    ensures
        ({
            let next = if pos < lines_in(t) {
                pos + 1
            } else {
                pos
            };
            &&& grammar::system_block(t, pos, c) == Ok::<(ConfigV, nat), FaultV>((c, next))
            &&& grammar::cache_block(t, pos, k) == Ok::<(CacheV, nat), FaultV>((k, next))
            &&& grammar::upstream_block(t, pos, u) == Ok::<(UpstreamV, nat), FaultV>((u, next))
            &&& grammar::location_lines(t, pos, l) == Ok::<(LocationV, nat), FaultV>((l, next))
            &&& grammar::server_lines(t, pos, d, ups) == Ok::<(DraftV, nat), FaultV>((d, next))
            &&& grammar::http_block(t, pos, ups, s) == Ok::<(ServersV, nat), FaultV>((s, next))
        }),
{
}

/// Backends are only added to a group, and stand in the order of their lines.
pub proof fn law_backends_of_groups_stay(t: Seq<char>, pos: nat, u: UpstreamV)
    ensures
        grammar::upstream_block(t, pos, u) matches Ok((u2, next)) ==> u.peers.len() <= u2.peers.len()
            && u2.peers.take(u.peers.len() as int) == u.peers,
    decreases lines_in(t) - pos,
{
    if pos < lines_in(t) && grammar::line_at(t, pos) != "}"@ {
        if let Ok(u2) = grammar::upstream_directive(t, pos, u) {
            law_backends_of_groups_stay(t, pos + 1, u2);
            assert(u.peers.len() <= u2.peers.len() && u2.peers.take(u.peers.len() as int)
                =~= u.peers);
            if let Ok((u3, next)) = grammar::upstream_block(t, pos + 1, u2) {
                assert(u3.peers.take(u.peers.len() as int) =~= u3.peers.take(
                    u2.peers.len() as int,
                ).take(u.peers.len() as int));
            }
        }
    } else {
        assert(u.peers.take(u.peers.len() as int) =~= u.peers);
    }
}

/// What a fault in a block leaves behind is what the lines before it made; without a fault it is
/// what the block makes.
pub proof fn law_what_faults_leave(t: Seq<char>, pos: nat, c: ConfigV, k: CacheV, l: LocationV)
    ensures
        grammar::system_block(t, pos, c) matches Ok((c2, _)) ==> grammar::system_before_fault(
            t,
            pos,
            c,
        ) == c2,
        grammar::cache_block(t, pos, k) matches Ok((k2, _)) ==> grammar::cache_before_fault(
            t,
            pos,
            k,
        ) == k2,
        grammar::location_lines(t, pos, l) matches Ok((l2, _))
            ==> grammar::location_lines_before_fault(t, pos, l) == l2,
        pos < lines_in(t) && grammar::line_at(t, pos) != "}"@ ==> {
            &&& grammar::system_before_fault(t, pos, c) == match grammar::system_directive(
                t,
                pos,
                c,
            ) {
                Ok(c2) => grammar::system_before_fault(t, pos + 1, c2),
                Err(_) => c,
            }
            &&& grammar::cache_before_fault(t, pos, k) == match grammar::cache_directive(
                t,
                pos,
                k,
            ) {
                Ok(k2) => grammar::cache_before_fault(t, pos + 1, k2),
                Err(_) => k,
            }
            &&& grammar::location_lines_before_fault(t, pos, l)
                == match grammar::location_directive(t, pos, l) {
                Ok(l2) => grammar::location_lines_before_fault(t, pos + 1, l2),
                Err(_) => l,
            }
        },
    decreases lines_in(t) - pos,
{
    if pos < lines_in(t) && grammar::line_at(t, pos) != "}"@ {
        let c2 = match grammar::system_directive(t, pos, c) {
            Ok(v) => v,
            Err(_) => c,
        };
        let k2 = match grammar::cache_directive(t, pos, k) {
            Ok(v) => v,
            Err(_) => k,
        };
        let l2 = match grammar::location_directive(t, pos, l) {
            Ok(v) => v,
            Err(_) => l,
        };
        law_what_faults_leave(t, pos + 1, c2, k2, l2);
    }
}

/// What the lines of a `server` block make before a fault, and the servers that stand before one.
pub proof fn law_what_faults_in_servers_leave(
    t: Seq<char>,
    pos: nat,
    d: DraftV,
    ups: Map<Seq<char>, UpstreamV>,
    s: ServersV,
)
    ensures
        grammar::server_lines(t, pos, d, ups) matches Ok((d2, _)) ==> grammar::server_before_fault(
            t,
            pos,
            d,
            ups,
        ) == d2,
        grammar::http_block(t, pos, ups, s) matches Ok((s2, _)) ==> grammar::servers_before_fault(
            t,
            pos,
            ups,
            s,
        ) == s2,
        pos < lines_in(t) && grammar::line_at(t, pos) != "}"@ && text::has_prefix(
            grammar::line_at(t, pos),
            "server"@,
        ) && text::has_suffix(grammar::line_at(t, pos), "{"@) && grammar::server_block(
            t,
            pos + 1,
            ups,
            s,
        ) is Err ==> grammar::servers_before_fault(t, pos, ups, s) == s,
        directives::words_at(t, pos).len() > 0 && directives::words_at(t, pos)[0] != "location"@
            && directives::words_at(t, pos)[0] != "cache"@ ==> grammar::directive_before_fault(
            t,
            pos,
            d,
        ) == d,
    decreases lines_in(t) - pos,
{
    if pos < lines_in(t) && grammar::line_at(t, pos) != "}"@ {
        if let Ok((d2, next)) = grammar::server_directive(t, pos, d, ups) {
            if pos < next <= lines_in(t) {
                law_what_faults_in_servers_leave(t, next, d2, ups, s);
            }
        }
        if !text::has_prefix(grammar::line_at(t, pos), "server"@) {
            law_what_faults_in_servers_leave(t, pos + 1, d, ups, s);
        } else if let Ok((s2, next)) = grammar::server_block(t, pos + 1, ups, s) {
            if pos < next <= lines_in(t) {
                law_what_faults_in_servers_leave(t, next, d, ups, s2);
            }
        }
    }
}

/// A `server` block is read directive by directive, each with what those before it made.
pub proof fn law_servers_are_read_directive_by_directive(
    t: Seq<char>,
    pos: nat,
    d: DraftV,
    ups: Map<Seq<char>, UpstreamV>,
)
    requires
        pos < lines_in(t),
        grammar::line_at(t, pos) != "}"@,
    ensures
        grammar::server_directive(t, pos, d, ups) matches Ok((d2, next)) ==> pos < next && next
            <= lines_in(t) && grammar::server_lines(t, pos, d, ups) == grammar::server_lines(
            t,
            next,
            d2,
            ups,
        ),
        grammar::server_directive(t, pos, d, ups) matches Err(e) ==> grammar::server_lines(
            t,
            pos,
            d,
            ups,
        ) == Err::<(DraftV, nat), FaultV>(e),
{
    law_extent_of_cache_blocks(t, pos + 1, d.cache);
    law_extent_of_locations(t, pos + 1, d.location);
    law_extent_of_upstream_blocks(t, pos + 1, UpstreamV::initial());
}

/// Backends and listeners of a server are only added to while its block is read.
pub proof fn law_backends_of_servers_stay(
    t: Seq<char>,
    pos: nat,
    d: DraftV,
    ups: Map<Seq<char>, UpstreamV>,
)
    ensures
        grammar::server_lines(t, pos, d, ups) matches Ok((d2, _)) ==> {
            &&& d.upstream.peers.len() <= d2.upstream.peers.len()
            &&& d2.upstream.peers.take(d.upstream.peers.len() as int) == d.upstream.peers
            &&& d.listeners.len() <= d2.listeners.len()
            &&& d2.listeners.take(d.listeners.len() as int) == d.listeners
            &&& d.proxy_pass is Some ==> d2.proxy_pass is Some
            &&& d.base_path is Some ==> d2.base_path is Some
        },
    decreases lines_in(t) - pos,
{
    assert(d.upstream.peers.take(d.upstream.peers.len() as int) =~= d.upstream.peers);
    assert(d.listeners.take(d.listeners.len() as int) =~= d.listeners);
    if pos < lines_in(t) && grammar::line_at(t, pos) != "}"@ {
        if let Ok((d2, next)) = grammar::server_directive(t, pos, d, ups) {
            assert(d.upstream.peers.len() <= d2.upstream.peers.len());
            assert(d2.upstream.peers.take(d.upstream.peers.len() as int) =~= d.upstream.peers);
            assert(d2.listeners.take(d.listeners.len() as int) =~= d.listeners);
            if pos < next <= lines_in(t) {
                law_backends_of_servers_stay(t, next, d2, ups);
                if let Ok((d3, _)) = grammar::server_lines(t, next, d2, ups) {
                    assert(d3.upstream.peers.take(d.upstream.peers.len() as int)
                        =~= d3.upstream.peers.take(d2.upstream.peers.len() as int).take(
                        d.upstream.peers.len() as int,
                    ));
                    assert(d3.listeners.take(d.listeners.len() as int) =~= d3.listeners.take(
                        d2.listeners.len() as int,
                    ).take(d.listeners.len() as int));
                }
            }
        }
    }
}

/// A server starts without listeners, backends, filters and limits, without a cache, and with a name
/// that counts the servers before it.
pub proof fn law_servers_start_empty(n: nat)
    ensures
        ({
            let d = grammar::initial_draft(n);
            &&& d.name == "Server"@ + number::decimal(n)
            &&& d.listeners == Seq::<ListenerV>::empty()
            &&& d.upstream == UpstreamV::initial()
            &&& d.location.path.upstream_request_filters == Seq::<SettingsV>::empty()
            &&& d.location.path.upstream_response_filters == Seq::<SettingsV>::empty()
            &&& d.location.path.request_filters == Seq::<SettingsV>::empty()
            &&& d.location.rules == Seq::<RuleV>::empty()
            &&& d.base_path is None && d.proxy_pass is None
            &&& !d.cache.enabled && d.cache.ttl == 300 && !d.cache.browser_enabled
            &&& d.cache.browser_ttl == 3600 && d.cache.dir is None
            &&& d.cache.max_file_size is None && d.cache.shard_count is None
        }),
{
}

/// A filter that says no more than where requests go.
pub open spec fn names_a_target(f: SettingsV) -> bool {
    f.dom().contains("kind"@) && f["kind"@] == "proxy_pass"@
}

/// The filters of a server are those of its location, in their order, but for those that only name
/// where requests go.
pub proof fn law_filters_of_servers(filters: Seq<SettingsV>, f: SettingsV)
    ensures
        grammar::without_proxy_pass(Seq::empty()) == Seq::<SettingsV>::empty(),
        names_a_target(f) ==> grammar::without_proxy_pass(filters.push(f))
            == grammar::without_proxy_pass(filters),
        !names_a_target(f) ==> grammar::without_proxy_pass(filters.push(f))
            == grammar::without_proxy_pass(filters).push(f),
{
    assert(filters.push(f).drop_last() =~= filters);
}

/// The group that a location names is the first one there that is known.
pub proof fn law_groups_that_locations_name(
    filters: Seq<SettingsV>,
    ups: Map<Seq<char>, UpstreamV>,
    i: int,
)
    requires
        0 <= i < filters.len(),
        names_a_target(filters[i]),
        filters[i].dom().contains("value"@),
        ups.dom().contains(filters[i]["value"@]),
        forall|j: int|
            0 <= j < i ==> !(names_a_target(#[trigger] filters[j]) && filters[j].dom().contains(
                "value"@,
            ) && ups.dom().contains(filters[j]["value"@])),
    ensures
        grammar::promoted(filters, ups) == Some(filters[i]["value"@]),
    decreases i,
{
    if i > 0 {
        assert(!(names_a_target(filters[0]) && filters[0].dom().contains("value"@)
            && ups.dom().contains(filters[0]["value"@])));
        let rest = filters.skip(1);
        assert forall|j: int| 0 <= j < i - 1 implies !(names_a_target(#[trigger] rest[j])
            && rest[j].dom().contains("value"@) && ups.dom().contains(rest[j]["value"@])) by {
            assert(rest[j] == filters[j + 1]);
        }
        law_groups_that_locations_name(rest, ups, i - 1);
    }
}

/// A location names no group where none of its filters does so with a name that is known.
pub proof fn law_locations_that_name_no_group(
    filters: Seq<SettingsV>,
    ups: Map<Seq<char>, UpstreamV>,
)
    requires
        forall|j: int|
            0 <= j < filters.len() ==> !(names_a_target(#[trigger] filters[j])
                && filters[j].dom().contains("value"@) && ups.dom().contains(
                filters[j]["value"@],
            )),
    ensures
        grammar::promoted(filters, ups) is None,
    decreases filters.len(),
{
    if filters.len() > 0 {
        assert(!(names_a_target(filters[0]) && filters[0].dom().contains("value"@)
            && ups.dom().contains(filters[0]["value"@])));
        let rest = filters.skip(1);
        assert forall|j: int| 0 <= j < rest.len() implies !(names_a_target(#[trigger] rest[j])
            && rest[j].dom().contains("value"@) && ups.dom().contains(rest[j]["value"@])) by {
            assert(rest[j] == filters[j + 1]);
        }
        law_locations_that_name_no_group(rest, ups);
    }
}

/// What a finished `server` block adds: a file server where it gives a directory, else a proxy; with
/// all that its directives gave, behind the servers before it, which stay. Without a listener, or
/// without anything to serve from, it is refused.
pub proof fn law_finished_servers(
    t: Seq<char>,
    pos: nat,
    d: DraftV,
    ups: Map<Seq<char>, UpstreamV>,
    s: ServersV,
)
    ensures
        ({
            let r = grammar::server_added(t, pos, d, ups, s);
            let named = grammar::promoted(d.location.path.upstream_request_filters, ups);
            let own = d.upstream.peers.len() > 0 || d.proxy_pass is Some;
            let u = if own || named is None {
                d.upstream
            } else {
                UpstreamV {
                    peers: d.upstream.peers + ups[named->0].peers,
                    options: ups[named->0].options,
                }
            };
            let proxy = ProxyV {
                name: d.name,
                listeners: d.listeners,
                upstream_options: u.options,
                upstreams: u.peers,
                path_control: PathControlV {
                    upstream_request_filters: grammar::without_proxy_pass(
                        d.location.path.upstream_request_filters,
                    ),
                    upstream_response_filters: d.location.path.upstream_response_filters,
                    request_filters: d.location.path.request_filters,
                },
                rate_limiting: d.location.rules,
                cache: d.cache,
            };
            &&& d.listeners.len() == 0 ==> directives::fails_with(
                r,
                "Server must have at least one listener"@,
            )
            &&& d.listeners.len() > 0 && d.base_path is Some ==> r == Ok::<ServersV, FaultV>(
                ServersV {
                    proxies: s.proxies,
                    files: s.files.push(
                        FileServerV {
                            name: d.name,
                            listeners: d.listeners,
                            base_path: d.base_path,
                        },
                    ),
                },
            )
            &&& d.listeners.len() > 0 && d.base_path is None && !own && named is None
                ==> directives::fails_with(r, "Proxy server must have at least one upstream"@)
            &&& d.listeners.len() > 0 && d.base_path is None && (own || named is Some) ==> r == Ok::<
                ServersV,
                FaultV,
            >(ServersV { proxies: s.proxies.push(proxy), files: s.files })
        }),
{
}

/// Each `server` block adds exactly one server, behind those before it.
pub proof fn law_blocks_add_one_server(
    t: Seq<char>,
    pos: nat,
    ups: Map<Seq<char>, UpstreamV>,
    s: ServersV,
)
    ensures
        grammar::server_block(t, pos, ups, s) matches Ok((s2, _)) ==> {
            ||| s2.files == s.files && s2.proxies.len() == s.proxies.len() + 1
                && s2.proxies.drop_last() == s.proxies
            ||| s2.proxies == s.proxies && s2.files.len() == s.files.len() + 1
                && s2.files.drop_last() == s.files
        },
        grammar::server_block(t, pos, ups, s) == match grammar::server_lines(
            t,
            pos,
            grammar::initial_draft(s.proxies.len() + s.files.len()),
            ups,
        ) {
            Ok((d, next)) => match grammar::server_added(t, next, d, ups, s) {
                Ok(s2) => Ok::<(ServersV, nat), FaultV>((s2, next)),
                Err(e) => Err::<(ServersV, nat), FaultV>(e),
            },
            Err(e) => Err::<(ServersV, nat), FaultV>(e),
        },
{
    if let Ok((s2, _)) = grammar::server_block(t, pos, ups, s) {
        assert(s2.proxies.drop_last() =~= s.proxies || s2.proxies =~= s.proxies);
        assert(s2.files.drop_last() =~= s.files || s2.files =~= s.files);
    }
}

/// An `http` block is read server by server: a line that starts with the word adds the server of its
/// block, and any other line adds nothing.
pub proof fn law_http_blocks_are_read_server_by_server(
    t: Seq<char>,
    pos: nat,
    ups: Map<Seq<char>, UpstreamV>,
    s: ServersV,
    rest: Seq<char>,
)
    requires
        pos < lines_in(t),
        grammar::line_at(t, pos) != "}"@,
    ensures
        grammar::line_at(t, pos) == "server"@ + rest + "{"@ ==> match grammar::server_block(
            t,
            pos + 1,
            ups,
            s,
        ) {
            Ok((s2, next)) => pos < next <= lines_in(t) && grammar::http_block(t, pos, ups, s)
                == grammar::http_block(t, next, ups, s2),
            Err(e) => grammar::http_block(t, pos, ups, s) == Err::<(ServersV, nat), FaultV>(e),
        },
        !(exists|r: Seq<char>| grammar::line_at(t, pos) == #[trigger] ("server"@ + r))
            ==> grammar::http_block(t, pos, ups, s) == grammar::http_block(t, pos + 1, ups, s),
        grammar::line_at(t, pos) == "server"@ + rest && !text::has_suffix(
            grammar::line_at(t, pos),
            "{"@,
        ) ==> directives::fails_with(grammar::http_block(t, pos, ups, s), "Expected '{'"@),
{
    let line = grammar::line_at(t, pos);
    texts::law_prefix(line, "server"@);
    texts::law_suffix(line, "{"@);
    assert("server"@ + rest + "{"@ =~= "server"@ + (rest + "{"@));
    if line == "server"@ + rest + "{"@ {
        assert(line == ("server"@ + rest) + "{"@);
        assert(text::has_suffix(line, "{"@));
        assert(text::has_prefix(line, "server"@));
        lemma_extent_of_servers(
            t,
            pos + 1,
            grammar::initial_draft(s.proxies.len() + s.files.len()),
            ups,
        );
    }
}

proof fn lemma_extent_of_servers(
    t: Seq<char>,
    pos: nat,
    d: DraftV,
    ups: Map<Seq<char>, UpstreamV>,
)
    requires
        pos <= lines_in(t),
    ensures
        grammar::server_lines(t, pos, d, ups) matches Ok((d2, next)) ==> pos <= next <= lines_in(t),
    decreases lines_in(t) - pos,
{
    if pos < lines_in(t) && grammar::line_at(t, pos) != "}"@ {
        law_servers_are_read_directive_by_directive(t, pos, d, ups);
        if let Ok((d2, next)) = grammar::server_directive(t, pos, d, ups) {
            lemma_extent_of_servers(t, next, d2, ups);
        }
    }
}

proof fn lemma_extent_of_http(
    t: Seq<char>,
    pos: nat,
    ups: Map<Seq<char>, UpstreamV>,
    s: ServersV,
)
    requires
        pos <= lines_in(t),
    ensures
        grammar::http_block(t, pos, ups, s) matches Ok((s2, next)) ==> pos <= next <= lines_in(t),
    decreases lines_in(t) - pos,
{
    if pos < lines_in(t) && grammar::line_at(t, pos) != "}"@ {
        if text::has_prefix(grammar::line_at(t, pos), "server"@) {
            if let Ok((s2, next)) = grammar::server_block(t, pos + 1, ups, s) {
                lemma_extent_of_servers(
                    t,
                    pos + 1,
                    grammar::initial_draft(s.proxies.len() + s.files.len()),
                    ups,
                );
                lemma_extent_of_http(t, next, ups, s2);
            }
        } else {
            lemma_extent_of_http(t, pos + 1, ups, s);
        }
    }
}

/// Servers that have been read stay, in their order, whatever an `http` block adds.
pub proof fn law_servers_stay(
    t: Seq<char>,
    pos: nat,
    ups: Map<Seq<char>, UpstreamV>,
    s: ServersV,
)
    ensures
        grammar::http_block(t, pos, ups, s) matches Ok((s2, _)) ==> {
            &&& s.proxies.len() <= s2.proxies.len() && s.files.len() <= s2.files.len()
            &&& s2.proxies.take(s.proxies.len() as int) == s.proxies
            &&& s2.files.take(s.files.len() as int) == s.files
        },
    decreases lines_in(t) - pos,
{
    assert(s.proxies.take(s.proxies.len() as int) =~= s.proxies);
    assert(s.files.take(s.files.len() as int) =~= s.files);
    if pos < lines_in(t) && grammar::line_at(t, pos) != "}"@ {
        if text::has_prefix(grammar::line_at(t, pos), "server"@) {
            if let Ok((s2, next)) = grammar::server_block(t, pos + 1, ups, s) {
                assert(s2.proxies.take(s.proxies.len() as int) =~= s.proxies);
                assert(s2.files.take(s.files.len() as int) =~= s.files);
                if pos < next <= lines_in(t) {
                    law_servers_stay(t, next, ups, s2);
                    if let Ok((s3, _)) = grammar::http_block(t, next, ups, s2) {
                        assert(s3.proxies.take(s.proxies.len() as int) =~= s3.proxies.take(
                            s2.proxies.len() as int,
                        ).take(s.proxies.len() as int));
                        assert(s3.files.take(s.files.len() as int) =~= s3.files.take(
                            s2.files.len() as int,
                        ).take(s.files.len() as int));
                    }
                }
            }
        } else {
            law_servers_stay(t, pos + 1, ups, s);
        }
    }
}

/// A line starts with a word.
pub open spec fn starts(t: Seq<char>, pos: nat, word: Seq<char>) -> bool {
    exists|rest: Seq<char>| grammar::line_at(t, pos) == #[trigger] (word + rest)
}

/// The line opens a group of that name: the name is its second word, where braces may follow.
pub open spec fn opens_group(t: Seq<char>, pos: nat, name: Seq<char>) -> bool {
    &&& starts(t, pos, "upstream"@)
    &&& directives::words_at(t, pos).len() >= 2
    &&& name.len() > 0 ==> name.last() != '{'
    &&& exists|braces: Seq<char>|
        texts::run_of(braces, '{') && directives::words_at(t, pos)[1] == #[trigger] (name + braces)
}

proof fn lemma_starts(t: Seq<char>, pos: nat, word: Seq<char>)
    ensures
        starts(t, pos, word) <==> text::has_prefix(grammar::line_at(t, pos), word),
{
    texts::law_prefix(grammar::line_at(t, pos), word);
}

proof fn lemma_starts_differ(t: Seq<char>, pos: nat)
    ensures
        !(starts(t, pos, "system"@) && starts(t, pos, "http"@)),
        !(starts(t, pos, "system"@) && starts(t, pos, "upstream"@)),
        !(starts(t, pos, "http"@) && starts(t, pos, "upstream"@)),
{
    reveal_strlit("system");
    reveal_strlit("http");
    reveal_strlit("upstream");
    let line = grammar::line_at(t, pos);
    if starts(t, pos, "system"@) {
        let rest = choose|rest: Seq<char>| line == #[trigger] ("system"@ + rest);
        assert(line[0] == 's');
    }
    if starts(t, pos, "http"@) {
        let rest = choose|rest: Seq<char>| line == #[trigger] ("http"@ + rest);
        assert(line[0] == 'h');
    }
    if starts(t, pos, "upstream"@) {
        let rest = choose|rest: Seq<char>| line == #[trigger] ("upstream"@ + rest);
        assert(line[0] == 'u');
    }
}

/// Every group stays known: whatever is read at the top, a group that was known before is still
/// known afterwards with the same backends and options, unless the line opens a group of that very
/// name. No group becomes known that no line opens.
pub proof fn law_groups_stay_known(
    t: Seq<char>,
    pos: nat,
    s: TopV,
    s2: TopV,
    next: nat,
    name: Seq<char>,
)
    requires
        grammar::top_directive(t, pos, s) == Ok::<(TopV, nat), FaultV>((s2, next)),
        !opens_group(t, pos, name),
    ensures
        s.ups.dom().contains(name) ==> s2.ups.dom().contains(name) && s2.ups[name] == s.ups[name],
        s2.ups.dom().contains(name) ==> s.ups.dom().contains(name),
{
    lemma_starts(t, pos, "upstream"@);
    let w = directives::words_at(t, pos);
    if starts(t, pos, "upstream"@) && w.len() >= 2 && text::trimmed_end_char(w[1], '{') == name {
        lemma_trimmed_end(w[1], '{');
        let braces = w[1].skip(name.len() as int);
        assert(w[1] == name + braces);
        assert(texts::run_of(braces, '{'));
    }
}

/// What is taken off at the end is a run of the character, and what stays does not end with it.
proof fn lemma_trimmed_end(s: Seq<char>, c: char)
    ensures
        ({
            let m = text::trimmed_end_char(s, c);
            &&& m.len() <= s.len() && s == m + s.skip(m.len() as int)
            &&& texts::run_of(s.skip(m.len() as int), c)
            &&& m.len() > 0 ==> m.last() != c
        }),
    decreases s.len(),
{
    if s.len() > 0 && s.last() == c {
        lemma_trimmed_end(s.drop_last(), c);
        let m = text::trimmed_end_char(s, c);
        let tail = s.skip(m.len() as int);
        assert(s =~= s.drop_last().push(c));
        assert(s.drop_last() == m + s.drop_last().skip(m.len() as int));
        assert(tail =~= s.drop_last().skip(m.len() as int).push(c));
        assert(s =~= m + tail);
    } else {
        assert(s.skip(s.len() as int) =~= Seq::<char>::empty());
        assert(s =~= s + s.skip(s.len() as int));
    }
}

/// A group is known, with what its block reads, after its block; all else stays as it is.
pub proof fn law_groups_become_known(t: Seq<char>, pos: nat, s: TopV, name: Seq<char>)
    requires
        pos < lines_in(t),
        opens_group(t, pos, name),
        text::has_suffix(grammar::line_at(t, pos), "{"@),
    ensures
        match grammar::upstream_block(t, pos + 1, UpstreamV::initial()) {
            Ok((u, next)) => grammar::top_directive(t, pos, s) matches Ok((s2, n)) && n == next
                && s2.ups.dom().contains(name) && s2.ups[name] == u && s2.config == s.config
                && s2.servers == s.servers,
            Err(e) => grammar::top_directive(t, pos, s) == Err::<(TopV, nat), FaultV>(e),
        },
{
    lemma_starts(t, pos, "upstream"@);
    lemma_starts(t, pos, "http"@);
    lemma_starts(t, pos, "system"@);
    lemma_starts_differ(t, pos);
    let w = directives::words_at(t, pos);
    let braces = choose|braces: Seq<char>|
        texts::run_of(braces, '{') && w[1] == #[trigger] (name + braces);
    texts::law_trimming_a_character_at_the_end(name, braces, '{');
}

/// A `system` block changes the settings of the whole process alone, an `http` block the servers
/// alone, and a line that opens no block nothing. The servers of an `http` block are read with all
/// groups that are known there.
pub proof fn law_blocks_at_the_top(t: Seq<char>, pos: nat, s: TopV)
    ensures
        ({
            let r = grammar::top_directive(t, pos, s);
            let brace = text::has_suffix(grammar::line_at(t, pos), "{"@);
            &&& starts(t, pos, "system"@) && brace ==> r == match grammar::system_block(
                t,
                pos + 1,
                s.config,
            ) {
                Ok((c, next)) => Ok::<(TopV, nat), FaultV>(
                    (TopV { config: c, servers: s.servers, ups: s.ups }, next),
                ),
                Err(e) => Err::<(TopV, nat), FaultV>(e),
            }
            &&& starts(t, pos, "http"@) && brace ==> r == match grammar::http_block(
                t,
                pos + 1,
                s.ups,
                s.servers,
            ) {
                Ok((v, next)) => Ok::<(TopV, nat), FaultV>(
                    (TopV { config: s.config, servers: v, ups: s.ups }, next),
                ),
                Err(e) => Err::<(TopV, nat), FaultV>(e),
            }
            &&& (starts(t, pos, "system"@) || starts(t, pos, "http"@)) && !brace
                ==> directives::fails_with(r, "Expected '{'"@)
            &&& starts(t, pos, "upstream"@) && directives::words_at(t, pos).len() < 2
                ==> directives::fails_with(r, "Invalid upstream directive: missing name"@)
            &&& starts(t, pos, "upstream"@) && directives::words_at(t, pos).len() >= 2 && !brace
                ==> directives::fails_with(r, "Expected '{'"@)
            &&& !starts(t, pos, "system"@) && !starts(t, pos, "http"@) && !starts(
                t,
                pos,
                "upstream"@,
            ) ==> r == Ok::<(TopV, nat), FaultV>((s, pos + 1))
        }),
{
    lemma_starts(t, pos, "upstream"@);
    lemma_starts(t, pos, "http"@);
    lemma_starts(t, pos, "system"@);
    lemma_starts_differ(t, pos);
}

/// Reading block after block from one position leads to another, and from one state to another.
pub open spec fn leads(t: Seq<char>, pos: nat, s: TopV, pos2: nat, s2: TopV) -> bool
    decreases lines_in(t) - pos,
{
    if pos == pos2 {
        s == s2
    } else {
        pos < lines_in(t) && (grammar::top_directive(t, pos, s) matches Ok((m, next)) && pos < next
            <= lines_in(t) && leads(t, next, m, pos2, s2))
    }
}

/// Every group stays known over any number of blocks: where no line in between opens a group of that
/// name again, it has the same backends and options.
pub proof fn law_groups_stay_known_to_the_end(
    t: Seq<char>,
    pos: nat,
    s: TopV,
    pos2: nat,
    s2: TopV,
    name: Seq<char>,
)
    requires
        leads(t, pos, s, pos2, s2),
        s.ups.dom().contains(name),
        forall|p: nat| pos <= p < lines_in(t) ==> !#[trigger] opens_group(t, p, name),
    ensures
        s2.ups.dom().contains(name),
        s2.ups[name] == s.ups[name],
    decreases lines_in(t) - pos,
{
    if pos != pos2 {
        if let Ok((m, next)) = grammar::top_directive(t, pos, s) {
            assert(!opens_group(t, pos, name));
            law_groups_stay_known(t, pos, s, m, next, name);
            law_groups_stay_known_to_the_end(t, next, m, pos2, s2, name);
        }
    }
}

/// Servers stay over any number of blocks at the top.
pub proof fn law_servers_stay_to_the_end(t: Seq<char>, pos: nat, s: TopV, pos2: nat, s2: TopV)
    requires
        leads(t, pos, s, pos2, s2),
    ensures
        s.servers.proxies.len() <= s2.servers.proxies.len(),
        s2.servers.proxies.take(s.servers.proxies.len() as int) == s.servers.proxies,
        s.servers.files.len() <= s2.servers.files.len(),
        s2.servers.files.take(s.servers.files.len() as int) == s.servers.files,
    decreases lines_in(t) - pos,
{
    assert(s.servers.proxies.take(s.servers.proxies.len() as int) =~= s.servers.proxies);
    assert(s.servers.files.take(s.servers.files.len() as int) =~= s.servers.files);
    if pos != pos2 {
        if let Ok((m, next)) = grammar::top_directive(t, pos, s) {
            law_servers_stay(t, pos + 1, s.ups, s.servers);
            law_servers_stay_to_the_end(t, next, m, pos2, s2);
            let n = s.servers.proxies.len() as int;
            let k = s.servers.files.len() as int;
            assert(m.servers.proxies.take(n) =~= s.servers.proxies);
            assert(m.servers.files.take(k) =~= s.servers.files);
            assert(s2.servers.proxies.take(n) =~= s2.servers.proxies.take(
                m.servers.proxies.len() as int,
            ).take(n));
            assert(s2.servers.files.take(k) =~= s2.servers.files.take(
                m.servers.files.len() as int,
            ).take(k));
        }
    }
}

/// A configuration is what the whole text leads to, from no servers, no groups and the settings that
/// hold where none are given; the first fault on the way is the answer where there is one.
pub proof fn law_configurations(t: Seq<char>, pos: nat, s: TopV)
    requires
        leads(t, 0, grammar::initial_top(), pos, s),
    ensures
        pos >= lines_in(t) ==> grammar::meaning(t) == Ok::<ConfigV, FaultV>(
            ConfigV {
                basic_proxies: s.servers.proxies,
                file_servers: s.servers.files,
                ..s.config
            },
        ),
        pos < lines_in(t) ==> (grammar::top_directive(t, pos, s) matches Err(e)
            ==> grammar::meaning(t) == Err::<ConfigV, FaultV>(e)),
        grammar::initial_top().servers.proxies == Seq::<ProxyV>::empty(),
        grammar::initial_top().servers.files == Seq::<FileServerV>::empty(),
        grammar::initial_top().ups == Map::<Seq<char>, UpstreamV>::empty(),
        grammar::initial_top().config == ConfigV::initial(),
{
    lemma_leads(t, 0, grammar::initial_top(), pos, s);
}

proof fn lemma_leads(t: Seq<char>, pos: nat, s: TopV, pos2: nat, s2: TopV)
    requires
        leads(t, pos, s, pos2, s2),
    ensures
        grammar::top_lines(t, pos, s) == grammar::top_lines(t, pos2, s2),
    decreases lines_in(t) - pos,
{
    if pos != pos2 {
        if let Ok((m, next)) = grammar::top_directive(t, pos, s) {
            lemma_leads(t, next, m, pos2, s2);
        }
    }
}

/// Each step at the top moves on, so that the whole text is read.
pub proof fn law_reading_moves_on(t: Seq<char>, pos: nat, s: TopV)
    requires
        pos < lines_in(t),
    ensures
        grammar::top_directive(t, pos, s) matches Ok((_, next)) ==> pos < next <= lines_in(t),
{
    law_extent_of_system_blocks(t, pos + 1, s.config);
    law_extent_of_upstream_blocks(t, pos + 1, UpstreamV::initial());
    lemma_extent_of_http(t, pos + 1, s.ups, s.servers);
}

/// A server that names a group sends requests to the backends of that group: the proxy has them,
/// behind those that its block gave before, and they stand there in the order of the group.
pub proof fn law_named_groups_give_their_backends(
    t: Seq<char>,
    pos: nat,
    d: DraftV,
    ups: Map<Seq<char>, UpstreamV>,
    s: ServersV,
    name: Seq<char>,
)
    requires
        pos < lines_in(t),
        directives::words_at(t, pos) == seq!["proxy_pass"@, name],
        grammar::line_at(t, pos) != "}"@,
        !text::has_prefix(name, "http://"@),
        !text::has_prefix(name, "https://"@),
        ups.dom().contains(name),
    ensures
        grammar::server_lines(t, pos, d, ups) matches Ok((d2, next)) ==> (grammar::server_added(
            t,
            next,
            d2,
            ups,
            s,
        ) matches Ok(s2) ==> {
            let n = d.upstream.peers.len() as int;
            let k = n + ups[name].peers.len();
            ||| d2.base_path is Some && s2.proxies == s.proxies
            ||| {
                &&& s2.proxies.len() == s.proxies.len() + 1
                &&& s2.proxies.drop_last() == s.proxies
                &&& s2.proxies.last().upstreams.len() >= k
                &&& s2.proxies.last().upstreams.take(n) == d.upstream.peers
                &&& s2.proxies.last().upstreams.subrange(n, k) == ups[name].peers
            }
        }),
{
    let peers = d.upstream.peers + ups[name].peers;
    let n = d.upstream.peers.len() as int;
    let k = n + ups[name].peers.len();
    directives::law_server_directives(t, pos, d, ups, seq!['x']);
    texts::law_prefix(name, "http://"@);
    texts::law_prefix(name, "https://"@);
    let m = DraftV {
        upstream: UpstreamV { peers, options: ups[name].options },
        proxy_pass: Some(name),
        ..d
    };
    assert(grammar::server_directive(t, pos, d, ups) == Ok::<(DraftV, nat), FaultV>((m, pos + 1)));
    law_backends_of_servers_stay(t, pos + 1, m, ups);
    if let Ok((d2, next)) = grammar::server_lines(t, pos, d, ups) {
        assert(d2.upstream.peers.take(k) == peers);
        law_finished_servers(t, next, d2, ups, s);
        if let Ok(s2) = grammar::server_added(t, next, d2, ups, s) {
            if d2.base_path is None {
                let got = s2.proxies.last().upstreams;
                assert(got == d2.upstream.peers);
                assert(got.take(n) =~= peers.take(n));
                assert(peers.take(n) =~= d.upstream.peers);
                assert(got.subrange(n, k) =~= peers.subrange(n, k));
                assert(peers.subrange(n, k) =~= ups[name].peers);
                assert(s2.proxies.drop_last() =~= s.proxies);
            }
        }
    }
}

/// The backends of a group that was opened anywhere before an `http` block are those of each proxy
/// there that names it and nothing else: what the block of the group read is what the proxy has.
pub proof fn law_groups_reach_the_proxies(
    t: Seq<char>,
    opened: nat,
    s: TopV,
    name: Seq<char>,
    u: UpstreamV,
    after: nat,
    m: TopV,
    http: nat,
    top: TopV,
    pos: nat,
    v: ServersV,
)
    requires
        opened < lines_in(t),
        opens_group(t, opened, name),
        text::has_suffix(grammar::line_at(t, opened), "{"@),
        grammar::upstream_block(t, opened + 1, UpstreamV::initial()) == Ok::<
            (UpstreamV, nat),
            FaultV,
        >((u, after)),
        grammar::top_directive(t, opened, s) == Ok::<(TopV, nat), FaultV>((m, after)),
        leads(t, after, m, http, top),
        forall|p: nat| after <= p < lines_in(t) ==> !#[trigger] opens_group(t, p, name),
        pos + 2 < lines_in(t),
        directives::words_at(t, pos).len() == 2,
        directives::words_at(t, pos)[0] == "listen"@,
        directives::words_at(t, pos + 1) == seq!["proxy_pass"@, name],
        grammar::line_at(t, pos) != "}"@,
        grammar::line_at(t, pos + 1) != "}"@,
        grammar::line_at(t, pos + 2) == "}"@,
        !text::has_prefix(name, "http://"@),
        !text::has_prefix(name, "https://"@),
    ensures
        grammar::server_block(t, pos, top.ups, v) matches Ok((v2, next)) && next == pos + 3
            && v2.files == v.files && v2.proxies.len() == v.proxies.len() + 1
            && v2.proxies.last().upstreams == u.peers && v2.proxies.last().upstream_options
            == u.options,
{
    law_groups_become_known(t, opened, s, name);
    law_groups_stay_known_to_the_end(t, after, m, http, top, name);
    let d = grammar::initial_draft(v.proxies.len() + v.files.len());
    let ups = top.ups;
    directives::law_server_directives(t, pos, d, ups, seq!['x']);
    directives::law_listen_directives(t, pos);
    texts::law_prefix(name, "http://"@);
    texts::law_prefix(name, "https://"@);
    let l = ListenerV::Tcp {
        addr: directives::words_at(t, pos)[1],
        tls: None,
        offer_h2: false,
    };
    let d1 = DraftV { listeners: d.listeners.push(l), ..d };
    assert(grammar::server_directive(t, pos, d, ups) == Ok::<(DraftV, nat), FaultV>((d1, pos + 1)));
    directives::law_server_directives(t, pos + 1, d1, ups, seq!['x']);
    let d2 = DraftV {
        upstream: UpstreamV {
            peers: d1.upstream.peers + ups[name].peers,
            options: ups[name].options,
        },
        proxy_pass: Some(name),
        ..d1
    };
    assert(grammar::server_directive(t, pos + 1, d1, ups) == Ok::<(DraftV, nat), FaultV>(
        (d2, pos + 2),
    ));
    assert(grammar::server_lines(t, pos + 2, d2, ups) == Ok::<(DraftV, nat), FaultV>(
        (d2, pos + 3),
    ));
    assert(grammar::server_lines(t, pos + 1, d1, ups) == Ok::<(DraftV, nat), FaultV>(
        (d2, pos + 3),
    ));
    assert(grammar::server_lines(t, pos, d, ups) == Ok::<(DraftV, nat), FaultV>((d2, pos + 3)));
    law_finished_servers(t, pos + 3, d2, ups, v);
    assert(d1.upstream.peers + ups[name].peers =~= u.peers);
}

} // verus!
