//! Laws on the contents of the data types: they are what the fields hold, one by one.
use crate::config::internal::{
    Config, FileServerConfig, HttpPeer, ListenerConfig, ListenerKind, ListenerV, ProxyConfig,
    TlsConfig,
};
use crate::text_map;
use crate::views;
use vstd::prelude::*;

verus! {

/// The contents of a list are those of its items, in their order, and those of an optional value are
/// those of the value where there is one.
pub proof fn law_contents_of_lists<T: View>(s: Seq<T>, i: int, x: T)
    ensures
        views::views(s).len() == s.len(),
        0 <= i < s.len() ==> views::views(s)[i] == s[i]@,
        views::opt_view(Some(x)) == Some(x@),
        views::opt_view(None::<T>) is None,
{
}

/// The contents of a map are its pairs: one more pair is one more entry, and without pairs there is
/// none.
pub proof fn law_contents_of_maps<V>(p: Seq<(Seq<char>, V)>, key: Seq<char>, value: V)
    ensures
        text_map::map_of(Seq::<(Seq<char>, V)>::empty()) == Map::<Seq<char>, V>::empty(),
        text_map::map_of(p.push((key, value))) == text_map::map_of(p).insert(key, value),
{
    assert(p.push((key, value)).drop_last() =~= p);
}

/// The contents of a configuration are those of its fields.
pub proof fn law_contents_of_configurations(c: Config, i: int)
    ensures
        c@.validate_configs == c.validate_configs,
        c@.threads_per_service == c.threads_per_service,
        c@.daemonize == c.daemonize,
        c@.upgrade == c.upgrade,
        c.pid_file matches Some(p) ==> c@.pid_file == Some(p@),
        c.pid_file is None ==> c@.pid_file is None,
        c.upgrade_socket matches Some(p) ==> c@.upgrade_socket == Some(p@),
        c.upgrade_socket is None ==> c@.upgrade_socket is None,
        c@.basic_proxies.len() == c.basic_proxies@.len(),
        0 <= i < c.basic_proxies@.len() ==> c@.basic_proxies[i] == c.basic_proxies@[i]@,
        c@.file_servers.len() == c.file_servers@.len(),
        0 <= i < c.file_servers@.len() ==> c@.file_servers[i] == c.file_servers@[i]@,
{
}

/// The contents of a proxy are those of its fields.
pub proof fn law_contents_of_proxies(p: ProxyConfig, i: int)
    ensures
        p@.name == p.name@,
        p@.listeners.len() == p.listeners@.len(),
        0 <= i < p.listeners@.len() ==> p@.listeners[i] == p.listeners@[i]@,
        p@.upstreams.len() == p.upstreams@.len(),
        0 <= i < p.upstreams@.len() ==> p@.upstreams[i] == p.upstreams@[i]@,
        p@.upstream_options == p.upstream_options,
        p@.path_control == p.path_control@,
        p@.rate_limiting.len() == p.rate_limiting.rules@.len(),
        0 <= i < p.rate_limiting.rules@.len() ==> p@.rate_limiting[i] == p.rate_limiting.rules@[i]@,
        p@.cache.enabled == p.cache_enabled,
        p@.cache.ttl == p.cache_ttl,
        p@.cache.browser_enabled == p.browser_cache_enabled,
        p@.cache.browser_ttl == p.browser_cache_ttl,
        p.cache_dir matches Some(d) ==> p@.cache.dir == Some(d@),
        p.cache_dir is None ==> p@.cache.dir is None,
        p@.cache.max_file_size == p.max_file_size,
        p@.cache.shard_count == p.shard_count,
{
}

/// The contents of a file server, of a backend and of a listener are those of their fields.
pub proof fn law_contents_of_servers(
    f: FileServerConfig,
    b: HttpPeer,
    addr: String,
    tls: TlsConfig,
    h2: bool,
    i: int,
)
    ensures
        f@.name == f.name@,
        f.base_path matches Some(d) ==> f@.base_path == Some(d@),
        f.base_path is None ==> f@.base_path is None,
        f@.listeners.len() == f.listeners@.len(),
        0 <= i < f.listeners@.len() ==> f@.listeners[i] == f.listeners@[i]@,
        b@.address == b.address@ && b@.tls == b.tls && b@.sni == b.sni@ && b@.alpn == b.alpn,
        tls@.cert_path == tls.cert_path@ && tls@.key_path == tls.key_path@,
        (ListenerConfig {
            source: ListenerKind::Tcp { addr, tls: Some(tls), offer_h2: h2 },
        })@ == (ListenerV::Tcp { addr: addr@, tls: Some(tls@), offer_h2: h2 }),
        (ListenerConfig { source: ListenerKind::Tcp { addr, tls: None, offer_h2: h2 } })@ == (
        ListenerV::Tcp { addr: addr@, tls: None, offer_h2: h2 }),
        (ListenerConfig { source: ListenerKind::Uds(addr) })@ == ListenerV::Uds(addr@),
{
}

} // verus!
