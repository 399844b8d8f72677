//! The configuration model that every file format is turned into.
use crate::logging::LoggingConfig;
use crate::proxy::rate_limiting;
use crate::proxy::rate_limiting::RateLimitingConfig;
use crate::text_map::TextMap;
use crate::views;
use vstd::prelude::*;

verus! {

/// How a backend is picked.
#[derive(Clone, Copy, Debug, PartialEq, Eq, Structural)]
pub enum SelectionKind {
    RoundRobin,
    Random,
    Fnv,
    Ketama,
}

/// How backends are watched.
#[derive(Clone, Copy, Debug, PartialEq, Eq, Structural)]
pub enum HealthCheckKind {
    Off,
}

/// How backends are found.
#[derive(Clone, Copy, Debug, PartialEq, Eq, Structural)]
pub enum DiscoveryKind {
    Static,
}

/// What part of a request the backend choice goes by.
#[derive(Clone, Copy, Debug, PartialEq, Eq, Structural)]
pub enum RequestSelector {
    Null,
    UriPath,
    SourceAddrAndUriPath,
}

/// The application protocols offered to a backend.
#[derive(Clone, Copy, Debug, PartialEq, Eq, Structural)]
pub enum ALPN {
    H1,
    H2,
    H2H1,
}

/// How the backends of a proxy are used.
#[derive(Clone, Copy, Debug, PartialEq, Eq, Structural)]
pub struct UpstreamOptions {
    pub selection: SelectionKind,
    pub selector: RequestSelector,
    pub health_checks: HealthCheckKind,
    pub discovery: DiscoveryKind,
}

impl UpstreamOptions {
    /// The options where a configuration gives none.
    pub open spec fn initial() -> UpstreamOptions {
        UpstreamOptions {
            selection: SelectionKind::RoundRobin,
            selector: RequestSelector::Null,
            health_checks: HealthCheckKind::Off,
            discovery: DiscoveryKind::Static,
        }
    }
}

impl Default for UpstreamOptions {
    fn default() -> (r: Self)
        ensures
            r == UpstreamOptions::initial(),
    {
        UpstreamOptions {
            selection: SelectionKind::RoundRobin,
            selector: RequestSelector::Null,
            health_checks: HealthCheckKind::Off,
            discovery: DiscoveryKind::Static,
        }
    }
}

/// A backend.
#[derive(Debug)]
pub struct HttpPeer {
    pub address: String,
    pub tls: bool,
    pub sni: String,
    pub alpn: ALPN,
}

/// The contents of an `HttpPeer`.
pub struct HttpPeerV {
    pub address: Seq<char>,
    pub tls: bool,
    pub sni: Seq<char>,
    pub alpn: ALPN,
}

impl View for HttpPeer {
    type V = HttpPeerV;

    open spec fn view(&self) -> HttpPeerV {
        HttpPeerV { address: self.address@, tls: self.tls, sni: self.sni@, alpn: self.alpn }
    }
}

impl Clone for HttpPeer {
    fn clone(&self) -> (r: Self)
        ensures
            r@ == self@,
    {
        HttpPeer {
            address: self.address.clone(),
            tls: self.tls,
            sni: self.sni.clone(),
            alpn: self.alpn,
        }
    }
}

impl HttpPeer {
    /// A backend that is offered HTTP/1 only.
    pub fn new(address: String, tls: bool, sni: String) -> (r: Self)
        ensures
            r@ == (HttpPeerV { address: address@, tls, sni: sni@, alpn: ALPN::H1 }),
    {
        HttpPeer { address, tls, sni, alpn: ALPN::H1 }
    }
}

/// Appends copies of `more` to `peers`.
pub fn extend_peers(peers: &mut Vec<HttpPeer>, more: &Vec<HttpPeer>)
    ensures
        views::views(final(peers)@) == views::views(old(peers)@) + views::views(more@),
{
    broadcast use views::group_views;

    let mut i: usize = 0;
    assert(views::views(peers@) + views::views(more@.take(0)) =~= views::views(peers@));
    while i < more.len()
        invariant
            i <= more@.len(),
            views::views(peers@) == views::views(old(peers)@) + views::views(more@.take(i as int)),
        decreases more@.len() - i,
    {
        broadcast use views::group_views;

        let peer = more[i].clone();
        proof {
            assert(more@.take(i + 1) =~= more@.take(i as int).push(more@[i as int]));
            assert(views::views(peers@).push(peer@) =~= views::views(old(peers)@) + views::views(
                more@.take(i as int),
            ).push(peer@));
        }
        peers.push(peer);
        i = i + 1;
    }
    assert(more@.take(i as int) =~= more@);
}

/// Certificate and key of a listener.
#[derive(Debug)]
pub struct TlsConfig {
    pub cert_path: String,
    pub key_path: String,
}

/// The contents of a `TlsConfig`.
pub struct TlsV {
    pub cert_path: Seq<char>,
    pub key_path: Seq<char>,
}

impl View for TlsConfig {
    type V = TlsV;

    open spec fn view(&self) -> TlsV {
        TlsV { cert_path: self.cert_path@, key_path: self.key_path@ }
    }
}

/// Where requests come in.
#[derive(Debug)]
pub enum ListenerKind {
    Tcp { addr: String, tls: Option<TlsConfig>, offer_h2: bool },
    Uds(String),
}

/// The contents of a `ListenerKind`.
pub enum ListenerV {
    Tcp { addr: Seq<char>, tls: Option<TlsV>, offer_h2: bool },
    Uds(Seq<char>),
}

impl View for ListenerKind {
    type V = ListenerV;

    open spec fn view(&self) -> ListenerV {
        match self {
            ListenerKind::Tcp { addr, tls, offer_h2 } => ListenerV::Tcp {
                addr: addr@,
                tls: views::opt_view(*tls),
                offer_h2: *offer_h2,
            },
            ListenerKind::Uds(path) => ListenerV::Uds(path@),
        }
    }
}

/// A listener.
#[derive(Debug)]
pub struct ListenerConfig {
    pub source: ListenerKind,
}

impl View for ListenerConfig {
    type V = ListenerV;

    open spec fn view(&self) -> ListenerV {
        self.source@
    }
}

/// The settings of one filter, by name.
pub type Settings = TextMap<String>;

/// The contents of filter settings.
pub type SettingsV = Map<Seq<char>, Seq<char>>;

/// The names and values that filter settings hold.
pub open spec fn settings_view(s: Map<Seq<char>, String>) -> SettingsV {
    s.map_values(|v: String| v@)
}

/// The contents of a list of filter settings.
pub open spec fn filters_view(s: Seq<Settings>) -> Seq<SettingsV> {
    s.map_values(|f: Settings| settings_view(f@))
}

/// The filters of a proxy.
pub struct PathControl {
    pub request_filters: Vec<Settings>,
    pub upstream_request_filters: Vec<Settings>,
    pub upstream_response_filters: Vec<Settings>,
}

/// The contents of a `PathControl`.
pub struct PathControlV {
    pub request_filters: Seq<SettingsV>,
    pub upstream_request_filters: Seq<SettingsV>,
    pub upstream_response_filters: Seq<SettingsV>,
}

impl View for PathControl {
    type V = PathControlV;

    open spec fn view(&self) -> PathControlV {
        PathControlV {
            request_filters: filters_view(self.request_filters@),
            upstream_request_filters: filters_view(self.upstream_request_filters@),
            upstream_response_filters: filters_view(self.upstream_response_filters@),
        }
    }
}

impl PathControlV {
    /// No filters.
    pub open spec fn initial() -> PathControlV {
        PathControlV {
            request_filters: Seq::empty(),
            upstream_request_filters: Seq::empty(),
            upstream_response_filters: Seq::empty(),
        }
    }
}

impl Default for PathControl {
    fn default() -> (r: Self)
        ensures
            r@ == PathControlV::initial(),
    {
        let r = PathControl {
            request_filters: Vec::new(),
            upstream_request_filters: Vec::new(),
            upstream_response_filters: Vec::new(),
        };
        assert(filters_view(r.request_filters@) =~= Seq::<SettingsV>::empty());
        assert(filters_view(r.upstream_request_filters@) =~= Seq::<SettingsV>::empty());
        assert(filters_view(r.upstream_response_filters@) =~= Seq::<SettingsV>::empty());
        r
    }
}

/// A reverse proxy.
pub struct ProxyConfig {
    pub name: String,
    pub listeners: Vec<ListenerConfig>,
    pub upstream_options: UpstreamOptions,
    pub upstreams: Vec<HttpPeer>,
    pub path_control: PathControl,
    pub rate_limiting: RateLimitingConfig,
    pub cache_enabled: bool,
    pub cache_ttl: u64,
    pub browser_cache_enabled: bool,
    pub browser_cache_ttl: u64,
    pub cache_dir: Option<String>,
    pub max_file_size: Option<usize>,
    pub shard_count: Option<usize>,
}

/// The contents of the cache settings of a proxy.
pub struct CacheV {
    pub enabled: bool,
    pub ttl: u64,
    pub browser_enabled: bool,
    pub browser_ttl: u64,
    pub dir: Option<Seq<char>>,
    pub max_file_size: Option<usize>,
    pub shard_count: Option<usize>,
}

/// The contents of a `ProxyConfig`.
pub struct ProxyV {
    pub name: Seq<char>,
    pub listeners: Seq<ListenerV>,
    pub upstream_options: UpstreamOptions,
    pub upstreams: Seq<HttpPeerV>,
    pub path_control: PathControlV,
    pub rate_limiting: Seq<rate_limiting::RuleV>,
    pub cache: CacheV,
}

impl View for ProxyConfig {
    type V = ProxyV;

    open spec fn view(&self) -> ProxyV {
        ProxyV {
            name: self.name@,
            listeners: views::views(self.listeners@),
            upstream_options: self.upstream_options,
            upstreams: views::views(self.upstreams@),
            path_control: self.path_control@,
            rate_limiting: self.rate_limiting@,
            cache: CacheV {
                enabled: self.cache_enabled,
                ttl: self.cache_ttl,
                browser_enabled: self.browser_cache_enabled,
                browser_ttl: self.browser_cache_ttl,
                dir: views::opt_view(self.cache_dir),
                max_file_size: self.max_file_size,
                shard_count: self.shard_count,
            },
        }
    }
}

/// A static file server.
#[derive(Debug)]
pub struct FileServerConfig {
    pub name: String,
    pub listeners: Vec<ListenerConfig>,
    pub base_path: Option<String>,
}

/// The contents of a `FileServerConfig`.
pub struct FileServerV {
    pub name: Seq<char>,
    pub listeners: Seq<ListenerV>,
    pub base_path: Option<Seq<char>>,
}

impl View for FileServerConfig {
    type V = FileServerV;

    open spec fn view(&self) -> FileServerV {
        FileServerV {
            name: self.name@,
            listeners: views::views(self.listeners@),
            base_path: views::opt_view(self.base_path),
        }
    }
}

/// The whole configuration.
pub struct Config {
    pub validate_configs: bool,
    pub threads_per_service: usize,
    pub daemonize: bool,
    pub pid_file: Option<String>,
    pub upgrade_socket: Option<String>,
    pub upgrade: bool,
    pub basic_proxies: Vec<ProxyConfig>,
    pub file_servers: Vec<FileServerConfig>,
    pub logging: LoggingConfig,
}

/// The contents of a `Config`, but for its log settings.
pub struct ConfigV {
    pub validate_configs: bool,
    pub threads_per_service: usize,
    pub daemonize: bool,
    pub pid_file: Option<Seq<char>>,
    pub upgrade_socket: Option<Seq<char>>,
    pub upgrade: bool,
    pub basic_proxies: Seq<ProxyV>,
    pub file_servers: Seq<FileServerV>,
}

impl View for Config {
    type V = ConfigV;

    open spec fn view(&self) -> ConfigV {
        ConfigV {
            validate_configs: self.validate_configs,
            threads_per_service: self.threads_per_service,
            daemonize: self.daemonize,
            pid_file: views::opt_view(self.pid_file),
            upgrade_socket: views::opt_view(self.upgrade_socket),
            upgrade: self.upgrade,
            basic_proxies: views::views(self.basic_proxies@),
            file_servers: views::views(self.file_servers@),
        }
    }
}

impl ConfigV {
    /// The configuration before any file or option is read.
    pub open spec fn initial() -> ConfigV {
        ConfigV {
            validate_configs: false,
            threads_per_service: 8,
            daemonize: false,
            pid_file: None,
            upgrade_socket: None,
            upgrade: false,
            basic_proxies: Seq::empty(),
            file_servers: Seq::empty(),
        }
    }
}

impl Default for Config {
    fn default() -> (r: Self)
        ensures
            r@ == ConfigV::initial(),
            r.logging.is_initial(),
    {
        broadcast use views::group_views;

        Config {
            validate_configs: false,
            threads_per_service: 8,
            daemonize: false,
            pid_file: None,
            upgrade_socket: None,
            upgrade: false,
            basic_proxies: Vec::new(),
            file_servers: Vec::new(),
            logging: LoggingConfig::default(),
        }
    }
}

} // verus!
