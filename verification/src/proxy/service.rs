//! The proxy service: what a configuration makes of it, and the order of its work on a request.
use crate::config::internal::{
    HttpPeer, ListenerConfig, ProxyConfig, ProxyV, RequestSelector, SelectionKind,
};
use crate::logging::LogEntry;
use crate::path;
use crate::proxy::cache::persistence;
use crate::proxy::cache::persistence::{PersistenceConfig, PersistenceV};
use crate::proxy::cache::service;
use crate::proxy::cache::service::{
    CacheBucket, CacheService, CacheSettingsV, MetadataV, SccMemoryCache,
};
use crate::proxy::compression::CompressionStrategy;
use crate::proxy::context;
use crate::proxy::context::StryvoContext;
use crate::proxy::header_utils;
use crate::proxy::headers;
use crate::proxy::headers::Fields;
use crate::proxy::modifiers;
use crate::proxy::modifiers::{Modifiers, ModifiersV};
use crate::proxy::pipeline;
use crate::proxy::pipeline::ResponsePipeline;
use crate::proxy::rate_limiting::{
    AllRateConfig, MultiRaterConfig, MultiRequestKeyKind, RuleV, SingleInstanceConfig,
    SingleRequestKeyKind,
};
use crate::views;
use pingora_http::{RequestHeader, ResponseHeader};
use vstd::prelude::*;
use vstd::string::*;
use vstd::utf8::*;

verus! {

/// How many entries the cache of a proxy holds.
pub const CACHE_CAPACITY: usize = 8192;

/// How many shards a cache has where nothing else is configured.
pub const DEFAULT_SHARD_COUNT: usize = 32;

/// How often the metadata of a cache are written, in seconds.
pub const METADATA_SYNC_INTERVAL: u64 = 5;

/// A rule with many buckets.
#[derive(Debug)]
pub struct MultiRule {
    pub kind: MultiRequestKeyKind,
    pub config: MultiRaterConfig,
}

/// A rule with one bucket.
#[derive(Debug)]
pub struct SingleRule {
    pub kind: SingleRequestKeyKind,
    pub config: SingleInstanceConfig,
}

impl View for MultiRule {
    type V = RuleV;

    open spec fn view(&self) -> RuleV {
        RuleV::Multi {
            kind: self.kind@,
            threads: self.config.threads,
            max_buckets: self.config.max_buckets,
            tokens: self.config.max_tokens_per_bucket,
            refill: self.config.refill_interval@,
            qty: self.config.refill_qty,
        }
    }
}

impl View for SingleRule {
    type V = RuleV;

    open spec fn view(&self) -> RuleV {
        RuleV::Single {
            pattern: self.kind@,
            tokens: self.config.max_tokens_per_bucket,
            refill: self.config.refill_interval@,
            qty: self.config.refill_qty,
        }
    }
}

/// The rate limiting rules of a proxy, by how many buckets they have.
#[derive(Debug)]
pub struct RateLimiters {
    pub request_filter_stage_multi: Vec<MultiRule>,
    pub request_filter_stage_single: Vec<SingleRule>,
}

/// The rules of a list that have many buckets.
pub open spec fn multi_rules(rules: Seq<RuleV>) -> Seq<RuleV>
    decreases rules.len(),
{
    if rules.len() == 0 {
        Seq::empty()
    } else if rules.last() is Multi {
        multi_rules(rules.drop_last()).push(rules.last())
    } else {
        multi_rules(rules.drop_last())
    }
}

/// The rules of a list that have one bucket.
pub open spec fn single_rules(rules: Seq<RuleV>) -> Seq<RuleV>
    decreases rules.len(),
{
    if rules.len() == 0 {
        Seq::empty()
    } else if rules.last() is Single {
        single_rules(rules.drop_last()).push(rules.last())
    } else {
        single_rules(rules.drop_last())
    }
}

impl RateLimiters {
    /// Sorts rules by how many buckets they have; each list keeps their order.
    pub fn from_rules(rules: Vec<AllRateConfig>) -> (r: Self)
        ensures
            views::views(r.request_filter_stage_multi@) == multi_rules(views::views(rules@)),
            views::views(r.request_filter_stage_single@) == single_rules(views::views(rules@)),
    {
        broadcast use views::group_views;

        let ghost all = views::views(rules@);
        let mut rules = rules;
        let mut multi: Vec<MultiRule> = Vec::new();
        let mut single: Vec<SingleRule> = Vec::new();
        let ghost mut k: int = 0;
        assert(all.take(0) =~= Seq::<RuleV>::empty());
        assert(all.skip(0) =~= all);
        while rules.len() > 0
            invariant
                0 <= k <= all.len(),
                views::views(rules@) == all.skip(k),
                views::views(multi@) == multi_rules(all.take(k)),
                views::views(single@) == single_rules(all.take(k)),
            decreases rules@.len(),
        {
            broadcast use views::group_views;

            let ghost rest = rules@;
            let rule = rules.remove(0);
            proof {
                assert(views::views(rest).len() == rest.len());
                assert(all.skip(k).len() == all.len() - k);
                assert(views::views(rest)[0] == rule@);
                assert(all.skip(k)[0] == all[k]);
                assert(all.take(k + 1).drop_last() =~= all.take(k));
                assert(all.take(k + 1).last() == rule@);
                assert(views::views(rules@) =~= views::views(rest).skip(1));
                assert(all.skip(k).skip(1) =~= all.skip(k + 1));
                k = k + 1;
            }
            match rule {
                AllRateConfig::Single { kind, config } => {
                    single.push(SingleRule { kind, config });
                },
                AllRateConfig::Multi { kind, config } => {
                    multi.push(MultiRule { kind, config });
                },
            }
        }
        assert(views::views(rules@).len() == 0);
        assert(all.take(k) =~= all);
        RateLimiters { request_filter_stage_multi: multi, request_filter_stage_single: single }
    }
}

/// Where the cache of a proxy keeps its files.
pub open spec fn cache_dir_of(p: ProxyV) -> Seq<char> {
    match p.cache.dir {
        Some(dir) => path::joined(dir, p.name),
        None => "/tmp/stryvo-cache/"@ + p.name,
    }
}

/// How many shards the cache of a proxy has.
pub open spec fn shard_count_of(p: ProxyV) -> usize {
    match p.cache.shard_count {
        Some(n) => n,
        None => DEFAULT_SHARD_COUNT,
    }
}

/// Where the cache of a proxy keeps its files, and how often its metadata are written.
pub open spec fn persistence_of(p: ProxyV) -> PersistenceV {
    PersistenceV {
        cache_dir: cache_dir_of(p),
        metadata_dir: path::joined(cache_dir_of(p), "metadata"@),
        metadata_sync_interval: METADATA_SYNC_INTERVAL,
        shard_count: shard_count_of(p),
    }
}

/// The settings of the cache of a proxy.
pub open spec fn cache_settings_of(p: ProxyV) -> CacheSettingsV {
    CacheSettingsV {
        capacity: CACHE_CAPACITY,
        compression: CompressionStrategy::Auto,
        ttl: p.cache.ttl,
        max_file_size: p.cache.max_file_size,
        persistence: Some(persistence_of(p)),
        cache_dir: cache_dir_of(p),
        shard_count: shard_count_of(p),
    }
}

/// A proxy service.
pub struct StryvoProxyService {
    /// All filters.
    pub modifiers: Modifiers,
    /// How a backend is picked.
    pub selection: SelectionKind,
    /// What part of a request the choice goes by.
    pub request_selector: RequestSelector,
    /// The rate limiting rules.
    pub rate_limiters: RateLimiters,
    /// The cache, where there is one.
    pub cache_service: Option<CacheService>,
    /// Whether browsers may keep responses.
    pub browser_cache_enabled: bool,
    /// How long browsers may keep responses, in seconds.
    pub browser_cache_ttl: Option<u64>,
}

/// All that is needed to start a proxy.
pub struct ServicePlan {
    pub name: String,
    pub service: StryvoProxyService,
    pub backends: Vec<HttpPeer>,
    pub listeners: Vec<ListenerConfig>,
    /// Where the cache keeps its files, where there is one.
    pub persistence: Option<PersistenceConfig>,
}

/// The cache of a proxy is empty and has its settings.
pub open spec fn is_cache_of(c: CacheService, p: ProxyV) -> bool {
    &&& c.name@ == "cache-"@ + p.name
    &&& c.bucket.storage.entries() == Map::<Seq<char>, MetadataV>::empty()
    &&& c.bucket.storage.settings() == cache_settings_of(p)
    &&& views::opt_view(c.bucket.persistence_config) == Some(persistence_of(p))
}

/// What is needed to start a proxy is as its configuration says, with these filters.
pub open spec fn is_plan_for(plan: ServicePlan, p: ProxyV, m: ModifiersV) -> bool {
    &&& plan.name@ == p.name
    &&& plan.service.modifiers@ == m
    &&& plan.service.selection == p.upstream_options.selection
    &&& plan.service.request_selector == p.upstream_options.selector
    &&& views::views(plan.service.rate_limiters.request_filter_stage_multi@) == multi_rules(
        p.rate_limiting,
    )
    &&& views::views(plan.service.rate_limiters.request_filter_stage_single@) == single_rules(
        p.rate_limiting,
    )
    &&& plan.service.browser_cache_enabled == p.cache.browser_enabled
    &&& plan.service.browser_cache_ttl == (if p.cache.browser_enabled {
        Some(p.cache.browser_ttl)
    } else {
        None
    })
    &&& views::views(plan.backends@) == p.upstreams
    &&& views::views(plan.listeners@) == p.listeners
    &&& if p.cache.enabled {
        &&& plan.service.cache_service matches Some(c) && is_cache_of(c, p)
        &&& plan.persistence matches Some(c) && c@ == persistence_of(p)
    } else {
        plan.service.cache_service is None && plan.persistence is None
    }
}

/// The first stage of a request.
pub open spec fn stage_first(has_cache: bool) -> RequestStage {
    if has_cache {
        RequestStage::Cache
    } else {
        RequestStage::RateLimits
    }
}

impl StryvoProxyService {
    /// The cache of a proxy.
    fn cache_from_conf(
        name: &str,
        cache_dir: &Option<String>,
        shard_count: Option<usize>,
        max_file_size: Option<usize>,
        ttl: u64,
        Ghost(p): Ghost<ProxyV>,
    ) -> (r: (CacheService, PersistenceConfig))
        requires
            p.name == name@,
            p.cache.dir == views::opt_view(*cache_dir),
            p.cache.shard_count == shard_count,
            p.cache.max_file_size == max_file_size,
            p.cache.ttl == ttl,
        ensures
            is_cache_of(r.0, p),
            r.1@ == persistence_of(p),
    {
        let dir = match cache_dir {
            Some(d) => path::join(d.as_str(), name),
            None => String::from_str("/tmp/stryvo-cache/").concat(name),
        };
        let count: usize = match shard_count {
            Some(n) => n,
            None => DEFAULT_SHARD_COUNT,
        };
        let config = PersistenceConfig::new(dir.as_str(), METADATA_SYNC_INTERVAL, count);
        let storage = SccMemoryCache::with_capacity(
            CACHE_CAPACITY,
            dir,
            count,
            max_file_size,
        ).with_ttl(ttl).with_compression(CompressionStrategy::Auto).with_persistence(
            config.clone(),
        );
        let cache_name = String::from_str("cache-").concat(name);
        (CacheService::new(CacheBucket::new(storage), cache_name), config)
    }

    /// Makes the service of a proxy, or says which of its filters cannot be built.
    pub fn from_basic_conf(conf: ProxyConfig) -> (r: Result<ServicePlan, &'static str>)
        ensures
            match modifiers::modifiers_of(conf@.path_control) {
                Ok(m) => r matches Ok(plan) && is_plan_for(plan, conf@, m),
                Err(e) => r matches Err(x) && x@ == e,
            },
    {
        let ghost p = conf@;
        let modifiers = match Modifiers::from_conf(&conf.path_control) {
            Ok(m) => m,
            Err(e) => {
                return Err(e);
            },
        };
        let (cache_service, persistence) = if conf.cache_enabled {
            let (service, config) = StryvoProxyService::cache_from_conf(
                conf.name.as_str(),
                &conf.cache_dir,
                conf.shard_count,
                conf.max_file_size,
                conf.cache_ttl,
                Ghost(p),
            );
            (Some(service), Some(config))
        } else {
            (None, None)
        };
        let rate_limiters = RateLimiters::from_rules(conf.rate_limiting.rules);
        Ok(
            ServicePlan {
                name: conf.name,
                service: StryvoProxyService {
                    modifiers,
                    selection: conf.upstream_options.selection,
                    request_selector: conf.upstream_options.selector,
                    rate_limiters,
                    cache_service,
                    browser_cache_enabled: conf.browser_cache_enabled,
                    browser_cache_ttl: if conf.browser_cache_enabled {
                        Some(conf.browser_cache_ttl)
                    } else {
                        None
                    },
                },
                backends: conf.upstreams,
                listeners: conf.listeners,
                persistence,
            },
        )
    }

    /// The state of a request that has just come in.
    pub fn new_ctx(&self) -> (r: StryvoContext)
        ensures
            r.selector_buf@.len() == 0,
            r.upstream_addr is None,
            r.cache_status is None,
            !r.should_cache_response,
            r.cache_body matches Some(chunks) && chunks@.len() == 0,
            r.cache_req_header is None,
            r.cache_resp_header is None,
            r.compression_encoding is None,
            r.browser_cache_enabled == self.browser_cache_enabled,
            r.browser_cache_ttl == self.browser_cache_ttl,
    {
        StryvoContext::new(self.browser_cache_enabled, self.browser_cache_ttl)
    }
}

/// The stages of a request before it is forwarded.
#[derive(Clone, Copy, Debug, PartialEq, Eq, Structural)]
pub enum RequestStage {
    /// The cache is asked.
    Cache,
    /// The rate limiters are asked.
    RateLimits,
    /// The filters are asked.
    Filters,
    /// It is decided whether the request has been answered.
    Decided(bool),
}

/// The stage behind another.
pub open spec fn stage_after(stage: RequestStage, answered: bool) -> RequestStage {
    match stage {
        RequestStage::Decided(b) => RequestStage::Decided(b),
        _ => if answered {
            RequestStage::Decided(true)
        } else {
            match stage {
                RequestStage::Cache => RequestStage::RateLimits,
                RequestStage::RateLimits => RequestStage::Filters,
                _ => RequestStage::Decided(false),
            }
        },
    }
}

impl StryvoProxyService {
    /// The first stage of a request: the cache is asked only where there is one.
    pub fn first_stage(&self) -> (r: RequestStage)
        ensures
            r == stage_first(self.cache_service is Some),
    {
        if self.cache_service.is_some() {
            RequestStage::Cache
        } else {
            RequestStage::RateLimits
        }
    }

    /// The stage behind another, which has or has not answered the request.
    pub fn next_stage(stage: RequestStage, answered: bool) -> (r: RequestStage)
        ensures
            r == stage_after(stage, answered),
    {
        match stage {
            RequestStage::Decided(b) => RequestStage::Decided(b),
            RequestStage::Cache => if answered {
                RequestStage::Decided(true)
            } else {
                RequestStage::RateLimits
            },
            RequestStage::RateLimits => if answered {
                RequestStage::Decided(true)
            } else {
                RequestStage::Filters
            },
            RequestStage::Filters => RequestStage::Decided(answered),
        }
    }

    /// Notes the backend that was picked for a request: `None` where there was none to pick, and
    /// `Some(None)` where it came without an address.
    pub fn note_peer(ctx: &mut StryvoContext, backend: Option<Option<String>>) -> (r: Result<
        (),
        &'static str,
    >)
        ensures
            match backend {
                None => {
                    &&& r matches Err(e) && e@ == "No backend available"@
                    &&& final(ctx).selector_buf == old(ctx).selector_buf
                    &&& final(ctx).upstream_addr == old(ctx).upstream_addr
                },
                Some(None) => {
                    &&& r matches Err(e) && e@ == "Missing backend metadata"@
                    &&& final(ctx).selector_buf@.len() == 0
                    &&& final(ctx).upstream_addr == old(ctx).upstream_addr
                },
                Some(Some(addr)) => {
                    &&& r is Ok
                    &&& final(ctx).selector_buf@.len() == 0
                    &&& final(ctx).upstream_addr == Some(addr)
                },
            },
            final(ctx).cache_status == old(ctx).cache_status,
            final(ctx).should_cache_response == old(ctx).should_cache_response,
            final(ctx).cache_body == old(ctx).cache_body,
            final(ctx).cache_req_header == old(ctx).cache_req_header,
            final(ctx).cache_resp_header == old(ctx).cache_resp_header,
            final(ctx).compression_encoding == old(ctx).compression_encoding,
            final(ctx).browser_cache_enabled == old(ctx).browser_cache_enabled,
            final(ctx).browser_cache_ttl == old(ctx).browser_cache_ttl,
    {
        match backend {
            None => Err("No backend available"),
            Some(found) => {
                ctx.selector_buf = Vec::new();
                match found {
                    Some(addr) => {
                        ctx.upstream_addr = Some(addr);
                        Ok(())
                    },
                    None => Err("Missing backend metadata"),
                }
            },
        }
    }
}

/// A request is decided after three stages at most, and it counts as answered exactly if one of
/// the stages it came to has answered it; none behind that is asked.
pub proof fn law_stages_come_to_a_decision(cached: bool, limited: bool, filtered: bool)
    ensures
        stage_after(RequestStage::Cache, true) == RequestStage::Decided(true),
        stage_after(RequestStage::RateLimits, true) == RequestStage::Decided(true),
        stage_after(
            stage_after(stage_after(RequestStage::Cache, cached), limited),
            filtered,
        ) == RequestStage::Decided(cached || limited || filtered),
        stage_after(stage_after(RequestStage::RateLimits, limited), filtered)
            == RequestStage::Decided(limited || filtered),
{
}

/// The fields of a response that has passed all stages.
pub open spec fn final_fields(
    f: Fields,
    cache_status: Seq<char>,
    enabled: bool,
    ttl: Option<u64>,
    accept: Option<Seq<char>>,
    m: ModifiersV,
) -> Fields {
    let g = header_utils::cache_fields(f, cache_status, enabled, ttl);
    let h = match pipeline::response_encoding(g, accept) {
        Some(e) => header_utils::compression_fields(g, e, None),
        None => g,
    };
    modifiers::response_changes(m.upstream_response_filters, h)
}

/// The fields for the cache take room for four names.
proof fn lemma_cache_room(
    f: Fields,
    status: Seq<char>,
    enabled: bool,
    ttl: Option<u64>,
    more: int,
)
    requires
        headers::room(f, more + 4),
        more >= 0,
    ensures
        headers::room(header_utils::cache_fields(f, status, enabled, ttl), more),
{
    headers::lemma_own_names();
    let server = seq![encode_utf8("Stryvo"@)];
    headers::lemma_room(f, "server"@, server, more + 3);
    let f1 = f.insert("server"@, server);
    let value = seq![encode_utf8(status)];
    headers::lemma_room(f1, "x-cache"@, value, more + 2);
    headers::lemma_room(f1.remove("x-cache"@), "x-cache"@, value, more + 2);
    headers::lemma_room(f1.remove("x-cache"@), "x-cache"@, value, more + 1);
    headers::lemma_room(f1.remove("x-cache"@), "x-cache"@, value, more);
    let f2 = f1.insert("x-cache"@, value);
    headers::lemma_room(f2, "cache-control"@, value, more + 1);
    let f3 = f2.remove("cache-control"@);
    let off = seq![encode_utf8("no-store, no-cache, must-revalidate"@)];
    headers::lemma_room(f3, "cache-control"@, off, more + 1);
    headers::lemma_room(f3, "cache-control"@, off, more);
    if let Some(n) = ttl {
        let age = seq![encode_utf8(header_utils::max_age(n))];
        headers::lemma_room(f3, "cache-control"@, age, more + 1);
        headers::lemma_room(f3.insert("cache-control"@, age), "pragma"@, age, more);
    }
    let f4 = f3.insert("cache-control"@, off);
    headers::lemma_room(
        f4,
        "pragma"@,
        headers::values_at(f4, "pragma"@).push(encode_utf8("no-cache"@)),
        more,
    );
}

impl StryvoProxyService {
    /// Takes a response through all stages: its cache fields, its compression, the filters and the
    /// access log, whose entry is returned.
    pub fn upstream_response_filter(
        &self,
        req_header: &RequestHeader,
        upstream_response: &mut ResponseHeader,
        ctx: &mut StryvoContext,
        current: u128,
    ) -> (r: LogEntry)
        requires
            headers::room(
                headers::response_fields(*old(upstream_response)),
                modifiers::appending(self.modifiers@.upstream_response_filters) + 6int,
            ),
            context::start_of(old(ctx).selector_buf@) matches Some(s) ==> s <= current,
        ensures
            ({
                let f = headers::response_fields(*old(upstream_response));
                let status = headers::response_status(*old(upstream_response));
                let known = views::opt_view(old(ctx).cache_status);
                let cacheable = service::cacheable(headers::request_method(*req_header), f);
                let has_cache = self.cache_service is Some;
                let cache_status = pipeline::response_cache_status(
                    has_cache,
                    known,
                    cacheable,
                    status,
                );
                let accept = pipeline::accepts(*req_header);
                let g = header_utils::cache_fields(
                    f,
                    cache_status,
                    self.browser_cache_enabled,
                    self.browser_cache_ttl,
                );
                &&& headers::response_status(*final(upstream_response)) == status
                &&& headers::response_fields(*final(upstream_response)) == final_fields(
                    f,
                    cache_status,
                    self.browser_cache_enabled,
                    self.browser_cache_ttl,
                    accept,
                    self.modifiers@,
                )
                &&& final(ctx).compression_encoding == (match pipeline::response_encoding(
                    g,
                    accept,
                ) {
                    Some(e) => Some(e),
                    None => old(ctx).compression_encoding,
                })
                &&& pipeline::keeps_headers(
                    *old(ctx),
                    *final(ctx),
                    *req_header,
                    *old(upstream_response),
                    pipeline::turns_cacheable(has_cache, known, cacheable, status),
                )
                &&& pipeline::logs(
                    r,
                    *req_header,
                    status,
                    *old(ctx),
                    current,
                    match known {
                        Some(s) => s,
                        None => ""@,
                    },
                )
            }),
            final(ctx).cache_body == old(ctx).cache_body,
            final(ctx).cache_status == old(ctx).cache_status,
            final(ctx).upstream_addr == old(ctx).upstream_addr,
            final(ctx).selector_buf == old(ctx).selector_buf,
            final(ctx).browser_cache_enabled == old(ctx).browser_cache_enabled,
            final(ctx).browser_cache_ttl == old(ctx).browser_cache_ttl,
    {
        let ghost f = headers::response_fields(*upstream_response);
        let ghost n = modifiers::appending(self.modifiers@.upstream_response_filters) as int;
        let cache_status = ResponsePipeline::process_cache_status(
            req_header,
            upstream_response,
            ctx,
            self.cache_service.is_some(),
            self.browser_cache_enabled,
            self.browser_cache_ttl,
        );
        let ghost g = headers::response_fields(*upstream_response);
        proof {
            lemma_cache_room(
                f,
                cache_status@,
                self.browser_cache_enabled,
                self.browser_cache_ttl,
                n + 2,
            );
        }
        ResponsePipeline::process_compression_setup(req_header, upstream_response, ctx);
        proof {
            if let Some(e) = pipeline::response_encoding(g, pipeline::accepts(*req_header)) {
                pipeline::lemma_compression_room(g, e, n);
            }
        }
        ResponsePipeline::process_response_filters(
            upstream_response,
            &self.modifiers.upstream_response_filters,
        );
        ResponsePipeline::process_logging(req_header, upstream_response, ctx, current)
    }
}

} // verus!
