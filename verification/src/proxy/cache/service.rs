//! The cache in memory: lookup, storing and eviction.
use crate::clock::Instant;
use crate::proxy::buffer;
use crate::proxy::cache::persistence;
use crate::proxy::cache::persistence::{PersistenceConfig, PersistenceV};
use crate::proxy::compression;
use crate::proxy::compression::CompressionStrategy;
use crate::proxy::headers;
use crate::text;
use crate::text_map;
use crate::text_map::TextMap;
use crate::views;
use bytes::Bytes;
use pingora_http::{RequestHeader, ResponseHeader};
use vstd::prelude::*;
use vstd::string::*;
use vstd::utf8::*;

verus! {

/// How long an entry lives where nothing else is configured, in seconds.
pub const DEFAULT_CACHE_TTL: u64 = 3600;

/// What the cache knows of a stored response.
#[derive(Debug)]
pub struct CacheMetadata {
    pub headers: Vec<(String, String)>,
    pub status: u16,
    pub created_at: Instant,
    pub ttl: u64,
    pub body_path: String,
    pub body_size: usize,
}

/// The contents of a `CacheMetadata`.
pub struct MetadataV {
    pub headers: Seq<(Seq<char>, Seq<char>)>,
    pub status: u16,
    pub created_at: Instant,
    pub ttl: u64,
    pub body_path: Seq<char>,
    pub body_size: usize,
}

/// Header fields as pairs of texts.
pub open spec fn header_views(p: Seq<(String, String)>) -> Seq<(Seq<char>, Seq<char>)> {
    p.map_values(|e: (String, String)| (e.0@, e.1@))
}

impl View for CacheMetadata {
    type V = MetadataV;

    open spec fn view(&self) -> MetadataV {
        MetadataV {
            headers: header_views(self.headers@),
            status: self.status,
            created_at: self.created_at,
            ttl: self.ttl,
            body_path: self.body_path@,
            body_size: self.body_size,
        }
    }
}

impl MetadataV {
    /// More than `ttl` whole seconds have passed at `now`.
    pub open spec fn expired(self, now: Instant) -> bool {
        self.created_at.age(now) > self.ttl
    }
}

/// A copy of header fields.
pub fn copy_headers(p: &Vec<(String, String)>) -> (r: Vec<(String, String)>)
    ensures
        header_views(r@) == header_views(p@),
{
    let mut out: Vec<(String, String)> = Vec::new();
    let mut i: usize = 0;
    while i < p.len()
        invariant
            i <= p@.len(),
            out@.len() == i,
            forall|j: int|
                0 <= j < i ==> (#[trigger] out@[j]).0@ == p@[j].0@ && out@[j].1@ == p@[j].1@,
        decreases p@.len() - i,
    {
        out.push((p[i].0.clone(), p[i].1.clone()));
        i = i + 1;
    }
    assert(header_views(out@) =~= header_views(p@));
    out
}

impl Clone for CacheMetadata {
    fn clone(&self) -> (r: Self)
        ensures
            r@ == self@,
    {
        CacheMetadata {
            headers: copy_headers(&self.headers),
            status: self.status,
            created_at: self.created_at,
            ttl: self.ttl,
            body_path: self.body_path.clone(),
            body_size: self.body_size,
        }
    }
}

impl CacheMetadata {
    /// Whether the entry has outlived its time at `now`.
    pub fn is_expired(&self, now: Instant) -> (r: bool)
        ensures
            r == self@.expired(now),
    {
        self.created_at.elapsed_secs(now) > self.ttl
    }
}

/// The entries of the cache by key.
pub type Entries = Map<Seq<char>, MetadataV>;

/// The contents of the entries of the cache.
pub open spec fn entries_view(m: Map<Seq<char>, CacheMetadata>) -> Entries {
    m.map_values(|e: CacheMetadata| e@)
}

/// What a lookup gives.
pub enum CacheResult {
    Hit { body: Bytes, headers: Vec<(String, String)>, status: u16 },
    Miss,
}

/// The contents of a `CacheResult`.
pub enum CacheResultV {
    Hit { body: Seq<u8>, headers: Seq<(Seq<char>, Seq<char>)>, status: u16 },
    Miss,
}

impl View for CacheResult {
    type V = CacheResultV;

    open spec fn view(&self) -> CacheResultV {
        match self {
            CacheResult::Hit { body, headers, status } => CacheResultV::Hit {
                body: buffer::contents(*body),
                headers: header_views(headers@),
                status: *status,
            },
            CacheResult::Miss => CacheResultV::Miss,
        }
    }
}

/// The cache in memory.
pub struct SccMemoryCache {
    pub cache: TextMap<CacheMetadata>,
    pub capacity: usize,
    pub compression: CompressionStrategy,
    pub ttl: u64,
    pub max_file_size: Option<usize>,
    pub persistence: Option<PersistenceConfig>,
    pub cache_dir: String,
    pub shard_count: usize,
}

/// The settings of a cache.
pub struct CacheSettingsV {
    pub capacity: usize,
    pub compression: CompressionStrategy,
    pub ttl: u64,
    pub max_file_size: Option<usize>,
    pub persistence: Option<PersistenceV>,
    pub cache_dir: Seq<char>,
    pub shard_count: usize,
}

impl SccMemoryCache {
    /// The settings.
    pub open spec fn settings(self) -> CacheSettingsV {
        CacheSettingsV {
            capacity: self.capacity,
            compression: self.compression,
            ttl: self.ttl,
            max_file_size: self.max_file_size,
            persistence: views::opt_view(self.persistence),
            cache_dir: self.cache_dir@,
            shard_count: self.shard_count,
        }
    }

    /// The entries.
    pub open spec fn entries(self) -> Entries {
        entries_view(self.cache@)
    }

    /// An empty cache.
    pub fn with_capacity(
        capacity: usize,
        cache_dir: String,
        shard_count: usize,
        max_file_size: Option<usize>,
    ) -> (r: Self)
        ensures
            r.entries() == Map::<Seq<char>, MetadataV>::empty(),
            r.settings() == (CacheSettingsV {
                capacity,
                compression: CompressionStrategy::Auto,
                ttl: DEFAULT_CACHE_TTL,
                max_file_size,
                persistence: None,
                cache_dir: cache_dir@,
                shard_count,
            }),
    {
        let r = SccMemoryCache {
            cache: TextMap::new(),
            capacity,
            compression: CompressionStrategy::default(),
            ttl: DEFAULT_CACHE_TTL,
            max_file_size,
            persistence: None,
            cache_dir,
            shard_count,
        };
        assert(r.entries() =~= Map::<Seq<char>, MetadataV>::empty());
        r
    }

    /// The cache with a way to compress.
    pub fn with_compression(self, compression: CompressionStrategy) -> (r: Self)
        ensures
            r.entries() == self.entries(),
            r.settings() == (CacheSettingsV { compression, ..self.settings() }),
    {
        let mut r = self;
        r.compression = compression;
        r
    }

    /// The cache with a time to live.
    pub fn with_ttl(self, ttl: u64) -> (r: Self)
        ensures
            r.entries() == self.entries(),
            r.settings() == (CacheSettingsV { ttl, ..self.settings() }),
    {
        let mut r = self;
        r.ttl = ttl;
        r
    }

    /// The cache with a place on disk, which also says where bodies lie.
    pub fn with_persistence(self, persistence_config: PersistenceConfig) -> (r: Self)
        ensures
            r.entries() == self.entries(),
            r.settings() == (CacheSettingsV {
                persistence: Some(persistence_config@),
                cache_dir: persistence_config.cache_dir@,
                shard_count: persistence_config.shard_count,
                ..self.settings()
            }),
    {
        let mut r = self;
        r.cache_dir = persistence_config.cache_dir.clone();
        r.shard_count = persistence_config.shard_count;
        r.persistence = Some(persistence_config);
        r
    }
}

/// The key of a request: its method and its target.
pub open spec fn cache_key(method: Seq<char>, uri: Seq<char>) -> Seq<char> {
    method + " "@ + uri
}

/// The key of a request.
pub open spec fn request_key(h: RequestHeader) -> Seq<char> {
    cache_key(headers::request_method(h), headers::request_uri(h))
}

/// The key of a request.
pub fn generate_cache_key(req_header: &RequestHeader) -> (r: String)
    ensures
        r@ == request_key(*req_header),
{
    let uri = headers::request_uri_text(req_header);
    headers::request_method_text(req_header).concat(" ").concat(uri.as_str())
}

impl CacheSettingsV {
    /// The file that holds the body of a key.
    pub open spec fn file_of(self, key: Seq<char>) -> Seq<char> {
        persistence::body_path(
            self.cache_dir,
            self.shard_count,
            persistence::crc32_of(encode_utf8(key)),
        )
    }

    /// The file that the body of a key is written to first.
    pub open spec fn temp_of(self, key: Seq<char>) -> Seq<char> {
        persistence::temp_path(
            self.cache_dir,
            self.shard_count,
            persistence::crc32_of(encode_utf8(key)),
        )
    }
}

impl SccMemoryCache {
    /// The file that holds the body of a key, and the file it is written to first.
    fn cache_file_paths(&self, cache_key: &str) -> (r: (String, String))
        requires
            persistence::shards(self.shard_count) > 0,
        ensures
            r.0@ == self.settings().file_of(cache_key@),
            r.1@ == self.settings().temp_of(cache_key@),
    {
        let hash = persistence::crc32(cache_key.as_bytes());
        persistence::body_paths_for(self.cache_dir.as_str(), self.shard_count, hash)
    }

    /// The file that holds the body of a key.
    pub fn get_cache_file_path(&self, cache_key: &str) -> (r: String)
        requires
            persistence::shards(self.shard_count) > 0,
        ensures
            r@ == self.settings().file_of(cache_key@),
    {
        self.cache_file_paths(cache_key).0
    }

    /// The directories that bodies need: the cache directory, then those of all shards.
    pub fn cache_dirs(&self) -> (r: Vec<String>)
        requires
            self.shard_count < usize::MAX,
        ensures
            r@.len() == self.shard_count + 1,
            r@[0]@ == self.cache_dir@,
            forall|i: int|
                0 <= i < self.shard_count ==> (#[trigger] r@[i + 1])@ == persistence::shard_path(
                    self.cache_dir@,
                    i as nat,
                ),
    {
        let mut out: Vec<String> = Vec::new();
        out.push(self.cache_dir.clone());
        let mut i: usize = 0;
        while i < self.shard_count
            invariant
                i <= self.shard_count,
                self.shard_count < usize::MAX,
                out@.len() == i + 1,
                out@[0]@ == self.cache_dir@,
                forall|j: int|
                    0 <= j < i ==> (#[trigger] out@[j + 1])@ == persistence::shard_path(
                        self.cache_dir@,
                        j as nat,
                    ),
            decreases self.shard_count - i,
        {
            out.push(persistence::shard_dir_in(self.cache_dir.as_str(), i));
            i = i + 1;
        }
        out
    }
}

/// What is left to do for a lookup whose answer is known.
pub struct LookupOutcome {
    /// The answer.
    pub result: CacheResult,
    /// A file to delete, where it exists.
    pub delete: Option<String>,
    /// Whether what the cache knows is to be written to disk, and the shard of the key cleaned.
    pub persist: bool,
}

/// The contents of a `LookupOutcome`.
pub struct LookupOutcomeV {
    pub result: CacheResultV,
    pub delete: Option<Seq<char>>,
    pub persist: bool,
}

impl View for LookupOutcome {
    type V = LookupOutcomeV;

    open spec fn view(&self) -> LookupOutcomeV {
        LookupOutcomeV {
            result: self.result@,
            delete: views::opt_view(self.delete),
            persist: self.persist,
        }
    }
}

/// How a lookup goes on.
pub enum LookupPlan {
    /// The answer is known.
    Done(LookupOutcome),
    /// There is no entry: see whether a file lies here all the same.
    CheckFile(String),
    /// There is an entry: read the file of its body.
    Read(CacheMetadata),
}

/// The contents of a `LookupPlan`.
pub enum LookupPlanV {
    Done(LookupOutcomeV),
    CheckFile(Seq<char>),
    Read(MetadataV),
}

impl View for LookupPlan {
    type V = LookupPlanV;

    open spec fn view(&self) -> LookupPlanV {
        match self {
            LookupPlan::Done(o) => LookupPlanV::Done(o@),
            LookupPlan::CheckFile(p) => LookupPlanV::CheckFile(p@),
            LookupPlan::Read(m) => LookupPlanV::Read(m@),
        }
    }
}

/// What came of reading the file of a body.
pub enum BodyRead {
    Missing,
    Failed,
    Bytes(Vec<u8>),
}

/// A miss, with what is left to do.
pub open spec fn miss(delete: Option<Seq<char>>, persist: bool) -> LookupOutcomeV {
    LookupOutcomeV { result: CacheResultV::Miss, delete, persist }
}

/// How the lookup of a key goes on: an entry that has outlived its time is a miss.
pub open spec fn lookup_plan(
    e: Entries,
    s: CacheSettingsV,
    key: Seq<char>,
    now: Instant,
) -> LookupPlanV {
    if !e.dom().contains(key) {
        LookupPlanV::CheckFile(s.file_of(key))
    } else if e[key].expired(now) {
        LookupPlanV::Done(miss(Some(e[key].body_path), true))
    } else {
        LookupPlanV::Read(e[key])
    }
}

/// The entries once a lookup has started: one that has outlived its time is gone.
pub open spec fn lookup_entries(e: Entries, key: Seq<char>, now: Instant) -> Entries {
    if e.dom().contains(key) && e[key].expired(now) {
        e.remove(key)
    } else {
        e
    }
}

/// What a lookup comes to once the file of an entry's body has been read.
pub open spec fn read_outcome(
    compression: CompressionStrategy,
    m: MetadataV,
    read: BodyRead,
) -> LookupOutcomeV {
    match read {
        BodyRead::Bytes(v) => match compression.unpacked(v@) {
            Ok(body) => LookupOutcomeV {
                result: CacheResultV::Hit { body, headers: m.headers, status: m.status },
                delete: None,
                persist: false,
            },
            Err(_) => miss(Some(m.body_path), true),
        },
        _ => miss(None, true),
    }
}

/// The entries once the file of an entry's body has been read.
pub open spec fn read_entries(
    e: Entries,
    key: Seq<char>,
    compression: CompressionStrategy,
    read: BodyRead,
) -> Entries {
    match read {
        BodyRead::Bytes(v) => if compression.unpacked(v@) is Ok {
            e
        } else {
            e.remove(key)
        },
        _ => e.remove(key),
    }
}

/// The outcome of a lookup without an entry: a file that lies there all the same is deleted.
pub open spec fn absent_outcome(body_path: Seq<char>, present: bool) -> LookupOutcomeV {
    if present {
        miss(Some(body_path), true)
    } else {
        miss(None, false)
    }
}

impl SccMemoryCache {
    /// Takes an entry out.
    fn remove_entry(&mut self, key: &str)
        ensures
            final(self).settings() == old(self).settings(),
            final(self).entries() == old(self).entries().remove(key@),
    {
        self.cache.remove(key);
        assert(self.entries() =~= old(self).entries().remove(key@));
    }

    /// Starts the lookup of a request.
    pub fn begin_lookup(&mut self, req_header: &RequestHeader, now: Instant) -> (r: (
        String,
        LookupPlan,
    ))
        requires
            old(self).entries().dom().contains(request_key(*req_header)) || persistence::shards(
                old(self).shard_count,
            ) > 0,
        ensures
            final(self).settings() == old(self).settings(),
            r.0@ == request_key(*req_header),
            final(self).entries() == lookup_entries(
                old(self).entries(),
                request_key(*req_header),
                now,
            ),
            r.1@ == lookup_plan(
                old(self).entries(),
                old(self).settings(),
                request_key(*req_header),
                now,
            ),
    {
        let key = generate_cache_key(req_header);
        let found: Option<CacheMetadata> = match self.cache.get(key.as_str()) {
            Some(metadata) => Some(metadata.clone()),
            None => None,
        };
        match found {
            Some(metadata) => if metadata.is_expired(now) {
                self.remove_entry(key.as_str());
                let outcome = LookupOutcome {
                    result: CacheResult::Miss,
                    delete: Some(metadata.body_path),
                    persist: true,
                };
                (key, LookupPlan::Done(outcome))
            } else {
                (key, LookupPlan::Read(metadata))
            },
            None => {
                let path = self.get_cache_file_path(key.as_str());
                (key, LookupPlan::CheckFile(path))
            },
        }
    }

    /// Ends a lookup that found no entry: a file that lies there all the same goes.
    pub fn end_without_entry(body_path: String, present: bool) -> (r: LookupOutcome)
        ensures
            r@ == absent_outcome(body_path@, present),
    {
        LookupOutcome {
            result: CacheResult::Miss,
            delete: if present {
                Some(body_path)
            } else {
                None
            },
            persist: present,
        }
    }

    /// Ends a lookup that found an entry.
    pub fn end_with_entry(&mut self, key: &str, metadata: CacheMetadata, read: BodyRead) -> (r:
        LookupOutcome)
        ensures
            final(self).settings() == old(self).settings(),
            final(self).entries() == read_entries(
                old(self).entries(),
                key@,
                old(self).compression,
                read,
            ),
            r@ == read_outcome(old(self).compression, metadata@, read),
    {
        match read {
            BodyRead::Bytes(v) => {
                let packed = buffer::from_vec(v);
                match self.compression.decompress(&packed) {
                    Ok(body) => LookupOutcome {
                        result: CacheResult::Hit {
                            body,
                            headers: metadata.headers,
                            status: metadata.status,
                        },
                        delete: None,
                        persist: false,
                    },
                    Err(_) => {
                        self.remove_entry(key);
                        LookupOutcome {
                            result: CacheResult::Miss,
                            delete: Some(metadata.body_path),
                            persist: true,
                        }
                    },
                }
            },
            _ => {
                self.remove_entry(key);
                LookupOutcome { result: CacheResult::Miss, delete: None, persist: true }
            },
        }
    }
}

/// A response that is ready to be stored.
pub struct StorePlan {
    pub key: String,
    pub headers: Vec<(String, String)>,
    pub status: u16,
    /// The body as it goes to disk.
    pub body: Bytes,
    pub body_path: String,
    /// The file that the body is written to before it gets its name.
    pub temp_path: String,
}

/// The contents of a `StorePlan`.
pub struct StorePlanV {
    pub key: Seq<char>,
    pub headers: Seq<(Seq<char>, Seq<char>)>,
    pub status: u16,
    pub body: Seq<u8>,
    pub body_path: Seq<char>,
    pub temp_path: Seq<char>,
}

impl View for StorePlan {
    type V = StorePlanV;

    open spec fn view(&self) -> StorePlanV {
        StorePlanV {
            key: self.key@,
            headers: header_views(self.headers@),
            status: self.status,
            body: buffer::contents(self.body),
            body_path: self.body_path@,
            temp_path: self.temp_path@,
        }
    }
}

/// A body larger than what may be stored.
pub open spec fn too_large(s: CacheSettingsV, body: Seq<u8>) -> bool {
    s.max_file_size matches Some(max) && body.len() > max
}

/// A response that forbids to store it.
pub open spec fn forbids_storing(f: headers::Fields) -> bool {
    headers::first_text(f, "cache-control"@) matches Some(t) && text::has_infix(
        text::lowered(t),
        "no-store"@,
    )
}

/// A field value as it is stored: empty where it cannot be read as text.
pub open spec fn stored_value(v: Seq<u8>) -> Seq<char> {
    match headers::visible_text(v) {
        Some(t) => t,
        None => Seq::empty(),
    }
}

/// Fields as they are stored.
pub open spec fn stored_pairs(p: Seq<(Seq<char>, Seq<u8>)>) -> Seq<(Seq<char>, Seq<char>)> {
    p.map_values(|e: (Seq<char>, Seq<u8>)| (e.0, stored_value(e.1)))
}

/// A list that holds all fields of a header; under one name the values keep their order.
pub open spec fn lists_fields(p: Seq<(Seq<char>, Seq<u8>)>, f: headers::Fields) -> bool {
    forall|name: Seq<char>| #[trigger]
        headers::values_named(p, name) == headers::values_at(f, name)
}

/// Every name among the fields can be given as a text.
pub open spec fn names_valid(f: headers::Fields) -> bool {
    forall|name: Seq<char>| #[trigger] f.dom().contains(name) ==> headers::valid_name(name)
}

/// The names that stored fields have in a header.
pub open spec fn stored_names(stored: Seq<(Seq<char>, Seq<char>)>) -> Set<Seq<char>>
    decreases stored.len(),
{
    if stored.len() == 0 {
        Set::empty()
    } else {
        stored_names(stored.drop_last()).insert(text::lowered(stored.last().0))
    }
}

/// Whether a header has room for stored fields and for `more` names.
pub open spec fn stored_fits(stored: Seq<(Seq<char>, Seq<char>)>, more: int) -> bool {
    stored_names(stored).len() + more <= headers::MAX_NAMES
}

/// The names of stored fields are those of each.
pub proof fn lemma_stored_names(stored: Seq<(Seq<char>, Seq<char>)>)
    ensures
        stored_names(stored).finite(),
        forall|i: int|
            0 <= i < stored.len() ==> stored_names(stored).contains(
                text::lowered((#[trigger] stored[i]).0),
            ),
    decreases stored.len(),
{
    if stored.len() > 0 {
        let front = stored.drop_last();
        lemma_stored_names(front);
        assert forall|i: int| 0 <= i < stored.len() implies stored_names(stored).contains(
            text::lowered((#[trigger] stored[i]).0),
        ) by {
            if i < front.len() {
                assert(front[i] == stored[i]);
            }
        }
    }
}

/// Fields whose names are all among those of stored ones leave room for as many as they do.
pub proof fn lemma_stored_room(
    stored: Seq<(Seq<char>, Seq<char>)>,
    f: headers::Fields,
    more: int,
)
    requires
        stored_fits(stored, more),
        f.dom().subset_of(stored_names(stored)),
    ensures
        headers::room(f, more),
{
    lemma_stored_names(stored);
    vstd::set_lib::lemma_len_subset(f.dom(), stored_names(stored));
}

/// Whether a header has room for stored fields and for `more` names.
pub fn stored_has_room(stored: &Vec<(String, String)>, more: usize) -> (r: bool)
    ensures
        r == stored_fits(header_views(stored@), more as int),
{
    let ghost all = header_views(stored@);
    let mut names: TextMap<()> = TextMap::new();
    let mut i: usize = 0;
    assert(all.take(0) =~= Seq::<(Seq<char>, Seq<char>)>::empty());
    assert(names@.dom() =~= stored_names(all.take(0)));
    while i < stored.len()
        invariant
            i <= stored@.len(),
            all == header_views(stored@),
            names@.dom() == stored_names(all.take(i as int)),
        decreases stored@.len() - i,
    {
        let ghost before = names@;
        let name = text::to_lower(stored[i].0.as_str());
        proof {
            assert(all.take(i + 1).drop_last() =~= all.take(i as int));
            assert(all.take(i + 1).last() == (stored@[i as int].0@, stored@[i as int].1@));
            assert(before.insert(name@, ()).dom() =~= before.dom().insert(name@));
        }
        names.insert(name, ());
        i = i + 1;
    }
    assert(all.take(i as int) =~= all);
    let n = names.len();
    n <= headers::MAX_NAMES && more <= headers::MAX_NAMES - n
}

/// Stored fields that a response can be sent with.
pub open spec fn sendable(stored: Seq<(Seq<char>, Seq<char>)>) -> bool {
    forall|i: int|
        0 <= i < stored.len() ==> headers::valid_name((#[trigger] stored[i]).0)
            && headers::valid_value(encode_utf8(stored[i].1))
}

/// The body of a response as it goes to disk: packed where its content type wants that.
pub open spec fn body_on_disk(s: CacheSettingsV, f: headers::Fields, data: Seq<u8>) -> Result<
    Seq<u8>,
    Seq<char>,
> {
    if s.compression.wants(headers::first_text(f, "content-type"@)) {
        s.compression.packed(data)
    } else {
        Ok(data)
    }
}

/// A response is ready to be stored under a key: its fields are all there, in the order in which
/// its header lists them, its status is, and what goes to disk unpacks to its body.
pub open spec fn is_plan_of(
    plan: StorePlanV,
    s: CacheSettingsV,
    key: Seq<char>,
    resp: ResponseHeader,
    data: Seq<u8>,
) -> bool {
    &&& plan.key == key
    &&& plan.headers == stored_pairs(headers::response_list(resp))
    &&& lists_fields(headers::response_list(resp), headers::response_fields(resp))
    &&& plan.status == headers::response_status(resp)
    &&& 100 <= plan.status <= 999
    &&& body_on_disk(s, headers::response_fields(resp), data) == Ok::<Seq<u8>, Seq<char>>(
        plan.body,
    )
    &&& s.compression.unpacked(plan.body) == Ok::<Seq<u8>, Seq<char>>(data)
    &&& plan.body_path == s.file_of(key)
    &&& plan.temp_path == s.temp_of(key)
}

/// The fields of a response as they are stored.
fn fields_to_store(resp_header: &ResponseHeader) -> (r: Vec<(String, String)>)
    ensures
        header_views(r@) == stored_pairs(headers::response_list(*resp_header)),
        lists_fields(
            headers::response_list(*resp_header),
            headers::response_fields(*resp_header),
        ),
{
    let pairs = headers::response_pairs(resp_header);
    let ghost p = headers::pair_views(pairs@);
    let mut out: Vec<(String, String)> = Vec::new();
    let mut i: usize = 0;
    while i < pairs.len()
        invariant
            i <= pairs@.len(),
            p == headers::pair_views(pairs@),
            out@.len() == i,
            forall|j: int|
                0 <= j < i ==> (#[trigger] out@[j]).0@ == p[j].0 && out@[j].1@ == stored_value(
                    p[j].1,
                ),
        decreases pairs@.len() - i,
    {
        let name = pairs[i].0.clone();
        let value = match headers::value_text(&pairs[i].1) {
            Some(t) => t,
            None => String::new(),
        };
        proof {
            assert(p[i as int] == (pairs@[i as int].0@, pairs@[i as int].1@));
        }
        out.push((name, value));
        i = i + 1;
    }
    assert(header_views(out@) =~= stored_pairs(p));
    out
}

impl SccMemoryCache {
    /// Whether a response forbids to store it.
    fn skips_store(resp_header: &ResponseHeader) -> (r: bool)
        ensures
            r == forbids_storing(headers::response_fields(*resp_header)),
    {
        proof {
            headers::lemma_own_names();
        }
        match headers::response_text(resp_header, "cache-control") {
            Some(t) => text::contains(text::to_lower(t.as_str()).as_str(), "no-store"),
            None => false,
        }
    }

    /// Prepares a response for storing. `None` where it is too large or forbids it; an error where
    /// its body cannot be compressed. What goes to disk unpacks to the body.
    pub fn plan_store(
        &self,
        req_header: &RequestHeader,
        resp_header: &ResponseHeader,
        body: Bytes,
    ) -> (r: Result<Option<StorePlan>, String>)
        requires
            too_large(self.settings(), buffer::contents(body)) || forbids_storing(
                headers::response_fields(*resp_header),
            ) || persistence::shards(self.shard_count) > 0,
        ensures
            ({
                let f = headers::response_fields(*resp_header);
                let data = buffer::contents(body);
                if too_large(self.settings(), data) || forbids_storing(f) {
                    r matches Ok(None)
                } else {
                    match body_on_disk(self.settings(), f, data) {
                        Ok(_) => r matches Ok(Some(plan)) && is_plan_of(
                            plan@,
                            self.settings(),
                            request_key(*req_header),
                            *resp_header,
                            data,
                        ),
                        Err(e) => r matches Err(m) && m@ == "Failed to compress body: "@ + e,
                    }
                }
            }),
    {
        proof {
            headers::lemma_own_names();
        }
        if let Some(max_size) = self.max_file_size {
            if buffer::as_slice(&body).len() > max_size {
                return Ok(None);
            }
        }
        if SccMemoryCache::skips_store(resp_header) {
            return Ok(None);
        }
        let key = generate_cache_key(req_header);
        let fields = fields_to_store(resp_header);
        let content_type = headers::response_text(resp_header, "content-type");
        let wanted = match &content_type {
            Some(t) => self.compression.should_compress(Some(t.as_str())),
            None => self.compression.should_compress(None),
        };
        let packed = if wanted {
            match self.compression.compress(body) {
                Ok(z) => z,
                Err(e) => {
                    return Err(String::from_str("Failed to compress body: ").concat(e.as_str()));
                },
            }
        } else {
            body
        };
        let (body_path, temp_path) = self.cache_file_paths(key.as_str());
        Ok(
            Some(
                StorePlan {
                    key,
                    headers: fields,
                    status: headers::response_status_code(resp_header),
                    body: packed,
                    body_path,
                    temp_path,
                },
            ),
        )
    }
}

/// The entry that a stored response gets.
pub open spec fn new_entry(plan: StorePlanV, now: Instant, ttl: u64) -> MetadataV {
    MetadataV {
        headers: plan.headers,
        status: plan.status,
        created_at: now,
        ttl,
        body_path: plan.body_path,
        body_size: plan.body.len() as usize,
    }
}

/// `key` is an entry that no other is older than.
pub open spec fn oldest(e: Entries, key: Seq<char>) -> bool {
    e.dom().contains(key) && forall|k: Seq<char>| #[trigger]
        e.dom().contains(k) ==> e[key].created_at.nanos <= e[k].created_at.nanos
}

/// An entry has to make room for `key`.
pub open spec fn must_evict(e: Entries, capacity: usize, key: Seq<char>) -> bool {
    e.dom().len() >= capacity && e.dom().len() > 0 && !e.dom().contains(key)
}

/// What storing makes of the entries, and the file of the entry that had to go. Which one goes
/// where several are the oldest is left open.
pub open spec fn stored(
    before: Entries,
    after: Entries,
    evicted: Option<Seq<char>>,
    capacity: usize,
    key: Seq<char>,
    entry: MetadataV,
) -> bool {
    if must_evict(before, capacity, key) {
        exists|k: Seq<char>| #[trigger]
            oldest(before, k) && after == before.remove(k).insert(key, entry) && evicted == Some(
                before[k].body_path,
            )
    } else {
        after == before.insert(key, entry) && evicted is None
    }
}

impl SccMemoryCache {
    /// The position of an entry that no other is older than.
    fn oldest_position(&self) -> (r: usize)
        requires
            self.cache.pairs().len() > 0,
        ensures
            r < self.cache.pairs().len(),
            oldest(self.entries(), self.cache.pairs()[r as int].0),
    {
        let n = self.cache.len();
        let ghost pairs = self.cache.pairs();
        let mut best: usize = 0;
        let mut best_nanos: u64 = self.cache.entry_at(0).1.created_at.nanos;
        let mut i: usize = 1;
        while i < n
            invariant
                n == pairs.len(),
                pairs == self.cache.pairs(),
                1 <= i <= n,
                best < i,
                best_nanos == pairs[best as int].1.created_at.nanos,
                forall|j: int|
                    0 <= j < i ==> best_nanos <= (#[trigger] pairs[j]).1.created_at.nanos,
            decreases n - i,
        {
            let nanos: u64 = self.cache.entry_at(i).1.created_at.nanos;
            if nanos < best_nanos {
                best = i;
                best_nanos = nanos;
            }
            i = i + 1;
        }
        proof {
            text_map::lemma_map_of(pairs);
            let e = self.entries();
            assert(self.cache@.dom().contains(pairs[best as int].0));
            assert forall|k: Seq<char>| #[trigger] e.dom().contains(k) implies e[pairs[
            best as int].0].created_at.nanos <= e[k].created_at.nanos by {
                assert(self.cache@.dom().contains(k));
                let j = choose|j: int| 0 <= j < pairs.len() && (#[trigger] pairs[j]).0 == k;
                assert(self.cache@[k] == pairs[j].1);
            }
        }
        best
    }

    /// Adds the entry of a response whose body is on disk. The file of an entry that had to make
    /// room is returned.
    pub fn commit_store(&mut self, plan: StorePlan, now: Instant) -> (r: Option<String>)
        ensures
            final(self).settings() == old(self).settings(),
            stored(
                old(self).entries(),
                final(self).entries(),
                views::opt_view(r),
                old(self).capacity,
                plan@.key,
                new_entry(plan@, now, old(self).ttl),
            ),
    {
        let ghost before = self.entries();
        let entry = CacheMetadata {
            headers: plan.headers,
            status: plan.status,
            created_at: now,
            ttl: self.ttl,
            body_path: plan.body_path,
            body_size: buffer::as_slice(&plan.body).len(),
        };
        let mut evicted: Option<String> = None;
        let n = self.cache.len();
        assert(before.dom() =~= self.cache@.dom());
        if n >= self.capacity && n > 0 && !self.cache.contains_key(plan.key.as_str()) {
            let i = self.oldest_position();
            let (key, oldest_entry) = self.cache.entry_at(i);
            let oldest_key = key.to_owned();
            evicted = Some(oldest_entry.body_path.clone());
            assert(oldest(before, oldest_key@));
            assert(before[oldest_key@] == oldest_entry@);
            self.cache.remove(oldest_key.as_str());
            assert(self.entries() =~= before.remove(oldest_key@));
        }
        let ghost kept = self.entries();
        self.cache.insert(plan.key, entry);
        assert(self.entries() =~= kept.insert(plan.key@, entry@));
        evicted
    }
}

/// What a list holds has a value under its name.
proof fn lemma_values_named(p: Seq<(Seq<char>, Seq<u8>)>, i: int)
    requires
        0 <= i < p.len(),
    ensures
        headers::values_named(p, p[i].0).len() > 0,
    decreases p.len(),
{
    if i < p.len() - 1 {
        assert(p.drop_last()[i] == p[i]);
        lemma_values_named(p.drop_last(), i);
    }
}

/// Fields can be sent again where all their names are valid: every value is, as it is stored.
proof fn lemma_sendable(p: Seq<(Seq<char>, Seq<u8>)>, f: headers::Fields)
    requires
        lists_fields(p, f),
        names_valid(f),
    ensures
        sendable(stored_pairs(p)),
{
    let stored = stored_pairs(p);
    assert forall|i: int| 0 <= i < stored.len() implies headers::valid_name(
        (#[trigger] stored[i]).0,
    ) && headers::valid_value(encode_utf8(stored[i].1)) by {
        lemma_values_named(p, i);
        assert(headers::values_at(f, p[i].0).len() > 0);
        assert(f.dom().contains(p[i].0));
        headers::lemma_visible_value(p[i].1);
        headers::lemma_printable_value(Seq::<char>::empty());
    }
}

/// A response that has been stored is found, as long as its time has not run out: the lookup of
/// its key goes on to read its file, and what was written there gives its body, its fields in their
/// order and its status back. All can be sent again, unless the header held a name that is not
/// valid as a text.
pub proof fn law_stored_response_is_found(
    before: Entries,
    after: Entries,
    evicted: Option<Seq<char>>,
    s: CacheSettingsV,
    key: Seq<char>,
    resp: ResponseHeader,
    body: Seq<u8>,
    plan: StorePlanV,
    stored_at: Instant,
    now: Instant,
    file: Vec<u8>,
)
    requires
        is_plan_of(plan, s, key, resp, body),
        stored(
            before,
            after,
            evicted,
            s.capacity,
            key,
            new_entry(plan, stored_at, s.ttl),
        ),
        stored_at.age(now) <= s.ttl,
        file@ == plan.body,
    ensures
        lookup_plan(after, s, key, now) == LookupPlanV::Read(after[key]),
        lookup_entries(after, key, now) == after,
        after[key].body_path == plan.body_path,
        read_entries(after, key, s.compression, BodyRead::Bytes(file)) == after,
        match read_outcome(s.compression, after[key], BodyRead::Bytes(file)).result {
            CacheResultV::Hit { body: found, headers: fields, status } => {
                &&& found == body
                &&& fields == stored_pairs(headers::response_list(resp))
                &&& lists_fields(headers::response_list(resp), headers::response_fields(resp))
                &&& names_valid(headers::response_fields(resp)) ==> sendable(fields)
                &&& status == headers::response_status(resp) && 100 <= status <= 999
            },
            CacheResultV::Miss => false,
        },
{
    if names_valid(headers::response_fields(resp)) {
        lemma_sendable(headers::response_list(resp), headers::response_fields(resp));
    }
}

/// Storing keeps the number of entries within the capacity, where that is at least one.
pub proof fn law_capacity_is_kept(
    before: Entries,
    after: Entries,
    evicted: Option<Seq<char>>,
    capacity: usize,
    key: Seq<char>,
    entry: MetadataV,
)
    requires
        before.dom().finite(),
        before.dom().len() <= capacity,
        capacity >= 1,
        stored(before, after, evicted, capacity, key, entry),
    ensures
        after.dom().finite(),
        after.dom().len() <= capacity,
{
    if must_evict(before, capacity, key) {
        let k = choose|k: Seq<char>| #[trigger]
            oldest(before, k) && after == before.remove(k).insert(key, entry) && evicted == Some(
                before[k].body_path,
            );
        assert(before.remove(k).insert(key, entry).dom() =~= before.dom().remove(k).insert(key));
    } else {
        assert(after.dom() =~= before.dom().insert(key));
        if before.dom().len() == 0 {
            assert(before.dom() =~= Set::<Seq<char>>::empty());
        }
    }
}

/// Storing touches no other entry than its own and the one that has to make room, and that one is
/// among the oldest.
pub proof fn law_storing_keeps_other_entries(
    before: Entries,
    after: Entries,
    evicted: Option<Seq<char>>,
    capacity: usize,
    key: Seq<char>,
    entry: MetadataV,
    other: Seq<char>,
)
    requires
        stored(before, after, evicted, capacity, key, entry),
        before.dom().contains(other),
        other != key,
    ensures
        after.dom().contains(other) ==> after[other] == before[other],
        !after.dom().contains(other) ==> oldest(before, other) && evicted == Some(
            before[other].body_path,
        ),
{
}

/// An entry that has outlived its time is never read: its lookup is a miss, and it is gone.
pub proof fn law_expired_entry_is_gone(e: Entries, s: CacheSettingsV, key: Seq<char>, now: Instant)
    requires
        e.dom().contains(key),
        e[key].created_at.age(now) > e[key].ttl,
    ensures
        lookup_plan(e, s, key, now) == LookupPlanV::Done(miss(Some(e[key].body_path), true)),
        lookup_entries(e, key, now) == e.remove(key),
{
}

/// The steps of storing a response that can fail on disk.
#[derive(Clone, Copy, Debug, PartialEq, Eq, Structural)]
pub enum StoreStep {
    CacheDir,
    ShardDir,
    WriteFile,
    RenameFile,
}

impl StoreStep {
    /// What a failure of the step is called.
    pub open spec fn label(self) -> Seq<char> {
        match self {
            StoreStep::CacheDir => "Failed to create cache directory: "@,
            StoreStep::ShardDir => "Failed to create shard directory: "@,
            StoreStep::WriteFile => "Failed to write cache file: "@,
            StoreStep::RenameFile => "Failed to rename cache file: "@,
        }
    }

    /// The message for a failure of the step.
    pub fn message(&self, cause: &str) -> (r: String)
        ensures
            r@ == self.label() + cause@,
    {
        let label = match self {
            StoreStep::CacheDir => "Failed to create cache directory: ",
            StoreStep::ShardDir => "Failed to create shard directory: ",
            StoreStep::WriteFile => "Failed to write cache file: ",
            StoreStep::RenameFile => "Failed to rename cache file: ",
        };
        String::from_str(label).concat(cause)
    }
}

/// A cache-control field that keeps a response out of the cache.
pub open spec fn keeps_out(cache_control: Seq<char>) -> bool {
    let cc = text::lowered(cache_control);
    ||| text::has_infix(cc, "no-store"@)
    ||| text::has_infix(cc, "private"@)
    ||| text::has_infix(cc, "no-cache"@)
    ||| text::has_infix(cc, "max-age=0"@)
}

/// A response that may go into the cache.
pub open spec fn cacheable(method: Seq<char>, f: headers::Fields) -> bool {
    method == "GET"@ && !(headers::first_text(f, "cache-control"@) matches Some(t) && keeps_out(t))
}

/// A cache, with where it keeps its files.
pub struct CacheBucket {
    pub storage: SccMemoryCache,
    pub persistence_config: Option<PersistenceConfig>,
}

impl CacheBucket {
    /// The bucket of a cache.
    pub fn new(storage: SccMemoryCache) -> (r: Self)
        ensures
            r.storage == storage,
            views::opt_view(r.persistence_config) == storage.settings().persistence,
    {
        let persistence_config = match &storage.persistence {
            Some(config) => Some(config.clone()),
            None => None,
        };
        CacheBucket { storage, persistence_config }
    }

    /// The cache.
    pub fn storage(&self) -> (r: &SccMemoryCache)
        ensures
            *r == self.storage,
    {
        &self.storage
    }
}

/// A cache under a name.
pub struct CacheService {
    pub bucket: CacheBucket,
    pub name: String,
}

impl CacheService {
    /// A cache under a name.
    pub fn new(bucket: CacheBucket, name: String) -> (r: Self)
        ensures
            r.bucket == bucket,
            r.name == name,
    {
        CacheService { bucket, name }
    }

    /// The cache.
    pub fn bucket(&self) -> (r: &CacheBucket)
        ensures
            *r == self.bucket,
    {
        &self.bucket
    }

    /// The name.
    pub fn name(&self) -> (r: &str)
        ensures
            r@ == self.name@,
    {
        self.name.as_str()
    }

    /// Whether a response may go into the cache.
    pub fn is_cacheable(req_header: &RequestHeader, resp_header: &ResponseHeader) -> (r: bool)
        ensures
            r == cacheable(
                headers::request_method(*req_header),
                headers::response_fields(*resp_header),
            ),
    {
        proof {
            headers::lemma_own_names();
        }
        let method = headers::request_method_text(req_header);
        if !text::str_eq(method.as_str(), "GET") {
            return false;
        }
        match headers::response_text(resp_header, "cache-control") {
            Some(t) => {
                let cc = text::to_lower(t.as_str());
                !(text::contains(cc.as_str(), "no-store") || text::contains(cc.as_str(), "private")
                    || text::contains(cc.as_str(), "no-cache") || text::contains(
                    cc.as_str(),
                    "max-age=0",
                ))
            },
            None => true,
        }
    }
}

/// What forbids storing also keeps a response out of the cache.
pub proof fn law_forbidden_is_not_cacheable(method: Seq<char>, f: headers::Fields)
    requires
        forbids_storing(f),
    ensures
        !cacheable(method, f),
{
}

} // verus!
