use bytes::Bytes;
use pingora_http::{RequestHeader, ResponseHeader};
use stryvo::clock::Instant;
use stryvo::config::internal::PathControl;
use stryvo::proxy::cache::persistence::{
    body_paths_for, contains_path, has_shards, shard_dir_in, shard_for, valid_paths,
    CachePersistence, EntryAction, MetadataEntry, MetadataStep, PersistenceConfig,
};
use stryvo::proxy::cache::service::{
    copy_headers, generate_cache_key, BodyRead, CacheBucket, CacheMetadata, CacheResult,
    stored_has_room, CacheService, LookupPlan, SccMemoryCache, StorePlan, StoreStep,
};
use stryvo::proxy::cache::StryvoProxyService;
use stryvo::proxy::compression::{CompressUtils, CompressionEncoding, CompressionStrategy};
use stryvo::proxy::context::StryvoContext;
use stryvo::proxy::headers;
use stryvo::proxy::modifiers::Modifiers;
use stryvo::proxy::pipeline::{LimitStep, RequestPipeline};
use stryvo::proxy::rate_limiting::Outcome;

fn request_to(method: &str, uri: &str, fields: &[(&'static str, &str)]) -> RequestHeader {
    let mut h = RequestHeader::build(method, uri.as_bytes(), None).unwrap();
    for (name, value) in fields {
        h.append_header(*name, *value).unwrap();
    }
    h
}

fn request(uri: &str) -> RequestHeader {
    request_to("GET", uri, &[])
}

fn response(status: u16, fields: &[(&'static str, &str)]) -> ResponseHeader {
    let mut h = ResponseHeader::build(status, None).unwrap();
    for (name, value) in fields {
        h.append_header(*name, *value).unwrap();
    }
    h
}

fn all(h: &ResponseHeader, name: &str) -> Vec<String> {
    h.headers.get_all(name).iter().map(|v| v.to_str().unwrap().to_string()).collect()
}

fn secs(n: u64) -> Instant {
    Instant { nanos: n * 1_000_000_000 }
}

fn cache(capacity: usize) -> SccMemoryCache {
    SccMemoryCache::with_capacity(capacity, "/c".to_string(), 4, Some(1000)).with_ttl(10)
}

fn plan(c: &SccMemoryCache, uri: &str, body: &str) -> StorePlan {
    c.plan_store(&request(uri), &response(200, &[]), Bytes::from(body.to_string()))
        .unwrap()
        .unwrap()
}

fn metadata(path: &str, created: u64, ttl: u64) -> CacheMetadata {
    CacheMetadata {
        headers: Vec::new(),
        status: 200,
        created_at: secs(created),
        ttl,
        body_path: path.to_string(),
        body_size: 0,
    }
}

fn entry(key: &str, path: &str, created: u64, ttl: u64) -> MetadataEntry {
    MetadataEntry { cache_key: key.to_string(), metadata: metadata(path, created, ttl) }
}

#[test]
fn settings_of_a_cache() {
    let c = SccMemoryCache::with_capacity(7, "/c".to_string(), 4, Some(9));
    assert_eq!((c.capacity, c.ttl, c.shard_count, c.max_file_size), (7, 3600, 4, Some(9)));
    assert_eq!(c.compression, CompressionStrategy::Auto);
    assert!(c.persistence.is_none() && c.cache.is_empty());
    let c = c
        .with_ttl(5)
        .with_compression(CompressionStrategy::All)
        .with_persistence(PersistenceConfig::new("/d", 6, 8));
    assert_eq!((c.capacity, c.ttl, c.shard_count, c.max_file_size), (7, 5, 8, Some(9)));
    assert_eq!(c.compression, CompressionStrategy::All);
    assert_eq!(c.cache_dir, "/d");
    assert_eq!(c.persistence.unwrap().metadata_dir, "/d/metadata");
}

#[test]
fn files_of_keys() {
    let c = cache(1);
    assert_eq!(generate_cache_key(&request("/a?b")), "GET /a?b");
    // the checksum of this text is the well-known one
    assert_eq!(crc32fast::hash(b"123456789"), 0xcbf4_3926);
    assert_eq!(c.get_cache_file_path("123456789"), "/c/shard-02/cbf43926.bin");
    let hash = crc32fast::hash(b"GET /");
    assert_eq!(
        c.get_cache_file_path("GET /"),
        format!("/c/shard-{:02}/{:x}.bin", hash % 4, hash)
    );
    assert_eq!(
        c.cache_dirs(),
        ["/c", "/c/shard-00", "/c/shard-01", "/c/shard-02", "/c/shard-03"]
    );
    assert_eq!(
        body_paths_for("/c", 4, 0xa),
        ("/c/shard-02/a.bin".to_string(), "/c/shard-02/a.tmp".to_string())
    );
    assert_eq!(shard_dir_in("c/", 123), "c/shard-123");
    assert_eq!(shard_for(7, 4), 3);
    assert!(has_shards(1) && !has_shards(0) && !has_shards(1 << 32) && has_shards((1 << 32) + 1));
    assert_eq!(shard_for(7, (1 << 32) + 4), 3);
}

#[test]
fn files_of_different_checksums_differ() {
    let mut seen: Vec<String> = Vec::new();
    for hash in [0u32, 1, 16, 255, 256, 0xffff_ffff, 0xffff_fff] {
        let (file, temp) = body_paths_for("/c", 4, hash);
        assert!(!seen.contains(&file));
        assert!(CachePersistence::is_orphaned(&file, &Vec::new()));
        assert!(!CachePersistence::is_stray_temp(&file));
        assert!(CachePersistence::is_stray_temp(&temp));
        seen.push(file);
    }
}

#[test]
fn stored_responses_are_found() {
    let mut c = cache(5);
    let resp = response(203, &[("x-a", "1"), ("X-A", "2"), ("b", "é")]);
    let p = c.plan_store(&request("/x"), &resp, Bytes::from_static(b"body")).unwrap().unwrap();
    assert_eq!(p.key, "GET /x");
    assert_eq!(p.body_path, c.get_cache_file_path("GET /x"));
    assert_eq!(p.temp_path, p.body_path.replace(".bin", ".tmp"));
    let file = p.body.to_vec();
    let path = p.body_path.clone();
    assert_eq!(c.commit_store(p, secs(100)), None);
    let (key, plan) = c.begin_lookup(&request("/x"), secs(110));
    assert_eq!(key, "GET /x");
    let m = match plan {
        LookupPlan::Read(m) => m,
        _ => panic!("there is an entry"),
    };
    assert_eq!(m.body_path, path);
    assert_eq!(m.body_size, 4);
    let o = c.end_with_entry(&key, m, BodyRead::Bytes(file));
    assert!(o.delete.is_none() && !o.persist);
    match o.result {
        CacheResult::Hit { body, mut headers, status } => {
            assert_eq!(body, Bytes::from_static(b"body"));
            assert_eq!(status, 203);
            headers.sort();
            let expected = [("b", ""), ("x-a", "1"), ("x-a", "2")];
            let expected: Vec<(String, String)> =
                expected.iter().map(|(k, v)| (k.to_string(), v.to_string())).collect();
            assert_eq!(headers, expected);
        }
        CacheResult::Miss => panic!("it was stored"),
    }
    assert_eq!(c.cache.len(), 1);
}

#[test]
fn expired_entries_are_gone() {
    let mut c = cache(5);
    let p = plan(&c, "/x", "b");
    let path = p.body_path.clone();
    c.commit_store(p, secs(100));
    // ten seconds and a part of one more are ten seconds
    let late = Instant { nanos: 110_999_999_999 };
    assert!(matches!(c.begin_lookup(&request("/x"), late).1, LookupPlan::Read(_)));
    match c.begin_lookup(&request("/x"), secs(111)).1 {
        LookupPlan::Done(o) => {
            assert!(matches!(o.result, CacheResult::Miss));
            assert_eq!(o.delete, Some(path));
            assert!(o.persist);
        }
        _ => panic!("its time has run out"),
    }
    assert!(c.cache.is_empty());
}

#[test]
fn lookups_without_an_entry() {
    let mut c = cache(5);
    match c.begin_lookup(&request("/x"), secs(0)).1 {
        LookupPlan::CheckFile(p) => assert_eq!(p, c.get_cache_file_path("GET /x")),
        _ => panic!("there is no entry"),
    }
    let o = SccMemoryCache::end_without_entry("f".to_string(), true);
    assert_eq!((o.delete, o.persist), (Some("f".to_string()), true));
    let o = SccMemoryCache::end_without_entry("f".to_string(), false);
    assert_eq!((o.delete, o.persist), (None, false));
}

#[test]
fn bodies_that_cannot_be_read() {
    for read in [BodyRead::Missing, BodyRead::Failed] {
        let mut c = cache(5);
        let p = plan(&c, "/x", "b");
        c.commit_store(p, secs(0));
        let o = c.end_with_entry("GET /x", metadata("f", 0, 1), read);
        assert!(matches!(o.result, CacheResult::Miss));
        assert_eq!((o.delete, o.persist), (None, true));
        assert!(c.cache.is_empty());
    }
    let mut c = cache(5).with_compression(CompressionStrategy::All);
    let p = plan(&c, "/x", "b");
    c.commit_store(p, secs(0));
    let o = c.end_with_entry("GET /x", metadata("f", 0, 1), BodyRead::Bytes(b"junk".to_vec()));
    assert!(matches!(o.result, CacheResult::Miss));
    assert_eq!((o.delete, o.persist), (Some("f".to_string()), true));
    assert!(c.cache.is_empty());
}

#[test]
fn bodies_are_packed() {
    let c = cache(5).with_compression(CompressionStrategy::All);
    let p = plan(&c, "/x", "body");
    assert_ne!(p.body, Bytes::from_static(b"body"));
    assert_eq!(CompressUtils::decompress_gzip(&p.body).unwrap(), Bytes::from_static(b"body"));
}

#[test]
fn responses_that_are_not_stored() {
    let c = cache(5);
    let r = c.plan_store(&request("/"), &response(200, &[]), Bytes::from("x".repeat(1001)));
    assert!(r.unwrap().is_none());
    let r = c.plan_store(&request("/"), &response(200, &[]), Bytes::from("x".repeat(1000)));
    assert!(r.unwrap().is_some());
    let no = response(200, &[("Cache-Control", "private, No-Store")]);
    assert!(c.plan_store(&request("/"), &no, Bytes::new()).unwrap().is_none());
    // what must not be shared is not kept from being stored here
    let private = response(200, &[("Cache-Control", "private")]);
    assert!(c.plan_store(&request("/"), &private, Bytes::new()).unwrap().is_some());
}

#[test]
fn oldest_entry_makes_room() {
    let mut c = cache(2);
    for (uri, at) in [("/a", 5), ("/b", 3)] {
        let p = plan(&c, uri, "b");
        assert_eq!(c.commit_store(p, secs(at)), None);
    }
    // storing again needs no room
    let p = plan(&c, "/a", "c");
    assert_eq!(c.commit_store(p, secs(6)), None);
    let p = plan(&c, "/c", "d");
    let file = c.get_cache_file_path("GET /b");
    assert_eq!(c.commit_store(p, secs(7)), Some(file));
    assert_eq!(c.cache.len(), 2);
    assert!(c.cache.contains_key("GET /a") && c.cache.contains_key("GET /c"));
    assert_eq!(c.cache.get("GET /a").unwrap().created_at, secs(6));
    let mut c = cache(0);
    let p = plan(&c, "/a", "b");
    assert_eq!(c.commit_store(p, secs(1)), None);
    assert_eq!(c.cache.len(), 1);
}

#[test]
fn steps_of_storing_fail() {
    assert_eq!(StoreStep::CacheDir.message("x"), "Failed to create cache directory: x");
    assert_eq!(StoreStep::ShardDir.message("x"), "Failed to create shard directory: x");
    assert_eq!(StoreStep::WriteFile.message("x"), "Failed to write cache file: x");
    assert_eq!(StoreStep::RenameFile.message("x"), "Failed to rename cache file: x");
}

#[test]
fn responses_that_may_be_cached() {
    let may = |method: &str, cc: &str| {
        CacheService::is_cacheable(
            &request_to(method, "/", &[]),
            &response(200, &[("cache-control", cc)]),
        )
    };
    assert!(may("GET", "public, max-age=60"));
    assert!(!may("POST", "public"));
    assert!(!may("GET", "No-Store"));
    assert!(!may("GET", "private"));
    assert!(!may("GET", "no-cache"));
    assert!(!may("GET", "max-age=0"));
    assert!(CacheService::is_cacheable(&request("/"), &response(200, &[])));
    // a value that is no text says nothing
    assert!(may("GET", "no-store é"));
}

#[test]
fn header_fields_are_copied() {
    let h = vec![("a".to_string(), "b".to_string()), ("a".to_string(), "c".to_string())];
    assert_eq!(copy_headers(&h), h);
}

#[test]
fn places_on_disk() {
    let p = CachePersistence::new(PersistenceConfig::new("/c", 5, 3));
    assert_eq!(
        p.dirs(),
        ["/c", "/c/metadata", "/c/shard-00", "/c/shard-01", "/c/shard-02"]
    );
    assert_eq!(p.config.shard_dir(11), "/c/shard-11");
    assert_eq!(
        p.config.metadata_paths(),
        (
            "/c/metadata/cache-metadata.bin".to_string(),
            "/c/metadata/cache-metadata.tmp".to_string()
        )
    );
    assert_eq!(p.calculate_shard_id("123456789"), (0xcbf4_3926u32 % 3) as usize);
    let q = p.config.clone();
    assert_eq!(q.metadata_sync_interval, 5);
}

#[test]
fn live_entries_are_written() {
    let mut c = cache(9);
    c.cache.insert("a".to_string(), metadata("fa", 0, 5));
    c.cache.insert("b".to_string(), metadata("fb", 0, 50));
    c.cache.insert("c".to_string(), metadata("fc", 8, 5));
    let p = CachePersistence::plan_metadata(&c, secs(10));
    let mut keys: Vec<String> = p.entries.iter().map(|e| e.cache_key.clone()).collect();
    keys.sort();
    assert_eq!(keys, ["b", "c"]);
    assert_eq!(p.expired_files, ["fa"]);
    assert!(CachePersistence::is_entry_expired(&metadata("f", 0, 5), secs(6)));
    assert!(!CachePersistence::is_entry_expired(&metadata("f", 0, 5), secs(5)));
}

#[test]
fn written_entries_load_again() {
    let mut c = cache(9);
    c.cache.insert("a".to_string(), metadata("fa", 0, 50));
    c.cache.insert("b".to_string(), metadata("fb", 2, 50));
    let p = CachePersistence::plan_metadata(&c, secs(10));
    let mut d = cache(9);
    for e in &p.entries {
        assert_eq!(CachePersistence::load_entry(&mut d, e, true, secs(11)), EntryAction::Keep);
    }
    assert_eq!(d.cache.len(), 2);
    assert_eq!(d.cache.get("a").unwrap().body_path, "fa");
    assert_eq!(d.cache.get("b").unwrap().created_at, secs(2));
}

#[test]
fn entries_that_are_not_loaded() {
    let mut c = cache(9);
    let old = entry("a", "f", 0, 5);
    assert_eq!(CachePersistence::load_entry(&mut c, &old, true, secs(6)), EntryAction::DeleteFile);
    assert_eq!(CachePersistence::load_entry(&mut c, &old, false, secs(6)), EntryAction::Forget);
    assert_eq!(CachePersistence::load_entry(&mut c, &old, false, secs(5)), EntryAction::Forget);
    assert!(c.cache.is_empty());
}

#[test]
fn metadata_are_cleaned() {
    let used = vec!["/c//f".to_string()];
    let old = entry("a", "/c/f", 0, 5);
    let free = entry("a", "/c/g", 0, 5);
    let clean = CachePersistence::clean_entry;
    assert_eq!(clean(&old, true, &used, secs(6)), EntryAction::Forget);
    assert_eq!(clean(&free, true, &used, secs(6)), EntryAction::DeleteFile);
    assert_eq!(clean(&free, false, &used, secs(6)), EntryAction::Forget);
    assert_eq!(clean(&free, true, &used, secs(5)), EntryAction::Keep);
    assert_eq!(clean(&free, false, &used, secs(5)), EntryAction::Forget);
    let p = CachePersistence::new(PersistenceConfig::new("/c", 5, 3));
    let id = p.calculate_shard_id("a");
    assert_eq!(
        p.clean_entry_in_shard(id, &free, true, &used, secs(6)),
        EntryAction::DeleteFile
    );
    assert_eq!(p.clean_entry_in_shard(id + 1, &free, false, &used, secs(6)), EntryAction::Keep);
}

#[test]
fn files_in_use_are_spared() {
    let mut c = cache(9);
    c.cache.insert("a".to_string(), metadata("/c/shard-00/1.bin", 0, 50));
    let used = valid_paths(&c);
    assert_eq!(used, ["/c/shard-00/1.bin"]);
    assert!(contains_path(&used, "/c/./shard-00//1.bin"));
    assert!(!CachePersistence::is_orphaned("/c/shard-00/1.bin", &used));
    assert!(CachePersistence::is_orphaned("/c/shard-00/2.bin", &used));
    assert!(!CachePersistence::is_orphaned("/c/shard-00/2.txt", &used));
    assert!(CachePersistence::is_shard_dir("/c/shard-00"));
    assert!(CachePersistence::is_shard_dir("/c/shard-00/"));
    assert!(!CachePersistence::is_shard_dir("/c/metadata"));
    assert!(!CachePersistence::is_shard_dir("/"));
}

#[test]
fn steps_of_writing_metadata_fail() {
    let m = |s: MetadataStep| s.message("x");
    assert_eq!(m(MetadataStep::Dirs), "Failed to initialize directory structure: x");
    assert_eq!(m(MetadataStep::Encode), "Failed to serialize metadata: x");
    assert_eq!(m(MetadataStep::WriteFile), "Failed to write metadata file: x");
    assert_eq!(m(MetadataStep::RenameFile), "Failed to rename metadata file: x");
    assert_eq!(m(MetadataStep::ReadFile), "Failed to read metadata file: x");
    assert_eq!(m(MetadataStep::Decode), "Failed to deserialize metadata: x");
}

fn service(with_cache: bool) -> StryvoProxyService {
    StryvoProxyService {
        modifiers: Modifiers::from_conf(&PathControl::default()).unwrap(),
        cache: if with_cache { Some(CacheBucket::new(cache(3))) } else { None },
    }
}

#[test]
fn keys_by_checksum() {
    let key = StryvoProxyService::generate_cache_key;
    let material = |r: &RequestHeader| StryvoProxyService::key_material(r);
    let plain = request("/a");
    assert_eq!(material(&plain), b"GET /a");
    assert_eq!(key(&plain), format!("{:x}", crc32fast::hash(b"GET /a")));
    let auth = request_to("GET", "/a", &[("Authorization", "me")]);
    assert_eq!(material(&auth), b"GET /aauth:me");
    let vary = request_to(
        "POST",
        "/a",
        &[("vary", "Accept , x-none,X-B"), ("accept", "q"), ("x-b", "r"), ("x-b", "s")],
    );
    assert_eq!(material(&vary), b"POST /aaccept:qx-b:r");
    assert_ne!(key(&plain), key(&auth));
}

#[test]
fn limits_of_collected_bodies() {
    let max = StryvoProxyService::get_max_cache_size;
    assert_eq!(max(None), 1_048_576);
    assert_eq!(max(Some("12")), 12);
    assert_eq!(max(Some("x")), 1_048_576);
    let fits = StryvoProxyService::check_cache_size_limit;
    assert!(fits(3, 4, 7));
    assert!(!fits(3, 5, 7));
    assert!(!fits(usize::MAX, 1, usize::MAX));
}

#[test]
fn cached_responses_are_sent() {
    let mut ctx = StryvoProxyService::new_ctx();
    assert!(!ctx.browser_cache_enabled && ctx.browser_cache_ttl.is_none());
    let headers: Vec<(String, String)> = [
        ("Content-Length", "3"),
        ("transfer-encoding", "chunked"),
        ("content-type", "text/html"),
        ("x-cache", "OLD"),
    ]
    .iter()
    .map(|(k, v)| (k.to_string(), v.to_string()))
    .collect();
    let body = Bytes::from("word ".repeat(60));
    let c = StryvoProxyService::handle_cached_response(
        &request_to("GET", "/", &[("accept-encoding", "gzip")]),
        &mut ctx,
        body.clone(),
        &headers,
        200,
    )
    .unwrap();
    assert_eq!(ctx.cache_status, Some("HIT".to_string()));
    assert_eq!(ctx.compression_encoding, Some(CompressionEncoding::Gzip));
    assert_eq!(CompressUtils::decompress_gzip(&c.body).unwrap(), body);
    assert_eq!(all(&c.header, "x-cache"), ["OLD", "HIT"]);
    assert_eq!(all(&c.header, "content-encoding"), ["gzip"]);
    assert_eq!(all(&c.header, "content-length"), [c.body.len().to_string()]);
    assert_eq!(all(&c.header, "transfer-encoding"), Vec::<String>::new());
    let e = StryvoProxyService::handle_cached_response(
        &request("/"),
        &mut ctx,
        Bytes::new(),
        &Vec::new(),
        42,
    );
    assert_eq!(e.err(), Some(" InvalidHTTPHeader context: invalid status".to_string()));
}

#[test]
fn lookups_are_noted() {
    let mut ctx = StryvoProxyService::new_ctx();
    StryvoProxyService::note_lookup(&mut ctx, None);
    assert_eq!(ctx.cache_status, Some("BYPASS".to_string()));
    StryvoProxyService::note_lookup(&mut ctx, Some(Ok(CacheResult::Miss)));
    assert_eq!(ctx.cache_status, Some("MISS".to_string()));
    StryvoProxyService::note_lookup(&mut ctx, Some(Err("x".to_string())));
    assert_eq!(ctx.cache_status, Some("ERROR".to_string()));
}

#[test]
fn picked_backends_are_noted() {
    let mut ctx = StryvoProxyService::new_ctx();
    ctx.note_start(1);
    let note = StryvoProxyService::note_peer;
    assert_eq!(note(&mut ctx, None), Err("Unable to determine backend"));
    assert!(ctx.selector_buf.is_empty());
    assert_eq!(note(&mut ctx, Some(None)), Err("Fatal: Missing selected backend metadata"));
    assert_eq!(note(&mut ctx, Some(Some("a:1".to_string()))), Ok(()));
    assert_eq!(ctx.upstream_addr, Some("a:1".to_string()));
}

#[test]
fn responses_get_their_cache_status() {
    let run = |with_cache: bool, known: Option<&str>, status: u16, accept: &str| {
        let mut ctx = StryvoProxyService::new_ctx();
        ctx.cache_status = known.map(|s| s.to_string());
        let mut h = response(status, &[("x-cache", "a"), ("x-cache", "b")]);
        let req = request_to("GET", "/", &[("accept-encoding", accept)]);
        let e = service(with_cache).upstream_response_filter(&req, &mut h, &mut ctx, 9);
        assert_eq!(all(&h, "x-cache"), [e.cache_status.clone()]);
        (e.cache_status, ctx.should_cache_response, all(&h, "content-encoding"))
    };
    let none: Vec<String> = Vec::new();
    assert_eq!(run(true, Some("MISS"), 204, "x"), ("MISS".to_string(), true, none.clone()));
    assert_eq!(run(true, None, 300, "x"), ("BYPASS".to_string(), false, none.clone()));
    assert_eq!(run(false, None, 200, "x"), ("NONE".to_string(), false, none));
    assert_eq!(
        run(true, Some("HIT"), 200, "zstd"),
        ("HIT".to_string(), true, vec!["zstd".to_string()])
    );
}

fn collecting() -> StryvoContext {
    let mut ctx = StryvoProxyService::new_ctx();
    ctx.should_cache_response = true;
    ctx.cache_req_header = Some(request("/"));
    ctx.cache_resp_header = Some(response(200, &[("content-encoding", "br")]));
    ctx
}

#[test]
fn bodies_are_collected_up_to_a_limit() {
    let filter = StryvoProxyService::upstream_response_body_filter;
    let mut ctx = collecting();
    let (out, store) = filter(&mut ctx, Some(Bytes::from_static(b"abc")), false, 5);
    assert_eq!(out.unwrap(), Bytes::from_static(b"abc"));
    assert!(store.is_none() && ctx.should_cache_response);
    let (_, store) = filter(&mut ctx, Some(Bytes::from_static(b"de")), true, 5);
    let s = store.unwrap();
    assert_eq!(s.body, Bytes::from_static(b"abcde"));
    assert_eq!(all(&s.resp_header, "content-encoding"), Vec::<String>::new());
    assert!(!ctx.should_cache_response && ctx.cache_body.is_none());

    let mut ctx = collecting();
    filter(&mut ctx, Some(Bytes::from_static(b"abc")), false, 5);
    let (out, store) = filter(&mut ctx, Some(Bytes::from_static(b"def")), true, 5);
    assert_eq!(out.unwrap(), Bytes::from_static(b"def"));
    assert!(store.is_none());
    assert!(!ctx.should_cache_response && ctx.cache_body.is_none());
    assert!(ctx.cache_req_header.is_some());
}

#[test]
fn empty_bodies_are_stored() {
    let filter = StryvoProxyService::upstream_response_body_filter;
    let mut ctx = collecting();
    let (out, store) = filter(&mut ctx, None, true, 0);
    assert!(out.is_none());
    assert_eq!(store.unwrap().body, Bytes::new());
    // without a response header nothing is stored, and nothing is forgotten
    let mut ctx = collecting();
    ctx.cache_resp_header = None;
    let (_, store) = filter(&mut ctx, None, true, 0);
    assert!(store.is_none() && ctx.should_cache_response && ctx.cache_body.is_some());
}

#[test]
fn metadata_are_cleaned_one_by_one() {
    let p = CachePersistence::new(PersistenceConfig::new("/c", 5, 4));
    let list = || {
        vec![
            (entry("a", "/c/a", 0, 5), true),
            (entry("b", "/c/b", 0, 50), true),
            (entry("c", "/c/c", 0, 50), false),
            (entry("d", "/c/d", 0, 5), true),
            (entry("e", "/c/e", 0, 5), false),
        ]
    };
    let mut cleaning = p.begin_cleaning(vec!["/c/d".to_string()], None, secs(10));
    let mut deleted: Vec<String> = Vec::new();
    for (e, present) in list() {
        deleted.extend(p.clean_next(&mut cleaning, e, present));
    }
    let keys: Vec<&str> = cleaning.retained.iter().map(|e| e.cache_key.as_str()).collect();
    assert_eq!(keys, ["b"]);
    assert_eq!(deleted, ["/c/a"]);

    // only what is in the shard is cleaned, the rest stays in its order
    let shard = p.calculate_shard_id("a");
    let mut cleaning = p.begin_cleaning(Vec::new(), Some(shard), secs(10));
    let mut expected: Vec<String> = Vec::new();
    for (e, present) in list() {
        if p.calculate_shard_id(&e.cache_key) != shard || e.cache_key == "b" {
            expected.push(e.cache_key.clone());
        }
        p.clean_next(&mut cleaning, e, present);
    }
    let keys: Vec<String> = cleaning.retained.iter().map(|e| e.cache_key.clone()).collect();
    assert_eq!(keys, expected);
    assert!(!keys.contains(&"a".to_string()));
}

#[test]
fn files_that_are_left_over() {
    let files: Vec<String> = ["/s/1.bin", "/s/2.bin", "/s/3.tmp", "/s/4.txt", "/s/5.bin"]
        .iter()
        .map(|s| s.to_string())
        .collect();
    let used = vec!["/s//2.bin".to_string()];
    assert_eq!(
        CachePersistence::left_over_files(&files, &used, true),
        ["/s/1.bin", "/s/3.tmp", "/s/5.bin"]
    );
    assert_eq!(
        CachePersistence::left_over_files(&files, &used, false),
        ["/s/1.bin", "/s/5.bin"]
    );
}

/// A response with a name that no text can name.
fn response_with_quoted_name() -> ResponseHeader {
    let mut r = http::Response::builder().status(200).body(()).unwrap();
    let name = http::HeaderName::from_static("x\"y");
    r.headers_mut().append(name, http::HeaderValue::from_static("1"));
    ResponseHeader::from(r.into_parts().0)
}

#[test]
fn fields_are_stored_in_their_order() {
    let c = cache(3);
    let mut h = response(200, &[("b", "1"), ("a", "2"), ("b", "3"), ("c", "4")]);
    h.append_header("d", http::HeaderValue::from_bytes(&[200]).unwrap()).unwrap();
    let p = c.plan_store(&request("/"), &h, Bytes::new()).unwrap().unwrap();
    let listed: Vec<(String, String)> = h
        .headers
        .iter()
        .map(|(k, v)| (k.to_string(), v.to_str().unwrap_or("").to_string()))
        .collect();
    assert_eq!(p.headers, listed);
    assert!(listed.contains(&("d".to_string(), String::new())));
    let values: Vec<&str> =
        p.headers.iter().filter(|(k, _)| k == "b").map(|(_, v)| v.as_str()).collect();
    assert_eq!(values, ["1", "3"]);
}

#[test]
fn names_that_cannot_be_sent_again() {
    let c = cache(3);
    let h = response_with_quoted_name();
    let p = c.plan_store(&request("/"), &h, Bytes::new()).unwrap().unwrap();
    assert_eq!(p.headers, [("x\"y".to_string(), "1".to_string())]);
    let error = " InvalidHTTPHeader context: invalid header name cause: invalid HTTP header name";
    let answer =
        RequestPipeline::answer_hit(&request("/"), Bytes::new(), &p.headers, 200, false, None);
    assert_eq!(answer.err(), Some(error.to_string()));
    let mut ctx = StryvoProxyService::new_ctx();
    let answer = StryvoProxyService::handle_cached_response(
        &request("/"),
        &mut ctx,
        Bytes::new(),
        &p.headers,
        200,
    );
    assert_eq!(answer.err(), Some(error.to_string()));
}

#[test]
fn names_that_no_text_can_name_vary_nothing() {
    let mut r = http::Request::builder().method("GET").uri("/a").body(()).unwrap();
    let name = http::HeaderName::from_static("x\"y");
    r.headers_mut().append(name, http::HeaderValue::from_static("1"));
    r.headers_mut().append("x-b", http::HeaderValue::from_static("2"));
    r.headers_mut().append("vary", http::HeaderValue::from_static("x\"y, x-b"));
    let req = RequestHeader::from(r.into_parts().0);
    assert_eq!(StryvoProxyService::key_material(&req), b"GET /ax-b:2");
}

#[test]
fn room_for_stored_fields() {
    let mut fields: Vec<(String, String)> = Vec::new();
    for _ in 0..headers::MAX_NAMES {
        fields.push(("Set-Cookie".to_string(), "a=b".to_string()));
        fields.push(("set-cookie".to_string(), "c=d".to_string()));
    }
    // however many values there are, there is one name
    assert!(stored_has_room(&fields, headers::MAX_NAMES - 1));
    assert!(!stored_has_room(&fields, headers::MAX_NAMES));
    let c = RequestPipeline::answer_hit(&request("/"), Bytes::new(), &fields, 200, false, None)
        .unwrap();
    assert_eq!(all(&c.header, "set-cookie").len(), 2 * headers::MAX_NAMES);
}

#[test]
fn limiters_are_asked_in_turn() {
    let step = |outcomes: &[Option<Outcome>]| {
        StryvoProxyService::next_limiter(1, 2, &outcomes.to_vec())
    };
    let yes = Some(Outcome::Approved);
    let no = Some(Outcome::Declined);
    assert_eq!(step(&[]), LimitStep::AskMulti(0));
    assert_eq!(step(&[None]), LimitStep::AskSingle(0));
    assert_eq!(step(&[yes, None]), LimitStep::AskSingle(1));
    assert_eq!(step(&[yes, None, yes]), LimitStep::Pass);
    assert_eq!(step(&[no]), LimitStep::Refuse(429));
    assert_eq!(step(&[yes, no]), LimitStep::Refuse(429));
}

#[test]
fn answers_whose_body_has_been_compressed() {
    let body = Bytes::from_static(b"body");
    let mut h = response(200, &[("a", "v")]);
    let made = Ok(Bytes::from_static(b"made"));
    let settle = StryvoProxyService::settle_answer;
    let sent = settle(&mut h, body.clone(), CompressionEncoding::Brotli, made).unwrap();
    assert_eq!(sent, Bytes::from_static(b"made"));
    assert_eq!(all(&h, "content-encoding"), ["br"]);
    let mut h = response(200, &[("a", "v")]);
    let failed = Err("x".to_string());
    let sent = settle(&mut h, body.clone(), CompressionEncoding::Brotli, failed).unwrap();
    assert_eq!(sent, body);
    assert_eq!(all(&h, "content-encoding"), Vec::<String>::new());
}

#[test]
fn whole_bodies_within_the_limit_are_stored_once() {
    let run = |pieces: &[&'static [u8]], max_size: usize| {
        let mut ctx = collecting();
        let mut stored: Vec<Option<Bytes>> = Vec::new();
        for (i, piece) in pieces.iter().enumerate() {
            let (_, store) = StryvoProxyService::upstream_response_body_filter(
                &mut ctx,
                Some(Bytes::from_static(piece)),
                i == pieces.len() - 1,
                max_size,
            );
            stored.push(store.map(|s| s.body));
        }
        assert!(!ctx.should_cache_response && ctx.cache_body.is_none());
        stored
    };
    assert_eq!(run(&[b"ab", b"", b"cd"], 4), [None, None, Some(Bytes::from_static(b"abcd"))]);
    assert_eq!(run(&[b"ab", b"cd", b"", b"e"], 3), [None, None, None, None]);
    assert_eq!(run(&[b"", b""], 0), [None, Some(Bytes::new())]);
}
