use bytes::Bytes;
use pingora_http::{RequestHeader, ResponseHeader};
use stryvo::config::internal::{Config, PathControl, ProxyConfig, RequestSelector, SelectionKind, Settings};
use stryvo::config::nginx::Nginx;
use stryvo::proxy::cache::service::{
    CacheBucket, CacheResult, CacheService, SccMemoryCache, CacheMetadata,
};
use stryvo::proxy::compression::{CompressUtils, CompressionEncoding, CompressionStrategy};
use stryvo::proxy::context::StryvoContext;
use stryvo::proxy::headers;
use stryvo::proxy::modifiers::Modifiers;
use stryvo::proxy::pipeline::{FilterStep, LimitStep, RequestPipeline, ResponsePipeline};
use stryvo::proxy::rate_limiting::Outcome;
use stryvo::proxy::request_modifiers::{RemoveHeaderKeyRegex, RequestModifyMod, UpsertHeader};
use stryvo::proxy::response_modifiers::ResponseModifyMod;
use stryvo::proxy::service::{RateLimiters, RequestStage, StryvoProxyService};
use stryvo::proxy::{ensure_empty, extract_val};
use stryvo::text_map::TextMap;

fn request(fields: &[(&'static str, &str)]) -> RequestHeader {
    let mut h = RequestHeader::build("GET", b"/a?b=c", None).unwrap();
    for (name, value) in fields {
        h.append_header(*name, *value).unwrap();
    }
    h
}

fn response(status: u16, fields: &[(&'static str, &str)]) -> ResponseHeader {
    let mut h = ResponseHeader::build(status, None).unwrap();
    for (name, value) in fields {
        h.append_header(*name, *value).unwrap();
    }
    h
}

fn all(h: &ResponseHeader, name: &str) -> Vec<String> {
    h.headers.get_all(name).iter().map(|v| v.to_str().unwrap().to_string()).collect()
}

fn none() -> Vec<String> {
    Vec::new()
}

/// A name that a header can hold and that no text can name.
fn quoted_name() -> http::HeaderName {
    http::HeaderName::from_static("x\"y")
}

fn request_with_quoted_name() -> RequestHeader {
    let mut r = http::Request::builder().method("GET").uri("/").body(()).unwrap();
    r.headers_mut().append(quoted_name(), http::HeaderValue::from_static("1"));
    r.headers_mut().append("x-a", http::HeaderValue::from_static("2"));
    RequestHeader::from(r.into_parts().0)
}

fn response_with_quoted_name() -> ResponseHeader {
    let mut r = http::Response::builder().status(200).body(()).unwrap();
    r.headers_mut().append(quoted_name(), http::HeaderValue::from_static("1"));
    r.headers_mut().append("x-a", http::HeaderValue::from_static("2"));
    ResponseHeader::from(r.into_parts().0)
}

fn settings(pairs: &[(&str, &str)]) -> Settings {
    let mut s: Settings = TextMap::new();
    for (k, v) in pairs {
        s.insert(k.to_string(), v.to_string());
    }
    s
}

fn stored(pairs: &[(&str, &str)]) -> Vec<(String, String)> {
    pairs.iter().map(|(k, v)| (k.to_string(), v.to_string())).collect()
}

fn proxy(lines: &str) -> ProxyConfig {
    let text = format!("http {{\nserver {{\nserver_name p\nlisten x\n{}\n}}\n}}", lines);
    Config::from(Nginx::from_string(&text).unwrap()).basic_proxies.remove(0)
}

#[test]
fn settings_are_taken_out() {
    let mut s = settings(&[("a", "1"), ("b", "2")]);
    assert_eq!(extract_val("a", &mut s), Ok("1".to_string()));
    assert_eq!(extract_val("a", &mut s), Err("Missing configuration field!"));
    assert_eq!(ensure_empty(&s), Err("Extra settings found!"));
    assert_eq!(extract_val("b", &mut s), Ok("2".to_string()));
    assert_eq!(ensure_empty(&s), Ok(()));
}

#[test]
fn filters_that_remove_fields() {
    let m = RemoveHeaderKeyRegex::from_settings(settings(&[("pattern", "secret|^x-")])).unwrap();
    let mut h = request(&[("X-A", "1"), ("my-secret", "2"), ("my-secret", "3"), ("a-x-", "4")]);
    assert_eq!(m.upstream_request_filter(&mut h), Ok(()));
    assert_eq!(h.headers.keys_len(), 1);
    assert_eq!(h.headers.get("a-x-").unwrap(), "4");
    let e = |s: Settings| RemoveHeaderKeyRegex::from_settings(s).err();
    assert_eq!(e(settings(&[])), Some("Missing configuration field!"));
    assert_eq!(e(settings(&[("pattern", "(")])), Some("Error building regex"));
    assert_eq!(e(settings(&[("pattern", "a"), ("b", "c")])), Some("Extra settings found!"));
    // the pattern is looked at before what else is set
    assert_eq!(e(settings(&[("pattern", "("), ("b", "c")])), Some("Error building regex"));
}

#[test]
fn filters_that_set_fields() {
    let m = UpsertHeader::from_settings(settings(&[("key", "X-A"), ("value", "v"), ("more", "z")]))
        .unwrap();
    let mut h = request(&[("x-a", "1"), ("x-a", "2")]);
    assert_eq!(m.upstream_request_filter(&mut h), Ok(()));
    assert_eq!(h.headers.get_all("x-a").iter().count(), 1);
    assert_eq!(h.headers.get("x-a").unwrap(), "v");
    let e = |s: Settings| UpsertHeader::from_settings(s).err();
    assert_eq!(e(settings(&[("value", "v")])), Some("Missing configuration field!"));
    assert_eq!(e(settings(&[("key", "v")])), Some("Missing configuration field!"));
}

#[test]
fn fields_that_are_refused() {
    let m = UpsertHeader::from_settings(settings(&[("key", "a b"), ("value", "v")])).unwrap();
    let mut h = request(&[("x-a", "1")]);
    assert_eq!(
        m.upstream_request_filter(&mut h),
        Err(" InvalidHTTPHeader context: invalid header name cause: invalid HTTP header name"
            .to_string())
    );
    let m = UpsertHeader::from_settings(settings(&[("key", "x-a"), ("value", "a\u{7}")])).unwrap();
    assert_eq!(
        m.upstream_request_filter(&mut h),
        Err(" InvalidHTTPHeader context: invalid value while append".to_string())
    );
    // the field that was to be replaced is gone
    assert!(h.headers.get("x-a").is_none());
}

#[test]
fn filters_from_configuration() {
    let p = proxy(
        "upstream b { server a:1 }\nlocation / {\ndeny 10.0.0.0/8\nproxy_set_header X-A v\nhide_header secret\nadd_header X-B w\n}",
    );
    let m = Modifiers::from_conf(&p.path_control).unwrap();
    assert_eq!(m.request_filters.len(), 1);
    assert_eq!(m.request_filters[0].settings.get("addrs"), Some(&"10.0.0.0/8".to_string()));
    let mut req = request(&[("x-a", "old")]);
    assert_eq!(m.change_request(&mut req), Ok(()));
    assert_eq!(req.headers.get("x-a").unwrap(), "v");
    let mut resp = response(200, &[("my-secret", "1"), ("x-b", "2")]);
    Modifiers::change_response(&m.upstream_response_filters, &mut resp);
    assert_eq!(all(&resp, "my-secret"), none());
    assert_eq!(all(&resp, "x-b"), ["w"]);
}

#[test]
fn filters_that_cannot_be_built() {
    let conf = |req: &[(&str, &str)], up: &[(&str, &str)], down: &[(&str, &str)]| {
        let list = |s: &[(&str, &str)]| {
            if s.is_empty() {
                Vec::new()
            } else {
                vec![settings(s)]
            }
        };
        let c = PathControl {
            request_filters: list(req),
            upstream_request_filters: list(up),
            upstream_response_filters: list(down),
        };
        Modifiers::from_conf(&c).err()
    };
    let bad = [("a", "b")];
    let odd = [("kind", "odd")];
    let good = [("kind", "upsert-header"), ("key", "k"), ("value", "v")];
    assert_eq!(conf(&[], &[], &[]), None);
    assert_eq!(conf(&[], &good, &good), None);
    assert_eq!(conf(&bad, &bad, &bad), Some("Missing 'kind' field in request filter"));
    assert_eq!(conf(&odd, &[], &[]), Some("Unsupported request filter type"));
    assert_eq!(conf(&[], &bad, &odd), Some("Missing 'kind' field in upstream request filter"));
    assert_eq!(conf(&[], &odd, &[]), Some("Unsupported upstream request filter type"));
    assert_eq!(conf(&[], &[], &bad), Some("Missing 'kind' field in upstream response filter"));
    assert_eq!(conf(&[], &[], &odd), Some("Unsupported upstream response filter type"));
    assert_eq!(
        conf(&[], &[("kind", "remove-header-key-regex"), ("pattern", "[")], &[]),
        Some("Error building regex")
    );
}

#[test]
fn parsed_filters_can_be_built_unless_a_pattern_is_bad() {
    let p = proxy("upstream b { server a:1 }\nlocation / {\nproxy_hide_header [\n}");
    assert_eq!(Modifiers::from_conf(&p.path_control).err(), Some("Error building regex"));
}

#[test]
fn hits_are_answered() {
    let body = Bytes::from("word ".repeat(100));
    let mut ctx = StryvoContext::new(true, Some(60));
    let lookup = Ok(CacheResult::Hit {
        body: body.clone(),
        headers: stored(&[
            ("content-type", "text/html"),
            ("Content-Length", "7"),
            ("content-encoding", "gzip"),
            ("x-a", "1"),
            ("x-a", "2"),
        ]),
        status: 203,
    });
    let c = RequestPipeline::process_cache_lookup(&request(&[]), &mut ctx, lookup)
        .unwrap()
        .unwrap();
    assert_eq!(c.body, body);
    assert_eq!(c.header.status.as_u16(), 203);
    assert_eq!(all(&c.header, "content-length"), ["500"]);
    assert_eq!(all(&c.header, "content-encoding"), none());
    assert_eq!(all(&c.header, "x-a"), ["1", "2"]);
    assert_eq!(all(&c.header, "x-cache"), ["HIT"]);
    assert_eq!(all(&c.header, "server"), ["Stryvo"]);
    assert_eq!(all(&c.header, "cache-control"), ["public, max-age=60"]);
    assert_eq!(ctx.cache_status, Some("HIT".to_string()));
    assert!(!ctx.should_cache_response);
    assert_eq!(ctx.cache_req_header.unwrap().uri.to_string(), "/a?b=c");
}

#[test]
fn hits_are_compressed() {
    let body = Bytes::from("word ".repeat(100));
    let c = RequestPipeline::answer_hit(
        &request(&[("accept-encoding", "gzip")]),
        body.clone(),
        &stored(&[]),
        200,
        false,
        None,
    )
    .unwrap();
    assert_eq!(CompressUtils::decompress_gzip(&c.body).unwrap(), body);
    assert_eq!(all(&c.header, "content-encoding"), ["gzip"]);
    assert_eq!(all(&c.header, "transfer-encoding"), ["chunked"]);
    assert_eq!(all(&c.header, "content-length"), [c.body.len().to_string()]);
    assert_eq!(all(&c.header, "pragma"), ["no-cache"]);
    let empty = RequestPipeline::answer_hit(
        &request(&[("accept-encoding", "br")]),
        Bytes::new(),
        &stored(&[]),
        200,
        false,
        None,
    )
    .unwrap();
    assert_eq!(all(&empty.header, "content-length"), none());
    assert_eq!(all(&empty.header, "content-encoding"), ["br"]);
}

#[test]
fn hits_with_a_body_that_has_been_compressed() {
    let body = Bytes::from_static(b"body");
    let made = Ok(Bytes::from_static(b"made"));
    let (sent, encoding) =
        RequestPipeline::settle_body(body.clone(), CompressionEncoding::Brotli, made);
    assert_eq!(sent, Bytes::from_static(b"made"));
    assert_eq!(encoding, CompressionEncoding::Brotli);
    let failed = Err("x".to_string());
    let (sent, encoding) =
        RequestPipeline::settle_body(body.clone(), CompressionEncoding::Brotli, failed);
    assert_eq!((sent, encoding), (body.clone(), CompressionEncoding::Identity));
    let answer = |encoding: CompressionEncoding| {
        let fields = stored(&[("a", "v")]);
        RequestPipeline::hit_response(&fields, 200, body.clone(), encoding, true, Some(3)).unwrap()
    };
    let c = answer(CompressionEncoding::Brotli);
    assert_eq!(c.body, body);
    assert_eq!(all(&c.header, "content-encoding"), ["br"]);
    assert_eq!(all(&c.header, "transfer-encoding"), ["chunked"]);
    assert_eq!(all(&c.header, "content-length"), ["4"]);
    assert_eq!(all(&c.header, "a"), ["v"]);
    let c = answer(CompressionEncoding::Identity);
    assert_eq!(all(&c.header, "content-encoding"), none());
    assert_eq!(all(&c.header, "transfer-encoding"), none());
    assert_eq!(all(&c.header, "content-length"), ["4"]);
}

#[test]
fn bodies_for_clients() {
    let body = Bytes::from("word ".repeat(100));
    let run = |accept: &str| {
        RequestPipeline::body_for_client(body.clone(), &request(&[("accept-encoding", accept)]))
    };
    assert_eq!(run("x"), (body.clone(), CompressionEncoding::Identity));
    let (sent, encoding) = run("br");
    assert_eq!(encoding, CompressionEncoding::Brotli);
    assert!(sent.len() < body.len());
    let short = Bytes::from_static(b"short");
    let req = request(&[("accept-encoding", "br")]);
    assert_eq!(
        RequestPipeline::body_for_client(short.clone(), &req),
        (short, CompressionEncoding::Brotli)
    );
}

#[test]
fn pieces_that_have_been_compressed() {
    let piece = Bytes::from_static(b"piece");
    let made = Ok(Bytes::from_static(b"made"));
    assert_eq!(StryvoContext::settle_chunk(piece.clone(), made), Bytes::from_static(b"made"));
    assert_eq!(StryvoContext::settle_chunk(piece.clone(), Err("x".to_string())), piece);
    let encoding = Some(CompressionEncoding::Brotli);
    assert_eq!(StryvoContext::compress_chunk(piece.clone(), encoding), piece);
    assert_eq!(StryvoContext::compress_chunk(Bytes::new(), encoding), Bytes::new());
    assert_eq!(StryvoContext::compress_chunk(piece.clone(), None), piece);
}

#[test]
fn hits_that_cannot_be_answered() {
    let answer = |status: u16, fields: &[(&str, &str)]| {
        RequestPipeline::answer_hit(&request(&[]), Bytes::new(), &stored(fields), status, true, None)
            .err()
    };
    assert_eq!(answer(99, &[]), Some(" InvalidHTTPHeader context: invalid status".to_string()));
    assert_eq!(answer(1000, &[]), Some(" InvalidHTTPHeader context: invalid status".to_string()));
    assert_eq!(
        answer(200, &[("a b", "v")]),
        Some(
            " InvalidHTTPHeader context: invalid header name cause: invalid HTTP header name"
                .to_string()
        )
    );
    assert_eq!(
        answer(200, &[("a", "v\n")]),
        Some(" InvalidHTTPHeader context: invalid value while append".to_string())
    );
    assert_eq!(answer(999, &[("a", "v")]), None);
}

#[test]
fn misses_and_errors_are_forwarded() {
    let mut ctx = StryvoContext::new(false, None);
    let r = RequestPipeline::process_cache_lookup(&request(&[]), &mut ctx, Ok(CacheResult::Miss));
    assert!(r.unwrap().is_none());
    assert_eq!(ctx.cache_status, Some("MISS".to_string()));
    assert!(ctx.should_cache_response);
    let mut ctx = StryvoContext::new(false, None);
    let r = RequestPipeline::process_cache_lookup(&request(&[]), &mut ctx, Err("x".to_string()));
    assert!(r.unwrap().is_none());
    assert_eq!(ctx.cache_status, Some("ERROR".to_string()));
    assert!(!ctx.should_cache_response);
    assert!(ctx.cache_req_header.is_some());
}

#[test]
fn rate_limits() {
    let yes = Some(Outcome::Approved);
    let no = Some(Outcome::Declined);
    let step = |outcomes: &[Option<Outcome>]| {
        RequestPipeline::process_rate_limiting(2, 1, &outcomes.to_vec())
    };
    assert_eq!(step(&[]), LimitStep::AskSingle(0));
    assert_eq!(step(&[yes]), LimitStep::AskSingle(1));
    assert_eq!(step(&[yes, None]), LimitStep::AskMulti(0));
    assert_eq!(step(&[yes, None, yes]), LimitStep::Pass);
    assert_eq!(step(&[no]), LimitStep::Refuse(429));
    assert_eq!(step(&[yes, no]), LimitStep::Refuse(429));
    assert_eq!(step(&[None, yes, no]), LimitStep::Refuse(429));
    assert_eq!(RequestPipeline::process_rate_limiting(0, 0, &Vec::new()), LimitStep::Pass);
}

#[test]
fn answers_of_request_filters() {
    let step = RequestPipeline::process_request_filters;
    assert!(matches!(step(2, 0, None), FilterStep::Ask(0)));
    assert!(matches!(step(2, 1, Some(Ok(false))), FilterStep::Ask(1)));
    assert!(matches!(step(2, 2, Some(Ok(false))), FilterStep::Passed));
    assert!(matches!(step(0, 0, None), FilterStep::Passed));
    assert!(matches!(step(2, 1, Some(Ok(true))), FilterStep::Handled));
    match step(2, 1, Some(Err("x".to_string()))) {
        FilterStep::Failed { error, message } => {
            assert_eq!(error, "x");
            assert_eq!(message, "Request filter error: x");
        }
        _ => panic!("a failure"),
    }
}

#[test]
fn cache_status_of_responses() {
    let run = |known: Option<&str>, has_cache: bool, status: u16, cc: &str| {
        let mut ctx = StryvoContext::new(false, None);
        ctx.cache_status = known.map(|s| s.to_string());
        let mut h = response(status, &[("cache-control", cc)]);
        let s = ResponsePipeline::process_cache_status(
            &request(&[]),
            &mut h,
            &mut ctx,
            has_cache,
            true,
            Some(9),
        );
        assert_eq!(all(&h, "x-cache"), [s.clone()]);
        assert_eq!(all(&h, "cache-control"), ["public, max-age=9"]);
        if let Some(kept) = &ctx.cache_resp_header {
            // what is kept is the response as it came
            assert_eq!(all(kept, "cache-control"), [cc]);
            assert_eq!(all(kept, "x-cache"), none());
        }
        assert_eq!(ctx.cache_resp_header.is_some(), ctx.should_cache_response);
        (s, ctx.should_cache_response)
    };
    assert_eq!(run(Some("MISS"), true, 200, "public"), ("MISS".to_string(), true));
    assert_eq!(run(Some("MISS"), true, 404, "public"), ("MISS".to_string(), false));
    assert_eq!(run(Some("ERROR"), true, 200, "public"), ("ERROR".to_string(), false));
    assert_eq!(run(None, true, 200, "public"), ("MISS".to_string(), true));
    assert_eq!(run(None, true, 200, "No-Store"), ("BYPASS".to_string(), false));
    assert_eq!(run(None, true, 201, "public"), ("BYPASS".to_string(), false));
    assert_eq!(run(Some("MISS"), false, 200, "public"), ("BYPASS".to_string(), false));
}

#[test]
fn compression_of_responses_is_set_up() {
    let run = |accept: &str, content_type: &'static str| {
        let mut ctx = StryvoContext::new(false, None);
        let mut h = response(200, &[("content-length", "9")]);
        h.append_header("content-type", content_type).unwrap();
        let req = request(&[("accept-encoding", accept)]);
        ResponsePipeline::process_compression_setup(&req, &mut h, &mut ctx);
        (ctx.compression_encoding, all(&h, "content-encoding"), all(&h, "content-length"))
    };
    assert_eq!(
        run("br", "text/html"),
        (Some(CompressionEncoding::Brotli), vec!["br".to_string()], none())
    );
    assert_eq!(run("br", "image/png"), (None, none(), vec!["9".to_string()]));
    assert_eq!(run("x", "text/html"), (None, none(), vec!["9".to_string()]));
}

#[test]
fn access_log_entries() {
    let mut ctx = StryvoContext::new(false, None);
    let req = request(&[("user-agent", "curl/8"), ("referer", "http://r")]);
    let resp = response(404, &[]);
    let e = ResponsePipeline::process_logging(&req, &resp, &ctx, 5_000_000);
    assert_eq!(e.method, "GET");
    assert_eq!(e.uri, "/a?b=c");
    assert_eq!(e.status, 404);
    assert_eq!(e.upstream, "unknown");
    assert_eq!(e.elapsed_ms, 0);
    assert_eq!(e.http_version, "HTTP/1.1");
    assert_eq!(e.user_agent, "curl/8");
    assert_eq!(e.referer, "http://r");
    assert_eq!(e.cache_status, "");
    ctx.note_start(1_500_000);
    ctx.upstream_addr = Some("1.2.3.4:80".to_string());
    ctx.cache_status = Some("MISS".to_string());
    let e = ResponsePipeline::process_logging(&request(&[]), &resp, &ctx, 9_000_000);
    assert_eq!(e.elapsed_ms, 7);
    assert_eq!(e.upstream, "1.2.3.4:80");
    assert_eq!(e.user_agent, "unknown");
    assert_eq!(e.referer, "");
    assert_eq!(e.cache_status, "MISS");
}

#[test]
fn start_of_a_request() {
    let mut ctx = StryvoContext::new(false, None);
    assert_eq!(ctx.start(), None);
    ctx.note_start(u128::MAX - 5);
    assert_eq!(ctx.start(), Some(u128::MAX - 5));
    assert_eq!(ctx.selector_buf, (u128::MAX - 5).to_le_bytes().to_vec());
    ctx.selector_buf = vec![1; 15];
    assert_eq!(ctx.start(), None);
}

#[test]
fn bodies_are_collected() {
    let mut ctx = StryvoContext::new(false, None);
    ctx.should_cache_response = true;
    ctx.cache_req_header = Some(request(&[]));
    ctx.cache_resp_header = Some(response(200, &[("content-encoding", "gzip"), ("x-a", "1")]));
    let (out, store) = ctx.filter_body(Some(Bytes::from_static(b"ab")), false);
    assert_eq!(out.unwrap(), Bytes::from_static(b"ab"));
    assert!(store.is_none());
    let (_, store) = ctx.filter_body(Some(Bytes::new()), false);
    assert!(store.is_none());
    let (out, store) = ctx.filter_body(Some(Bytes::from_static(b"cd")), true);
    assert_eq!(out.unwrap(), Bytes::from_static(b"cd"));
    let s = store.unwrap();
    assert_eq!(s.body, Bytes::from_static(b"abcd"));
    assert_eq!(s.req_header.uri.to_string(), "/a?b=c");
    assert_eq!(all(&s.resp_header, "content-encoding"), none());
    assert_eq!(all(&s.resp_header, "x-a"), ["1"]);
    assert!(!ctx.should_cache_response);
    assert!(ctx.cache_body.is_none() && ctx.cache_req_header.is_none());
}

#[test]
fn bodies_that_are_not_collected() {
    let mut ctx = StryvoContext::new(false, None);
    let (_, store) = ctx.filter_body(Some(Bytes::from_static(b"ab")), true);
    assert!(store.is_none());
    assert!(ctx.cache_body.unwrap().is_empty());
    let mut ctx = StryvoContext::new(false, None);
    ctx.should_cache_response = true;
    ctx.cache_req_header = Some(request(&[]));
    ctx.cache_resp_header = Some(response(200, &[]));
    let (out, store) = ctx.filter_body(None, true);
    assert!(out.is_none() && store.is_none());
    assert!(!ctx.should_cache_response && ctx.cache_body.is_none());
}

#[test]
fn pieces_are_compressed_for_the_client_and_kept_as_they_are() {
    let piece = Bytes::from("word ".repeat(100));
    let mut ctx = StryvoContext::new(false, None);
    ctx.should_cache_response = true;
    ctx.compression_encoding = Some(CompressionEncoding::Gzip);
    let (out, _) = ctx.filter_body(Some(piece.clone()), false);
    assert_eq!(CompressUtils::decompress_gzip(&out.unwrap()).unwrap(), piece);
    assert_eq!(ctx.cache_body.unwrap(), vec![piece]);
}

#[test]
fn services_from_configuration() {
    let p = proxy(
        "upstream b {\nserver 1.2.3.4:80\nserver 5.6.7.8:80\nip_hash\n}\ncache {\ncache_enabled true\ncache_ttl 9\ncache_dir /c\nmax_file_size 77\n}\nlocation / {\nlimit_req zone=ip\nlimit_req zone=any_a\nlimit_req zone=b\n}",
    );
    let plan = StryvoProxyService::from_basic_conf(p).unwrap();
    assert_eq!(plan.name, "p");
    assert_eq!(plan.backends.len(), 2);
    assert_eq!(plan.backends[1].address, "5.6.7.8:80");
    assert_eq!(plan.listeners.len(), 1);
    assert_eq!(plan.service.selection, SelectionKind::Ketama);
    assert_eq!(plan.service.request_selector, RequestSelector::SourceAddrAndUriPath);
    assert_eq!(plan.service.rate_limiters.request_filter_stage_multi.len(), 2);
    assert_eq!(plan.service.rate_limiters.request_filter_stage_single.len(), 1);
    assert!(!plan.service.browser_cache_enabled);
    assert_eq!(plan.service.browser_cache_ttl, None);
    let c = plan.persistence.unwrap();
    assert_eq!(c.cache_dir, "/c/p");
    assert_eq!(c.metadata_dir, "/c/p/metadata");
    assert_eq!(c.metadata_sync_interval, 5);
    assert_eq!(c.shard_count, 32);
    let cache = plan.service.cache_service.as_ref().unwrap();
    assert_eq!(cache.name(), "cache-p");
    let storage = cache.bucket().storage();
    assert_eq!(storage.capacity, 8192);
    assert_eq!(storage.ttl, 9);
    assert_eq!(storage.max_file_size, Some(77));
    assert_eq!(storage.compression, CompressionStrategy::Auto);
    assert_eq!(storage.cache_dir, "/c/p");
    assert_eq!(cache.bucket().persistence_config.as_ref().unwrap().shard_count, 32);
    assert_eq!(plan.service.first_stage(), RequestStage::Cache);
}

#[test]
fn services_without_a_cache() {
    let plan = StryvoProxyService::from_basic_conf(proxy(
        "upstream b { server a:1 }\ncache {\nbrowser_cache_enabled true\nbrowser_cache_ttl 8\n}",
    ))
    .unwrap();
    assert!(plan.service.cache_service.is_none() && plan.persistence.is_none());
    assert_eq!(plan.service.first_stage(), RequestStage::RateLimits);
    let ctx = plan.service.new_ctx();
    assert!(ctx.browser_cache_enabled);
    assert_eq!(ctx.browser_cache_ttl, Some(8));
    let plan = StryvoProxyService::from_basic_conf(proxy(
        "upstream b { server a:1 }\ncache {\ncache_enabled true\nshard_count 3\n}",
    ))
    .unwrap();
    assert_eq!(plan.persistence.as_ref().unwrap().cache_dir, "/tmp/stryvo-cache/p");
    assert_eq!(plan.persistence.as_ref().unwrap().shard_count, 3);
    let bad = proxy("upstream b { server a:1 }\nlocation / {\nhide_header (\n}");
    assert_eq!(StryvoProxyService::from_basic_conf(bad).err(), Some("Error building regex"));
}

#[test]
fn rules_are_sorted() {
    let p = proxy("upstream b { server a:1 }\nlocation / {\nlimit_req zone=any_x burst=1\nlimit_req zone=ip burst=2\nlimit_req zone=any_y burst=3\n}");
    let r = RateLimiters::from_rules(p.rate_limiting.rules);
    assert_eq!(r.request_filter_stage_multi.len(), 1);
    assert_eq!(r.request_filter_stage_multi[0].config.max_tokens_per_bucket, 2);
    assert_eq!(r.request_filter_stage_single.len(), 2);
    assert_eq!(r.request_filter_stage_single[0].config.max_tokens_per_bucket, 1);
    assert_eq!(r.request_filter_stage_single[1].config.max_tokens_per_bucket, 3);
}

#[test]
fn stages_of_a_request() {
    let next = StryvoProxyService::next_stage;
    assert_eq!(next(RequestStage::Cache, false), RequestStage::RateLimits);
    assert_eq!(next(RequestStage::Cache, true), RequestStage::Decided(true));
    assert_eq!(next(RequestStage::RateLimits, false), RequestStage::Filters);
    assert_eq!(next(RequestStage::RateLimits, true), RequestStage::Decided(true));
    assert_eq!(next(RequestStage::Filters, false), RequestStage::Decided(false));
    assert_eq!(next(RequestStage::Filters, true), RequestStage::Decided(true));
    assert_eq!(next(RequestStage::Decided(true), false), RequestStage::Decided(true));
}

#[test]
fn chosen_backends_are_noted() {
    let mut ctx = StryvoContext::new(false, None);
    ctx.note_start(1);
    assert_eq!(StryvoProxyService::note_peer(&mut ctx, None), Err("No backend available"));
    assert_eq!(ctx.selector_buf.len(), 16);
    assert_eq!(
        StryvoProxyService::note_peer(&mut ctx, Some(None)),
        Err("Missing backend metadata")
    );
    assert!(ctx.selector_buf.is_empty());
    assert_eq!(StryvoProxyService::note_peer(&mut ctx, Some(Some("a:1".to_string()))), Ok(()));
    assert_eq!(ctx.upstream_addr, Some("a:1".to_string()));
}

#[test]
fn responses_pass_all_stages() {
    let p = proxy(
        "upstream b { server a:1 }\ncache {\ncache_enabled true\n}\nlocation / {\nadd_header x-b w\nhide_header x-cache\n}",
    );
    let plan = StryvoProxyService::from_basic_conf(p).unwrap();
    let mut ctx = plan.service.new_ctx();
    ctx.cache_status = Some("MISS".to_string());
    let mut h = response(200, &[("content-type", "text/html"), ("x-b", "1")]);
    let e = plan.service.upstream_response_filter(
        &request(&[("accept-encoding", "zstd")]),
        &mut h,
        &mut ctx,
        77,
    );
    assert_eq!(e.cache_status, "MISS");
    assert_eq!(all(&h, "x-b"), ["w"]);
    assert_eq!(all(&h, "x-cache"), none());
    assert_eq!(all(&h, "server"), ["Stryvo"]);
    assert_eq!(all(&h, "content-encoding"), ["zstd"]);
    assert_eq!(ctx.compression_encoding, Some(CompressionEncoding::Zstd));
    assert!(ctx.should_cache_response);
    assert_eq!(all(ctx.cache_resp_header.as_ref().unwrap(), "x-b"), ["1"]);
}

#[test]
fn caches_under_a_name() {
    let storage = SccMemoryCache::with_capacity(3, "/c".to_string(), 2, None);
    let bucket = CacheBucket::new(storage);
    assert!(bucket.persistence_config.is_none());
    assert_eq!(bucket.storage().ttl, 3600);
    let service = CacheService::new(bucket, "n".to_string());
    assert_eq!(service.name(), "n");
    assert_eq!(service.bucket().storage().capacity, 3);
    let m = CacheMetadata {
        headers: stored(&[("a", "b")]),
        status: 200,
        created_at: stryvo::clock::Instant { nanos: 1 },
        ttl: 2,
        body_path: "p".to_string(),
        body_size: 3,
    };
    let n = m.clone();
    assert_eq!(n.headers, m.headers);
    assert_eq!((n.status, n.created_at, n.ttl, n.body_size), (200, m.created_at, 2, 3));
    assert_eq!(n.body_path, "p");
}

#[test]
fn rules_cover_requests() {
    let p = proxy("upstream b { server a:1 }\nlocation / {\nlimit_req zone=any_mp4$\nlimit_req zone=ip\nlimit_req zone=^/static\n}");
    let r = RateLimiters::from_rules(p.rate_limiting.rules);
    let single = &r.request_filter_stage_single[0].kind;
    assert!(single.covers("/a.mp4"));
    assert!(!single.covers("/a.mp4/x"));
    let by_ip = &r.request_filter_stage_multi[0].kind;
    assert!(by_ip.covers("/anything"));
    let by_uri = &r.request_filter_stage_multi[1].kind;
    assert!(by_uri.covers("/static/a"));
    assert!(!by_uri.covers("/a/static"));
}

#[test]
fn filters_twice_are_filters_once() {
    let set = UpsertHeader::from_settings(settings(&[("key", "X-A"), ("value", "v")])).unwrap();
    let drop = RemoveHeaderKeyRegex::from_settings(settings(&[("pattern", "^b")])).unwrap();
    let mut h = request(&[("x-a", "1"), ("b-c", "2"), ("a-b", "3")]);
    for _ in 0..2 {
        assert_eq!(set.upstream_request_filter(&mut h), Ok(()));
        assert_eq!(drop.upstream_request_filter(&mut h), Ok(()));
        assert_eq!(h.headers.len(), 2);
        assert_eq!(h.headers.get("x-a").unwrap(), "v");
        assert_eq!(h.headers.get("a-b").unwrap(), "3");
    }
}

#[test]
fn names_that_no_text_can_name() {
    let mut req = request_with_quoted_name();
    let mut resp = response_with_quoted_name();
    assert_eq!(headers::request_text(&req, "x\"y"), None);
    assert_eq!(headers::response_text(&resp, "x\"y"), None);
    assert_eq!(headers::response_text(&resp, "X-A"), Some("2".to_string()));
    let set = UpsertHeader::from_settings(settings(&[("key", "x\"y"), ("value", "v")])).unwrap();
    assert_eq!(
        set.upstream_request_filter(&mut req),
        Err(" InvalidHTTPHeader context: invalid header name cause: invalid HTTP header name"
            .to_string())
    );
    set.upstream_response_filter(&mut resp);
    assert_eq!(req.headers.get(quoted_name()).unwrap(), "1");
    assert_eq!(resp.headers.get(quoted_name()).unwrap(), "1");
}

#[test]
fn every_name_that_matches_is_removed() {
    let drop = RemoveHeaderKeyRegex::from_settings(settings(&[("pattern", "y$")])).unwrap();
    let mut req = request_with_quoted_name();
    assert_eq!(drop.upstream_request_filter(&mut req), Ok(()));
    assert_eq!(req.headers.len(), 1);
    assert_eq!(req.headers.get("x-a").unwrap(), "2");
    let mut resp = response_with_quoted_name();
    drop.upstream_response_filter(&mut resp);
    assert_eq!(resp.headers.len(), 1);
    assert_eq!(resp.headers.get("x-a").unwrap(), "2");
}

#[test]
fn valid_fields_are_set() {
    let set = UpsertHeader::from_settings(settings(&[("key", "X-A"), ("value", "v")])).unwrap();
    let mut req = request(&[("x-b", "1"), ("x-a", "2"), ("x-a", "3")]);
    let mut resp = response(200, &[("x-b", "1")]);
    for _ in 0..2 {
        assert_eq!(set.upstream_request_filter(&mut req), Ok(()));
        assert_eq!(req.headers.len(), 2);
        assert_eq!(req.headers.get("x-a").unwrap(), "v");
        assert_eq!(req.headers.get("x-b").unwrap(), "1");
        set.upstream_response_filter(&mut resp);
        assert_eq!(all(&resp, "x-a"), ["v"]);
        assert_eq!(all(&resp, "x-b"), ["1"]);
    }
}

#[test]
fn room_for_the_names_that_filters_add() {
    let p = proxy(
        "upstream b { server a:1 }\nlocation / {\nproxy_set_header a v\nproxy_hide_header z\nadd_header b v\nhide_header z\nadd_header c v\n}",
    );
    let m = Modifiers::from_conf(&p.path_control).unwrap();
    assert_eq!(m.upstream_request_filters.len(), 2);
    assert_eq!(Modifiers::response_additions(&m.upstream_response_filters), 2);
    let mut full = request(&[]);
    for i in 0..headers::MAX_NAMES - 1 {
        full.append_header(format!("n{}", i), "v").unwrap();
    }
    assert!(m.request_fits(&full));
    full.append_header("last", "v").unwrap();
    assert!(!m.request_fits(&full));
    // a filter that only removes needs no room
    let p = proxy("upstream b { server a:1 }\nlocation / {\nproxy_hide_header ^n\n}");
    let m = Modifiers::from_conf(&p.path_control).unwrap();
    assert!(m.request_fits(&full));
    assert_eq!(m.change_request(&mut full), Ok(()));
    assert_eq!(full.headers.len(), 1);
}

#[test]
fn setting_a_field_that_is_there_needs_no_room() {
    let mut full = request(&[]);
    for i in 0..headers::MAX_NAMES {
        full.append_header(format!("n{}", i), "v").unwrap();
    }
    let set = UpsertHeader::from_settings(settings(&[("key", "N7"), ("value", "w")])).unwrap();
    assert_eq!(set.upstream_request_filter(&mut full), Ok(()));
    assert_eq!(full.headers.get("n7").unwrap(), "w");
    assert_eq!(full.headers.len(), headers::MAX_NAMES);
}

/// The fields of a header as it lists them.
fn listed(h: &ResponseHeader) -> Vec<(String, String)> {
    h.headers.iter().map(|(k, v)| (k.to_string(), v.to_str().unwrap().to_string())).collect()
}

#[test]
fn headers_are_kept_and_stored_as_they_are_listed() {
    let p = proxy("upstream b { server a:1 }\ncache {\ncache_enabled true\n}");
    let plan = StryvoProxyService::from_basic_conf(p).unwrap();
    let mut ctx = plan.service.new_ctx();
    ctx.cache_status = Some("MISS".to_string());
    let mut h = response(200, &[("c", "1"), ("a", "2"), ("c", "3"), ("b", "4")]);
    let before = listed(&h);
    let mut again = h.clone();
    plan.service.upstream_response_filter(&request(&[]), &mut h, &mut ctx, 7);
    assert_eq!(listed(ctx.cache_resp_header.as_ref().unwrap()), before);
    ctx.cache_req_header = Some(request(&[]));
    let (_, store) = ctx.filter_body(Some(Bytes::from_static(b"x")), true);
    assert_eq!(listed(&store.unwrap().resp_header), before);
    let mut ctx = StryvoContext::new(false, None);
    ResponsePipeline::process_cache_status(
        &request(&[]),
        &mut again,
        &mut ctx,
        true,
        true,
        None,
    );
    assert_eq!(listed(ctx.cache_resp_header.as_ref().unwrap()), before);
}

/// What a run of pieces hands out, piece by piece, and the state it leaves.
fn run_of(pieces: &[Option<&'static [u8]>]) -> (Vec<Option<Bytes>>, StryvoContext) {
    let mut ctx = StryvoContext::new(false, None);
    ctx.should_cache_response = true;
    ctx.cache_req_header = Some(request(&[]));
    ctx.cache_resp_header = Some(response(200, &[]));
    let mut stored = Vec::new();
    for (i, piece) in pieces.iter().enumerate() {
        let data = piece.map(Bytes::from_static);
        let (out, store) = ctx.filter_body(data.clone(), i == pieces.len() - 1);
        assert_eq!(out, data);
        stored.push(store.map(|s| s.body));
    }
    (stored, ctx)
}

#[test]
fn whole_bodies_are_stored_once() {
    let (stored, ctx) = run_of(&[Some(b"ab"), None, Some(b""), Some(b"c"), None]);
    assert_eq!(stored, [None, None, None, None, Some(Bytes::from_static(b"abc"))]);
    assert!(!ctx.should_cache_response && ctx.cache_body.is_none());
    assert!(ctx.cache_req_header.is_none() && ctx.cache_resp_header.is_none());
    let (stored, ctx) = run_of(&[Some(b""), None, Some(b"")]);
    assert_eq!(stored, [None, None, None]);
    assert!(!ctx.should_cache_response && ctx.cache_body.is_none());
}
