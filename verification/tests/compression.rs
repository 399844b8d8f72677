use bytes::Bytes;
use pingora_http::{RequestHeader, ResponseHeader};
use std::io::Read;
use stryvo::proxy::buffer;
use stryvo::proxy::compression::{
    skip_compression, ClientCompression, CodecFault, CompressUtils, CompressionEncoding,
    CompressionStrategy,
};
use stryvo::proxy::header_utils::HeaderUtils;
use stryvo::proxy::headers;

fn request(fields: &[(&'static str, &str)]) -> RequestHeader {
    let mut h = RequestHeader::build("GET", b"/", None).unwrap();
    for (name, value) in fields {
        h.append_header(*name, *value).unwrap();
    }
    h
}

fn response(fields: &[(&'static str, &str)]) -> ResponseHeader {
    let mut h = ResponseHeader::build(200, None).unwrap();
    for (name, value) in fields {
        h.append_header(*name, *value).unwrap();
    }
    h
}

fn all(h: &ResponseHeader, name: &str) -> Vec<String> {
    h.headers.get_all(name).iter().map(|v| v.to_str().unwrap().to_string()).collect()
}

fn sample() -> Bytes {
    Bytes::from("the same words over and over, ".repeat(40))
}

#[test]
fn gzip_and_back() {
    let data = sample();
    let z = CompressUtils::compress_gzip(&data).unwrap();
    assert!(z.len() < data.len());
    assert_eq!(&z[..2], &[0x1f, 0x8b]);
    assert_eq!(CompressUtils::decompress_gzip(&z).unwrap(), data);
    let empty = CompressUtils::compress_gzip(&Bytes::new()).unwrap();
    assert!(!empty.is_empty());
    assert_eq!(CompressUtils::decompress_gzip(&empty).unwrap(), Bytes::new());
}

#[test]
fn what_is_not_gzip_is_refused() {
    let e = CompressUtils::decompress_gzip(&Bytes::from_static(b"not gzip at all")).unwrap_err();
    assert_eq!(e, "Gzip decompression error: invalid gzip header");
}

#[test]
fn brotli_and_back() {
    let data = sample();
    let z = CompressUtils::compress_brotli(&data).unwrap();
    assert!(z.len() < data.len());
    let mut out = Vec::new();
    brotli::Decompressor::new(&z[..], 4096).read_to_end(&mut out).unwrap();
    assert_eq!(out, data.to_vec());
}

#[test]
fn zstd_and_back() {
    let data = sample();
    let z = CompressUtils::compress_zstd(&data).unwrap();
    assert!(z.len() < data.len());
    assert_eq!(zstd::decode_all(&z[..]).unwrap(), data.to_vec());
}

#[test]
fn faults_of_compressors() {
    let text = |r: Result<Bytes, String>| r.unwrap_err();
    assert_eq!(
        text(CompressUtils::gzip_outcome(Err(CodecFault::Write("x".to_string())))),
        "Gzip compression error: x"
    );
    assert_eq!(
        text(CompressUtils::gzip_outcome(Err(CodecFault::Finish("x".to_string())))),
        "Gzip compression finish error: x"
    );
    assert_eq!(
        text(CompressUtils::gunzip_outcome(Err("x".to_string()))),
        "Gzip decompression error: x"
    );
    assert_eq!(text(CompressUtils::brotli_outcome(None)), "Brotli compression failed");
    assert_eq!(
        CompressUtils::brotli_outcome(Some(vec![1, 2])).unwrap(),
        Bytes::from_static(&[1, 2])
    );
    assert_eq!(
        text(CompressUtils::zstd_outcome(Err(CodecFault::Create("x".to_string())))),
        "Zstd encoder creation error: x"
    );
    assert_eq!(
        text(CompressUtils::zstd_outcome(Err(CodecFault::Write("x".to_string())))),
        "Zstd compression error: x"
    );
    assert_eq!(
        text(CompressUtils::zstd_outcome(Err(CodecFault::Finish("x".to_string())))),
        "Zstd compression finish error: x"
    );
    assert_eq!(
        CompressUtils::zstd_outcome(Ok(vec![1, 2])).unwrap(),
        Bytes::from_static(&[1, 2])
    );
}

#[test]
fn strategies_by_content_type() {
    let auto = CompressionStrategy::default();
    assert_eq!(auto, CompressionStrategy::Auto);
    assert!(auto.should_compress(None));
    assert!(auto.should_compress(Some("text/html")));
    assert!(!auto.should_compress(Some("image/png; q")));
    assert!(!auto.should_compress(Some("audio/ogg")));
    assert!(CompressionStrategy::All.should_compress(Some("image/png")));
    assert!(!CompressionStrategy::Off.should_compress(Some("text/html")));
    for t in skip_compression() {
        assert!(!auto.should_compress(Some(t)));
    }
    assert_eq!(skip_compression().len(), 18);
}

#[test]
fn strategies_unpack_what_they_packed() {
    let data = sample();
    for s in [CompressionStrategy::Off, CompressionStrategy::All, CompressionStrategy::Auto] {
        let packed = s.compress(data.clone()).unwrap();
        assert_eq!(packed == data, s != CompressionStrategy::All);
        assert_eq!(s.decompress(&packed).unwrap(), data);
    }
    assert!(CompressionStrategy::All.decompress(&data).is_err());
}

#[test]
fn encodings_have_names() {
    assert_eq!(CompressionEncoding::Gzip.as_str(), "gzip");
    assert_eq!(CompressionEncoding::Brotli.as_str(), "br");
    assert_eq!(CompressionEncoding::Zstd.as_str(), "zstd");
    assert_eq!(CompressionEncoding::Identity.as_str(), "identity");
    assert_eq!(
        CompressionEncoding::all_supported(),
        &[
            CompressionEncoding::Brotli,
            CompressionEncoding::Zstd,
            CompressionEncoding::Gzip,
            CompressionEncoding::Identity
        ]
    );
}

#[test]
fn most_wanted_encoding_is_chosen() {
    let choose = |v: &str| ClientCompression::select_encoding(&request(&[("Accept-Encoding", v)]));
    assert_eq!(choose("gzip, deflate, BR"), Some(CompressionEncoding::Brotli));
    assert_eq!(choose("gzip, zstd"), Some(CompressionEncoding::Zstd));
    assert_eq!(choose("x-GZIP"), Some(CompressionEncoding::Gzip));
    assert_eq!(choose("identity"), None);
    assert_eq!(ClientCompression::select_encoding(&request(&[])), None);
    assert_eq!(ClientCompression::choose_encoding(Some("gzip;q=0")), Some(CompressionEncoding::Gzip));
    // only the first value of the field counts
    let h = request(&[("accept-encoding", "gzip"), ("accept-encoding", "br")]);
    assert_eq!(ClientCompression::select_encoding(&h), Some(CompressionEncoding::Gzip));
    // a value that is no text counts for nothing
    assert_eq!(choose("bré"), None);
    assert_eq!(HeaderUtils::get_preferred_encoding(&request(&[])), CompressionEncoding::Identity);
    assert_eq!(
        HeaderUtils::get_preferred_encoding(&request(&[("accept-encoding", "zstd")])),
        CompressionEncoding::Zstd
    );
}

#[test]
fn responses_that_are_compressed() {
    let yes = |t: &str| ClientCompression::should_compress(&response(&[("content-type", t)]));
    assert!(yes("text/html; charset=utf-8"));
    assert!(yes("application/json"));
    assert!(yes("application/javascript"));
    assert!(yes("application/xml"));
    assert!(!yes("image/png"));
    assert!(!yes("application/zip"));
    assert!(!yes("text/x-gzip"));
    assert!(!yes("text/compressed"));
    assert!(!yes("Text/html"));
    assert!(!HeaderUtils::should_compress(&response(&[])));
    assert!(!HeaderUtils::should_compress(&response(&[
        ("content-type", "text/html"),
        ("content-encoding", "gzip")
    ])));
}

#[test]
fn small_bodies_are_sent_as_they_are() {
    let small = Bytes::from("x".repeat(149));
    let large = Bytes::from("x".repeat(150));
    for e in [CompressionEncoding::Gzip, CompressionEncoding::Brotli, CompressionEncoding::Zstd] {
        assert_eq!(ClientCompression::compress(&small, e).unwrap(), small);
        assert_ne!(ClientCompression::compress(&large, e).unwrap(), large);
    }
    assert_eq!(
        ClientCompression::compress(&large, CompressionEncoding::Identity).unwrap(),
        large
    );
}

#[test]
fn compression_fields_with_length() {
    let mut h = response(&[("content-length", "9"), ("content-type", "text/html")]);
    HeaderUtils::update_compression_headers(&mut h, CompressionEncoding::Brotli, Some(120)).unwrap();
    assert_eq!(all(&h, "content-encoding"), ["br"]);
    assert_eq!(all(&h, "content-length"), ["120"]);
    assert_eq!(all(&h, "transfer-encoding"), Vec::<String>::new());
    assert_eq!(all(&h, "content-type"), ["text/html"]);
}

#[test]
fn compression_fields_without_length() {
    let mut h = response(&[("content-length", "9")]);
    HeaderUtils::update_compression_headers(&mut h, CompressionEncoding::Zstd, None).unwrap();
    assert_eq!(all(&h, "content-encoding"), ["zstd"]);
    assert_eq!(all(&h, "content-length"), Vec::<String>::new());
    assert_eq!(all(&h, "transfer-encoding"), ["chunked"]);
    let mut h = response(&[("content-length", "9")]);
    HeaderUtils::update_compression_headers(&mut h, CompressionEncoding::Identity, None).unwrap();
    assert_eq!(all(&h, "content-length"), ["9"]);
    assert_eq!(all(&h, "content-encoding"), Vec::<String>::new());
}

#[test]
fn cache_fields() {
    let fields = [("Server", "nginx"), ("x-cache", "a"), ("x-cache", "b"), ("cache-control", "z")];
    let mut h = response(&fields);
    HeaderUtils::set_cache_headers(&mut h, "HIT", true, Some(60)).unwrap();
    assert_eq!(all(&h, "server"), ["Stryvo"]);
    assert_eq!(all(&h, "x-cache"), ["HIT"]);
    assert_eq!(all(&h, "cache-control"), ["public, max-age=60"]);
    assert_eq!(all(&h, "pragma"), Vec::<String>::new());

    let mut h = response(&fields);
    HeaderUtils::set_cache_headers(&mut h, "MISS", true, None).unwrap();
    assert_eq!(all(&h, "cache-control"), Vec::<String>::new());

    let mut h = response(&[("pragma", "x")]);
    HeaderUtils::set_cache_headers(&mut h, "MISS", false, Some(60)).unwrap();
    assert_eq!(all(&h, "cache-control"), ["no-store, no-cache, must-revalidate"]);
    assert_eq!(all(&h, "pragma"), ["x", "no-cache"]);
}

#[test]
fn cache_status_that_is_no_value() {
    let mut h = response(&[("x-cache", "a"), ("cache-control", "z")]);
    let e = HeaderUtils::set_cache_headers(&mut h, "a\nb", true, Some(60)).unwrap_err();
    assert_eq!(e, " InvalidHTTPHeader context: invalid value while append");
    assert_eq!(all(&h, "server"), ["Stryvo"]);
    assert_eq!(all(&h, "x-cache"), Vec::<String>::new());
    assert_eq!(all(&h, "cache-control"), ["z"]);
}

#[test]
fn room_in_headers() {
    let h = response(&[("a", "1"), ("A", "2"), ("b", "3")]);
    assert!(headers::response_has_room(&h, 6552));
    assert!(!headers::response_has_room(&h, 6553));
    let h = request(&[("a", "1")]);
    assert!(headers::request_has_room(&h, 6553));
    assert!(!headers::request_has_room(&h, 6554));
    let mut full = ResponseHeader::build(200, None).unwrap();
    for i in 0..headers::MAX_NAMES {
        full.append_header(format!("n{}", i), "v").unwrap();
    }
    assert!(headers::response_has_room(&full, 0));
    assert!(!headers::response_has_room(&full, 1));
}

#[test]
fn values_as_text() {
    assert_eq!(headers::value_text(&b"a\tb ~".to_vec()), Some("a\tb ~".to_string()));
    assert_eq!(headers::value_text(&vec![127]), None);
    assert_eq!(headers::value_text(&vec![200]), None);
    let h = response(&[("X-A", "one"), ("x-a", "two")]);
    assert_eq!(headers::response_text(&h, "x-A"), Some("one".to_string()));
    assert_eq!(headers::response_text(&h, "x-b"), None);
}

#[test]
fn buffers_one_behind_the_other() {
    let parts = vec![Bytes::from_static(b"ab"), Bytes::new(), Bytes::from_static(b"c")];
    assert_eq!(buffer::concat(&parts), Bytes::from_static(b"abc"));
    assert_eq!(buffer::concat(&Vec::new()), Bytes::new());
}
