//! The response cache: what it holds in memory, what it keeps on disk, and a proxy service that
//! limits how much of a response it collects for it.

pub mod persistence;
pub mod service;

use crate::logging::LogEntry;
use crate::number;
use crate::proxy::buffer;
use crate::proxy::cache::service::{CacheBucket, CacheResult, CacheService};
use crate::proxy::compression;
use crate::proxy::compression::{ClientCompression, CompressionEncoding};
use crate::proxy::context;
use crate::proxy::context::{StoreRequest, StryvoContext};
use crate::proxy::header_utils;
use crate::proxy::headers;
use crate::proxy::headers::Fields;
use crate::proxy::modifiers;
use crate::proxy::modifiers::Modifiers;
use crate::proxy::pipeline;
use crate::proxy::pipeline::{CachedResponse, LimitStep, RequestPipeline, ResponsePipeline};
use crate::proxy::rate_limiting::Outcome;
use crate::proxy::request_modifiers::ModifierV;
use crate::text;
use crate::views;
use bytes::Bytes;
use pingora_http::{RequestHeader, ResponseHeader};
use vstd::prelude::*;
use vstd::string::*;
use vstd::utf8::*;

verus! {

/// How many bytes of a response are collected where the environment gives no other limit.
pub const DEFAULT_MAX_CACHE_SIZE: usize = 1_048_576;

/// The bytes that a name in a vary field adds to a key: those of the field it names.
pub open spec fn varied_bytes(f: Fields, name: Seq<char>) -> Seq<u8> {
    match headers::looked_up(f, name) {
        Some(v) => encode_utf8(name) + encode_utf8(":"@) + v,
        None => Seq::empty(),
    }
}

/// A name in a vary field: without white space around it, in lower case.
pub open spec fn varied_name(piece: Seq<char>) -> Seq<char> {
    text::lowered(text::trimmed(piece))
}

/// The bytes that a list of names adds to a key.
pub open spec fn all_varied_bytes(f: Fields, names: Seq<Seq<char>>) -> Seq<u8>
    decreases names.len(),
{
    if names.len() == 0 {
        Seq::empty()
    } else {
        all_varied_bytes(f, names.drop_last()) + varied_bytes(f, varied_name(names.last()))
    }
}

/// The bytes whose checksum is the key of a request: method and target, then what tells requests
/// for the same target apart.
pub open spec fn key_bytes(method: Seq<char>, uri: Seq<char>, f: Fields) -> Seq<u8> {
    let start = encode_utf8(method) + encode_utf8(" "@) + encode_utf8(uri);
    let auth = match headers::first_value(f, "authorization"@) {
        Some(v) => start + encode_utf8("auth:"@) + v,
        None => start,
    };
    match headers::first_text(f, "vary"@) {
        Some(t) => auth + all_varied_bytes(f, text::pieces(t, ',')),
        None => auth,
    }
}

/// The key of a request: the checksum of its bytes as a hexadecimal numeral.
pub open spec fn checksum_key(req: RequestHeader) -> Seq<char> {
    number::hexadecimal(
        persistence::crc32_of(
            key_bytes(
                headers::request_method(req),
                headers::request_uri(req),
                headers::request_fields(req),
            ),
        ) as nat,
    )
}

/// The limit that a text stands for, or the one that holds where it stands for none.
pub open spec fn max_size_of(var: Option<Seq<char>>) -> int {
    match var {
        Some(t) => match number::unsigned_meaning(t, usize::MAX as int) {
            Some(n) => n,
            None => DEFAULT_MAX_CACHE_SIZE as int,
        },
        None => DEFAULT_MAX_CACHE_SIZE as int,
    }
}

/// A stored field that is not sent again.
pub open spec fn dropped_field(name: Seq<char>) -> bool {
    text::lowered(name) == "content-length"@ || text::lowered(name) == "transfer-encoding"@
}

/// The fields with stored ones appended, but for those that are not sent again; or the first error.
pub open spec fn restored_fields(stored: Seq<(Seq<char>, Seq<char>)>, f: Fields) -> Result<
    Fields,
    Seq<char>,
>
    decreases stored.len(),
{
    if stored.len() == 0 {
        Ok(f)
    } else if dropped_field(stored[0].0) {
        restored_fields(stored.skip(1), f)
    } else {
        match headers::append_result(f, stored[0].0, stored[0].1) {
            Ok(g) => restored_fields(stored.skip(1), g),
            Err(e) => Err(e),
        }
    }
}

/// The fields and the body of an answer once compressing the body has come to `compressed`: as they
/// were where that failed.
pub open spec fn settled_answer(
    f: Fields,
    body: Seq<u8>,
    encoding: CompressionEncoding,
    compressed: Result<Seq<u8>, Seq<char>>,
) -> (Fields, Seq<u8>) {
    match compressed {
        Ok(z) => (headers::appended(f, "content-encoding"@, encoding.name()), z),
        Err(_) => (f, body),
    }
}

/// `g` and `sent` can be the fields and the body of an answer for a client that accepts what
/// `accept` says.
pub open spec fn compresses_answer(
    f: Fields,
    body: Seq<u8>,
    accept: Option<Seq<char>>,
    g: Fields,
    sent: Seq<u8>,
) -> bool {
    match compression::preferred(accept) {
        Some(e) => exists|z: Result<Seq<u8>, Seq<char>>| #[trigger]
            compression::encodes(body, e, z) && (g, sent) == settled_answer(f, body, e, z),
        None => g == f && sent == body,
    }
}

/// The fields of an answer with the length of its body, where that is not empty.
pub open spec fn with_length(g: Fields, sent: Seq<u8>) -> Fields {
    if sent.len() > 0 {
        headers::appended(g, "content-length"@, number::decimal(sent.len()))
    } else {
        g
    }
}

/// `answer` can be what the cache answers: fields and a body, or the error that keeps it from
/// answering.
pub open spec fn answers_cached(
    status: u16,
    stored: Seq<(Seq<char>, Seq<char>)>,
    body: Seq<u8>,
    accept: Option<Seq<char>>,
    answer: Result<(Fields, Seq<u8>), Seq<char>>,
) -> bool {
    if !(100 <= status <= 999) {
        answer == Err::<(Fields, Seq<u8>), Seq<char>>(
            " InvalidHTTPHeader context: invalid status"@,
        )
    } else {
        match restored_fields(stored, Map::empty()) {
            Err(e) => answer == Err::<(Fields, Seq<u8>), Seq<char>>(e),
            Ok(f) => exists|g: Fields, sent: Seq<u8>| #[trigger]
                compresses_answer(
                    headers::appended(f, "x-cache"@, "HIT"@),
                    body,
                    accept,
                    g,
                    sent,
                ) && answer == Ok::<(Fields, Seq<u8>), Seq<char>>((with_length(g, sent), sent)),
        }
    }
}

/// How limiters are asked: those with many buckets first, up to the first that refuses.
pub open spec fn limit_step(
    multis: usize,
    singles: usize,
    outcomes: Seq<Option<Outcome>>,
) -> LimitStep {
    let asked = outcomes.len();
    if pipeline::any_declined(outcomes) {
        LimitStep::Refuse(pipeline::TOO_MANY_REQUESTS)
    } else if asked < multis {
        LimitStep::AskMulti(asked as usize)
    } else if asked - multis < singles {
        LimitStep::AskSingle((asked - multis) as usize)
    } else {
        LimitStep::Pass
    }
}

/// What the cache made of a request that it cannot answer, `None` where there is no cache.
pub open spec fn noted_status(lookup: Option<Result<CacheResult, String>>) -> Seq<char> {
    match lookup {
        Some(Ok(_)) => "MISS"@,
        Some(Err(_)) => "ERROR"@,
        None => "BYPASS"@,
    }
}

/// The cache status of a response.
pub open spec fn status_or_none(known: Option<Seq<char>>, has_cache: bool) -> Seq<char> {
    match known {
        Some(s) => s,
        None => if has_cache {
            "BYPASS"@
        } else {
            "NONE"@
        },
    }
}

/// The values of an encoding and of a hit are valid.
proof fn lemma_values()
    ensures
        headers::valid_value(encode_utf8("HIT"@)),
        headers::valid_value(encode_utf8("identity"@)),
{
    reveal_strlit("HIT");
    reveal_strlit("identity");
    headers::lemma_printable_value("HIT"@);
    headers::lemma_printable_value("identity"@);
}

/// A proxy service with a cache.
pub struct StryvoProxyService {
    pub modifiers: Modifiers,
    pub cache: Option<CacheBucket>,
}

impl StryvoProxyService {
    /// The bytes that a list of names adds to a key.
    fn push_varied(out: &mut Vec<u8>, req_header: &RequestHeader, vary: &str)
        ensures
            final(out)@ == old(out)@ + all_varied_bytes(
                headers::request_fields(*req_header),
                text::pieces(vary@, ','),
            ),
    {
        let names = text::split_char(vary, ',');
        let ghost all = text::texts(names@);
        let ghost f = headers::request_fields(*req_header);
        let ghost start = out@;
        let mut i: usize = 0;
        assert(all.take(0) =~= Seq::<Seq<char>>::empty());
        assert(start + all_varied_bytes(f, all.take(0)) =~= start);
        while i < names.len()
            invariant
                i <= names@.len(),
                all == text::texts(names@),
                f == headers::request_fields(*req_header),
                out@ == start + all_varied_bytes(f, all.take(i as int)),
            decreases names@.len() - i,
        {
            let name = text::to_lower(text::trim(names[i]));
            proof {
                assert(all.take(i + 1).drop_last() =~= all.take(i as int));
                assert(all.take(i + 1).last() == names@[i as int]@);
            }
            let ghost before = out@;
            if let Some(value) = headers::request_get(req_header, name.as_str()) {
                out.extend_from_slice(name.as_str().as_bytes());
                out.extend_from_slice(":".as_bytes());
                out.extend_from_slice(value.as_slice());
                assert(out@ =~= before + varied_bytes(f, name@));
            } else {
                assert(before + varied_bytes(f, name@) =~= before);
            }
            assert(start + all_varied_bytes(f, all.take(i + 1)) =~= (start + all_varied_bytes(
                f,
                all.take(i as int),
            )) + varied_bytes(f, name@));
            i = i + 1;
        }
        assert(all.take(i as int) =~= all);
    }

    /// The bytes whose checksum is the key of a request.
    pub fn key_material(req_header: &RequestHeader) -> (r: Vec<u8>)
        ensures
            r@ == key_bytes(
                headers::request_method(*req_header),
                headers::request_uri(*req_header),
                headers::request_fields(*req_header),
            ),
    {
        proof {
            headers::lemma_own_names();
        }
        let method = headers::request_method_text(req_header);
        let uri = headers::request_uri_text(req_header);
        let mut out: Vec<u8> = Vec::new();
        out.extend_from_slice(method.as_str().as_bytes());
        out.extend_from_slice(" ".as_bytes());
        out.extend_from_slice(uri.as_str().as_bytes());
        assert(out@ =~= encode_utf8(method@) + encode_utf8(" "@) + encode_utf8(uri@));
        if let Some(auth) = headers::request_get(req_header, "authorization") {
            let ghost before = out@;
            out.extend_from_slice("auth:".as_bytes());
            out.extend_from_slice(auth.as_slice());
            assert(out@ =~= before + encode_utf8("auth:"@) + auth@);
        }
        if let Some(vary) = headers::request_text(req_header, "vary") {
            StryvoProxyService::push_varied(&mut out, req_header, vary.as_str());
        }
        out
    }

    /// The key of a request.
    pub fn generate_cache_key(req_header: &RequestHeader) -> (r: String)
        ensures
            r@ == checksum_key(*req_header),
    {
        let material = StryvoProxyService::key_material(req_header);
        number::hexadecimal_text(persistence::crc32(material.as_slice()))
    }

    /// The limit that an environment variable gives, or the one that holds without it.
    pub fn get_max_cache_size(var: Option<&str>) -> (r: usize)
        ensures
            r == max_size_of(
                match var {
                    Some(t) => Some(t@),
                    None => None,
                },
            ),
    {
        match var {
            Some(t) => match number::parse_usize(t) {
                Some(n) => n,
                None => DEFAULT_MAX_CACHE_SIZE,
            },
            None => DEFAULT_MAX_CACHE_SIZE,
        }
    }

    /// Whether a piece fits into the limit beside what has been collected.
    pub fn check_cache_size_limit(
        existing_size: usize,
        new_chunk_size: usize,
        max_size: usize,
    ) -> (r: bool)
        ensures
            r == (existing_size + new_chunk_size <= max_size),
    {
        existing_size <= max_size && new_chunk_size <= max_size - existing_size
    }

    /// Appends stored fields to a header, but for those that are not sent again.
    fn restore_headers(stored: &Vec<(String, String)>, empty: ResponseHeader) -> (r: Result<
        ResponseHeader,
        String,
    >)
        requires
            headers::response_fields(empty) == Map::<Seq<char>, Seq<Seq<u8>>>::empty(),
            service::stored_fits(service::header_views(stored@), 3),
        ensures
            match restored_fields(service::header_views(stored@), Map::empty()) {
                Ok(f) => r matches Ok(h) && headers::response_status(h) == headers::response_status(
                    empty,
                ) && headers::response_fields(h) == f && headers::room(f, 3),
                Err(e) => r matches Err(x) && x@ == e,
            },
    {
        let ghost all = service::header_views(stored@);
        let ghost names = service::stored_names(all);
        let mut header = empty;
        let n = stored.len();
        proof {
            service::lemma_stored_names(all);
            assert(all.skip(0) =~= all);
        }
        let mut i: usize = 0;
        while i < n
            invariant
                i <= n,
                n == stored@.len(),
                all == service::header_views(stored@),
                names == service::stored_names(all),
                service::stored_fits(all, 3),
                forall|j: int|
                    0 <= j < all.len() ==> names.contains(text::lowered((#[trigger] all[j]).0)),
                headers::response_fields(header).dom().subset_of(names),
                headers::response_status(header) == headers::response_status(empty),
                restored_fields(all, Map::empty()) == restored_fields(
                    all.skip(i as int),
                    headers::response_fields(header),
                ),
            decreases n - i,
        {
            let (key, value) = &stored[i];
            proof {
                assert(all[i as int] == (key@, value@));
                assert(all.skip(i as int)[0] == (key@, value@));
                assert(all.skip(i as int).skip(1) =~= all.skip(i + 1));
                service::lemma_stored_room(all, headers::response_fields(header), 1);
            }
            let skip = text::lowered_eq(key.as_str(), "content-length") || text::lowered_eq(
                key.as_str(),
                "transfer-encoding",
            );
            if !skip {
                headers::response_append(&mut header, key.as_str(), value.as_str())?;
            }
            i = i + 1;
        }
        proof {
            service::lemma_stored_room(all, headers::response_fields(header), 3);
        }
        Ok(header)
    }

    /// Takes what compressing the body of an answer has come to: the body to send is returned, and
    /// the fields say how it is encoded.
    pub fn settle_answer(
        resp_header: &mut ResponseHeader,
        body: Bytes,
        encoding: CompressionEncoding,
        compressed: Result<Bytes, String>,
    ) -> (r: Result<Bytes, String>)
        requires
            headers::room(headers::response_fields(*old(resp_header)), 1),
        ensures
            r matches Ok(b) && (headers::response_fields(*final(resp_header)), buffer::contents(b))
                == settled_answer(
                headers::response_fields(*old(resp_header)),
                buffer::contents(body),
                encoding,
                compression::outcome_view(compressed),
            ),
            headers::response_status(*final(resp_header)) == headers::response_status(
                *old(resp_header),
            ),
    {
        match compressed {
            Ok(z) => {
                proof {
                    headers::lemma_own_names();
                    header_utils::lemma_own_values(0);
                    lemma_values();
                }
                headers::response_append(resp_header, "content-encoding", encoding.as_str())?;
                Ok(z)
            },
            Err(_) => Ok(body),
        }
    }

    /// Compresses the body of an answer for the client, and says so in its fields.
    pub fn apply_compression_if_needed(
        req_header: &RequestHeader,
        ctx: &mut StryvoContext,
        body: Bytes,
        resp_header: &mut ResponseHeader,
    ) -> (r: Result<Bytes, String>)
        requires
            headers::room(headers::response_fields(*old(resp_header)), 1),
        ensures
            r matches Ok(b) && compresses_answer(
                headers::response_fields(*old(resp_header)),
                buffer::contents(body),
                pipeline::accepts(*req_header),
                headers::response_fields(*final(resp_header)),
                buffer::contents(b),
            ),
            headers::response_status(*final(resp_header)) == headers::response_status(
                *old(resp_header),
            ),
            final(ctx).compression_encoding == (match compression::preferred(
                pipeline::accepts(*req_header),
            ) {
                Some(e) => Some(e),
                None => old(ctx).compression_encoding,
            }),
            final(ctx).cache_status == old(ctx).cache_status,
            final(ctx).should_cache_response == old(ctx).should_cache_response,
            final(ctx).cache_req_header == old(ctx).cache_req_header,
            final(ctx).cache_resp_header == old(ctx).cache_resp_header,
            final(ctx).cache_body == old(ctx).cache_body,
            final(ctx).selector_buf == old(ctx).selector_buf,
            final(ctx).upstream_addr == old(ctx).upstream_addr,
            final(ctx).browser_cache_enabled == old(ctx).browser_cache_enabled,
            final(ctx).browser_cache_ttl == old(ctx).browser_cache_ttl,
    {
        match ClientCompression::select_encoding(req_header) {
            Some(encoding) => {
                ctx.compression_encoding = Some(encoding);
                let compressed = ClientCompression::compress(&body, encoding);
                StryvoProxyService::settle_answer(resp_header, body, encoding, compressed)
            },
            None => Ok(body),
        }
    }

    /// The answer to a request that the cache knows.
    pub fn handle_cached_response(
        req_header: &RequestHeader,
        ctx: &mut StryvoContext,
        body: Bytes,
        stored: &Vec<(String, String)>,
        status: u16,
    ) -> (r: Result<CachedResponse, String>)
        requires
            service::stored_fits(service::header_views(stored@), 3),
        ensures
            final(ctx).cache_status matches Some(s) && s@ == "HIT"@,
            final(ctx).should_cache_response == old(ctx).should_cache_response,
            final(ctx).cache_req_header == old(ctx).cache_req_header,
            final(ctx).cache_resp_header == old(ctx).cache_resp_header,
            final(ctx).cache_body == old(ctx).cache_body,
            final(ctx).selector_buf == old(ctx).selector_buf,
            final(ctx).upstream_addr == old(ctx).upstream_addr,
            final(ctx).browser_cache_enabled == old(ctx).browser_cache_enabled,
            final(ctx).browser_cache_ttl == old(ctx).browser_cache_ttl,
            r is Ok ==> final(ctx).compression_encoding == (match compression::preferred(
                pipeline::accepts(*req_header),
            ) {
                Some(e) => Some(e),
                None => old(ctx).compression_encoding,
            }),
            r is Err ==> final(ctx).compression_encoding == old(ctx).compression_encoding,
            r matches Ok(c) ==> headers::response_status(c.header) == status,
            answers_cached(
                status,
                service::header_views(stored@),
                buffer::contents(body),
                pipeline::accepts(*req_header),
                match r {
                    Ok(c) => Ok((headers::response_fields(c.header), buffer::contents(c.body))),
                    Err(x) => Err(x@),
                },
            ),
    {
        ctx.cache_status = Some("HIT".to_owned());
        let empty = headers::response_build(status, stored.len().saturating_add(2))?;
        let mut header = StryvoProxyService::restore_headers(stored, empty)?;
        let ghost f1 = headers::response_fields(header);
        proof {
            headers::lemma_own_names();
            header_utils::lemma_own_values(0);
            lemma_values();
            headers::lemma_room(f1, "x-cache"@, headers::values_at(f1, "x-cache"@).push(
                encode_utf8("HIT"@),
            ), 2);
        }
        headers::response_append(&mut header, "x-cache", "HIT")?;
        let ghost f2 = headers::response_fields(header);
        let sent = StryvoProxyService::apply_compression_if_needed(
            req_header,
            ctx,
            body,
            &mut header,
        )?;
        proof {
            let accept = pipeline::accepts(*req_header);
            if let Some(e) = compression::preferred(accept) {
                let values = headers::values_at(f2, "content-encoding"@).push(
                    encode_utf8(e.name()),
                );
                headers::lemma_room(f2, "content-encoding"@, values, 1);
            }
        }
        let ghost g = headers::response_fields(header);
        assert(compresses_answer(
            f2,
            buffer::contents(body),
            pipeline::accepts(*req_header),
            g,
            buffer::contents(sent),
        ));
        let len = buffer::as_slice(&sent).len();
        if len > 0 {
            let digits = number::decimal_text(len as u128);
            proof {
                header_utils::lemma_own_values(len as nat);
            }
            headers::response_append(&mut header, "content-length", digits.as_str())?;
        }
        Ok(CachedResponse { header, body: sent })
    }

    /// Takes what the limiters of a request have said so far, `None` from those that it does not
    /// concern, and says what comes next: those with many buckets are asked first, in turn, then
    /// those with one; the first that refuses ends it.
    pub fn next_limiter(
        multis: usize,
        singles: usize,
        outcomes: &Vec<Option<Outcome>>,
    ) -> (r: LimitStep)
        ensures
            r == limit_step(multis, singles, outcomes@),
    {
        let asked = outcomes.len();
        if RequestPipeline::declines(outcomes) {
            LimitStep::Refuse(pipeline::TOO_MANY_REQUESTS)
        } else if asked < multis {
            LimitStep::AskMulti(asked)
        } else if asked - multis < singles {
            LimitStep::AskSingle(asked - multis)
        } else {
            LimitStep::Pass
        }
    }

    /// The state of a request that has just come in: browsers may keep nothing.
    pub fn new_ctx() -> (r: StryvoContext)
        ensures
            r.selector_buf@.len() == 0,
            r.upstream_addr is None,
            r.cache_status is None,
            !r.should_cache_response,
            r.cache_body matches Some(chunks) && chunks@.len() == 0,
            r.cache_req_header is None,
            r.cache_resp_header is None,
            r.compression_encoding is None,
            !r.browser_cache_enabled,
            r.browser_cache_ttl is None,
    {
        StryvoContext::new(false, None)
    }

    /// Notes the backend that was picked for a request: `None` where there was none to pick, and
    /// `Some(None)` where it came without an address.
    pub fn note_peer(ctx: &mut StryvoContext, backend: Option<Option<String>>) -> (r: Result<
        (),
        &'static str,
    >)
        ensures
            match backend {
                None => {
                    &&& r matches Err(e) && e@ == "Unable to determine backend"@
                    &&& final(ctx).upstream_addr == old(ctx).upstream_addr
                },
                Some(None) => {
                    &&& r matches Err(e) && e@ == "Fatal: Missing selected backend metadata"@
                    &&& final(ctx).upstream_addr == old(ctx).upstream_addr
                },
                Some(Some(addr)) => {
                    &&& r is Ok
                    &&& final(ctx).upstream_addr == Some(addr)
                },
            },
            final(ctx).selector_buf@.len() == 0,
            final(ctx).cache_status == old(ctx).cache_status,
            final(ctx).should_cache_response == old(ctx).should_cache_response,
            final(ctx).cache_body == old(ctx).cache_body,
            final(ctx).cache_req_header == old(ctx).cache_req_header,
            final(ctx).cache_resp_header == old(ctx).cache_resp_header,
            final(ctx).compression_encoding == old(ctx).compression_encoding,
            final(ctx).browser_cache_enabled == old(ctx).browser_cache_enabled,
            final(ctx).browser_cache_ttl == old(ctx).browser_cache_ttl,
    {
        ctx.selector_buf = Vec::new();
        match backend {
            None => Err("Unable to determine backend"),
            Some(None) => Err("Fatal: Missing selected backend metadata"),
            Some(Some(addr)) => {
                ctx.upstream_addr = Some(addr);
                Ok(())
            },
        }
    }

    /// Notes what the cache made of a request that it cannot answer, `None` where there is no
    /// cache.
    pub fn note_lookup(ctx: &mut StryvoContext, lookup: Option<Result<CacheResult, String>>)
        requires
            !(lookup matches Some(Ok(CacheResult::Hit { .. }))),
        ensures
            final(ctx).cache_status matches Some(s) && s@ == noted_status(lookup),
            final(ctx).should_cache_response == old(ctx).should_cache_response,
            final(ctx).cache_req_header == old(ctx).cache_req_header,
            final(ctx).cache_resp_header == old(ctx).cache_resp_header,
            final(ctx).cache_body == old(ctx).cache_body,
            final(ctx).compression_encoding == old(ctx).compression_encoding,
            final(ctx).selector_buf == old(ctx).selector_buf,
            final(ctx).upstream_addr == old(ctx).upstream_addr,
            final(ctx).browser_cache_enabled == old(ctx).browser_cache_enabled,
            final(ctx).browser_cache_ttl == old(ctx).browser_cache_ttl,
    {
        ctx.cache_status =
        Some(
            match lookup {
                Some(Ok(_)) => "MISS".to_owned(),
                Some(Err(_)) => "ERROR".to_owned(),
                None => "BYPASS".to_owned(),
            },
        );
    }
}

/// The fields of a response once its cache status is set and all filters are applied.
pub open spec fn filtered_fields(
    f: Fields,
    status: Seq<char>,
    mods: Seq<ModifierV>,
) -> Fields {
    let g = match headers::insert_result(f, "x-cache"@, status) {
        Ok(g) => g,
        Err(_) => f,
    };
    modifiers::response_changes(mods, g)
}

/// The fields of a response that is sent in the encoding the client wants most.
pub open spec fn encoded_fields(f: Fields, accept: Option<Seq<char>>) -> Fields {
    match compression::preferred(accept) {
        Some(e) => headers::appended(f, "content-encoding"@, e.name()),
        None => f,
    }
}

/// The response is to be stored.
pub open spec fn stores_response(has_cache: bool, status: u16, method: Seq<char>, f: Fields) -> bool {
    has_cache && 200 <= status < 300 && service::cacheable(method, f)
}

/// How many bytes pieces of a body have together.
pub open spec fn total_len(chunks: Seq<Bytes>) -> nat {
    buffer::concatenated(chunks).len()
}

/// A piece is too much beside those that have been collected.
pub open spec fn too_much(ctx: StryvoContext, data: Option<Bytes>, max_size: usize) -> bool {
    ctx.should_cache_response && ctx.cache_body is Some && context::chunk_bytes(data).len() > 0
        && total_len(context::chunks_of(ctx)) + context::chunk_bytes(data).len() > max_size
}

/// What a service makes of a piece of a response body, of which it collects no more than `max_size`
/// bytes: what it sends, what it hands out to be stored, and its state afterwards.
pub open spec fn filters_limited(
    before: StryvoContext,
    after: StryvoContext,
    data: Option<Bytes>,
    eof: bool,
    max_size: usize,
    r: (Option<Bytes>, Option<StoreRequest>),
) -> bool {
    &&& after.same_course(before)
    &&& context::sends_piece(before, data, r.0)
    &&& if too_much(before, data, max_size) {
        &&& r.1 is None
        &&& !after.should_cache_response
        &&& after.cache_body is None
        &&& after.cache_req_header == before.cache_req_header
        &&& after.cache_resp_header == before.cache_resp_header
    } else if context::completes(before, eof) {
        &&& context::hands_out(before, data, r.1)
        &&& context::nothing_kept(after)
    } else {
        &&& r.1 is None
        &&& context::keeps_piece(before, after, data)
    }
}

impl StryvoProxyService {
    /// Sets the cache status of a response, applies the filters to it, decides whether it is to be
    /// stored and how it is compressed, and reports it.
    pub fn upstream_response_filter(
        &self,
        req_header: &RequestHeader,
        upstream_response: &mut ResponseHeader,
        ctx: &mut StryvoContext,
        current: u128,
    ) -> (r: LogEntry)
        requires
            headers::room(
                headers::response_fields(*old(upstream_response)),
                modifiers::appending(self.modifiers@.upstream_response_filters) + 2int,
            ),
            context::start_of(old(ctx).selector_buf@) matches Some(s) ==> s <= current,
        ensures
            ({
                let status = headers::response_status(*old(upstream_response));
                let cache_status = status_or_none(
                    views::opt_view(old(ctx).cache_status),
                    self.cache is Some,
                );
                let f = filtered_fields(
                    headers::response_fields(*old(upstream_response)),
                    cache_status,
                    self.modifiers@.upstream_response_filters,
                );
                let stores = stores_response(
                    self.cache is Some,
                    status,
                    headers::request_method(*req_header),
                    f,
                );
                let accept = pipeline::accepts(*req_header);
                &&& headers::response_status(*final(upstream_response)) == status
                &&& headers::response_fields(*final(upstream_response)) == encoded_fields(f, accept)
                &&& final(ctx).compression_encoding == (match compression::preferred(accept) {
                    Some(e) => Some(e),
                    None => old(ctx).compression_encoding,
                })
                &&& final(ctx).should_cache_response == (stores || old(ctx).should_cache_response)
                &&& if stores {
                    &&& final(ctx).cache_req_header matches Some(h) && headers::same_request(
                        h,
                        *req_header,
                    )
                    &&& final(ctx).cache_resp_header matches Some(h) && headers::response_fields(h)
                        == f && headers::response_status(h) == status && (compression::preferred(
                        accept,
                    ) is None ==> headers::response_list(h) == headers::response_list(
                        *final(upstream_response),
                    ))
                } else {
                    &&& final(ctx).cache_req_header == old(ctx).cache_req_header
                    &&& final(ctx).cache_resp_header == old(ctx).cache_resp_header
                }
                &&& pipeline::logs(r, *req_header, status, *old(ctx), current, cache_status)
            }),
            final(ctx).cache_body == old(ctx).cache_body,
            final(ctx).cache_status == old(ctx).cache_status,
            final(ctx).upstream_addr == old(ctx).upstream_addr,
            final(ctx).selector_buf == old(ctx).selector_buf,
            final(ctx).browser_cache_enabled == old(ctx).browser_cache_enabled,
            final(ctx).browser_cache_ttl == old(ctx).browser_cache_ttl,
    {
        let ghost f0 = headers::response_fields(*upstream_response);
        let ghost mods = self.modifiers@.upstream_response_filters;
        let cache_status = match &ctx.cache_status {
            Some(s) => s.clone(),
            None => if self.cache.is_some() {
                "BYPASS".to_owned()
            } else {
                "NONE".to_owned()
            },
        };
        proof {
            headers::lemma_own_names();
            header_utils::lemma_own_values(0);
            lemma_values();
            headers::lemma_room(
                f0,
                "x-cache"@,
                seq![encode_utf8(cache_status@)],
                modifiers::appending(mods) + 1int,
            );
            headers::lemma_room(f0, "x-cache"@, seq![encode_utf8(cache_status@)], 0);
        }
        let _ = headers::response_insert(upstream_response, "x-cache", cache_status.as_str());
        proof {
            lemma_changes_room(mods, headers::response_fields(*upstream_response));
        }
        Modifiers::change_response(
            &self.modifiers.upstream_response_filters,
            upstream_response,
        );
        let status = headers::response_status_code(upstream_response);
        if self.cache.is_some() && 200 <= status && status < 300 {
            if CacheService::is_cacheable(req_header, upstream_response) {
                ctx.should_cache_response = true;
                ctx.cache_req_header = Some(headers::request_clone(req_header));
                ctx.cache_resp_header = Some(headers::response_clone(upstream_response));
            }
        }
        if let Some(encoding) = ClientCompression::select_encoding(req_header) {
            ctx.compression_encoding = Some(encoding);
            let _ = headers::response_append(
                upstream_response,
                "content-encoding",
                encoding.as_str(),
            );
        }
        let mut entry = ResponsePipeline::process_logging(
            req_header,
            upstream_response,
            ctx,
            current,
        );
        entry.cache_status = cache_status;
        entry
    }

    /// How many bytes pieces of a body have together, or the largest machine word where that is
    /// more.
    fn collected_size(chunks: &Vec<Bytes>) -> (r: usize)
        ensures
            r == (if total_len(chunks@) > usize::MAX {
                usize::MAX as nat
            } else {
                total_len(chunks@)
            }),
    {
        let mut total: usize = 0;
        let mut i: usize = 0;
        assert(chunks@.take(0) =~= Seq::<Bytes>::empty());
        while i < chunks.len()
            invariant
                i <= chunks@.len(),
                total == (if total_len(chunks@.take(i as int)) > usize::MAX {
                    usize::MAX as nat
                } else {
                    total_len(chunks@.take(i as int))
                }),
            decreases chunks@.len() - i,
        {
            assert(chunks@.take(i + 1).drop_last() =~= chunks@.take(i as int));
            total = total.saturating_add(buffer::as_slice(&chunks[i]).len());
            i = i + 1;
        }
        assert(chunks@.take(i as int) =~= chunks@);
        total
    }

    /// Takes a piece of the response body: keeps it where the response is to be stored and the
    /// piece fits into the limit, gives up storing where it does not, compresses it for the client,
    /// and at the end hands out what is to be stored. What is kept stays within the limit, and so
    /// does what is handed out.
    pub fn upstream_response_body_filter(
        ctx: &mut StryvoContext,
        data: Option<Bytes>,
        eof: bool,
        max_size: usize,
    ) -> (r: (Option<Bytes>, Option<StoreRequest>))
        ensures
            filters_limited(*old(ctx), *final(ctx), data, eof, max_size, r),
            total_len(context::chunks_of(*old(ctx))) <= max_size ==> {
                &&& total_len(context::chunks_of(*final(ctx))) <= max_size
                &&& r.1 matches Some(s) ==> buffer::contents(s.body).len() <= max_size
            },
    {
        if let Some(d) = &data {
            let mut over = false;
            if ctx.should_cache_response {
                if let Some(chunks) = &ctx.cache_body {
                    let len = buffer::as_slice(d).len();
                    if len > 0 {
                        let total = StryvoProxyService::collected_size(chunks);
                        over = !StryvoProxyService::check_cache_size_limit(total, len, max_size);
                    }
                }
            }
            if over {
                ctx.should_cache_response = false;
                ctx.cache_body = None;
            } else {
                ctx.collect(d);
            }
        }
        let encoding = ctx.compression_encoding;
        let out = match data {
            Some(d) => Some(StryvoContext::compress_chunk(d, encoding)),
            None => None,
        };
        let mut store: Option<StoreRequest> = None;
        if eof && ctx.should_cache_response {
            store = ctx.completed();
            if store.is_some() {
                ctx.reset_cache();
            }
        }
        proof {
            if !too_much(*old(ctx), data, max_size) && old(ctx).should_cache_response
                && old(ctx).cache_body is None {
                assert(store is None);
            }
            assert(context::chunk_bytes(data).len() == 0 ==> context::body_with(*old(ctx), data)
                =~= buffer::concatenated(context::chunks_of(*old(ctx))));
        }
        (out, store)
    }
}

/// The filters leave room for one more name.
proof fn lemma_changes_room(mods: Seq<ModifierV>, f: Fields)
    requires
        headers::room(f, modifiers::appending(mods) + 1int),
    ensures
        headers::room(modifiers::response_changes(mods, f), 1),
        modifiers::fits(mods, f),
{
    modifiers::lemma_changes_room(mods, f, 1);
}

/// A run of calls for one response with a limit on what is collected: each takes a piece, and the
/// last one ends the body.
pub open spec fn limited_run(
    states: Seq<StryvoContext>,
    pieces: Seq<Option<Bytes>>,
    max_size: usize,
    results: Seq<(Option<Bytes>, Option<StoreRequest>)>,
) -> bool {
    &&& pieces.len() > 0
    &&& states.len() == pieces.len() + 1
    &&& results.len() == pieces.len()
    &&& forall|i: int|
        0 <= i < pieces.len() ==> filters_limited(
            states[i],
            states[i + 1],
            #[trigger] pieces[i],
            i == pieces.len() - 1,
            max_size,
            results[i],
        )
}

/// The state before the piece at `k`: all pieces so far are there, or they were too much.
proof fn lemma_limited_run(
    states: Seq<StryvoContext>,
    pieces: Seq<Option<Bytes>>,
    max_size: usize,
    results: Seq<(Option<Bytes>, Option<StoreRequest>)>,
    k: int,
)
    requires
        limited_run(states, pieces, max_size, results),
        context::starts_collecting(states[0]),
        0 <= k < pieces.len(),
    ensures
        states[k].same_course(states[0]),
        states[k].cache_req_header == states[0].cache_req_header,
        states[k].cache_resp_header == states[0].cache_resp_header,
        if context::joined(pieces.take(k)).len() <= max_size {
            &&& states[k].should_cache_response
            &&& states[k].cache_body is Some
            &&& buffer::concatenated(context::chunks_of(states[k])) == context::joined(
                pieces.take(k),
            )
        } else {
            &&& !states[k].should_cache_response
            &&& states[k].cache_body is None
        },
        forall|i: int| 0 <= i < k ==> (#[trigger] results[i]).1 is None,
    decreases k,
{
    if k == 0 {
        assert(pieces.take(0) =~= Seq::<Option<Bytes>>::empty());
    } else {
        let p = pieces[k - 1];
        lemma_limited_run(states, pieces, max_size, results, k - 1);
        assert(filters_limited(
            states[k - 1],
            states[k - 1 + 1],
            pieces[k - 1],
            k - 1 == pieces.len() - 1,
            max_size,
            results[k - 1],
        ));
        context::lemma_joined_next(pieces, k - 1);
        if context::joined(pieces.take(k)).len() <= max_size {
            context::law_kept_pieces_make_the_body(
                context::chunks_of(states[k - 1]),
                context::chunks_of(states[k]),
                context::chunk_bytes(p),
            );
        }
    }
}

/// Over a whole response, what is handed out to be stored are all its pieces as they came in, in
/// their order, once and at the end, under the request that was kept; nothing is handed out where
/// they are more than the limit. Afterwards nothing more is to be stored.
pub proof fn law_bodies_within_the_limit_are_stored_once(
    states: Seq<StryvoContext>,
    pieces: Seq<Option<Bytes>>,
    max_size: usize,
    results: Seq<(Option<Bytes>, Option<StoreRequest>)>,
)
    requires
        limited_run(states, pieces, max_size, results),
        context::starts_collecting(states[0]),
    ensures
        forall|i: int| 0 <= i < pieces.len() - 1 ==> (#[trigger] results[i]).1 is None,
        if context::joined(pieces).len() <= max_size {
            &&& results.last().1 matches Some(s) && buffer::contents(s.body) == context::joined(
                pieces,
            ) && context::stores_for(s, states[0])
            &&& context::nothing_kept(states.last())
        } else {
            &&& results.last().1 is None
            &&& !states.last().should_cache_response
            &&& states.last().cache_body is None
        },
        forall|i: int|
            0 <= i < pieces.len() ==> context::sends_piece(
                states[0],
                #[trigger] pieces[i],
                results[i].0,
            ),
{
    let k = pieces.len() - 1;
    lemma_limited_run(states, pieces, max_size, results, k);
    assert(filters_limited(states[k], states[k + 1], pieces[k], true, max_size, results[k]));
    context::lemma_joined_next(pieces, k);
    assert(pieces.take(k + 1) =~= pieces);
    assert forall|i: int| 0 <= i < pieces.len() implies context::sends_piece(
        states[0],
        #[trigger] pieces[i],
        results[i].0,
    ) by {
        lemma_limited_run(states, pieces, max_size, results, i);
        assert(filters_limited(
            states[i],
            states[i + 1],
            pieces[i],
            i == pieces.len() - 1,
            max_size,
            results[i],
        ));
    }
}

} // verus!
