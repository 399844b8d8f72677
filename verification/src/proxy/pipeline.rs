//! The stages that a request and its response pass.
use crate::logging::LogEntry;
use crate::number;
use crate::proxy::buffer;
use crate::proxy::cache::service;
use crate::proxy::cache::service::{CacheResult, CacheService};
use crate::proxy::compression;
use crate::proxy::compression::{ClientCompression, CompressionEncoding};
use crate::proxy::context;
use crate::proxy::context::StryvoContext;
use crate::proxy::header_utils;
use crate::proxy::header_utils::HeaderUtils;
use crate::proxy::headers;
use crate::proxy::headers::Fields;
use crate::proxy::modifiers;
use crate::proxy::modifiers::Modifiers;
use crate::proxy::rate_limiting::Outcome;
use crate::proxy::response_modifiers::ResponseModifier;
use crate::text;
use crate::views;
use bytes::Bytes;
use pingora_http::{RequestHeader, ResponseHeader};
use vstd::prelude::*;
use vstd::string::*;
use vstd::utf8::*;

verus! {

/// A response that the cache answers a request with.
pub struct CachedResponse {
    pub header: ResponseHeader,
    pub body: Bytes,
}

/// A stored field that is not sent again: it told how long or how encoded the body was.
pub open spec fn not_resent(name: Seq<char>) -> bool {
    text::lowered(name) == "content-encoding"@ || text::lowered(name) == "content-length"@
}

/// The fields with stored ones appended, but for those that are not sent again; or the first error.
pub open spec fn resent_fields(stored: Seq<(Seq<char>, Seq<char>)>, f: Fields) -> Result<
    Fields,
    Seq<char>,
>
    decreases stored.len(),
{
    if stored.len() == 0 {
        Ok(f)
    } else if not_resent(stored[0].0) {
        resent_fields(stored.skip(1), f)
    } else {
        match headers::append_result(f, stored[0].0, stored[0].1) {
            Ok(g) => resent_fields(stored.skip(1), g),
            Err(e) => Err(e),
        }
    }
}

/// The body and its encoding for a client once compressing it has come to `compressed`: as it is
/// where that failed.
pub open spec fn settled_body(
    body: Seq<u8>,
    encoding: CompressionEncoding,
    compressed: Result<Seq<u8>, Seq<char>>,
) -> (Seq<u8>, CompressionEncoding) {
    match compressed {
        Ok(z) => (z, encoding),
        Err(_) => (body, CompressionEncoding::Identity),
    }
}

/// `sent` and `encoding` can be what a body becomes for a client that accepts what `accept` says:
/// it is left as it is where the client accepts nothing else, or where compressing fails.
pub open spec fn sends_body(
    body: Seq<u8>,
    accept: Option<Seq<char>>,
    sent: Seq<u8>,
    encoding: CompressionEncoding,
) -> bool {
    match compression::preferred(accept) {
        Some(e) => exists|z: Result<Seq<u8>, Seq<char>>| #[trigger]
            compression::encodes(body, e, z) && (sent, encoding) == settled_body(body, e, z),
        None => sent == body && encoding == CompressionEncoding::Identity,
    }
}

/// The fields of the answer that the cache gives.
pub open spec fn hit_fields(
    f: Fields,
    sent: Seq<u8>,
    encoding: CompressionEncoding,
    enabled: bool,
    ttl: Option<u64>,
) -> Fields {
    let g = header_utils::compression_fields(f, encoding, None);
    let h = if sent.len() > 0 {
        headers::appended(g, "content-length"@, number::decimal(sent.len()))
    } else {
        g
    };
    header_utils::cache_fields(h, "HIT"@, enabled, ttl)
}

/// The fields of the answer that the cache gives with a body in an encoding, or the error that
/// keeps it from one.
pub open spec fn hit_answer(
    status: u16,
    stored: Seq<(Seq<char>, Seq<char>)>,
    sent: Seq<u8>,
    encoding: CompressionEncoding,
    enabled: bool,
    ttl: Option<u64>,
) -> Result<Fields, Seq<char>> {
    if !(100 <= status <= 999) {
        Err(" InvalidHTTPHeader context: invalid status"@)
    } else {
        match resent_fields(stored, Map::empty()) {
            Err(e) => Err(e),
            Ok(f) => Ok(hit_fields(f, sent, encoding, enabled, ttl)),
        }
    }
}

/// `r` is the answer with a body in an encoding, or the error that keeps the cache from one.
pub open spec fn is_hit_answer(
    r: Result<CachedResponse, String>,
    status: u16,
    stored: Seq<(Seq<char>, Seq<char>)>,
    sent: Seq<u8>,
    encoding: CompressionEncoding,
    enabled: bool,
    ttl: Option<u64>,
) -> bool {
    match hit_answer(status, stored, sent, encoding, enabled, ttl) {
        Ok(f) => r matches Ok(c) && headers::response_status(c.header) == status
            && headers::response_fields(c.header) == f && buffer::contents(c.body) == sent,
        Err(e) => r matches Err(x) && x@ == e,
    }
}

/// `r` is what the cache answers a client with that accepts what `accept` says.
pub open spec fn answers_hit(
    r: Result<CachedResponse, String>,
    status: u16,
    stored: Seq<(Seq<char>, Seq<char>)>,
    body: Seq<u8>,
    accept: Option<Seq<char>>,
    enabled: bool,
    ttl: Option<u64>,
) -> bool {
    exists|sent: Seq<u8>, encoding: CompressionEncoding| #[trigger]
        sends_body(body, accept, sent, encoding) && is_hit_answer(
            r,
            status,
            stored,
            sent,
            encoding,
            enabled,
            ttl,
        )
}

/// What a request says in its accept-encoding field.
pub open spec fn accepts(req: RequestHeader) -> Option<Seq<char>> {
    headers::first_text(headers::request_fields(req), "accept-encoding"@)
}

/// The response is to be stored after a lookup: after a miss, and where that was so before.
pub open spec fn stores_after(lookup: Result<CacheResult, String>, before: bool) -> bool {
    lookup matches Ok(CacheResult::Miss) || before
}

/// The texts that the cache status of a request can be.
pub open spec fn status_text(lookup: Result<CacheResult, String>) -> Seq<char> {
    match lookup {
        Ok(CacheResult::Hit { .. }) => "HIT"@,
        Ok(CacheResult::Miss) => "MISS"@,
        Err(_) => "ERROR"@,
    }
}

/// The first stages of a request.
pub struct RequestPipeline;

impl RequestPipeline {
    /// Appends stored fields to a header, but for those that are not sent again.
    fn resend_headers(stored: &Vec<(String, String)>, empty: ResponseHeader) -> (r: Result<
        ResponseHeader,
        String,
    >)
        requires
            headers::response_fields(empty) == Map::<Seq<char>, Seq<Seq<u8>>>::empty(),
            service::stored_fits(service::header_views(stored@), 1),
        ensures
            match resent_fields(service::header_views(stored@), Map::empty()) {
                Ok(f) => r matches Ok(h) && headers::response_status(h) == headers::response_status(
                    empty,
                ) && headers::response_fields(h) == f && f.dom().subset_of(
                    service::stored_names(service::header_views(stored@)),
                ),
                Err(e) => r matches Err(x) && x@ == e,
            },
    {
        let ghost all = service::header_views(stored@);
        let ghost names = service::stored_names(all);
        let mut header = empty;
        let n = stored.len();
        proof {
            service::lemma_stored_names(all);
            assert(all.skip(0) =~= all);
        }
        let mut i: usize = 0;
        while i < n
            invariant
                i <= n,
                n == stored@.len(),
                all == service::header_views(stored@),
                names == service::stored_names(all),
                service::stored_fits(all, 1),
                forall|j: int|
                    0 <= j < all.len() ==> names.contains(text::lowered((#[trigger] all[j]).0)),
                headers::response_fields(header).dom().subset_of(names),
                headers::response_status(header) == headers::response_status(empty),
                resent_fields(all, Map::empty()) == resent_fields(
                    all.skip(i as int),
                    headers::response_fields(header),
                ),
            decreases n - i,
        {
            let (key, value) = &stored[i];
            proof {
                assert(all[i as int] == (key@, value@));
                assert(all.skip(i as int)[0] == (key@, value@));
                assert(all.skip(i as int).skip(1) =~= all.skip(i + 1));
                service::lemma_stored_room(all, headers::response_fields(header), 1);
            }
            let skip = text::lowered_eq(key.as_str(), "content-encoding") || text::lowered_eq(
                key.as_str(),
                "content-length",
            );
            if !skip {
                headers::response_append(&mut header, key.as_str(), value.as_str())?;
            }
            i = i + 1;
        }
        Ok(header)
    }

    /// The body to send once compressing it has come to `compressed`, and its encoding.
    pub fn settle_body(
        body: Bytes,
        encoding: CompressionEncoding,
        compressed: Result<Bytes, String>,
    ) -> (r: (Bytes, CompressionEncoding))
        ensures
            (buffer::contents(r.0), r.1) == settled_body(
                buffer::contents(body),
                encoding,
                compression::outcome_view(compressed),
            ),
    {
        match compressed {
            Ok(z) => (z, encoding),
            Err(_) => (body, CompressionEncoding::Identity),
        }
    }

    /// The body and its encoding for a request.
    pub fn body_for_client(body: Bytes, req_header: &RequestHeader) -> (r: (
        Bytes,
        CompressionEncoding,
    ))
        ensures
            sends_body(
                buffer::contents(body),
                accepts(*req_header),
                buffer::contents(r.0),
                r.1,
            ),
    {
        let encoding = HeaderUtils::get_preferred_encoding(req_header);
        if encoding == CompressionEncoding::Identity {
            return (body, CompressionEncoding::Identity);
        }
        let compressed = ClientCompression::compress(&body, encoding);
        RequestPipeline::settle_body(body, encoding, compressed)
    }

    /// The answer to a request that the cache knows, with a body in an encoding.
    pub fn hit_response(
        stored: &Vec<(String, String)>,
        status: u16,
        sent: Bytes,
        encoding: CompressionEncoding,
        browser_cache_enabled: bool,
        browser_cache_ttl: Option<u64>,
    ) -> (r: Result<CachedResponse, String>)
        requires
            service::stored_fits(service::header_views(stored@), 7),
        ensures
            is_hit_answer(
                r,
                status,
                service::header_views(stored@),
                buffer::contents(sent),
                encoding,
                browser_cache_enabled,
                browser_cache_ttl,
            ),
    {
        let empty = headers::response_build(status, stored.len().saturating_add(3))?;
        let mut header = RequestPipeline::resend_headers(stored, empty)?;
        let ghost f1 = headers::response_fields(header);
        proof {
            service::lemma_stored_room(service::header_views(stored@), f1, 7);
        }
        if encoding != CompressionEncoding::Identity {
            HeaderUtils::update_compression_headers(&mut header, encoding, None)?;
        }
        let ghost f2 = headers::response_fields(header);
        proof {
            headers::lemma_own_names();
            lemma_compression_room(f1, encoding, 5);
        }
        let len = buffer::as_slice(&sent).len();
        if len > 0 {
            let digits = number::decimal_text(len as u128);
            proof {
                header_utils::lemma_own_values(len as nat);
            }
            headers::response_append(&mut header, "content-length", digits.as_str())?;
        }
        proof {
            headers::lemma_room(f2, "content-length"@, headers::values_at(f2, "content-length"@).push(
                encode_utf8(number::decimal(len as nat)),
            ), 4);
            lemma_status_texts();
        }
        HeaderUtils::set_cache_headers(
            &mut header,
            "HIT",
            browser_cache_enabled,
            browser_cache_ttl,
        )?;
        Ok(CachedResponse { header, body: sent })
    }

    /// The answer to a request that the cache knows.
    pub fn answer_hit(
        req_header: &RequestHeader,
        body: Bytes,
        stored: &Vec<(String, String)>,
        status: u16,
        browser_cache_enabled: bool,
        browser_cache_ttl: Option<u64>,
    ) -> (r: Result<CachedResponse, String>)
        requires
            service::stored_fits(service::header_views(stored@), 7),
        ensures
            answers_hit(
                r,
                status,
                service::header_views(stored@),
                buffer::contents(body),
                accepts(*req_header),
                browser_cache_enabled,
                browser_cache_ttl,
            ),
    {
        let (sent, encoding) = RequestPipeline::body_for_client(body, req_header);
        assert(sends_body(
            buffer::contents(body),
            accepts(*req_header),
            buffer::contents(sent),
            encoding,
        ));
        RequestPipeline::hit_response(
            stored,
            status,
            sent,
            encoding,
            browser_cache_enabled,
            browser_cache_ttl,
        )
    }

    /// Takes the answer of the cache. What the cache knows is sent to the client; a request that it
    /// does not know is forwarded, and its response is to be stored.
    pub fn process_cache_lookup(
        req_header: &RequestHeader,
        ctx: &mut StryvoContext,
        lookup: Result<CacheResult, String>,
    ) -> (r: Result<Option<CachedResponse>, String>)
        requires
            lookup matches Ok(CacheResult::Hit { headers: stored, .. }) ==> service::stored_fits(
                service::header_views(stored@),
                7,
            ),
        ensures
            final(ctx).cache_status matches Some(s) && s@ == status_text(lookup),
            final(ctx).cache_req_header matches Some(req) && headers::same_request(
                req,
                *req_header,
            ),
            final(ctx).should_cache_response == stores_after(
                lookup,
                old(ctx).should_cache_response,
            ),
            final(ctx).selector_buf == old(ctx).selector_buf,
            final(ctx).upstream_addr == old(ctx).upstream_addr,
            final(ctx).cache_body == old(ctx).cache_body,
            final(ctx).cache_resp_header == old(ctx).cache_resp_header,
            final(ctx).compression_encoding == old(ctx).compression_encoding,
            final(ctx).browser_cache_enabled == old(ctx).browser_cache_enabled,
            final(ctx).browser_cache_ttl == old(ctx).browser_cache_ttl,
            match lookup {
                Ok(CacheResult::Hit { body, headers: stored, status }) => match r {
                    Ok(Some(c)) => answers_hit(
                        Ok(c),
                        status,
                        service::header_views(stored@),
                        buffer::contents(body),
                        accepts(*req_header),
                        old(ctx).browser_cache_enabled,
                        old(ctx).browser_cache_ttl,
                    ),
                    Ok(None) => false,
                    Err(e) => answers_hit(
                        Err(e),
                        status,
                        service::header_views(stored@),
                        buffer::contents(body),
                        accepts(*req_header),
                        old(ctx).browser_cache_enabled,
                        old(ctx).browser_cache_ttl,
                    ),
                },
                _ => r matches Ok(None),
            },
    {
        ctx.cache_req_header = Some(headers::request_clone(req_header));
        match lookup {
            Ok(CacheResult::Hit { body, headers: stored, status }) => {
                ctx.cache_status = Some("HIT".to_owned());
                match RequestPipeline::answer_hit(
                    req_header,
                    body,
                    &stored,
                    status,
                    ctx.browser_cache_enabled,
                    ctx.browser_cache_ttl,
                ) {
                    Ok(c) => Ok(Some(c)),
                    Err(e) => Err(e),
                }
            },
            Ok(CacheResult::Miss) => {
                ctx.cache_status = Some("MISS".to_owned());
                ctx.should_cache_response = true;
                Ok(None)
            },
            Err(_) => {
                ctx.cache_status = Some("ERROR".to_owned());
                Ok(None)
            },
        }
    }
}

/// The texts of the cache status are valid values.
proof fn lemma_status_texts()
    ensures
        headers::valid_value(encode_utf8("HIT"@)),
        headers::valid_value(encode_utf8("MISS"@)),
        headers::valid_value(encode_utf8("BYPASS"@)),
        headers::valid_value(encode_utf8("ERROR"@)),
{
    reveal_strlit("HIT");
    reveal_strlit("MISS");
    reveal_strlit("BYPASS");
    reveal_strlit("ERROR");
    headers::lemma_printable_value("HIT"@);
    headers::lemma_printable_value("MISS"@);
    headers::lemma_printable_value("BYPASS"@);
    headers::lemma_printable_value("ERROR"@);
}

/// The fields for compression take room for two names.
pub proof fn lemma_compression_room(f: Fields, encoding: CompressionEncoding, more: int)
    requires
        headers::room(f, more + 2),
    ensures
        headers::room(header_utils::compression_fields(f, encoding, None), more),
        headers::room(f, more),
{
    let name = seq![encode_utf8(encoding.name())];
    let chunked = seq![encode_utf8("chunked"@)];
    headers::lemma_room(f, "content-encoding"@, name, more + 1);
    let g = f.insert("content-encoding"@, name);
    headers::lemma_room(g, "content-length"@, name, more);
    let h = g.remove("content-length"@);
    headers::lemma_room(h, "transfer-encoding"@, chunked, more);
}

/// What comes next once limiters have said what they say of a request.
#[derive(Clone, Copy, Debug, PartialEq, Eq, Structural)]
pub enum LimitStep {
    /// The limiter with one bucket at this position is asked.
    AskSingle(usize),
    /// The limiter with many buckets at this position is asked.
    AskMulti(usize),
    /// The request is refused with this status.
    Refuse(u16),
    /// No limiter refuses the request.
    Pass,
}

/// One of the limiters that have been asked refuses.
pub open spec fn any_declined(outcomes: Seq<Option<Outcome>>) -> bool {
    exists|i: int| 0 <= i < outcomes.len() && #[trigger] outcomes[i] == Some(Outcome::Declined)
}

/// The status that a request is refused with where it exceeds a limit.
pub const TOO_MANY_REQUESTS: u16 = 429;

/// How limiters are asked: those with one bucket first, up to the first that refuses.
pub open spec fn limit_step(
    singles: usize,
    multis: usize,
    outcomes: Seq<Option<Outcome>>,
) -> LimitStep {
    let asked = outcomes.len();
    if any_declined(outcomes) {
        LimitStep::Refuse(TOO_MANY_REQUESTS)
    } else if asked < singles {
        LimitStep::AskSingle(asked as usize)
    } else if asked - singles < multis {
        LimitStep::AskMulti((asked - singles) as usize)
    } else {
        LimitStep::Pass
    }
}

/// What comes next once filters have been asked about a request.
#[derive(Debug)]
pub enum FilterStep {
    /// The filter at this position is asked.
    Ask(usize),
    /// The last filter has answered the request.
    Handled,
    /// The request fails with the error of the last filter; the message is logged.
    Failed { error: String, message: String },
    /// All filters let the request pass.
    Passed,
}

/// The contents of a `FilterStep`.
pub enum FilterStepV {
    Ask(usize),
    Handled,
    Failed { error: Seq<char>, message: Seq<char> },
    Passed,
}

impl View for FilterStep {
    type V = FilterStepV;

    open spec fn view(&self) -> FilterStepV {
        match self {
            FilterStep::Ask(i) => FilterStepV::Ask(*i),
            FilterStep::Handled => FilterStepV::Handled,
            FilterStep::Failed { error, message } => FilterStepV::Failed {
                error: error@,
                message: message@,
            },
            FilterStep::Passed => FilterStepV::Passed,
        }
    }
}

/// What is to be done once `asked` of the filters have been asked, the last with this answer.
pub open spec fn filter_step(
    filters: usize,
    asked: usize,
    last: Option<Result<bool, Seq<char>>>,
) -> FilterStepV {
    match last {
        Some(Ok(true)) => FilterStepV::Handled,
        Some(Err(e)) => FilterStepV::Failed {
            error: e,
            message: "Request filter error: "@ + e,
        },
        _ => if asked < filters {
            FilterStepV::Ask(asked)
        } else {
            FilterStepV::Passed
        },
    }
}

impl RequestPipeline {
    /// Whether one of the limiters that have been asked refuses.
    pub(crate) fn declines(outcomes: &Vec<Option<Outcome>>) -> (r: bool)
        ensures
            r == any_declined(outcomes@),
    {
        let mut i: usize = 0;
        while i < outcomes.len()
            invariant
                i <= outcomes@.len(),
                forall|j: int| 0 <= j < i ==> #[trigger] outcomes@[j] != Some(Outcome::Declined),
            decreases outcomes@.len() - i,
        {
            if let Some(outcome) = outcomes[i] {
                if outcome == Outcome::Declined {
                    assert(outcomes@[i as int] == Some(Outcome::Declined));
                    return true;
                }
            }
            i = i + 1;
        }
        false
    }

    /// Takes what the limiters of a request have said so far, `None` from those that it does not
    /// concern, and says what comes next: those with one bucket are asked first, in turn, then
    /// those with many; the first that refuses ends it.
    pub fn process_rate_limiting(
        singles: usize,
        multis: usize,
        outcomes: &Vec<Option<Outcome>>,
    ) -> (r: LimitStep)
        ensures
            r == limit_step(singles, multis, outcomes@),
    {
        let asked = outcomes.len();
        if RequestPipeline::declines(outcomes) {
            LimitStep::Refuse(TOO_MANY_REQUESTS)
        } else if asked < singles {
            LimitStep::AskSingle(asked)
        } else if asked - singles < multis {
            LimitStep::AskMulti(asked - singles)
        } else {
            LimitStep::Pass
        }
    }

    /// Takes what the last of the filters that have been asked made of a request, `None` before the
    /// first, and says what comes next: they are asked in turn, up to the first that answers the
    /// request or fails.
    pub fn process_request_filters(
        filters: usize,
        asked: usize,
        last: Option<Result<bool, String>>,
    ) -> (r: FilterStep)
        ensures
            r@ == filter_step(
                filters,
                asked,
                match last {
                    Some(Ok(b)) => Some(Ok(b)),
                    Some(Err(e)) => Some(Err(e@)),
                    None => None,
                },
            ),
    {
        match last {
            Some(Ok(true)) => FilterStep::Handled,
            Some(Err(e)) => FilterStep::Failed {
                message: String::from_str("Request filter error: ").concat(e.as_str()),
                error: e,
            },
            _ => if asked < filters {
                FilterStep::Ask(asked)
            } else {
                FilterStep::Passed
            },
        }
    }
}

/// The cache status of a response.
pub open spec fn response_cache_status(
    has_cache: bool,
    known: Option<Seq<char>>,
    cacheable: bool,
    status: u16,
) -> Seq<char> {
    if !has_cache {
        "BYPASS"@
    } else {
        match known {
            Some(s) => s,
            None => if cacheable && status == 200 {
                "MISS"@
            } else {
                "BYPASS"@
            },
        }
    }
}

/// A response becomes one that is to be stored.
pub open spec fn turns_cacheable(
    has_cache: bool,
    known: Option<Seq<char>>,
    cacheable: bool,
    status: u16,
) -> bool {
    has_cache && status == 200 && match known {
        Some(s) => s == "MISS"@,
        None => cacheable,
    }
}

/// What is kept of a response that turns out to be one that is stored: its header as it came from
/// the backend, and the request where the cache has not been asked with it. Else nothing changes.
pub open spec fn keeps_headers(
    before: StryvoContext,
    after: StryvoContext,
    req: RequestHeader,
    resp: ResponseHeader,
    turns: bool,
) -> bool {
    &&& after.should_cache_response == (turns || before.should_cache_response)
    &&& if turns {
        after.cache_resp_header matches Some(h) && headers::response_fields(h)
            == headers::response_fields(resp) && headers::response_status(h)
            == headers::response_status(resp) && headers::response_list(h)
            == headers::response_list(resp)
    } else {
        after.cache_resp_header == before.cache_resp_header
    }
    &&& if turns && before.cache_status is None {
        after.cache_req_header matches Some(h) && headers::same_request(h, req)
    } else {
        after.cache_req_header == before.cache_req_header
    }
}

/// The encoding that a response is sent in.
pub open spec fn response_encoding(f: Fields, accept: Option<Seq<char>>) -> Option<
    CompressionEncoding,
> {
    if compression::compressible(f) {
        compression::preferred(accept)
    } else {
        None
    }
}

/// The milliseconds between two readings of a clock in nanoseconds.
pub open spec fn elapsed_ms(start: Option<u128>, current: u128) -> u64 {
    match start {
        Some(s) => (((current - s) % 0x1_0000_0000_0000_0000) / 1_000_000) as u64,
        None => 0,
    }
}

/// A field of a request as the access log shows it.
pub open spec fn logged_field(f: Fields, name: Seq<char>, otherwise: Seq<char>) -> Seq<char> {
    match headers::first_text(f, name) {
        Some(t) => t,
        None => otherwise,
    }
}

/// An access log entry tells of a request, of the status it was answered with, of its state at a
/// reading of the clock, and of what the cache made of it.
pub open spec fn logs(
    entry: LogEntry,
    req: RequestHeader,
    status: u16,
    ctx: StryvoContext,
    current: u128,
    cache_status: Seq<char>,
) -> bool {
    &&& entry.method@ == headers::request_method(req)
    &&& entry.uri@ == headers::request_uri(req)
    &&& entry.status == status
    &&& entry.upstream@ == (match ctx.upstream_addr {
        Some(a) => a@,
        None => "unknown"@,
    })
    &&& entry.elapsed_ms == elapsed_ms(context::start_of(ctx.selector_buf@), current)
    &&& entry.http_version@ == headers::request_version(req)
    &&& entry.user_agent@ == logged_field(
        headers::request_fields(req),
        "user-agent"@,
        "unknown"@,
    )
    &&& entry.referer@ == logged_field(headers::request_fields(req), "referer"@, ""@)
    &&& entry.cache_status@ == cache_status
}

/// The last stages of a response.
pub struct ResponsePipeline;

impl ResponsePipeline {
    /// Decides whether a response is to be stored, and sets its cache fields. The cache status is
    /// returned.
    pub fn process_cache_status(
        req_header: &RequestHeader,
        upstream_response: &mut ResponseHeader,
        ctx: &mut StryvoContext,
        has_cache: bool,
        browser_cache_enabled: bool,
        browser_cache_ttl: Option<u64>,
    ) -> (r: String)
        requires
            headers::room(headers::response_fields(*old(upstream_response)), 4),
        ensures
            ({
                let f = headers::response_fields(*old(upstream_response));
                let status = headers::response_status(*old(upstream_response));
                let known = views::opt_view(old(ctx).cache_status);
                let cacheable = service::cacheable(headers::request_method(*req_header), f);
                let turns = turns_cacheable(has_cache, known, cacheable, status);
                &&& r@ == response_cache_status(has_cache, known, cacheable, status)
                &&& headers::response_status(*final(upstream_response)) == status
                &&& headers::response_fields(*final(upstream_response))
                    == header_utils::cache_fields(f, r@, browser_cache_enabled, browser_cache_ttl)
                &&& keeps_headers(
                    *old(ctx),
                    *final(ctx),
                    *req_header,
                    *old(upstream_response),
                    turns,
                )
            }),
            final(ctx).selector_buf == old(ctx).selector_buf,
            final(ctx).upstream_addr == old(ctx).upstream_addr,
            final(ctx).cache_status == old(ctx).cache_status,
            final(ctx).cache_body == old(ctx).cache_body,
            final(ctx).compression_encoding == old(ctx).compression_encoding,
            final(ctx).browser_cache_enabled == old(ctx).browser_cache_enabled,
            final(ctx).browser_cache_ttl == old(ctx).browser_cache_ttl,
    {
        let status = headers::response_status_code(upstream_response);
        let cache_status: String = if has_cache {
            match &ctx.cache_status {
                Some(known) => {
                    let known = known.clone();
                    if text::str_eq(known.as_str(), "MISS") && status == 200 {
                        ctx.should_cache_response = true;
                        ctx.cache_resp_header = Some(headers::response_clone(upstream_response));
                    }
                    known
                },
                None => if CacheService::is_cacheable(req_header, upstream_response) && status
                    == 200 {
                    ctx.cache_req_header = Some(headers::request_clone(req_header));
                    ctx.cache_resp_header = Some(headers::response_clone(upstream_response));
                    ctx.should_cache_response = true;
                    "MISS".to_owned()
                } else {
                    "BYPASS".to_owned()
                },
            }
        } else {
            "BYPASS".to_owned()
        };
        let _ = HeaderUtils::set_cache_headers(
            upstream_response,
            cache_status.as_str(),
            browser_cache_enabled,
            browser_cache_ttl,
        );
        cache_status
    }

    /// Decides how a response is compressed for the client, and sets its fields accordingly.
    pub fn process_compression_setup(
        req_header: &RequestHeader,
        upstream_response: &mut ResponseHeader,
        ctx: &mut StryvoContext,
    )
        requires
            headers::room(headers::response_fields(*old(upstream_response)), 2),
        ensures
            ({
                let f = headers::response_fields(*old(upstream_response));
                let encoding = response_encoding(f, accepts(*req_header));
                &&& final(ctx).compression_encoding == (match encoding {
                    Some(e) => Some(e),
                    None => old(ctx).compression_encoding,
                })
                &&& headers::response_fields(*final(upstream_response)) == (match encoding {
                    Some(e) => header_utils::compression_fields(f, e, None),
                    None => f,
                })
            }),
            headers::response_status(*final(upstream_response)) == headers::response_status(
                *old(upstream_response),
            ),
            final(ctx).selector_buf == old(ctx).selector_buf,
            final(ctx).upstream_addr == old(ctx).upstream_addr,
            final(ctx).cache_status == old(ctx).cache_status,
            final(ctx).should_cache_response == old(ctx).should_cache_response,
            final(ctx).cache_body == old(ctx).cache_body,
            final(ctx).cache_req_header == old(ctx).cache_req_header,
            final(ctx).cache_resp_header == old(ctx).cache_resp_header,
            final(ctx).browser_cache_enabled == old(ctx).browser_cache_enabled,
            final(ctx).browser_cache_ttl == old(ctx).browser_cache_ttl,
    {
        if HeaderUtils::should_compress(upstream_response) {
            let encoding = HeaderUtils::get_preferred_encoding(req_header);
            if encoding != CompressionEncoding::Identity {
                ctx.compression_encoding = Some(encoding);
                match HeaderUtils::update_compression_headers(upstream_response, encoding, None) {
                    Ok(()) => {},
                    Err(_) => {
                        ctx.compression_encoding = None;
                    },
                }
            }
        }
    }

    /// Applies all filters for responses.
    pub fn process_response_filters(
        upstream_response: &mut ResponseHeader,
        response_filters: &Vec<ResponseModifier>,
    )
        requires
            modifiers::fits(
                views::views(response_filters@),
                headers::response_fields(*old(upstream_response)),
            ),
        ensures
            headers::response_status(*final(upstream_response)) == headers::response_status(
                *old(upstream_response),
            ),
            headers::response_fields(*final(upstream_response)) == modifiers::response_changes(
                views::views(response_filters@),
                headers::response_fields(*old(upstream_response)),
            ),
    {
        Modifiers::change_response(response_filters, upstream_response)
    }

    /// The access log entry of a response. `current` is the reading of the clock now, which is not
    /// before the one that the request was noted with.
    pub fn process_logging(
        req_header: &RequestHeader,
        upstream_response: &ResponseHeader,
        ctx: &StryvoContext,
        current: u128,
    ) -> (r: LogEntry)
        requires
            context::start_of(ctx.selector_buf@) matches Some(s) ==> s <= current,
        ensures
            logs(
                r,
                *req_header,
                headers::response_status(*upstream_response),
                *ctx,
                current,
                match ctx.cache_status {
                    Some(s) => s@,
                    None => ""@,
                },
            ),
    {
        proof {
            headers::lemma_own_names();
        }
        let elapsed: u64 = match ctx.start() {
            Some(s) => (((current - s) % 0x1_0000_0000_0000_0000) / 1_000_000) as u64,
            None => 0,
        };
        LogEntry {
            method: headers::request_method_text(req_header),
            uri: headers::request_uri_text(req_header),
            status: headers::response_status_code(upstream_response),
            upstream: match &ctx.upstream_addr {
                Some(a) => a.clone(),
                None => "unknown".to_owned(),
            },
            elapsed_ms: elapsed,
            http_version: headers::request_version_text(req_header),
            user_agent: match headers::request_text(req_header, "user-agent") {
                Some(t) => t,
                None => "unknown".to_owned(),
            },
            referer: match headers::request_text(req_header, "referer") {
                Some(t) => t,
                None => "".to_owned(),
            },
            cache_status: match &ctx.cache_status {
                Some(s) => s.clone(),
                None => "".to_owned(),
            },
        }
    }
}

/// Once its cache fields are set, a response names the proxy and says what the cache made of the
/// request: whatever fields came from the backend, there is one of each.
pub proof fn law_responses_tell_the_cache_status(
    f: Fields,
    status: Seq<char>,
    enabled: bool,
    ttl: Option<u64>,
)
    requires
        headers::valid_value(encode_utf8(status)),
    ensures
        header_utils::cache_fields(f, status, enabled, ttl)["x-cache"@] == seq![
            encode_utf8(status),
        ],
        header_utils::cache_fields(f, status, enabled, ttl)["server"@] == seq![
            encode_utf8("Stryvo"@),
        ],
        enabled ==> (ttl matches Some(n) ==> header_utils::cache_fields(f, status, enabled, ttl)[
        "cache-control"@] == seq![encode_utf8(header_utils::max_age(n))]),
        !enabled ==> header_utils::cache_fields(f, status, enabled, ttl)["cache-control"@] == seq![
            encode_utf8("no-store, no-cache, must-revalidate"@),
        ],
{
    headers::lemma_own_names();
    reveal_strlit("x-cache");
    reveal_strlit("server");
    reveal_strlit("cache-control");
    reveal_strlit("pragma");
    assert("x-cache"@.len() == 7 && "server"@.len() == 6 && "cache-control"@.len() == 13);
    assert("pragma"@[0] == 'p' && "server"@[0] == 's');
}

/// Stored fields that can be sent are appended without an error.
proof fn lemma_resent_fields(stored: Seq<(Seq<char>, Seq<char>)>, f: Fields)
    requires
        service::sendable(stored),
    ensures
        resent_fields(stored, f) is Ok,
    decreases stored.len(),
{
    if stored.len() > 0 {
        let rest = stored.skip(1);
        assert(headers::valid_name(stored[0].0));
        assert forall|i: int| 0 <= i < rest.len() implies headers::valid_name(
            (#[trigger] rest[i]).0,
        ) && headers::valid_value(encode_utf8(rest[i].1)) by {
            assert(rest[i] == stored[i + 1]);
        }
        if not_resent(stored[0].0) {
            lemma_resent_fields(rest, f);
        } else {
            lemma_resent_fields(rest, headers::appended(f, stored[0].0, stored[0].1));
        }
    }
}

/// Stored fields that can be sent keep no response from being answered: nothing stands against it,
/// whatever the body becomes for the client. A client that accepts no encoding gets the body as it
/// was stored, and so does every client where the body is short.
pub proof fn law_stored_responses_can_be_answered(
    status: u16,
    stored: Seq<(Seq<char>, Seq<char>)>,
    body: Seq<u8>,
    accept: Option<Seq<char>>,
    sent: Seq<u8>,
    encoding: CompressionEncoding,
    enabled: bool,
    ttl: Option<u64>,
)
    requires
        service::sendable(stored),
        100 <= status <= 999,
        sends_body(body, accept, sent, encoding),
    ensures
        hit_answer(status, stored, sent, encoding, enabled, ttl) is Ok,
        compression::preferred(accept) is None ==> sent == body,
        body.len() < compression::MIN_COMPRESSED_SIZE ==> sent == body,
{
    lemma_resent_fields(stored, Map::empty());
}

/// What the cache answers says so, and has a length that is that of its body where that is not
/// empty.
pub proof fn law_hit_answers_are_marked(
    status: u16,
    stored: Seq<(Seq<char>, Seq<char>)>,
    sent: Seq<u8>,
    encoding: CompressionEncoding,
    enabled: bool,
    ttl: Option<u64>,
)
    ensures
        hit_answer(status, stored, sent, encoding, enabled, ttl) matches Ok(f) ==> {
            &&& f["x-cache"@] == seq![encode_utf8("HIT"@)]
            &&& sent.len() > 0 ==> f.dom().contains("content-length"@)
                && f["content-length"@].last() == encode_utf8(number::decimal(sent.len()))
        },
{
    lemma_status_texts();
    headers::lemma_own_names();
    if let Ok(f) = hit_answer(status, stored, sent, encoding, enabled, ttl) {
        if let Ok(g) = resent_fields(stored, Map::empty()) {
            let h = header_utils::compression_fields(g, encoding, None);
            let k = if sent.len() > 0 {
                headers::appended(h, "content-length"@, number::decimal(sent.len()))
            } else {
                h
            };
            law_responses_tell_the_cache_status(k, "HIT"@, enabled, ttl);
            reveal_strlit("content-length");
            reveal_strlit("cache-control");
            reveal_strlit("x-cache");
            reveal_strlit("server");
            reveal_strlit("pragma");
            assert("content-length"@.len() == 14 && "cache-control"@.len() == 13);
            assert("x-cache"@.len() == 7 && "server"@.len() == 6 && "pragma"@.len() == 6);
        }
    }
}

/// The values that stored fields have under a name in lower case, in their order.
pub open spec fn stored_values(stored: Seq<(Seq<char>, Seq<char>)>, name: Seq<char>) -> Seq<Seq<u8>>
    decreases stored.len(),
{
    if stored.len() == 0 {
        Seq::empty()
    } else if text::lowered(stored[0].0) == name {
        seq![encode_utf8(stored[0].1)] + stored_values(stored.skip(1), name)
    } else {
        stored_values(stored.skip(1), name)
    }
}

/// A name that the proxy sets itself when it answers out of the cache.
pub open spec fn set_on_hits(name: Seq<char>) -> bool {
    ||| name == "content-encoding"@ || name == "content-length"@ || name == "transfer-encoding"@
    ||| name == "server"@ || name == "x-cache"@ || name == "cache-control"@ || name == "pragma"@
}

/// Stored fields go behind those that are there.
proof fn lemma_resent_values(stored: Seq<(Seq<char>, Seq<char>)>, f: Fields, name: Seq<char>)
    requires
        !set_on_hits(name),
    ensures
        resent_fields(stored, f) matches Ok(g) ==> headers::values_at(g, name)
            == headers::values_at(f, name) + stored_values(stored, name),
    decreases stored.len(),
{
    if stored.len() == 0 {
        assert(headers::values_at(f, name) + stored_values(stored, name) =~= headers::values_at(
            f,
            name,
        ));
    } else if not_resent(stored[0].0) {
        lemma_resent_values(stored.skip(1), f, name);
    } else if let Ok(h) = headers::append_result(f, stored[0].0, stored[0].1) {
        lemma_resent_values(stored.skip(1), h, name);
        let rest = stored_values(stored.skip(1), name);
        let before = headers::values_at(f, name);
        let value = encode_utf8(stored[0].1);
        assert(before.push(value) + rest =~= before + (seq![value] + rest));
    }
}

/// Under every name that the proxy does not set itself, the answer has the values that were stored,
/// all of them and in their order.
pub proof fn law_hit_answers_have_the_stored_fields(
    status: u16,
    stored: Seq<(Seq<char>, Seq<char>)>,
    sent: Seq<u8>,
    encoding: CompressionEncoding,
    enabled: bool,
    ttl: Option<u64>,
    name: Seq<char>,
)
    requires
        name != "content-encoding"@ && name != "content-length"@ && name != "transfer-encoding"@,
        name != "server"@ && name != "x-cache"@ && name != "cache-control"@ && name != "pragma"@,
    ensures
        hit_answer(status, stored, sent, encoding, enabled, ttl) matches Ok(f)
            ==> headers::values_at(f, name) == stored_values(stored, name),
{
    headers::lemma_own_names();
    lemma_resent_values(stored, Map::empty(), name);
    assert(Seq::<Seq<u8>>::empty() + stored_values(stored, name) =~= stored_values(stored, name));
}

/// A request passes the limiters only once all of them have been asked and none has refused it;
/// until then, the next one in turn is asked, unless one has refused.
pub proof fn law_requests_pass_all_limiters(
    singles: usize,
    multis: usize,
    outcomes: Seq<Option<Outcome>>,
)
    ensures
        limit_step(singles, multis, outcomes) == LimitStep::Pass <==> outcomes.len() >= singles
            + multis && !any_declined(outcomes),
        limit_step(singles, multis, outcomes) is Refuse <==> any_declined(outcomes),
        limit_step(singles, multis, outcomes) matches LimitStep::AskSingle(i) ==> i
            == outcomes.len() && i < singles,
        limit_step(singles, multis, outcomes) matches LimitStep::AskMulti(i) ==> i + singles
            == outcomes.len() && i < multis,
{
}

} // verus!
