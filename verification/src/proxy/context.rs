//! The state of one request on its way through the proxy.
use crate::proxy::buffer;
use crate::proxy::compression;
use crate::proxy::compression::{ClientCompression, CompressionEncoding};
use crate::proxy::headers;
use bytes::Bytes;
use pingora_http::{RequestHeader, ResponseHeader};
use vstd::bytes::*;
use vstd::prelude::*;
use vstd::slice::*;

verus! {

/// The state of one request.
pub struct StryvoContext {
    /// What the choice of a backend goes by, and before that when the request came in.
    pub selector_buf: Vec<u8>,
    /// The address of the chosen backend.
    pub upstream_addr: Option<String>,
    /// What the cache made of the request.
    pub cache_status: Option<String>,
    /// Whether the response is to be stored.
    pub should_cache_response: bool,
    /// The pieces of the response body that have come in.
    pub cache_body: Option<Vec<Bytes>>,
    /// The request to store the response under.
    pub cache_req_header: Option<RequestHeader>,
    /// The response to store.
    pub cache_resp_header: Option<ResponseHeader>,
    /// How the response is compressed for the client.
    pub compression_encoding: Option<CompressionEncoding>,
    /// Whether browsers may keep responses.
    pub browser_cache_enabled: bool,
    /// How long browsers may keep responses, in seconds.
    pub browser_cache_ttl: Option<u64>,
}

/// A response whose body is complete and that is to be stored.
pub struct StoreRequest {
    pub req_header: RequestHeader,
    pub resp_header: ResponseHeader,
    pub body: Bytes,
}

/// The reading of the clock that a buffer keeps, where it is long enough for one.
pub open spec fn start_of(buf: Seq<u8>) -> Option<u128> {
    if buf.len() >= 16 {
        Some(spec_u128_from_le_bytes(buf.take(16)))
    } else {
        None
    }
}

/// The chunks of a body with one more, where that is not empty.
pub open spec fn with_chunk(chunks: Seq<Bytes>, more: Seq<Bytes>, data: Seq<u8>) -> bool {
    if data.len() == 0 {
        more == chunks
    } else {
        more.len() == chunks.len() + 1 && more.drop_last() == chunks && buffer::contents(
            more.last(),
        ) == data
    }
}

/// A piece of a body once compressing it has come to `compressed`: as it was where that failed.
pub open spec fn settled_chunk(data: Seq<u8>, compressed: Result<Seq<u8>, Seq<char>>) -> Seq<u8> {
    match compressed {
        Ok(z) => z,
        Err(_) => data,
    }
}

/// `out` can be what a piece of a body becomes for the client: compressed, unless that fails or
/// there is nothing to compress.
pub open spec fn sends_chunk(
    data: Seq<u8>,
    encoding: Option<CompressionEncoding>,
    out: Seq<u8>,
) -> bool {
    match encoding {
        Some(e) => if data.len() == 0 {
            out == data
        } else {
            exists|z: Result<Seq<u8>, Seq<char>>| #[trigger]
                compression::encodes(data, e, z) && out == settled_chunk(data, z)
        },
        None => out == data,
    }
}

/// The fields of a response as they are stored: without how it was compressed.
pub open spec fn uncompressed_fields(f: headers::Fields) -> headers::Fields {
    f.remove("content-encoding"@)
}

/// A response header is the one that is stored for another: the same but for how it was compressed,
/// and listed as that one where it was not.
pub open spec fn is_stored_header(stored: ResponseHeader, resp: ResponseHeader) -> bool {
    let f = headers::response_fields(resp);
    &&& headers::response_status(stored) == headers::response_status(resp)
    &&& headers::response_fields(stored) == uncompressed_fields(f)
    &&& !f.dom().contains("content-encoding"@) ==> headers::response_list(stored)
        == headers::response_list(resp)
}

impl StryvoContext {
    /// The state of a request that has just come in.
    pub fn new(browser_cache_enabled: bool, browser_cache_ttl: Option<u64>) -> (r: Self)
        ensures
            r.selector_buf@.len() == 0,
            r.upstream_addr is None,
            r.cache_status is None,
            !r.should_cache_response,
            r.cache_body matches Some(chunks) && chunks@ == Seq::<Bytes>::empty(),
            r.cache_req_header is None,
            r.cache_resp_header is None,
            r.compression_encoding is None,
            r.browser_cache_enabled == browser_cache_enabled,
            r.browser_cache_ttl == browser_cache_ttl,
    {
        StryvoContext {
            selector_buf: Vec::new(),
            upstream_addr: None,
            cache_status: None,
            should_cache_response: false,
            cache_body: Some(Vec::new()),
            cache_req_header: None,
            cache_resp_header: None,
            compression_encoding: None,
            browser_cache_enabled,
            browser_cache_ttl,
        }
    }

    /// Notes the reading of the clock, in nanoseconds, when the request came in.
    pub fn note_start(&mut self, nanos: u128)
        ensures
            final(self).selector_buf@ == spec_u128_to_le_bytes(nanos),
            start_of(final(self).selector_buf@) == Some(nanos),
            final(self).upstream_addr == old(self).upstream_addr,
            final(self).cache_status == old(self).cache_status,
            final(self).should_cache_response == old(self).should_cache_response,
            final(self).cache_body == old(self).cache_body,
            final(self).cache_req_header == old(self).cache_req_header,
            final(self).cache_resp_header == old(self).cache_resp_header,
            final(self).compression_encoding == old(self).compression_encoding,
            final(self).browser_cache_enabled == old(self).browser_cache_enabled,
            final(self).browser_cache_ttl == old(self).browser_cache_ttl,
    {
        self.selector_buf = u128_to_le_bytes(nanos);
        proof {
            lemma_auto_spec_u128_to_from_le_bytes();
            assert(self.selector_buf@.take(16) =~= self.selector_buf@);
        }
    }

    /// The reading of the clock when the request came in, as long as it is known.
    pub fn start(&self) -> (r: Option<u128>)
        ensures
            r == start_of(self.selector_buf@),
    {
        if self.selector_buf.len() >= 16 {
            let first = slice_subrange(self.selector_buf.as_slice(), 0, 16);
            assert(first@ =~= self.selector_buf@.take(16));
            Some(u128_from_le_bytes(first))
        } else {
            None
        }
    }

    /// What does not change while a body comes in.
    pub open spec fn same_course(self, other: Self) -> bool {
        &&& self.selector_buf == other.selector_buf
        &&& self.upstream_addr == other.upstream_addr
        &&& self.cache_status == other.cache_status
        &&& self.compression_encoding == other.compression_encoding
        &&& self.browser_cache_enabled == other.browser_cache_enabled
        &&& self.browser_cache_ttl == other.browser_cache_ttl
    }

    /// Keeps a piece of the body where the response is to be stored.
    pub(crate) fn collect(&mut self, data: &Bytes)
        ensures
            final(self).same_course(*old(self)),
            final(self).should_cache_response == old(self).should_cache_response,
            final(self).cache_req_header == old(self).cache_req_header,
            final(self).cache_resp_header == old(self).cache_resp_header,
            match old(self).cache_body {
                Some(chunks) => final(self).cache_body matches Some(more) && (if old(
                    self,
                ).should_cache_response {
                    with_chunk(chunks@, more@, buffer::contents(*data))
                } else {
                    more@ == chunks@
                }),
                None => final(self).cache_body is None,
            },
    {
        if self.should_cache_response && buffer::as_slice(data).len() > 0 {
            let mut body: Option<Vec<Bytes>> = None;
            core::mem::swap(&mut body, &mut self.cache_body);
            if let Some(chunks) = body {
                let mut chunks = chunks;
                let ghost before = chunks@;
                chunks.push(buffer::share(data));
                assert(chunks@.drop_last() =~= before);
                self.cache_body = Some(chunks);
            }
        }
    }

    /// The piece of the body to send once compressing it has come to `compressed`.
    pub fn settle_chunk(data: Bytes, compressed: Result<Bytes, String>) -> (r: Bytes)
        ensures
            buffer::contents(r) == settled_chunk(
                buffer::contents(data),
                compression::outcome_view(compressed),
            ),
    {
        match compressed {
            Ok(z) => z,
            Err(_) => data,
        }
    }

    /// Compresses a piece of the body for the client.
    pub fn compress_chunk(data: Bytes, encoding: Option<CompressionEncoding>) -> (r: Bytes)
        ensures
            sends_chunk(buffer::contents(data), encoding, buffer::contents(r)),
    {
        match encoding {
            Some(e) => if buffer::as_slice(&data).len() == 0 {
                data
            } else {
                let compressed = ClientCompression::compress(&data, e);
                StryvoContext::settle_chunk(data, compressed)
            },
            None => data,
        }
    }

    /// Forgets what was to be stored.
    pub(crate) fn reset_cache(&mut self)
        ensures
            final(self).same_course(*old(self)),
            !final(self).should_cache_response,
            final(self).cache_req_header is None,
            final(self).cache_resp_header is None,
            final(self).cache_body is None,
    {
        self.should_cache_response = false;
        self.cache_req_header = None;
        self.cache_resp_header = None;
        self.cache_body = None;
    }

    /// The response that is to be stored, once its body is complete: nothing where the headers or
    /// the body are missing.
    pub(crate) fn completed(&self) -> (r: Option<StoreRequest>)
        ensures
            match (self.cache_body, self.cache_req_header, self.cache_resp_header) {
                (Some(chunks), Some(req), Some(resp)) => r matches Some(s) && {
                    &&& buffer::contents(s.body) == buffer::concatenated(chunks@)
                    &&& headers::same_request(s.req_header, req)
                    &&& is_stored_header(s.resp_header, resp)
                },
                _ => r is None,
            },
    {
        proof {
            headers::lemma_own_names();
        }
        match (&self.cache_body, &self.cache_req_header, &self.cache_resp_header) {
            (Some(chunks), Some(req), Some(resp)) => {
                let mut resp_header = headers::response_clone(resp);
                headers::response_remove(&mut resp_header, "content-encoding");
                Some(
                    StoreRequest {
                        req_header: headers::request_clone(req),
                        resp_header,
                        body: buffer::concat(chunks),
                    },
                )
            },
            _ => None,
        }
    }
}

/// The chunks of a context, none where it keeps none.
pub open spec fn chunks_of(ctx: StryvoContext) -> Seq<Bytes> {
    match ctx.cache_body {
        Some(chunks) => chunks@,
        None => Seq::empty(),
    }
}

/// The bytes of a piece of a body, none where there is none.
pub open spec fn chunk_bytes(data: Option<Bytes>) -> Seq<u8> {
    match data {
        Some(d) => buffer::contents(d),
        None => Seq::empty(),
    }
}

/// The body that a context has collected, with one more piece.
pub open spec fn body_with(ctx: StryvoContext, data: Option<Bytes>) -> Seq<u8> {
    buffer::concatenated(chunks_of(ctx)) + chunk_bytes(data)
}

/// A response is complete, and is to be stored.
pub open spec fn completes(ctx: StryvoContext, eof: bool) -> bool {
    &&& eof
    &&& ctx.should_cache_response
    &&& ctx.cache_body is Some
    &&& ctx.cache_req_header is Some
    &&& ctx.cache_resp_header is Some
}

/// The request under which a response is stored is the one that the context keeps.
pub open spec fn stores_for(s: StoreRequest, ctx: StryvoContext) -> bool {
    &&& ctx.cache_req_header matches Some(req) && headers::same_request(s.req_header, req)
    &&& ctx.cache_resp_header matches Some(resp) && is_stored_header(s.resp_header, resp)
}

/// What a service sends of a piece of a body: the piece in the encoding of the response.
pub open spec fn sends_piece(ctx: StryvoContext, data: Option<Bytes>, sent: Option<Bytes>) -> bool {
    match data {
        Some(d) => sent matches Some(out) && sends_chunk(
            buffer::contents(d),
            ctx.compression_encoding,
            buffer::contents(out),
        ),
        None => sent is None,
    }
}

/// The response is handed out to be stored, with all that was collected and one more piece.
pub open spec fn hands_out(
    ctx: StryvoContext,
    data: Option<Bytes>,
    store: Option<StoreRequest>,
) -> bool {
    store matches Some(s) && buffer::contents(s.body) == body_with(ctx, data) && stores_for(s, ctx)
}

/// Nothing is to be stored any more.
pub open spec fn nothing_kept(ctx: StryvoContext) -> bool {
    &&& !ctx.should_cache_response
    &&& ctx.cache_req_header is None
    &&& ctx.cache_resp_header is None
    &&& ctx.cache_body is None
}

/// A piece is kept where the response is to be stored, and nothing else changes.
pub open spec fn keeps_piece(
    before: StryvoContext,
    after: StryvoContext,
    data: Option<Bytes>,
) -> bool {
    &&& after.should_cache_response == before.should_cache_response
    &&& after.cache_req_header == before.cache_req_header
    &&& after.cache_resp_header == before.cache_resp_header
    &&& after.cache_body is Some == before.cache_body is Some
    &&& if before.should_cache_response && before.cache_body is Some {
        with_chunk(chunks_of(before), chunks_of(after), chunk_bytes(data))
    } else {
        chunks_of(after) == chunks_of(before)
    }
}

/// What a service makes of a piece of a response body: what it sends, what it hands out to be
/// stored, and its state afterwards.
pub open spec fn filters_body(
    before: StryvoContext,
    after: StryvoContext,
    data: Option<Bytes>,
    eof: bool,
    r: (Option<Bytes>, Option<StoreRequest>),
) -> bool {
    &&& after.same_course(before)
    &&& sends_piece(before, data, r.0)
    &&& if completes(before, eof) && (chunks_of(before).len() > 0 || chunk_bytes(data).len() > 0) {
        hands_out(before, data, r.1)
    } else {
        r.1 is None
    }
    &&& if eof && before.should_cache_response {
        nothing_kept(after)
    } else {
        keeps_piece(before, after, data)
    }
}

impl StryvoContext {
    /// Takes a piece of the response body: keeps it where the response is to be stored, compresses
    /// it for the client, and at the end hands out what is to be stored.
    pub fn filter_body(&mut self, data: Option<Bytes>, eof: bool) -> (r: (
        Option<Bytes>,
        Option<StoreRequest>,
    ))
        ensures
            filters_body(*old(self), *final(self), data, eof, r),
    {
        if let Some(d) = &data {
            self.collect(d);
        }
        assert(buffer::concatenated(chunks_of(*self)) == (if old(self).should_cache_response
            && old(self).cache_body is Some {
            body_with(*old(self), data)
        } else {
            buffer::concatenated(chunks_of(*old(self)))
        }));
        let encoding = self.compression_encoding;
        let out = match data {
            Some(d) => Some(StryvoContext::compress_chunk(d, encoding)),
            None => None,
        };
        let mut store: Option<StoreRequest> = None;
        if eof && self.should_cache_response {
            let filled = match &self.cache_body {
                Some(chunks) => chunks.len() > 0,
                None => false,
            };
            if filled {
                store = self.completed();
            }
            self.reset_cache();
        }
        (out, store)
    }
}

/// A piece that is kept goes to the end of the body: what is stored in the end are all pieces, in
/// the order in which they came in.
pub proof fn law_kept_pieces_make_the_body(chunks: Seq<Bytes>, more: Seq<Bytes>, data: Seq<u8>)
    requires
        with_chunk(chunks, more, data),
    ensures
        buffer::concatenated(more) == buffer::concatenated(chunks) + data,
{
    if data.len() == 0 {
        assert(buffer::concatenated(chunks) + data =~= buffer::concatenated(chunks));
    }
}

/// The bytes of all pieces of a body, one behind the other.
pub open spec fn joined(pieces: Seq<Option<Bytes>>) -> Seq<u8>
    decreases pieces.len(),
{
    if pieces.len() == 0 {
        Seq::empty()
    } else {
        joined(pieces.drop_last()) + chunk_bytes(pieces.last())
    }
}

/// One more piece goes to the end.
pub proof fn lemma_joined_next(pieces: Seq<Option<Bytes>>, k: int)
    requires
        0 <= k < pieces.len(),
    ensures
        joined(pieces.take(k + 1)) == joined(pieces.take(k)) + chunk_bytes(pieces[k]),
{
    assert(pieces.take(k + 1).drop_last() =~= pieces.take(k));
}

/// A response is to be stored, and nothing of its body has come in.
pub open spec fn starts_collecting(ctx: StryvoContext) -> bool {
    &&& ctx.should_cache_response
    &&& ctx.cache_body is Some
    &&& chunks_of(ctx).len() == 0
    &&& ctx.cache_req_header is Some
    &&& ctx.cache_resp_header is Some
}

/// A run of calls for one response: each takes a piece, and the last one ends the body.
pub open spec fn body_run(
    states: Seq<StryvoContext>,
    pieces: Seq<Option<Bytes>>,
    results: Seq<(Option<Bytes>, Option<StoreRequest>)>,
) -> bool {
    &&& pieces.len() > 0
    &&& states.len() == pieces.len() + 1
    &&& results.len() == pieces.len()
    &&& forall|i: int|
        0 <= i < pieces.len() ==> filters_body(
            states[i],
            states[i + 1],
            #[trigger] pieces[i],
            i == pieces.len() - 1,
            results[i],
        )
}

/// The state before the piece at `k`: all pieces so far are there.
proof fn lemma_body_run(
    states: Seq<StryvoContext>,
    pieces: Seq<Option<Bytes>>,
    results: Seq<(Option<Bytes>, Option<StoreRequest>)>,
    k: int,
)
    requires
        body_run(states, pieces, results),
        starts_collecting(states[0]),
        0 <= k < pieces.len(),
    ensures
        states[k].same_course(states[0]),
        states[k].should_cache_response,
        states[k].cache_body is Some,
        states[k].cache_req_header == states[0].cache_req_header,
        states[k].cache_resp_header == states[0].cache_resp_header,
        buffer::concatenated(chunks_of(states[k])) == joined(pieces.take(k)),
        chunks_of(states[k]).len() == 0 <==> joined(pieces.take(k)).len() == 0,
        forall|i: int| 0 <= i < k ==> (#[trigger] results[i]).1 is None,
    decreases k,
{
    if k == 0 {
        assert(pieces.take(0) =~= Seq::<Option<Bytes>>::empty());
    } else {
        lemma_body_run(states, pieces, results, k - 1);
        assert(filters_body(
            states[k - 1],
            states[k - 1 + 1],
            pieces[k - 1],
            k - 1 == pieces.len() - 1,
            results[k - 1],
        ));
        lemma_joined_next(pieces, k - 1);
        law_kept_pieces_make_the_body(
            chunks_of(states[k - 1]),
            chunks_of(states[k]),
            chunk_bytes(pieces[k - 1]),
        );
    }
}

/// Over a whole response, what is handed out to be stored are all its pieces as they came in, in
/// their order, once and at the end, under the request that was kept; nothing is handed out where
/// they are all empty. Afterwards nothing more is to be stored. The client gets each piece in the
/// encoding of the response.
pub proof fn law_bodies_are_stored_once(
    states: Seq<StryvoContext>,
    pieces: Seq<Option<Bytes>>,
    results: Seq<(Option<Bytes>, Option<StoreRequest>)>,
)
    requires
        body_run(states, pieces, results),
        starts_collecting(states[0]),
    ensures
        forall|i: int| 0 <= i < pieces.len() - 1 ==> (#[trigger] results[i]).1 is None,
        if joined(pieces).len() > 0 {
            results.last().1 matches Some(s) && buffer::contents(s.body) == joined(pieces)
                && stores_for(s, states[0])
        } else {
            results.last().1 is None
        },
        nothing_kept(states.last()),
        forall|i: int|
            0 <= i < pieces.len() ==> sends_piece(states[0], #[trigger] pieces[i], results[i].0),
{
    let k = pieces.len() - 1;
    lemma_body_run(states, pieces, results, k);
    assert(filters_body(states[k], states[k + 1], pieces[k], true, results[k]));
    lemma_joined_next(pieces, k);
    assert(pieces.take(k + 1) =~= pieces);
    assert forall|i: int| 0 <= i < pieces.len() implies sends_piece(
        states[0],
        #[trigger] pieces[i],
        results[i].0,
    ) by {
        lemma_body_run(states, pieces, results, i);
        assert(filters_body(
            states[i],
            states[i + 1],
            pieces[i],
            i == pieces.len() - 1,
            results[i],
        ));
    }
}

} // verus!
