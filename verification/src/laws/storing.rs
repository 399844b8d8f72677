//! Laws on what is collected of a response and stored, and on what is kept on disk.
use crate::clock;
use crate::clock::Instant;
use crate::laws::answers;
use crate::laws::numbers;
use crate::number;
use crate::proxy::buffer;
use crate::proxy::cache;
use crate::proxy::cache::persistence;
use crate::proxy::cache::persistence::{EntryV, MetadataStep};
use crate::proxy::cache::service;
use crate::proxy::cache::service::{
    CacheResult, CacheResultV, CacheSettingsV, Entries, MetadataV, StorePlanV, StoreStep,
};
use crate::proxy::compression;
use crate::proxy::compression::{CodecFaultV, CompressionEncoding, CompressionStrategy};
use crate::proxy::context;
use crate::proxy::context::{StoreRequest, StryvoContext};
use crate::proxy::headers;
use crate::proxy::headers::Fields;
use crate::proxy::pipeline;
use crate::proxy::pipeline::CachedResponse;
use crate::text;
use bytes::Bytes;
use pingora_http::{RequestHeader, ResponseHeader};
use vstd::bytes::*;
use vstd::prelude::*;
use vstd::string::*;
use vstd::utf8::*;

verus! {

/// A mebibyte may be collected of a response, unless the environment gives a number of bytes.
pub proof fn law_limit_on_collected_bodies(t: Seq<char>, n: nat)
    ensures
        cache::max_size_of(None) == 1024 * 1024,
        n <= usize::MAX ==> cache::max_size_of(Some(number::decimal(n))) == n,
        number::unsigned_meaning(t, usize::MAX as int) is None ==> cache::max_size_of(Some(t))
            == 1024 * 1024,
{
    numbers::law_numbers_are_read_back(n, 0, usize::MAX as int);
}

/// The caching service files responses under a checksum of what makes the key: requests are filed
/// alike exactly if the checksums are.
pub proof fn law_checksum_keys(a: RequestHeader, b: RequestHeader)
    ensures
        ({
            let sum = |r: RequestHeader|
                persistence::crc32_of(
                    cache::key_bytes(
                        headers::request_method(r),
                        headers::request_uri(r),
                        headers::request_fields(r),
                    ),
                );
            &&& cache::checksum_key(a) == cache::checksum_key(b) <==> sum(a) == sum(b)
            &&& cache::checksum_key(a) == number::hexadecimal(sum(a) as nat)
        }),
{
    let x = persistence::crc32_of(
        cache::key_bytes(
            headers::request_method(a),
            headers::request_uri(a),
            headers::request_fields(a),
        ),
    ) as nat;
    let y = persistence::crc32_of(
        cache::key_bytes(
            headers::request_method(b),
            headers::request_uri(b),
            headers::request_fields(b),
        ),
    ) as nat;
    if number::hexadecimal(x) == number::hexadecimal(y) {
        number::lemma_hexadecimal_injective(x, y);
    }
}

/// What makes a key is the method and the target, then the authorization where there is one, and
/// then each field that is named by a vary field.
pub proof fn law_what_makes_a_key(m: Seq<char>, u: Seq<char>, f: Fields)
    ensures
        ({
            let auth = match headers::first_value(f, "authorization"@) {
                Some(v) => encode_utf8("auth:"@) + v,
                None => Seq::empty(),
            };
            let varied = match headers::first_text(f, "vary"@) {
                Some(t) => cache::all_varied_bytes(f, text::pieces(t, ',')),
                None => Seq::empty(),
            };
            cache::key_bytes(m, u, f) == encode_utf8(m) + encode_utf8(" "@) + encode_utf8(u) + auth
                + varied
        }),
{
    let start = encode_utf8(m) + encode_utf8(" "@) + encode_utf8(u);
    if let Some(v) = headers::first_value(f, "authorization"@) {
        assert(start + encode_utf8("auth:"@) + v =~= start + (encode_utf8("auth:"@) + v));
        assert(start + (encode_utf8("auth:"@) + v) + Seq::<u8>::empty() =~= start + (encode_utf8(
            "auth:"@,
        ) + v));
    } else {
        assert(start + Seq::<u8>::empty() =~= start);
        assert(start + Seq::<u8>::empty() + Seq::<u8>::empty() =~= start);
    }
}

/// The entry that makes room for another is one that no other is older than.
pub proof fn law_the_oldest_entry_goes(
    before: Entries,
    after: Entries,
    evicted: Option<Seq<char>>,
    capacity: usize,
    key: Seq<char>,
    entry: MetadataV,
    gone: Seq<char>,
    other: Seq<char>,
)
    requires
        service::stored(before, after, evicted, capacity, key, entry),
        before.dom().contains(gone),
        !after.dom().contains(gone),
        before.dom().contains(other),
    ensures
        before[gone].created_at.nanos <= before[other].created_at.nanos,
        evicted == Some(before[gone].body_path),
        other != gone ==> after.dom().contains(other),
{
}

/// What a plan to store a response holds: the key of the request, the fields of the response in their
/// order, its status, its body as it goes to disk, and where that lies.
pub proof fn law_what_a_plan_holds(
    plan: StorePlanV,
    s: CacheSettingsV,
    key: Seq<char>,
    resp: ResponseHeader,
    data: Seq<u8>,
)
    requires
        service::is_plan_of(plan, s, key, resp, data),
    ensures
        plan.key == key,
        plan.status == headers::response_status(resp),
        plan.headers.len() == headers::response_list(resp).len(),
        plan.body_path == s.file_of(key),
        plan.temp_path == s.temp_of(key),
        s.compression == CompressionStrategy::All ==> compression::gunzip_of(plan.body) == Ok::<
            Seq<u8>,
            Seq<char>,
        >(data),
        s.compression != CompressionStrategy::All ==> plan.body == data,
{
}

/// A piece that would make a body too long for the cache gives up storing it; the client gets the
/// piece all the same.
pub proof fn law_bodies_over_the_limit(
    before: StryvoContext,
    after: StryvoContext,
    data: Bytes,
    eof: bool,
    max_size: usize,
    r: (Option<Bytes>, Option<StoreRequest>),
)
    requires
        cache::filters_limited(before, after, Some(data), eof, max_size, r),
        before.should_cache_response,
        before.cache_body matches Some(chunks) && buffer::concatenated(chunks@).len()
            + buffer::contents(data).len() > max_size,
        buffer::contents(data).len() > 0,
    ensures
        r.0 is Some && r.1 is None,
        !after.should_cache_response && after.cache_body is None,
{
}

/// Of a response that is not to be stored, nothing is.
pub proof fn law_other_bodies_are_not_stored(
    before: StryvoContext,
    after: StryvoContext,
    data: Option<Bytes>,
    eof: bool,
    max_size: usize,
    r: (Option<Bytes>, Option<StoreRequest>),
)
    requires
        !before.should_cache_response,
    ensures
        context::filters_body(before, after, data, eof, r) ==> r.1 is None
            && !after.should_cache_response,
        cache::filters_limited(before, after, data, eof, max_size, r) ==> r.1 is None
            && !after.should_cache_response,
{
}

/// A piece of a response goes to the client as it is where no encoding was chosen; else it is what
/// the encoding makes of it, or the piece itself where that fails.
pub proof fn law_pieces_for_clients(
    ctx: StryvoContext,
    data: Bytes,
    sent: Option<Bytes>,
)
    requires
        context::sends_piece(ctx, Some(data), sent),
    ensures
        sent matches Some(out) && {
            let d = buffer::contents(data);
            let o = buffer::contents(out);
            match ctx.compression_encoding {
                None => o == d,
                Some(e) => o == d || compression::encodes(d, e, Ok(o)),
            }
        },
        context::sends_piece(ctx, None, None),
{
    if let Some(e) = ctx.compression_encoding {
        let d = buffer::contents(data);
        let o = buffer::contents(sent->0);
        if d.len() > 0 {
            let z = choose|z: Result<Seq<u8>, Seq<char>>| #[trigger]
                compression::encodes(d, e, z) && o == context::settled_chunk(d, z);
            assert(compression::encodes(d, e, z));
        }
    }
}

/// Pieces are put together one behind the other.
pub proof fn law_pieces_in_order(chunks: Seq<Bytes>, more: Bytes)
    ensures
        buffer::concatenated(Seq::empty()) == Seq::<u8>::empty(),
        buffer::concatenated(chunks.push(more)) == buffer::concatenated(chunks) + buffer::contents(
            more,
        ),
        cache::total_len(chunks.push(more)) == cache::total_len(chunks) + buffer::contents(
            more,
        ).len(),
{
    assert(chunks.push(more).drop_last() =~= chunks);
}

/// The request that a response is stored under and the header that is stored are those that were
/// kept for it.
pub proof fn law_what_is_handed_out(s: StoreRequest, ctx: StryvoContext)
    requires
        context::stores_for(s, ctx),
    ensures
        ctx.cache_req_header matches Some(req) && headers::request_method(s.req_header)
            == headers::request_method(req) && headers::request_uri(s.req_header)
            == headers::request_uri(req) && headers::request_fields(s.req_header)
            == headers::request_fields(req),
        ctx.cache_resp_header matches Some(resp) && headers::response_status(s.resp_header)
            == headers::response_status(resp) && headers::response_fields(s.resp_header)
            == headers::response_fields(resp).remove("content-encoding"@),
{
}

/// What a lookup is called in the headers and in the log.
pub proof fn law_names_of_lookups(
    body: Bytes,
    fields: Vec<(String, String)>,
    status: u16,
    e: String,
)
    ensures
        pipeline::status_text(
            Ok(CacheResult::Hit { body, headers: fields, status }),
        ) == "HIT"@,
        pipeline::status_text(Ok(CacheResult::Miss)) == "MISS"@,
        pipeline::status_text(Err(e)) == "ERROR"@,
{
}

/// What is said where a body cannot be packed or unpacked.
pub proof fn law_messages_of_codecs(data: Seq<u8>, e: Seq<char>)
    ensures
        data.len() >= 150 && compression::gzip_of(data, 6) == Err::<Seq<u8>, CodecFaultV>(
            CodecFaultV::Write(e),
        ) ==> compression::encodes(
            data,
            CompressionEncoding::Gzip,
            Err("Gzip compression error: "@ + e),
        ),
        data.len() >= 150 && compression::gzip_of(data, 6) == Err::<Seq<u8>, CodecFaultV>(
            CodecFaultV::Finish(e),
        ) ==> compression::encodes(
            data,
            CompressionEncoding::Gzip,
            Err("Gzip compression finish error: "@ + e),
        ),
        data.len() >= 150 && compression::zstd_of(data, 3) == Err::<Seq<u8>, CodecFaultV>(
            CodecFaultV::Create(e),
        ) ==> compression::encodes(
            data,
            CompressionEncoding::Zstd,
            Err("Zstd encoder creation error: "@ + e),
        ),
        data.len() >= 150 && compression::zstd_of(data, 3) == Err::<Seq<u8>, CodecFaultV>(
            CodecFaultV::Write(e),
        ) ==> compression::encodes(
            data,
            CompressionEncoding::Zstd,
            Err("Zstd compression error: "@ + e),
        ),
        data.len() >= 150 && compression::zstd_of(data, 3) == Err::<Seq<u8>, CodecFaultV>(
            CodecFaultV::Finish(e),
        ) ==> compression::encodes(
            data,
            CompressionEncoding::Zstd,
            Err("Zstd compression finish error: "@ + e),
        ),
        data.len() >= 150 ==> (compression::encodes(data, CompressionEncoding::Brotli, Err(e))
            <==> e == "Brotli compression failed"@ && compression::brotli_makes(data, 5, 22, None)),
        compression::gunzip_of(data) == Err::<Seq<u8>, Seq<char>>(e)
            ==> CompressionStrategy::All.unpacked(data) == Err::<Seq<u8>, Seq<char>>(
            "Gzip decompression error: "@ + e,
        ),
{
}

/// What is said where a step of storing fails on disk.
pub proof fn law_messages_of_steps()
    ensures
        StoreStep::CacheDir.label() == "Failed to create cache directory: "@,
        StoreStep::ShardDir.label() == "Failed to create shard directory: "@,
        StoreStep::WriteFile.label() == "Failed to write cache file: "@,
        StoreStep::RenameFile.label() == "Failed to rename cache file: "@,
        MetadataStep::Dirs.label() == "Failed to initialize directory structure: "@,
        MetadataStep::Encode.label() == "Failed to serialize metadata: "@,
        MetadataStep::WriteFile.label() == "Failed to write metadata file: "@,
        MetadataStep::RenameFile.label() == "Failed to rename metadata file: "@,
        MetadataStep::ReadFile.label() == "Failed to read metadata file: "@,
        MetadataStep::Decode.label() == "Failed to deserialize metadata: "@,
{
}

/// Cleaning looks at every entry and keeps, in their order, those that are to be kept.
pub proof fn law_entries_that_are_kept(
    list: Seq<(EntryV, bool)>,
    used: Seq<Seq<char>>,
    shard: Option<usize>,
    shard_count: usize,
    now: Instant,
    entry: EntryV,
    present: bool,
)
    ensures
        persistence::kept(Seq::empty(), used, shard, shard_count, now) == Seq::<EntryV>::empty(),
        shard is None && present && !entry.metadata.expired(now) ==> persistence::kept(
            list.push((entry, present)),
            used,
            shard,
            shard_count,
            now,
        ) == persistence::kept(list, used, shard, shard_count, now).push(entry),
        shard is None && !(present && !entry.metadata.expired(now)) ==> persistence::kept(
            list.push((entry, present)),
            used,
            shard,
            shard_count,
            now,
        ) == persistence::kept(list, used, shard, shard_count, now),
        shard matches Some(id) ==> persistence::crc32_of(encode_utf8(entry.key)) as nat
            % persistence::shards(shard_count) == id ==> persistence::kept(
            list.push((entry, present)),
            used,
            shard,
            shard_count,
            now,
        ) == (if present && !entry.metadata.expired(now) {
            persistence::kept(list, used, shard, shard_count, now).push(entry)
        } else {
            persistence::kept(list, used, shard, shard_count, now)
        }),
{
    assert(list.push((entry, present)).drop_last() =~= list);
}

/// Entries are loaded one by one, in their order; a later one under the same key takes the place of
/// an earlier one.
pub proof fn law_entries_are_loaded_in_turn(
    list: Seq<EntryV>,
    entry: EntryV,
    present: spec_fn(Seq<char>) -> bool,
    now: Instant,
    e: Entries,
)
    ensures
        persistence::all_loaded(Seq::empty(), present, now, e) == e,
        present(entry.metadata.body_path) && !entry.metadata.expired(now)
            ==> persistence::all_loaded(list.push(entry), present, now, e)
            == persistence::all_loaded(list, present, now, e).insert(entry.key, entry.metadata),
        !present(entry.metadata.body_path) || entry.metadata.expired(now)
            ==> persistence::all_loaded(list.push(entry), present, now, e)
            == persistence::all_loaded(list, present, now, e),
{
    assert(list.push(entry).drop_last() =~= list);
}

/// What is written to disk lists every entry once; the files of the entries whose time is over, and
/// no others, are listed to be deleted.
pub proof fn law_lists_on_disk(
    list: Seq<EntryV>,
    files: Seq<Seq<char>>,
    e: Entries,
    now: Instant,
    key: Seq<char>,
    i: int,
)
    ensures
        persistence::lists_entries(list, e) && e.dom().contains(key) ==> exists|j: int|
            0 <= j < list.len() && #[trigger] list[j] == (EntryV { key, metadata: e[key] }),
        persistence::lists_entries(list, e) && 0 <= i < list.len() ==> e.dom().contains(
            list[i].key,
        ) && e[list[i].key] == list[i].metadata,
        persistence::lists_expired_files(files, e, now) && e.dom().contains(key)
            && e[key].expired(now) ==> files.contains(e[key].body_path),
        persistence::lists_expired_files(files, e, now) && 0 <= i < files.len() ==> exists|
            k: Seq<char>,
        |
            #[trigger] e.dom().contains(k) && e[k].expired(now) && e[k].body_path == files[i],
        persistence::lists_files(files, e) && e.dom().contains(key) ==> files.contains(
            e[key].body_path,
        ),
        persistence::lists_files(files, e) && 0 <= i < files.len() ==> exists|k: Seq<char>|
            #[trigger] e.dom().contains(k) && e[k].body_path == files[i],
        persistence::lists_entries(list, e) && 0 <= i < list.len() - 1 ==> list[i].key
            != list.last().key,
{
    if persistence::lists_entries(list, e) && e.dom().contains(key) {
        let j = choose|j: int| 0 <= j < list.len() && (#[trigger] list[j]).key == key;
        assert(list[j] == EntryV { key, metadata: e[key] });
    }
    if persistence::lists_expired_files(files, e, now) && 0 <= i < files.len() {
        assert(persistence::expired_file(e, now, files[i]));
    }
}

/// A lookup without an entry looks where the body of the key would lie.
pub proof fn law_lookups_without_an_entry(
    e: Entries,
    s: CacheSettingsV,
    key: Seq<char>,
    now: Instant,
)
    requires
        !e.dom().contains(key),
    ensures
        service::lookup_plan(e, s, key, now) == service::LookupPlanV::CheckFile(s.file_of(key)),
        service::lookup_entries(e, key, now) == e,
{
}

proof fn lemma_resent(stored: Seq<(Seq<char>, Seq<char>)>, f: Fields, name: Seq<char>)
    ensures
        pipeline::resent_fields(stored, f) matches Ok(g) ==> headers::values_at(g, name) == (
        if name == "content-encoding"@ || name == "content-length"@ {
            headers::values_at(f, name)
        } else {
            headers::values_at(f, name) + answers::values_stored(stored, name)
        }),
    decreases stored.len(),
{
    if stored.len() == 0 {
        assert(headers::values_at(f, name) + answers::values_stored(stored, name)
            =~= headers::values_at(f, name));
    } else {
        answers::lemma_values_front(stored, name);
        let rest = answers::values_stored(stored.skip(1), name);
        assert(Seq::<Seq<u8>>::empty() + rest =~= rest);
        if pipeline::not_resent(stored[0].0) {
            lemma_resent(stored.skip(1), f, name);
        } else if let Ok(h) = headers::append_result(f, stored[0].0, stored[0].1) {
            lemma_resent(stored.skip(1), h, name);
            let before = headers::values_at(f, name);
            let value = encode_utf8(stored[0].1);
            assert(before.push(value) + rest =~= before + (seq![value] + rest));
        }
    }
}

/// A hit that is sent as it was stored names no encoding and has the length of its body; one that is
/// sent in an encoding names that one alone. Both say what browsers may do with them.
pub proof fn law_fields_of_hits(
    status: u16,
    stored: Seq<(Seq<char>, Seq<char>)>,
    sent: Seq<u8>,
    encoding: CompressionEncoding,
    enabled: bool,
    ttl: Option<u64>,
)
    ensures
        pipeline::hit_answer(status, stored, sent, encoding, enabled, ttl) matches Ok(f) ==> {
            &&& 100 <= status <= 999
            &&& headers::values_at(f, "x-cache"@) == seq![encode_utf8("HIT"@)]
            &&& headers::values_at(f, "server"@) == seq![encode_utf8("Stryvo"@)]
            &&& headers::values_at(f, "content-encoding"@) == (if encoding
                == CompressionEncoding::Identity {
                Seq::empty()
            } else {
                seq![encode_utf8(encoding.name())]
            })
            &&& headers::values_at(f, "content-length"@) == (if sent.len() == 0 {
                Seq::empty()
            } else {
                seq![encode_utf8(number::decimal(sent.len()))]
            })
            &&& headers::values_at(f, "transfer-encoding"@) == (if encoding
                == CompressionEncoding::Identity {
                answers::values_stored(stored, "transfer-encoding"@)
            } else {
                seq![encode_utf8("chunked"@)]
            })
            &&& headers::values_at(f, "cache-control"@) == (if !enabled {
                seq![encode_utf8("no-store, no-cache, must-revalidate"@)]
            } else {
                match ttl {
                    Some(n) => seq![
                        encode_utf8("public, max-age="@ + number::decimal(n as nat)),
                    ],
                    None => Seq::empty(),
                }
            })
            &&& headers::values_at(f, "pragma"@) == (if enabled {
                answers::values_stored(stored, "pragma"@)
            } else {
                answers::values_stored(stored, "pragma"@).push(encode_utf8("no-cache"@))
            })
        },
{
    headers::lemma_own_names();
    reveal_strlit("HIT");
    headers::lemma_printable_value("HIT"@);
    reveal_strlit("x-cache");
    reveal_strlit("server");
    reveal_strlit("cache-control");
    reveal_strlit("pragma");
    reveal_strlit("content-encoding");
    reveal_strlit("content-length");
    reveal_strlit("transfer-encoding");
    assert("x-cache"@.len() == 7 && "server"@.len() == 6 && "cache-control"@.len() == 13);
    assert("pragma"@.len() == 6 && "content-encoding"@.len() == 16);
    assert("content-length"@.len() == 14 && "transfer-encoding"@.len() == 17);
    assert("server"@[0] != "pragma"@[0]);
    let none = Map::<Seq<char>, Seq<Seq<u8>>>::empty();
    lemma_resent(stored, none, "content-encoding"@);
    lemma_resent(stored, none, "content-length"@);
    lemma_resent(stored, none, "transfer-encoding"@);
    lemma_resent(stored, none, "pragma"@);
    let e = Seq::<Seq<u8>>::empty();
    assert(e + answers::values_stored(stored, "pragma"@) =~= answers::values_stored(
        stored,
        "pragma"@,
    ));
    assert(e + answers::values_stored(stored, "transfer-encoding"@) =~= answers::values_stored(
        stored,
        "transfer-encoding"@,
    ));
    assert(e.push(encode_utf8(number::decimal(sent.len()))) =~= seq![
        encode_utf8(number::decimal(sent.len())),
    ]);
}

/// A lookup without an entry is a miss; a file that lies there all the same is deleted, and what the
/// cache knows is then written.
pub proof fn law_files_without_an_entry(body_path: Seq<char>)
    ensures
        ({
            let there = service::absent_outcome(body_path, true);
            let absent = service::absent_outcome(body_path, false);
            &&& there.result == CacheResultV::Miss && absent.result == CacheResultV::Miss
            &&& there.delete == Some(body_path) && there.persist
            &&& absent.delete is None && !absent.persist
        }),
{
}

/// What the caching service notes of a lookup that does not answer the request.
pub proof fn law_noted_lookups(e: String)
    ensures
        cache::noted_status(Some(Ok(CacheResult::Miss))) == "MISS"@,
        cache::noted_status(Some(Err(e))) == "ERROR"@,
        cache::noted_status(None) == "BYPASS"@,
{
}

/// A response is to be stored after a miss; a hit or a fault makes none so.
pub proof fn law_storing_after_lookups(
    body: Bytes,
    fields: Vec<(String, String)>,
    status: u16,
    e: String,
    before: bool,
)
    ensures
        pipeline::stores_after(Ok(CacheResult::Miss), before),
        pipeline::stores_after(Ok(CacheResult::Hit { body, headers: fields, status }), before)
            == before,
        pipeline::stores_after(Err(e), before) == before,
{
}

/// What is kept of a response that is to be stored is its header as the backend sent it: its status
/// and all its fields in their order. The request is kept with it unless the cache was asked before.
/// Of any other response nothing is kept.
pub proof fn law_headers_that_are_kept(
    before: StryvoContext,
    after: StryvoContext,
    req: RequestHeader,
    resp: ResponseHeader,
    turns: bool,
)
    requires
        pipeline::keeps_headers(before, after, req, resp, turns),
    ensures
        turns ==> after.should_cache_response && (after.cache_resp_header matches Some(h)
            && headers::response_status(h) == headers::response_status(resp)
            && headers::response_fields(h) == headers::response_fields(resp)
            && headers::response_list(h) == headers::response_list(resp)),
        !turns ==> after.should_cache_response == before.should_cache_response
            && after.cache_resp_header == before.cache_resp_header && after.cache_req_header
            == before.cache_req_header,
        before.cache_status is Some ==> after.cache_req_header == before.cache_req_header,
        turns && before.cache_status is None ==> (after.cache_req_header matches Some(h)
            && headers::request_method(h) == headers::request_method(req) && headers::request_uri(h)
            == headers::request_uri(req) && headers::request_version(h) == headers::request_version(
            req,
        ) && headers::request_fields(h) == headers::request_fields(req)),
{
}

/// A point in time that is not ahead is stored as the whole seconds up to now; one that is ahead as
/// that much less. A stamp that is not ahead stands for the point that lies as far back as its time.
pub proof fn law_stamps(instant: Instant, now: Instant, since_epoch: u128, stamp: u64)
    ensures
        instant.nanos <= now.nanos ==> clock::stamp(instant, now, since_epoch) * 1_000_000_000
            <= since_epoch < (clock::stamp(instant, now, since_epoch) + 1) * 1_000_000_000,
        instant.nanos > now.nanos && since_epoch >= instant.nanos - now.nanos ==> clock::stamp(
            instant,
            now,
            since_epoch,
        ) * 1_000_000_000 <= since_epoch - (instant.nanos - now.nanos) < (clock::stamp(
            instant,
            now,
            since_epoch,
        ) + 1) * 1_000_000_000,
        since_epoch < stamp * 1_000_000_000 <==> clock::unstamped(stamp, now, since_epoch) is None,
        clock::unstamped(stamp, now, since_epoch) matches Some(n) ==> now.nanos - n == since_epoch
            - stamp * 1_000_000_000,
{
}

/// A piece that is filtered changes nothing of the course of its request: not the backend, nor what
/// the cache made of it, nor the encoding.
pub proof fn law_the_course_stays(
    before: StryvoContext,
    after: StryvoContext,
    data: Option<Bytes>,
    eof: bool,
    max_size: usize,
    r: (Option<Bytes>, Option<StoreRequest>),
)
    requires
        context::filters_body(before, after, data, eof, r) || cache::filters_limited(
            before,
            after,
            data,
            eof,
            max_size,
            r,
        ),
    ensures
        after.selector_buf == before.selector_buf,
        after.upstream_addr == before.upstream_addr,
        after.cache_status == before.cache_status,
        after.compression_encoding == before.compression_encoding,
        after.browser_cache_enabled == before.browser_cache_enabled,
        after.browser_cache_ttl == before.browser_cache_ttl,
        r.0 is Some == data is Some,
{
}

/// A response is collected where it is to be stored and nothing has come in yet; nothing is kept of
/// one once all that was kept for it is gone.
pub proof fn law_collecting(ctx: StryvoContext, data: Bytes)
    ensures
        context::starts_collecting(ctx) <==> ctx.should_cache_response && (ctx.cache_body matches Some(
            chunks,
        ) && chunks@.len() == 0) && ctx.cache_req_header is Some && ctx.cache_resp_header is Some,
        context::nothing_kept(ctx) <==> !ctx.should_cache_response && ctx.cache_body is None
            && ctx.cache_req_header is None && ctx.cache_resp_header is None,
        context::chunk_bytes(Some(data)) == buffer::contents(data),
        context::chunk_bytes(None) == Seq::<u8>::empty(),
        ctx.cache_body matches Some(chunks) ==> context::chunks_of(ctx) == chunks@,
        ctx.cache_body is None ==> context::chunks_of(ctx).len() == 0,
{
}

/// The time at which a request came in is read back from the first 16 bytes that were noted; where
/// there are fewer, it is not known.
pub proof fn law_noted_starts(buf: Seq<u8>)
    ensures
        buf.len() < 16 ==> context::start_of(buf) is None,
        buf.len() >= 16 ==> context::start_of(buf) == Some(
            spec_u128_from_le_bytes(buf.subrange(0, 16)),
        ),
{
    if buf.len() >= 16 {
        assert(buf.take(16) =~= buf.subrange(0, 16));
    }
}

/// The names under which fields were stored, whatever the case, have to fit into a header.
pub proof fn law_names_of_stored_fields(
    stored: Seq<(Seq<char>, Seq<char>)>,
    name: Seq<char>,
    more: int,
)
    ensures
        service::stored_names(stored).contains(name) <==> exists|i: int|
            0 <= i < stored.len() && text::lowered((#[trigger] stored[i]).0) == name,
        service::stored_fits(stored, more) <==> service::stored_names(stored).len() + more <= 6554,
    decreases stored.len(),
{
    if stored.len() > 0 {
        let front = stored.drop_last();
        law_names_of_stored_fields(front, name, more);
        if exists|i: int| 0 <= i < front.len() && text::lowered((#[trigger] front[i]).0) == name {
            let i = choose|i: int|
                0 <= i < front.len() && text::lowered((#[trigger] front[i]).0) == name;
            assert(stored[i] == front[i]);
        }
        if text::lowered(stored.last().0) == name {
            assert(stored[stored.len() - 1] == stored.last());
        }
        if exists|i: int| 0 <= i < stored.len() && text::lowered((#[trigger] stored[i]).0) == name {
            let i = choose|i: int|
                0 <= i < stored.len() && text::lowered((#[trigger] stored[i]).0) == name;
            if i < front.len() {
                assert(front[i] == stored[i]);
            }
        }
    }
}

/// The values that a list of fields has under a name are those of its pairs with that name, in their
/// order.
pub proof fn law_values_of_listed_fields(
    p: Seq<(Seq<char>, Seq<u8>)>,
    f: Fields,
    name: Seq<char>,
    value: Seq<u8>,
    other: Seq<char>,
)
    ensures
        headers::values_named(Seq::empty(), name) == Seq::<Seq<u8>>::empty(),
        headers::values_named(p.push((name, value)), name) == headers::values_named(p, name).push(
            value,
        ),
        other != name ==> headers::values_named(p.push((other, value)), name)
            == headers::values_named(p, name),
        service::lists_fields(p, f) ==> headers::values_named(p, name) == headers::values_at(
            f,
            name,
        ),
{
    assert(p.push((name, value)).drop_last() =~= p);
    assert(p.push((other, value)).drop_last() =~= p);
}

/// An answer to a hit has the status that was stored and what was stored under every name that the
/// proxy does not set itself. A client that names no encoding gets the body that was stored.
pub proof fn law_answers_to_hits(
    c: CachedResponse,
    status: u16,
    stored: Seq<(Seq<char>, Seq<char>)>,
    body: Seq<u8>,
    accept: Option<Seq<char>>,
    enabled: bool,
    ttl: Option<u64>,
    name: Seq<char>,
)
    requires
        pipeline::answers_hit(Ok(c), status, stored, body, accept, enabled, ttl),
    ensures
        headers::response_status(c.header) == status,
        ({
            let f = headers::response_fields(c.header);
            let sent = buffer::contents(c.body);
            &&& headers::values_at(f, "x-cache"@) == seq![encode_utf8("HIT"@)]
            &&& sent.len() > 0 ==> headers::values_at(f, "content-length"@) == seq![
                encode_utf8(number::decimal(sent.len())),
            ]
            &&& compression::preferred(accept) is None || body.len() < 150 ==> sent == body
            &&& compression::preferred(accept) is None ==> headers::values_at(
                f,
                "content-encoding"@,
            ).len() == 0
            &&& compression::preferred(accept) matches Some(e) ==> sent == body
                || compression::encodes(body, e, Ok(sent)) && headers::values_at(
                f,
                "content-encoding"@,
            ) == seq![encode_utf8(e.name())]
            &&& name != "content-encoding"@ && name != "content-length"@ && name
                != "transfer-encoding"@ && name != "server"@ && name != "x-cache"@ && name
                != "cache-control"@ && name != "pragma"@ ==> headers::values_at(f, name)
                == answers::values_stored(stored, name)
        }),
{
    let (sent, encoding) = choose|sent: Seq<u8>, encoding: CompressionEncoding| #[trigger]
        pipeline::sends_body(body, accept, sent, encoding) && pipeline::is_hit_answer(
            Ok(c),
            status,
            stored,
            sent,
            encoding,
            enabled,
            ttl,
        );
    law_fields_of_hits(status, stored, sent, encoding, enabled, ttl);
    if let Some(e) = compression::preferred(accept) {
        let z = choose|z: Result<Seq<u8>, Seq<char>>| #[trigger]
            compression::encodes(body, e, z) && (sent, encoding) == pipeline::settled_body(
                body,
                e,
                z,
            );
        assert(compression::encodes(body, e, z));
    }
    if name != "content-encoding"@ && name != "content-length"@ && name != "transfer-encoding"@
        && name != "server"@ && name != "x-cache"@ && name != "cache-control"@ && name
        != "pragma"@ {
        lemma_resent(stored, Map::empty(), name);
        headers::lemma_own_names();
        assert(Seq::<Seq<u8>>::empty() + answers::values_stored(stored, name)
            =~= answers::values_stored(stored, name));
    }
}

} // verus!
