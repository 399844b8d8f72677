//! Laws on the cache: what a key stands for, what may be stored, how long it is found, and what has
//! to make room.
use crate::clock::Instant;
use crate::laws::texts;
use crate::number;
use crate::path;
use crate::proxy::cache;
use crate::proxy::cache::persistence;
use crate::proxy::cache::persistence::{EntryAction, EntryV};
use crate::proxy::cache::service;
use crate::proxy::cache::service::{
    BodyRead, CacheResultV, CacheSettingsV, Entries, LookupPlanV, MetadataV, StorePlanV,
};
use crate::proxy::compression;
use crate::proxy::compression::CompressionStrategy;
use crate::proxy::headers;
use crate::proxy::headers::Fields;
use crate::text;
use pingora_http::RequestHeader;
use vstd::prelude::*;
use vstd::string::*;
use vstd::utf8::*;

verus! {

/// A text holds a word somewhere, in capitals or small letters.
pub open spec fn mentions(t: Seq<char>, word: Seq<char>) -> bool {
    exists|a: Seq<char>, b: Seq<char>| text::lowered(t) == #[trigger] (a + word + b)
}

proof fn lemma_mentions(t: Seq<char>, word: Seq<char>)
    ensures
        text::has_infix(text::lowered(t), word) <==> mentions(t, word),
{
    texts::law_infix_is_there(text::lowered(t), word);
    if mentions(t, word) {
        let (a, b) = choose|a: Seq<char>, b: Seq<char>| text::lowered(t) == #[trigger] (a + word
            + b);
        texts::law_infix_is_found(a, word, b);
    }
}

/// Two requests with one method have the same key only where their targets are the same, path and
/// query, character by character.
pub proof fn law_keys_tell_targets_apart(m: Seq<char>, u: Seq<char>, v: Seq<char>)
    requires
        service::cache_key(m, u) == service::cache_key(m, v),
    ensures
        u == v,
{
    let head = (m + " "@).len() as int;
    assert(service::cache_key(m, u).skip(head) =~= u);
    assert(service::cache_key(m, v).skip(head) =~= v);
}

/// Two requests have the same key only where their methods and their targets are the same, as long
/// as no method holds a space.
pub proof fn law_keys_tell_requests_apart(
    m: Seq<char>,
    n: Seq<char>,
    u: Seq<char>,
    v: Seq<char>,
)
    requires
        !m.contains(' '),
        !n.contains(' '),
        service::cache_key(m, u) == service::cache_key(n, v),
    ensures
        m == n,
        u == v,
{
    reveal_strlit(" ");
    assert(service::cache_key(m, u) =~= m.push(' ') + u);
    assert(service::cache_key(n, v) =~= n.push(' ') + v);
    texts::law_before_a_character(m, ' ', u);
    texts::law_before_a_character(n, ' ', v);
    law_keys_tell_targets_apart(m, u, v);
}

/// A stored response is looked up with the request that it was stored for: requests with the same
/// key have the same target wherever they have the same method.
pub proof fn law_request_keys(a: RequestHeader, b: RequestHeader)
    requires
        service::request_key(a) == service::request_key(b),
        headers::request_method(a) == headers::request_method(b),
    ensures
        headers::request_uri(a) == headers::request_uri(b),
{
    law_keys_tell_targets_apart(
        headers::request_method(a),
        headers::request_uri(a),
        headers::request_uri(b),
    );
}

/// Requests whose methods hold no space have the same key exactly if they have the same method and
/// the same target.
pub proof fn law_request_keys_by_method_and_target(a: RequestHeader, b: RequestHeader)
    requires
        !headers::request_method(a).contains(' '),
        !headers::request_method(b).contains(' '),
    ensures
        service::request_key(a) == service::request_key(b) <==> headers::request_method(a)
            == headers::request_method(b) && headers::request_uri(a) == headers::request_uri(b),
{
    if service::request_key(a) == service::request_key(b) {
        law_keys_tell_requests_apart(
            headers::request_method(a),
            headers::request_method(b),
            headers::request_uri(a),
            headers::request_uri(b),
        );
    }
}

/// The bytes of a key start with method and target, and for requests that differ in nothing else
/// they are the same only where the targets are.
pub proof fn law_key_bytes_tell_targets_apart(m: Seq<char>, u: Seq<char>, v: Seq<char>, f: Fields)
    ensures
        cache::key_bytes(m, u, f) == cache::key_bytes(m, v, f) ==> u == v,
        exists|rest: Seq<u8>|
            cache::key_bytes(m, u, f) == #[trigger] (encode_utf8(m) + encode_utf8(" "@)
                + encode_utf8(u) + rest),
{
    let start = encode_utf8(m) + encode_utf8(" "@);
    let tail = key_tail(f);
    lemma_key_tail(m, u, f);
    lemma_key_tail(m, v, f);
    assert(start + encode_utf8(u) + tail == cache::key_bytes(m, u, f));
    if cache::key_bytes(m, u, f) == cache::key_bytes(m, v, f) {
        let x = cache::key_bytes(m, u, f);
        let y = cache::key_bytes(m, v, f);
        let i = start.len() as int;
        let n = tail.len() as int;
        assert(x.subrange(i, x.len() - n) =~= encode_utf8(u));
        assert(y.subrange(i, y.len() - n) =~= encode_utf8(v));
        encode_utf8_decode_utf8(u);
        encode_utf8_decode_utf8(v);
    }
}

/// What tells requests for the same target apart.
spec fn key_tail(f: Fields) -> Seq<u8> {
    let auth = match headers::first_value(f, "authorization"@) {
        Some(v) => encode_utf8("auth:"@) + v,
        None => Seq::empty(),
    };
    match headers::first_text(f, "vary"@) {
        Some(t) => auth + cache::all_varied_bytes(f, text::pieces(t, ',')),
        None => auth,
    }
}

proof fn lemma_key_tail(m: Seq<char>, u: Seq<char>, f: Fields)
    ensures
        cache::key_bytes(m, u, f) == encode_utf8(m) + encode_utf8(" "@) + encode_utf8(u)
            + key_tail(f),
{
    assert(cache::key_bytes(m, u, f) =~= encode_utf8(m) + encode_utf8(" "@) + encode_utf8(u)
        + key_tail(f));
}

/// Without a vary field, requests for one target have the same bytes only where they carry the same
/// authorization, and one that carries any never has those of one that carries none.
pub proof fn law_key_bytes_tell_authorizations_apart(
    m: Seq<char>,
    u: Seq<char>,
    f: Fields,
    g: Fields,
)
    requires
        headers::first_text(f, "vary"@) is None,
        headers::first_text(g, "vary"@) is None,
        cache::key_bytes(m, u, f) == cache::key_bytes(m, u, g),
    ensures
        headers::first_value(f, "authorization"@) == headers::first_value(g, "authorization"@),
{
    lemma_key_tail(m, u, f);
    lemma_key_tail(m, u, g);
    let head = encode_utf8(m) + encode_utf8(" "@) + encode_utf8(u);
    let label = encode_utf8("auth:"@);
    assert((head + key_tail(f)).skip(head.len() as int) =~= key_tail(f));
    assert((head + key_tail(g)).skip(head.len() as int) =~= key_tail(g));
    reveal_strlit("auth:");
    assert(is_ascii_chars("auth:"@));
    is_ascii_chars_encode_utf8("auth:"@);
    assert(label.len() == 5);
    match (headers::first_value(f, "authorization"@), headers::first_value(g, "authorization"@)) {
        (Some(a), Some(b)) => {
            assert((label + a).skip(5) =~= a);
            assert((label + b).skip(5) =~= b);
        },
        (Some(a), None) => {
            assert((label + a).len() > 0);
        },
        (None, Some(b)) => {
            assert((label + b).len() > 0);
        },
        (None, None) => {},
    }
}

/// A name in a vary field adds the name and the value of the field it names to the key, so that
/// requests which differ in that value alone have different keys.
pub proof fn law_varied_fields_are_part_of_the_key(f: Fields, g: Fields, name: Seq<char>)
    requires
        headers::valid_name(name),
        f.dom().contains(text::lowered(name)),
        g.dom().contains(text::lowered(name)),
        cache::varied_bytes(f, name) == cache::varied_bytes(g, name),
    ensures
        f[text::lowered(name)][0] == g[text::lowered(name)][0],
        cache::varied_bytes(f, name) == encode_utf8(name) + encode_utf8(":"@) + f[text::lowered(
            name,
        )][0],
{
    let head = encode_utf8(name) + encode_utf8(":"@);
    let a = f[text::lowered(name)][0];
    let b = g[text::lowered(name)][0];
    assert((head + a).skip(head.len() as int) =~= a);
    assert((head + b).skip(head.len() as int) =~= b);
}

/// The names of a vary field count one by one, each without the white space around it and in small
/// letters.
pub proof fn law_vary_names_count_one_by_one(f: Fields, names: Seq<Seq<char>>, name: Seq<char>)
    ensures
        cache::all_varied_bytes(f, names.push(name)) == cache::all_varied_bytes(f, names)
            + cache::varied_bytes(f, text::lowered(text::trimmed(name))),
        cache::all_varied_bytes(f, Seq::empty()) == Seq::<u8>::empty(),
{
    assert(names.push(name).drop_last() =~= names);
}

/// A response may go into the cache exactly if it answers a GET request and its cache-control field
/// mentions none of no-store, private, no-cache and max-age=0, anywhere in it and in any case.
pub proof fn law_what_may_be_cached(method: Seq<char>, f: Fields)
    ensures
        service::cacheable(method, f) <==> method == "GET"@ && match headers::first_text(
            f,
            "cache-control"@,
        ) {
            Some(t) => !mentions(t, "no-store"@) && !mentions(t, "private"@) && !mentions(
                t,
                "no-cache"@,
            ) && !mentions(t, "max-age=0"@),
            None => true,
        },
{
    if let Some(t) = headers::first_text(f, "cache-control"@) {
        lemma_mentions(t, "no-store"@);
        lemma_mentions(t, "private"@);
        lemma_mentions(t, "no-cache"@);
        lemma_mentions(t, "max-age=0"@);
    }
}

/// A response forbids to store it exactly if its cache-control field mentions no-store.
pub proof fn law_what_forbids_storing(f: Fields)
    ensures
        service::forbids_storing(f) <==> (headers::first_text(f, "cache-control"@) matches Some(t)
            && mentions(t, "no-store"@)),
{
    if let Some(t) = headers::first_text(f, "cache-control"@) {
        lemma_mentions(t, "no-store"@);
    }
}

/// A body is too large exactly if there is a limit and it has more bytes than that.
pub proof fn law_limit_on_bodies(s: CacheSettingsV, body: Seq<u8>, max: usize)
    ensures
        s.max_file_size == Some(max) ==> (service::too_large(s, body) <==> body.len() > max),
        s.max_file_size is None ==> !service::too_large(s, body),
{
}

/// The first value of a field is read as text, character by character, where it has only visible
/// ASCII characters, spaces and tabs; else it is not read.
pub proof fn law_values_as_text(f: Fields, name: Seq<char>, i: int)
    requires
        f.dom().contains(name),
    ensures
        match headers::first_text(f, name) {
            Some(t) => t.len() == f[name][0].len() && (0 <= i < t.len() ==> t[i] as int
                == f[name][0][i] as int && (32 <= f[name][0][i] <= 126 || f[name][0][i] == 9)),
            None => exists|j: int|
                0 <= j < f[name][0].len() && !(32 <= #[trigger] f[name][0][j] <= 126
                    || f[name][0][j] == 9),
        },
{
    let v = f[name][0];
    if headers::first_text(f, name) is None {
        let j = choose|j: int| 0 <= j < v.len() && !headers::visible_byte(#[trigger] v[j]);
        assert(!(32 <= v[j] <= 126 || v[j] == 9));
    } else if 0 <= i < v.len() {
        assert(headers::visible_byte(v[i]));
    }
}

/// A field that is not there has no text.
pub proof fn law_absent_fields_have_no_text(f: Fields, name: Seq<char>)
    requires
        !f.dom().contains(name),
    ensures
        headers::first_text(f, name) is None,
        headers::first_value(f, name) is None,
{
}

/// Fields are stored one for one under their names, a value as its text, or empty where it cannot be
/// read.
pub proof fn law_stored_fields(p: Seq<(Seq<char>, Seq<u8>)>, i: int)
    requires
        0 <= i < p.len(),
    ensures
        service::stored_pairs(p).len() == p.len(),
        service::stored_pairs(p)[i].0 == p[i].0,
        service::stored_pairs(p)[i].1 == (match headers::visible_text(p[i].1) {
            Some(t) => t,
            None => Seq::<char>::empty(),
        }),
{
}

/// An entry is found for as many whole seconds as it may live, and not any more once one more
/// second is over.
pub proof fn law_time_to_live(m: MetadataV, now: Instant)
    ensures
        m.expired(now) <==> now.nanos >= m.created_at.nanos + (m.ttl + 1) * 1_000_000_000,
{
    let d: int = now.nanos - m.created_at.nanos;
    if d >= 0 {
        let q: int = d / 1_000_000_000;
        assert(m.created_at.age(now) == q);
        assert(q > m.ttl <==> d >= (m.ttl + 1) * 1_000_000_000) by (nonlinear_arith)
            requires
                q == d / 1_000_000_000,
                d >= 0,
        ;
    }
}

/// Age is counted in whole seconds, from the one point in time to the other.
pub proof fn law_age_in_seconds(t: Instant, now: Instant)
    ensures
        now.nanos <= t.nanos ==> t.age(now) == 0,
        now.nanos >= t.nanos ==> t.age(now) * 1_000_000_000 <= now.nanos - t.nanos < (t.age(now)
            + 1) * 1_000_000_000,
{
}

/// A response that has been stored is not found any more once its time is over: its lookup is a
/// miss, its file is deleted, and it is forgotten.
pub proof fn law_stored_response_expires(
    before: Entries,
    after: Entries,
    evicted: Option<Seq<char>>,
    s: CacheSettingsV,
    key: Seq<char>,
    plan: StorePlanV,
    stored_at: Instant,
    now: Instant,
)
    requires
        service::stored(
            before,
            after,
            evicted,
            s.capacity,
            key,
            service::new_entry(plan, stored_at, s.ttl),
        ),
        now.nanos >= stored_at.nanos + (s.ttl + 1) * 1_000_000_000,
    ensures
        service::lookup_plan(after, s, key, now) matches LookupPlanV::Done(o) && o.result
            == CacheResultV::Miss && o.delete == Some(plan.body_path) && o.persist,
        service::lookup_entries(after, key, now) == after.remove(key),
{
    law_time_to_live(service::new_entry(plan, stored_at, s.ttl), now);
}

/// What is stored of a response: its fields, its status, when and for how long, and where its body
/// lies and how large it is there.
pub proof fn law_what_an_entry_holds(plan: StorePlanV, now: Instant, ttl: u64)
    ensures
        ({
            let m = service::new_entry(plan, now, ttl);
            &&& m.headers == plan.headers && m.status == plan.status
            &&& m.created_at == now && m.ttl == ttl
            &&& m.body_path == plan.body_path
            &&& plan.body.len() <= usize::MAX ==> m.body_size == plan.body.len()
        }),
{
}

/// A lookup comes to a hit only with an entry whose time is not over and whose file was read and
/// unpacked, and it is then answered with what was stored; in every other case it is a miss.
pub proof fn law_hits_and_misses(
    e: Entries,
    s: CacheSettingsV,
    key: Seq<char>,
    now: Instant,
    read: BodyRead,
)
    ensures
        !e.dom().contains(key) ==> service::lookup_plan(e, s, key, now) is CheckFile,
        e.dom().contains(key) && !e[key].expired(now) ==> service::lookup_plan(e, s, key, now)
            == LookupPlanV::Read(e[key]),
        e.dom().contains(key) && e[key].expired(now) ==> (service::lookup_plan(e, s, key, now)
            matches LookupPlanV::Done(o) && o.result == CacheResultV::Miss),
        match service::read_outcome(s.compression, e[key], read).result {
            CacheResultV::Hit { body, headers: fields, status } => {
                &&& read matches BodyRead::Bytes(v) && s.compression.unpacked(v@) == Ok::<
                    Seq<u8>,
                    Seq<char>,
                >(body)
                &&& fields == e[key].headers
                &&& status == e[key].status
                &&& service::read_entries(e, key, s.compression, read) == e
            },
            CacheResultV::Miss => {
                &&& !(read matches BodyRead::Bytes(v) && s.compression.unpacked(v@) is Ok)
                &&& service::read_entries(e, key, s.compression, read) == e.remove(key)
                &&& service::read_outcome(s.compression, e[key], read).persist
            },
        },
{
}

/// A lookup changes no entry but the one it looks for.
pub proof fn law_lookups_keep_other_entries(
    e: Entries,
    s: CacheSettingsV,
    key: Seq<char>,
    other: Seq<char>,
    now: Instant,
    read: BodyRead,
)
    requires
        other != key,
        e.dom().contains(other),
    ensures
        service::lookup_entries(e, key, now).dom().contains(other),
        service::lookup_entries(e, key, now)[other] == e[other],
        service::read_entries(e, key, s.compression, read).dom().contains(other),
        service::read_entries(e, key, s.compression, read)[other] == e[other],
{
}

/// An entry makes room only where the cache is full and the key is new; then exactly one does.
pub proof fn law_eviction(
    before: Entries,
    after: Entries,
    evicted: Option<Seq<char>>,
    capacity: usize,
    key: Seq<char>,
    entry: MetadataV,
)
    requires
        before.dom().finite(),
        service::stored(before, after, evicted, capacity, key, entry),
    ensures
        after.dom().contains(key) && after[key] == entry,
        before.dom().contains(key) || before.dom().len() < capacity ==> evicted is None && after
            == before.insert(key, entry),
        !before.dom().contains(key) && before.dom().len() >= capacity && before.dom().len() > 0
            ==> evicted is Some && after.dom().len() == before.dom().len(),
{
    if service::must_evict(before, capacity, key) {
        let k = choose|k: Seq<char>| #[trigger]
            service::oldest(before, k) && after == before.remove(k).insert(key, entry) && evicted
                == Some(before[k].body_path);
        assert(before.remove(k).insert(key, entry).dom() =~= before.dom().remove(k).insert(key));
    }
}

/// Bodies go to disk as they are, but for a cache that packs everything, which packs them with gzip
/// at level six; reading them back undoes it.
pub proof fn law_bodies_on_disk(s: CacheSettingsV, f: Fields, data: Seq<u8>, z: Seq<u8>)
    ensures
        s.compression != CompressionStrategy::All ==> service::body_on_disk(s, f, data) == Ok::<
            Seq<u8>,
            Seq<char>,
        >(data) && s.compression.unpacked(data) == Ok::<Seq<u8>, Seq<char>>(data),
        s.compression == CompressionStrategy::All ==> (service::body_on_disk(s, f, data) == Ok::<
            Seq<u8>,
            Seq<char>,
        >(z) <==> compression::gzip_of(data, 6) == Ok::<Seq<u8>, compression::CodecFaultV>(z)),
        s.compression == CompressionStrategy::All ==> (compression::gunzip_of(z) == Ok::<
            Seq<u8>,
            Seq<char>,
        >(data) <==> s.compression.unpacked(z) == Ok::<Seq<u8>, Seq<char>>(data)),
{
}

/// The body of a key lies below the directory of the cache, in the directory of the shard that its
/// checksum falls into, under the checksum as a hexadecimal number. Of the number of shards the
/// lowest 32 bits count.
pub proof fn law_where_bodies_lie(s: CacheSettingsV, key: Seq<char>)
    ensures
        ({
            let hash = persistence::crc32_of(encode_utf8(key)) as nat;
            let shards = s.shard_count as nat % 0x1_0000_0000;
            let dir = path::joined(
                s.cache_dir,
                "shard-"@ + number::decimal_two(hash % shards),
            );
            &&& s.file_of(key) == path::joined(dir, number::hexadecimal(hash) + ".bin"@)
            &&& s.temp_of(key) == path::joined(dir, number::hexadecimal(hash) + ".tmp"@)
        }),
{
}

/// An entry is loaded exactly if its time is not over and its file is there; the file of one whose
/// time is over is deleted, where there is one.
pub proof fn law_what_is_loaded(e: Entries, entry: EntryV, present: bool, now: Instant)
    ensures
        present && !entry.metadata.expired(now) ==> persistence::load_action(
            entry.metadata,
            present,
            now,
        ) == EntryAction::Keep && persistence::loaded(e, entry, present, now) == e.insert(
            entry.key,
            entry.metadata,
        ),
        present && entry.metadata.expired(now) ==> persistence::load_action(
            entry.metadata,
            present,
            now,
        ) == EntryAction::DeleteFile,
        !present ==> persistence::load_action(entry.metadata, present, now) == EntryAction::Forget,
        !present || entry.metadata.expired(now) ==> persistence::loaded(e, entry, present, now)
            == e,
{
}

/// Cleaning keeps an entry whose time is not over and whose file is there. It deletes a file exactly
/// if the time of its entry is over and nothing uses the file.
pub proof fn law_what_is_cleaned(m: MetadataV, present: bool, used: bool, now: Instant)
    ensures
        persistence::clean_action(m, present, used, now) == EntryAction::Keep <==> present
            && !m.expired(now),
        persistence::clean_action(m, present, used, now) == EntryAction::DeleteFile <==> present
            && m.expired(now) && !used,
{
}

/// Where one shard is cleaned, entries of the others stay.
pub proof fn law_other_shards_stay(
    entry: EntryV,
    present: bool,
    used: Seq<Seq<char>>,
    id: usize,
    shard_count: usize,
    now: Instant,
)
    requires
        persistence::crc32_of(encode_utf8(entry.key)) as nat % (shard_count as nat
            % 0x1_0000_0000) != id,
    ensures
        persistence::cleaned_entry(entry, present, used, Some(id), shard_count, now)
            == EntryAction::Keep,
{
}

/// Where all shards are cleaned, or the one that an entry belongs to, it is kept exactly if its time
/// is not over and its file is there; its file is deleted exactly if its time is over and no path in
/// use is the same.
pub proof fn law_entries_that_are_cleaned(
    entry: EntryV,
    present: bool,
    used: Seq<Seq<char>>,
    shard: Option<usize>,
    shard_count: usize,
    now: Instant,
)
    requires
        shard matches Some(id) ==> persistence::crc32_of(encode_utf8(entry.key)) as nat % (
        shard_count as nat % 0x1_0000_0000) == id,
    ensures
        ({
            let a = persistence::cleaned_entry(entry, present, used, shard, shard_count, now);
            &&& a == EntryAction::Keep <==> present && !entry.metadata.expired(now)
            &&& a == EntryAction::DeleteFile <==> present && entry.metadata.expired(now) && (
            forall|i: int|
                0 <= i < used.len() ==> !path::same_path(
                    #[trigger] used[i],
                    entry.metadata.body_path,
                ))
        }),
{
}

/// Of the files in the directory of a shard, those are left over that hold a body no entry uses, and
/// what is still being written where that is asked for; they are listed once each, in their order.
pub proof fn law_left_over_files(files: Seq<Seq<char>>, used: Seq<Seq<char>>, temps: bool)
    ensures
        persistence::left_over(files, used, temps) == files.filter(
            |p: Seq<char>|
                {
                    ||| path::extension(p) == Some("bin"@) && !exists|i: int|
                        0 <= i < used.len() && path::same_path(#[trigger] used[i], p)
                    ||| temps && path::extension(p) == Some("tmp"@)
                },
        ),
    decreases files.len(),
{
    reveal(Seq::filter);
    if files.len() > 0 {
        law_left_over_files(files.drop_last(), used, temps);
    }
}

/// Only the entries whose time is not over are written to disk.
pub proof fn law_what_is_written(e: Entries, now: Instant, key: Seq<char>)
    ensures
        persistence::live(e, now).dom().contains(key) <==> e.dom().contains(key)
            && !e[key].expired(now),
        persistence::live(e, now).dom().contains(key) ==> persistence::live(e, now)[key] == e[key],
{
}

} // verus!
