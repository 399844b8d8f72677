//! Laws on header fields: what an answer out of the cache carries, what the proxy sets on responses,
//! and what filters make of them.
use crate::number;
use crate::proxy::cache;
use crate::proxy::cache::service;
use crate::proxy::compression;
use crate::proxy::compression::CompressionEncoding;
use crate::proxy::context;
use crate::proxy::header_utils;
use crate::proxy::headers;
use crate::proxy::headers::Fields;
use crate::proxy::modifiers;
use crate::proxy::pipeline;
use crate::proxy::pipeline::LimitStep;
use crate::proxy::rate_limiting;
use crate::proxy::rate_limiting::Outcome;
use crate::proxy::request_modifiers::ModifierV;
use crate::text;
use vstd::prelude::*;
use vstd::string::*;
use vstd::utf8::*;

verus! {

/// The values that stored fields have under a name, in their order: case does not count.
pub open spec fn values_stored(
    stored: Seq<(Seq<char>, Seq<char>)>,
    name: Seq<char>,
) -> Seq<Seq<u8>>
    decreases stored.len(),
{
    if stored.len() == 0 {
        Seq::empty()
    } else {
        let rest = values_stored(stored.drop_last(), name);
        if text::lowered(stored.last().0) == name {
            rest.push(encode_utf8(stored.last().1))
        } else {
            rest
        }
    }
}

pub proof fn lemma_values_front(stored: Seq<(Seq<char>, Seq<char>)>, name: Seq<char>)
    requires
        stored.len() > 0,
    ensures
        values_stored(stored, name) == (if text::lowered(stored[0].0) == name {
            seq![encode_utf8(stored[0].1)]
        } else {
            Seq::empty()
        }) + values_stored(stored.skip(1), name),
    decreases stored.len(),
{
    if stored.len() == 1 {
        assert(stored.skip(1) =~= Seq::<(Seq<char>, Seq<char>)>::empty());
        assert(stored.drop_last() =~= Seq::<(Seq<char>, Seq<char>)>::empty());
        assert(values_stored(stored, name) =~= (if text::lowered(stored[0].0) == name {
            seq![encode_utf8(stored[0].1)]
        } else {
            Seq::empty()
        }) + values_stored(stored.skip(1), name));
    } else {
        lemma_values_front(stored.drop_last(), name);
        assert(stored.drop_last().skip(1) =~= stored.skip(1).drop_last());
        assert(values_stored(stored, name) =~= (if text::lowered(stored[0].0) == name {
            seq![encode_utf8(stored[0].1)]
        } else {
            Seq::empty()
        }) + values_stored(stored.skip(1), name));
    }
}

proof fn lemma_restored(stored: Seq<(Seq<char>, Seq<char>)>, f: Fields, name: Seq<char>)
    requires
        name != "content-length"@,
        name != "transfer-encoding"@,
    ensures
        cache::restored_fields(stored, f) matches Ok(g) ==> headers::values_at(g, name)
            == headers::values_at(f, name) + values_stored(stored, name),
    decreases stored.len(),
{
    if stored.len() == 0 {
        assert(headers::values_at(f, name) + values_stored(stored, name) =~= headers::values_at(
            f,
            name,
        ));
    } else {
        lemma_values_front(stored, name);
        let rest = values_stored(stored.skip(1), name);
        if cache::dropped_field(stored[0].0) {
            lemma_restored(stored.skip(1), f, name);
            assert(Seq::<Seq<u8>>::empty() + rest =~= rest);
        } else if let Ok(h) = headers::append_result(f, stored[0].0, stored[0].1) {
            lemma_restored(stored.skip(1), h, name);
            let before = headers::values_at(f, name);
            let value = encode_utf8(stored[0].1);
            assert(before.push(value) + rest =~= before + (seq![value] + rest));
            assert(Seq::<Seq<u8>>::empty() + rest =~= rest);
        }
    }
}

/// Under every name but content-length, transfer-encoding, x-cache and content-encoding, an answer
/// out of the cache has exactly the values that were stored, in their order.
pub proof fn law_cached_answers_have_the_stored_fields(
    status: u16,
    stored: Seq<(Seq<char>, Seq<char>)>,
    body: Seq<u8>,
    accept: Option<Seq<char>>,
    f: Fields,
    sent: Seq<u8>,
    name: Seq<char>,
)
    requires
        cache::answers_cached(status, stored, body, accept, Ok((f, sent))),
        name != "content-length"@ && name != "transfer-encoding"@,
        name != "x-cache"@ && name != "content-encoding"@,
    ensures
        headers::values_at(f, name) == values_stored(stored, name),
{
    headers::lemma_own_names();
    if let Ok(g) = cache::restored_fields(stored, Map::empty()) {
        lemma_restored(stored, Map::empty(), name);
        assert(Seq::<Seq<u8>>::empty() + values_stored(stored, name) =~= values_stored(
            stored,
            name,
        ));
    }
}

/// An answer out of the cache is marked as a hit behind what was stored, says the length of its body
/// where that is not empty and nowhere else, and names an encoding only behind those that were
/// stored.
pub proof fn law_cached_answers_are_marked(
    status: u16,
    stored: Seq<(Seq<char>, Seq<char>)>,
    body: Seq<u8>,
    accept: Option<Seq<char>>,
    f: Fields,
    sent: Seq<u8>,
)
    requires
        cache::answers_cached(status, stored, body, accept, Ok((f, sent))),
    ensures
        headers::values_at(f, "x-cache"@) == values_stored(stored, "x-cache"@).push(
            encode_utf8("HIT"@),
        ),
        headers::values_at(f, "content-length"@) == (if sent.len() > 0 {
            seq![encode_utf8(number::decimal(sent.len()))]
        } else {
            Seq::empty()
        }),
        !f.dom().contains("transfer-encoding"@),
        compression::preferred(accept) is None ==> sent == body && headers::values_at(
            f,
            "content-encoding"@,
        ) == values_stored(stored, "content-encoding"@),
        compression::preferred(accept) matches Some(e) ==> body.len() < 150 ==> sent == body
            && headers::values_at(f, "content-encoding"@) == values_stored(
            stored,
            "content-encoding"@,
        ).push(encode_utf8(e.name())),
{
    headers::lemma_own_names();
    lemma_distinct_names();
    lemma_restored(stored, Map::empty(), "x-cache"@);
    lemma_restored(stored, Map::empty(), "content-encoding"@);
    lemma_dropped(stored, Map::empty(), "content-length"@);
    lemma_dropped(stored, Map::empty(), "transfer-encoding"@);
    let empty = Seq::<Seq<u8>>::empty();
    assert(empty + values_stored(stored, "x-cache"@) =~= values_stored(stored, "x-cache"@));
    assert(empty + values_stored(stored, "content-encoding"@) =~= values_stored(
        stored,
        "content-encoding"@,
    ));
    if let Ok(g) = cache::restored_fields(stored, Map::empty()) {
        let (h, s) = choose|h: Fields, s: Seq<u8>| #[trigger]
            cache::compresses_answer(
                headers::appended(g, "x-cache"@, "HIT"@),
                body,
                accept,
                h,
                s,
            ) && Ok::<(Fields, Seq<u8>), Seq<char>>((f, sent)) == Ok::<
                (Fields, Seq<u8>),
                Seq<char>,
            >((cache::with_length(h, s), s));
        assert(!h.dom().contains("content-length"@));
        assert(empty.push(encode_utf8(number::decimal(sent.len()))) =~= seq![
            encode_utf8(number::decimal(sent.len())),
        ]);
    }
}

proof fn lemma_dropped(stored: Seq<(Seq<char>, Seq<char>)>, f: Fields, name: Seq<char>)
    requires
        name == "content-length"@ || name == "transfer-encoding"@,
        !f.dom().contains(name),
    ensures
        cache::restored_fields(stored, f) matches Ok(g) ==> !g.dom().contains(name),
    decreases stored.len(),
{
    if stored.len() > 0 {
        if cache::dropped_field(stored[0].0) {
            lemma_dropped(stored.skip(1), f, name);
        } else if let Ok(h) = headers::append_result(f, stored[0].0, stored[0].1) {
            lemma_dropped(stored.skip(1), h, name);
        }
    }
}

/// The names that the proxy sets are all different.
proof fn lemma_distinct_names()
    ensures
        "x-cache"@ != "content-length"@ && "x-cache"@ != "content-encoding"@,
        "x-cache"@ != "transfer-encoding"@ && "x-cache"@ != "server"@,
        "x-cache"@ != "cache-control"@ && "x-cache"@ != "pragma"@,
        "content-length"@ != "content-encoding"@ && "content-length"@ != "transfer-encoding"@,
        "content-length"@ != "server"@ && "content-length"@ != "cache-control"@,
        "content-length"@ != "pragma"@ && "content-encoding"@ != "transfer-encoding"@,
        "content-encoding"@ != "server"@ && "content-encoding"@ != "cache-control"@,
        "content-encoding"@ != "pragma"@ && "transfer-encoding"@ != "server"@,
        "transfer-encoding"@ != "cache-control"@ && "transfer-encoding"@ != "pragma"@,
        "server"@ != "cache-control"@ && "server"@ != "pragma"@ && "cache-control"@ != "pragma"@,
{
    reveal_strlit("x-cache");
    reveal_strlit("content-length");
    reveal_strlit("content-encoding");
    reveal_strlit("transfer-encoding");
    reveal_strlit("server");
    reveal_strlit("cache-control");
    reveal_strlit("pragma");
    assert("x-cache"@.len() == 7 && "content-length"@.len() == 14);
    assert("content-encoding"@.len() == 16 && "transfer-encoding"@.len() == 17);
    assert("server"@.len() == 6 && "cache-control"@.len() == 13 && "pragma"@.len() == 6);
    assert("server"@[0] != "pragma"@[0]);
}

/// The cache answers unless the stored status or a stored field cannot be sent: a status from 100 to
/// 999 is sent, and every field whose name and value are valid.
pub proof fn law_cached_answers_come(
    status: u16,
    stored: Seq<(Seq<char>, Seq<char>)>,
    body: Seq<u8>,
    accept: Option<Seq<char>>,
    error: Seq<char>,
)
    requires
        100 <= status <= 999,
        service::sendable(stored),
    ensures
        !cache::answers_cached(status, stored, body, accept, Err(error)),
{
    lemma_restored_ok(stored, Map::empty());
}

proof fn lemma_restored_ok(stored: Seq<(Seq<char>, Seq<char>)>, f: Fields)
    requires
        service::sendable(stored),
    ensures
        cache::restored_fields(stored, f) is Ok,
    decreases stored.len(),
{
    if stored.len() > 0 {
        let rest = stored.skip(1);
        assert(headers::valid_name(stored[0].0));
        assert forall|i: int| 0 <= i < rest.len() implies headers::valid_name(
            (#[trigger] rest[i]).0,
        ) && headers::valid_value(encode_utf8(rest[i].1)) by {
            assert(rest[i] == stored[i + 1]);
        }
        if cache::dropped_field(stored[0].0) {
            lemma_restored_ok(rest, f);
        } else {
            lemma_restored_ok(rest, headers::appended(f, stored[0].0, stored[0].1));
        }
    }
}

/// A response that is sent in an encoding says so, and nothing else of it; its length is replaced, or
/// it comes in chunks where that is not known. All other fields stay as they are.
pub proof fn law_fields_of_compressed_responses(
    f: Fields,
    encoding: CompressionEncoding,
    len: Option<usize>,
    name: Seq<char>,
)
    requires
        encoding != CompressionEncoding::Identity,
    ensures
        ({
            let g = header_utils::compression_fields(f, encoding, len);
            &&& headers::values_at(g, "content-encoding"@) == seq![encode_utf8(encoding.name())]
            &&& match len {
                Some(n) => headers::values_at(g, "content-length"@) == seq![
                    encode_utf8(number::decimal(n as nat)),
                ] && headers::values_at(g, "transfer-encoding"@) == headers::values_at(
                    f,
                    "transfer-encoding"@,
                ),
                None => !g.dom().contains("content-length"@) && headers::values_at(
                    g,
                    "transfer-encoding"@,
                ) == seq![encode_utf8("chunked"@)],
            }
            &&& name != "content-encoding"@ && name != "content-length"@ && name
                != "transfer-encoding"@ ==> headers::values_at(g, name) == headers::values_at(
                f,
                name,
            )
        }),
        header_utils::compression_fields(f, CompressionEncoding::Identity, len) == f,
{
    lemma_distinct_names();
}

/// Setting the cache fields of a response touches no other field, and they say what browsers may do:
/// keep the response for so many seconds, nothing where no time is given, or that they may not keep
/// it.
pub proof fn law_cache_fields(
    f: Fields,
    status: Seq<char>,
    enabled: bool,
    ttl: Option<u64>,
    name: Seq<char>,
)
    requires
        headers::valid_value(encode_utf8(status)),
    ensures
        ({
            let g = header_utils::cache_fields(f, status, enabled, ttl);
            &&& headers::values_at(g, "x-cache"@) == seq![encode_utf8(status)]
            &&& headers::values_at(g, "server"@) == seq![encode_utf8("Stryvo"@)]
            &&& headers::values_at(g, "cache-control"@) == (if enabled {
                match ttl {
                    Some(n) => seq![
                        encode_utf8("public, max-age="@ + number::decimal(n as nat)),
                    ],
                    None => Seq::empty(),
                }
            } else {
                seq![encode_utf8("no-store, no-cache, must-revalidate"@)]
            })
            &&& headers::values_at(g, "pragma"@) == (if enabled {
                headers::values_at(f, "pragma"@)
            } else {
                headers::values_at(f, "pragma"@).push(encode_utf8("no-cache"@))
            })
            &&& name != "x-cache"@ && name != "server"@ && name != "cache-control"@ && name
                != "pragma"@ ==> headers::values_at(g, name) == headers::values_at(f, name)
        }),
{
    headers::lemma_own_names();
    lemma_distinct_names();
}

/// A field that is added goes behind those under its name, whatever the case; one that is put in
/// takes their place. No other field changes.
pub proof fn law_adding_and_putting_in(
    f: Fields,
    name: Seq<char>,
    value: Seq<char>,
    other: Seq<char>,
)
    requires
        headers::valid_name(name),
        headers::valid_value(encode_utf8(value)),
    ensures
        headers::append_result(f, name, value) matches Ok(g) && headers::values_at(
            g,
            text::lowered(name),
        ) == headers::values_at(f, text::lowered(name)).push(encode_utf8(value)) && (other
            != text::lowered(name) ==> headers::values_at(g, other) == headers::values_at(
            f,
            other,
        )),
        headers::insert_result(f, name, value) matches Ok(g) && headers::values_at(
            g,
            text::lowered(name),
        ) == seq![encode_utf8(value)] && (other != text::lowered(name) ==> headers::values_at(
            g,
            other,
        ) == headers::values_at(f, other)),
{
}

/// A response keeps the cache status it has got where there is a cache; without one it was not asked.
/// One without a status is a miss exactly if it has the status 200 and may be cached.
pub proof fn law_cache_status_of_responses(
    known: Option<Seq<char>>,
    cacheable: bool,
    status: u16,
)
    ensures
        pipeline::response_cache_status(false, known, cacheable, status) == "BYPASS"@,
        known matches Some(s) ==> pipeline::response_cache_status(true, known, cacheable, status)
            == s,
        known is None && cacheable && status == 200 ==> pipeline::response_cache_status(
            true,
            known,
            cacheable,
            status,
        ) == "MISS"@,
        known is None && !(cacheable && status == 200) ==> pipeline::response_cache_status(
            true,
            known,
            cacheable,
            status,
        ) == "BYPASS"@,
{
}

/// A response becomes one that is stored only with the status 200 and a cache: where the lookup was a
/// miss, or where there was none and the response may be cached.
pub proof fn law_responses_that_are_stored(
    has_cache: bool,
    known: Option<Seq<char>>,
    cacheable: bool,
    status: u16,
)
    ensures
        pipeline::turns_cacheable(has_cache, known, cacheable, status) ==> has_cache && status
            == 200,
        has_cache && status == 200 && known == Some("MISS"@) ==> pipeline::turns_cacheable(
            has_cache,
            known,
            cacheable,
            status,
        ),
        known matches Some(s) ==> s != "MISS"@ ==> !pipeline::turns_cacheable(
            has_cache,
            known,
            cacheable,
            status,
        ),
        known is None && has_cache && status == 200 ==> (pipeline::turns_cacheable(
            has_cache,
            known,
            cacheable,
            status,
        ) <==> cacheable),
{
}

/// The second service stores a response exactly if there is a cache, the status is one of success,
/// and the response may be cached.
pub proof fn law_responses_that_the_caching_service_stores(
    has_cache: bool,
    status: u16,
    method: Seq<char>,
    f: Fields,
)
    ensures
        cache::stores_response(has_cache, status, method, f) <==> has_cache && status / 100 == 2
            && service::cacheable(method, f),
{
}

/// The cache status that the caching service reports: what is known, else whether there is a cache.
pub proof fn law_reported_cache_status(known: Option<Seq<char>>)
    ensures
        known matches Some(s) ==> cache::status_or_none(known, true) == s && cache::status_or_none(
            known,
            false,
        ) == s,
        cache::status_or_none(None, true) == "BYPASS"@,
        cache::status_or_none(None, false) == "NONE"@,
{
}

/// The time that a response took is told in whole milliseconds.
pub proof fn law_elapsed_milliseconds(start: u128, current: u128)
    requires
        start <= current,
        current - start < 0x1_0000_0000_0000_0000,
    ensures
        pipeline::elapsed_ms(Some(start), current) * 1_000_000 <= current - start < (
        pipeline::elapsed_ms(Some(start), current) + 1) * 1_000_000,
        pipeline::elapsed_ms(None, current) == 0,
{
    assert((current - start) % 0x1_0000_0000_0000_0000 == current - start);
}

/// Filters for responses are applied one behind the other, in the order of the configuration.
pub proof fn law_response_filters_in_turn(mods: Seq<ModifierV>, m: ModifierV, f: Fields)
    ensures
        modifiers::response_changes(Seq::empty(), f) == f,
        modifiers::response_changes(mods.push(m), f) == m.outcome(
            modifiers::response_changes(mods, f),
        ).0,
    decreases mods.len(),
{
    if mods.len() == 0 {
        assert(mods.push(m).skip(1) =~= Seq::<ModifierV>::empty());
        let g = m.outcome(f).0;
        assert(modifiers::response_changes(mods.push(m).skip(1), g) == g);
    } else {
        assert(mods.push(m).skip(1) =~= mods.skip(1).push(m));
        law_response_filters_in_turn(mods.skip(1), m, mods[0].outcome(f).0);
    }
}

/// Filters for requests are applied one behind the other, in the order of the configuration, up to
/// the first that fails; its error is the result.
pub proof fn law_request_filters_in_turn(mods: Seq<ModifierV>, m: ModifierV, f: Fields)
    ensures
        modifiers::request_changes(Seq::empty(), f) == (f, None::<Seq<char>>),
        modifiers::request_changes(mods, f).1 is Some ==> modifiers::request_changes(
            mods.push(m),
            f,
        ) == modifiers::request_changes(mods, f),
        modifiers::request_changes(mods, f).1 is None ==> modifiers::request_changes(
            mods.push(m),
            f,
        ) == m.outcome(modifiers::request_changes(mods, f).0),
    decreases mods.len(),
{
    if mods.len() == 0 {
        assert(mods.push(m).skip(1) =~= Seq::<ModifierV>::empty());
        let (g, e) = m.outcome(f);
        assert(modifiers::request_changes(mods.push(m).skip(1), g) == (g, None::<Seq<char>>));
    } else {
        assert(mods.push(m).skip(1) =~= mods.skip(1).push(m));
        let (g, e) = mods[0].outcome(f);
        if e is None {
            law_request_filters_in_turn(mods.skip(1), m, g);
        }
    }
}

/// A filter that removes fields keeps exactly those whose names its pattern does not match, with all
/// their values, and never fails.
pub proof fn law_removing_filters(pattern: Seq<char>, f: Fields, name: Seq<char>)
    ensures
        ({
            let (g, e) = ModifierV::RemoveHeaderKeyRegex { pattern }.outcome(f);
            &&& e is None
            &&& g.dom().contains(name) <==> f.dom().contains(name) && !rate_limiting::regex_finds(
                pattern,
                name,
            )
            &&& g.dom().contains(name) ==> g[name] == f[name]
        }),
{
}

/// What is stored of a response header is all of it but how it was compressed.
pub proof fn law_stored_headers(f: Fields, name: Seq<char>)
    ensures
        !context::uncompressed_fields(f).dom().contains("content-encoding"@),
        name != "content-encoding"@ ==> headers::values_at(context::uncompressed_fields(f), name)
            == headers::values_at(f, name),
{
}

/// A request that a limiter refuses is answered with the status 429, and no limiter is asked any
/// more; both services ask every limiter once until then.
pub proof fn law_refused_requests(singles: usize, multis: usize, outcomes: Seq<Option<Outcome>>)
    ensures
        (exists|i: int| 0 <= i < outcomes.len() && #[trigger] outcomes[i] == Some(Outcome::Declined))
            ==> pipeline::limit_step(singles, multis, outcomes) == LimitStep::Refuse(429)
            && cache::limit_step(multis, singles, outcomes) == LimitStep::Refuse(429),
        (forall|i: int|
            0 <= i < outcomes.len() ==> #[trigger] outcomes[i] != Some(Outcome::Declined)) ==> {
            let n = outcomes.len();
            &&& n < singles ==> pipeline::limit_step(singles, multis, outcomes)
                == LimitStep::AskSingle(n as usize)
            &&& singles <= n < singles + multis ==> pipeline::limit_step(singles, multis, outcomes)
                == LimitStep::AskMulti((n - singles) as usize)
            &&& n < multis ==> cache::limit_step(multis, singles, outcomes) == LimitStep::AskMulti(
                n as usize,
            )
            &&& multis <= n < singles + multis ==> cache::limit_step(multis, singles, outcomes)
                == LimitStep::AskSingle((n - multis) as usize)
            &&& n >= singles + multis ==> pipeline::limit_step(singles, multis, outcomes)
                == LimitStep::Pass && cache::limit_step(multis, singles, outcomes)
                == LimitStep::Pass
        },
{
}

/// Where the cache status cannot be sent, the response carries none, and no other field changes but
/// the name of the server.
pub proof fn law_cache_fields_that_cannot_be_sent(
    f: Fields,
    status: Seq<char>,
    enabled: bool,
    ttl: Option<u64>,
    name: Seq<char>,
    mods: Seq<ModifierV>,
)
    requires
        !headers::valid_value(encode_utf8(status)),
    ensures
        ({
            let g = header_utils::cache_fields(f, status, enabled, ttl);
            &&& !g.dom().contains("x-cache"@)
            &&& headers::values_at(g, "server"@) == seq![encode_utf8("Stryvo"@)]
            &&& name != "x-cache"@ && name != "server"@ ==> headers::values_at(g, name)
                == headers::values_at(f, name)
        }),
        mods.len() == 0 ==> cache::filtered_fields(f, status, mods) == f,
{
    reveal_strlit("x-cache");
    reveal_strlit("server");
    assert("x-cache"@.len() != "server"@.len());
}

/// The values under a name are all that stand there, and the first of them is the one that is looked
/// at.
pub proof fn law_values_under_a_name(f: Fields, name: Seq<char>)
    ensures
        f.dom().contains(name) ==> headers::values_at(f, name) == f[name] && headers::first_value(
            f,
            name,
        ) == Some(f[name][0]),
        !f.dom().contains(name) ==> headers::values_at(f, name).len() == 0,
        f.dom().contains(text::lowered(name)) && headers::valid_name(name) ==> headers::looked_up(
            f,
            name,
        ) == Some(f[text::lowered(name)][0]),
        !f.dom().contains(text::lowered(name)) ==> headers::looked_up(f, name) is None
            && cache::varied_bytes(f, name) == Seq::<u8>::empty(),
        !headers::valid_name(name) ==> headers::looked_up(f, name) is None && cache::varied_bytes(
            f,
            name,
        ) == Seq::<u8>::empty(),
{
}

/// A value is valid exactly if all its bytes are: no control characters but the tab.
pub proof fn law_valid_values(v: Seq<u8>)
    ensures
        headers::valid_value(v) <==> forall|i: int|
            0 <= i < v.len() ==> (#[trigger] v[i] == 9 || (v[i] >= 32 && v[i] != 127)),
{
    if headers::valid_value(v) {
        assert forall|i: int| 0 <= i < v.len() implies (#[trigger] v[i] == 9 || (v[i] >= 32 && v[i]
            != 127)) by {
            assert(headers::value_byte(v[i]));
        }
    }
}

/// A field that cannot be sent is refused: a value that is not valid first, then a name that is not.
pub proof fn law_fields_that_cannot_be_sent(f: Fields, name: Seq<char>, value: Seq<char>)
    ensures
        !headers::valid_value(encode_utf8(value)) ==> headers::append_result(f, name, value)
            == Err::<Fields, Seq<char>>(" InvalidHTTPHeader context: invalid value while append"@)
            && headers::insert_result(f, name, value) == Err::<Fields, Seq<char>>(
            " InvalidHTTPHeader context: invalid value while insert"@,
        ),
        headers::valid_value(encode_utf8(value)) && !headers::valid_name(name)
            ==> headers::append_result(f, name, value) == Err::<Fields, Seq<char>>(
            " InvalidHTTPHeader context: invalid header name cause: invalid HTTP header name"@,
        ) && headers::insert_result(f, name, value) == Err::<Fields, Seq<char>>(
            " InvalidHTTPHeader context: invalid header name cause: invalid HTTP header name"@,
        ),
{
}

/// A stored field that cannot be sent keeps the cache from answering, unless it is one that is not
/// sent again.
pub proof fn law_answers_that_cannot_be_sent(
    status: u16,
    stored: Seq<(Seq<char>, Seq<char>)>,
    sent: Seq<u8>,
    encoding: CompressionEncoding,
    enabled: bool,
    ttl: Option<u64>,
    body: Seq<u8>,
    accept: Option<Seq<char>>,
    answer: (Fields, Seq<u8>),
    i: int,
)
    requires
        0 <= i < stored.len(),
        !headers::valid_name(stored[i].0) || !headers::valid_value(encode_utf8(stored[i].1)),
        text::lowered(stored[i].0) != "content-length"@,
        text::lowered(stored[i].0) != "content-encoding"@,
        text::lowered(stored[i].0) != "transfer-encoding"@,
    ensures
        pipeline::hit_answer(status, stored, sent, encoding, enabled, ttl) is Err,
        !cache::answers_cached(status, stored, body, accept, Ok(answer)),
{
    lemma_unsendable(stored, Map::empty(), i);
}

proof fn lemma_unsendable(stored: Seq<(Seq<char>, Seq<char>)>, f: Fields, i: int)
    requires
        0 <= i < stored.len(),
        !headers::valid_name(stored[i].0) || !headers::valid_value(encode_utf8(stored[i].1)),
        text::lowered(stored[i].0) != "content-length"@,
        text::lowered(stored[i].0) != "content-encoding"@,
        text::lowered(stored[i].0) != "transfer-encoding"@,
    ensures
        pipeline::resent_fields(stored, f) is Err,
        cache::restored_fields(stored, f) is Err,
    decreases stored.len(),
{
    if i > 0 {
        let rest = stored.skip(1);
        assert(rest[i - 1] == stored[i]);
        lemma_unsendable(rest, f, i - 1);
        if let Ok(g) = headers::append_result(f, stored[0].0, stored[0].1) {
            lemma_unsendable(rest, g, i - 1);
        }
    }
}

/// A status outside of those from 100 to 999 cannot be sent.
pub proof fn law_statuses_that_cannot_be_sent(
    status: u16,
    stored: Seq<(Seq<char>, Seq<char>)>,
    sent: Seq<u8>,
    encoding: CompressionEncoding,
    enabled: bool,
    ttl: Option<u64>,
)
    requires
        status < 100 || status > 999,
    ensures
        pipeline::hit_answer(status, stored, sent, encoding, enabled, ttl) == Err::<
            Fields,
            Seq<char>,
        >(" InvalidHTTPHeader context: invalid status"@),
{
}

/// A character that names of fields may hold: a letter, a digit, or one of fifteen signs.
pub open spec fn name_sign(c: char) -> bool {
    ||| 'a' <= c && c <= 'z'
    ||| 'A' <= c && c <= 'Z'
    ||| '0' <= c && c <= '9'
    ||| "!#$%&'*+-.^_`|~"@.contains(c)
}

/// A name is valid exactly if it is neither empty nor longer than 65535 characters and holds only
/// characters that names may hold.
pub proof fn law_valid_names(name: Seq<char>)
    ensures
        headers::valid_name(name) <==> 0 < name.len() <= 65535 && forall|i: int|
            0 <= i < name.len() ==> name_sign(#[trigger] name[i]),
{
    assert forall|c: char| headers::name_char(c) == name_sign(c) by {
        lemma_name_sign(c);
    }
    if headers::valid_name(name) {
        assert forall|i: int| 0 <= i < name.len() implies name_sign(#[trigger] name[i]) by {
            assert(headers::name_char(name[i]));
        }
    }
    if 0 < name.len() <= 65535 && forall|i: int|
        0 <= i < name.len() ==> name_sign(#[trigger] name[i]) {
        assert forall|i: int| 0 <= i < name.len() implies headers::name_char(
            #[trigger] name[i],
        ) by {
            assert(name_sign(name[i]));
        }
    }
}

proof fn lemma_name_sign(c: char)
    ensures
        headers::name_char(c) == name_sign(c),
{
    reveal_strlit("!#$%&'*+-.^_`|~");
    let signs = "!#$%&'*+-.^_`|~"@;
    assert(signs.len() == 15);
    assert(signs[0] == '!' && signs[1] == '#' && signs[2] == '$' && signs[3] == '%' && signs[4]
        == '&');
    assert(signs[5] == '\'' && signs[6] == '*' && signs[7] == '+' && signs[8] == '-' && signs[9]
        == '.');
    assert(signs[10] == '^' && signs[11] == '_' && signs[12] == '`' && signs[13] == '|'
        && signs[14] == '~');
    if signs.contains(c) {
        let i = choose|i: int| 0 <= i < signs.len() && signs[i] == c;
        assert(c == signs[i]);
    }
}

} // verus!
