//! The header fields that compression and caching set.
use crate::number;
use crate::proxy::compression;
use crate::proxy::compression::{ClientCompression, CompressionEncoding};
use crate::proxy::headers;
use crate::proxy::headers::Fields;
use pingora_http::{RequestHeader, ResponseHeader};
use vstd::prelude::*;
use vstd::string::*;
use vstd::utf8::*;

verus! {

/// The fields of a response that is sent in an encoding, with the length of its body where that is
/// known.
pub open spec fn compression_fields(
    f: Fields,
    encoding: CompressionEncoding,
    len: Option<usize>,
) -> Fields {
    if encoding == CompressionEncoding::Identity {
        f
    } else {
        let g = f.insert("content-encoding"@, seq![encode_utf8(encoding.name())]).remove(
            "content-length"@,
        );
        match len {
            Some(n) => g.insert("content-length"@, seq![encode_utf8(number::decimal(n as nat))]),
            None => g.insert("transfer-encoding"@, seq![encode_utf8("chunked"@)]),
        }
    }
}

/// The value of the cache-control field that lets browsers keep a response for `ttl` seconds.
pub open spec fn max_age(ttl: u64) -> Seq<char> {
    "public, max-age="@ + number::decimal(ttl as nat)
}

/// The fields of a response with the name of the server and the cache status.
pub open spec fn status_fields(f: Fields, status: Seq<char>) -> Fields {
    f.insert("server"@, seq![encode_utf8("Stryvo"@)]).insert("x-cache"@, seq![encode_utf8(status)])
}

/// The fields of a response that say what browsers may keep.
pub open spec fn browser_fields(f: Fields, enabled: bool, ttl: Option<u64>) -> Fields {
    let g = f.remove("cache-control"@);
    if enabled {
        match ttl {
            Some(n) => g.insert("cache-control"@, seq![encode_utf8(max_age(n))]),
            None => g,
        }
    } else {
        headers::appended(
            g.insert(
                "cache-control"@,
                seq![encode_utf8("no-store, no-cache, must-revalidate"@)],
            ),
            "pragma"@,
            "no-cache"@,
        )
    }
}

/// The fields of a response once its cache fields are set: those without a cache status where the
/// status is not a valid value.
pub open spec fn cache_fields(
    f: Fields,
    status: Seq<char>,
    enabled: bool,
    ttl: Option<u64>,
) -> Fields {
    if headers::valid_value(encode_utf8(status)) {
        browser_fields(status_fields(f, status), enabled, ttl)
    } else {
        f.insert("server"@, seq![encode_utf8("Stryvo"@)]).remove("x-cache"@)
    }
}

/// A digit is printable.
proof fn lemma_digit_printable(c: char)
    requires
        number::digit(c),
    ensures
        ' ' <= c && c <= '~',
{
}

/// A text of digits is printable.
proof fn lemma_decimal_printable(n: nat)
    ensures
        headers::printable(number::decimal(n)),
{
    number::lemma_decimal_value(n);
    let d = number::decimal(n);
    assert forall|i: int| 0 <= i < d.len() implies ' ' <= #[trigger] d[i] && d[i] <= '~' by {
        lemma_digit_printable(d[i]);
    }
}

/// The values that the proxy sets are valid.
pub proof fn lemma_own_values(n: nat)
    ensures
        headers::valid_value(encode_utf8("gzip"@)),
        headers::valid_value(encode_utf8("br"@)),
        headers::valid_value(encode_utf8("zstd"@)),
        headers::valid_value(encode_utf8("chunked"@)),
        headers::valid_value(encode_utf8("Stryvo"@)),
        headers::valid_value(encode_utf8("no-store, no-cache, must-revalidate"@)),
        headers::valid_value(encode_utf8("no-cache"@)),
        headers::valid_value(encode_utf8(number::decimal(n))),
        headers::valid_value(encode_utf8("public, max-age="@ + number::decimal(n))),
{
    reveal_strlit("gzip");
    reveal_strlit("br");
    reveal_strlit("zstd");
    reveal_strlit("chunked");
    reveal_strlit("Stryvo");
    reveal_strlit("no-store, no-cache, must-revalidate");
    reveal_strlit("no-cache");
    reveal_strlit("public, max-age=");
    headers::lemma_printable_value("gzip"@);
    headers::lemma_printable_value("br"@);
    headers::lemma_printable_value("zstd"@);
    headers::lemma_printable_value("chunked"@);
    headers::lemma_printable_value("Stryvo"@);
    headers::lemma_printable_value("no-store, no-cache, must-revalidate"@);
    headers::lemma_printable_value("no-cache"@);
    lemma_decimal_printable(n);
    headers::lemma_printable_value(number::decimal(n));
    let m = "public, max-age="@ + number::decimal(n);
    assert(headers::printable("public, max-age="@));
    assert forall|i: int| 0 <= i < m.len() implies ' ' <= #[trigger] m[i] && m[i] <= '~' by {
        if i < "public, max-age="@.len() {
            assert(m[i] == "public, max-age="@[i]);
        } else {
            assert(m[i] == number::decimal(n)[i - "public, max-age="@.len()]);
        }
    }
    headers::lemma_printable_value(m);
}

/// Functions on header fields.
pub struct HeaderUtils;

impl HeaderUtils {
    /// Sets the fields of a response that is sent in an encoding.
    pub fn update_compression_headers(
        resp_header: &mut ResponseHeader,
        encoding: CompressionEncoding,
        compressed_len: Option<usize>,
    ) -> (r: Result<(), String>)
        requires
            headers::room(headers::response_fields(*old(resp_header)), 2),
        ensures
            r is Ok,
            headers::response_status(*final(resp_header)) == headers::response_status(
                *old(resp_header),
            ),
            headers::response_fields(*final(resp_header)) == compression_fields(
                headers::response_fields(*old(resp_header)),
                encoding,
                compressed_len,
            ),
    {
        let ghost f = headers::response_fields(*resp_header);
        proof {
            headers::lemma_own_names();
            lemma_own_values(0);
            let name = seq![encode_utf8(encoding.name())];
            headers::lemma_room(f, "content-encoding"@, name, 1);
            headers::lemma_room(f.insert("content-encoding"@, name), "content-length"@, name, 0);
        }
        if encoding == CompressionEncoding::Identity {
            return Ok(());
        }
        headers::response_insert(resp_header, "content-encoding", encoding.as_str())?;
        headers::response_remove(resp_header, "content-length");
        match compressed_len {
            Some(len) => {
                let digits = number::decimal_text(len as u128);
                proof {
                    lemma_own_values(len as nat);
                }
                headers::response_insert(resp_header, "content-length", digits.as_str())
            },
            None => headers::response_insert(resp_header, "transfer-encoding", "chunked"),
        }
    }

    /// The encoding to use for a request.
    pub fn get_preferred_encoding(req_header: &RequestHeader) -> (r: CompressionEncoding)
        ensures
            r == (match compression::preferred(
                headers::first_text(headers::request_fields(*req_header), "accept-encoding"@),
            ) {
                Some(e) => e,
                None => CompressionEncoding::Identity,
            }),
    {
        match ClientCompression::select_encoding(req_header) {
            Some(e) => e,
            None => CompressionEncoding::Identity,
        }
    }

    /// Whether a response is to be compressed.
    pub fn should_compress(resp_header: &ResponseHeader) -> (r: bool)
        ensures
            r == compression::compressible(headers::response_fields(*resp_header)),
    {
        ClientCompression::should_compress(resp_header)
    }

    /// Sets the fields that name the server, the cache status and what browsers may keep.
    pub fn set_cache_headers(
        resp_header: &mut ResponseHeader,
        cache_status: &str,
        browser_cache_enabled: bool,
        browser_cache_ttl: Option<u64>,
    ) -> (r: Result<(), String>)
        requires
            headers::room(headers::response_fields(*old(resp_header)), 4),
        ensures
            match r {
                Ok(()) => headers::valid_value(encode_utf8(cache_status@)),
                Err(e) => !headers::valid_value(encode_utf8(cache_status@)) && e@
                    == headers::append_value_error(),
            },
            headers::response_status(*final(resp_header)) == headers::response_status(
                *old(resp_header),
            ),
            headers::response_fields(*final(resp_header)) == cache_fields(
                headers::response_fields(*old(resp_header)),
                cache_status@,
                browser_cache_enabled,
                browser_cache_ttl,
            ),
    {
        let ghost f = headers::response_fields(*resp_header);
        proof {
            headers::lemma_own_names();
            lemma_own_values(0);
        }
        headers::response_remove(resp_header, "server");
        proof {
            headers::lemma_room(f, "server"@, seq![encode_utf8("Stryvo"@)], 3);
            assert(headers::appended(f.remove("server"@), "server"@, "Stryvo"@) =~= f.insert(
                "server"@,
                seq![encode_utf8("Stryvo"@)],
            ));
        }
        headers::response_append(resp_header, "server", "Stryvo")?;
        let ghost f1 = headers::response_fields(*resp_header);
        headers::response_remove(resp_header, "x-cache");
        proof {
            let value = seq![encode_utf8(cache_status@)];
            headers::lemma_room(f1, "x-cache"@, value, 2);
            assert(headers::appended(f1.remove("x-cache"@), "x-cache"@, cache_status@)
                =~= f1.insert("x-cache"@, value));
        }
        headers::response_append(resp_header, "x-cache", cache_status)?;
        let ghost f2 = headers::response_fields(*resp_header);
        headers::response_remove(resp_header, "cache-control");
        proof {
            headers::lemma_room(f2, "cache-control"@, Seq::<Seq<u8>>::empty(), 1);
        }
        if browser_cache_enabled {
            if let Some(ttl) = browser_cache_ttl {
                let digits = number::decimal_text(ttl as u128);
                let value = String::from_str("public, max-age=").concat(digits.as_str());
                proof {
                    lemma_own_values(ttl as nat);
                    assert(headers::appended(
                        f2.remove("cache-control"@),
                        "cache-control"@,
                        value@,
                    ) =~= f2.remove("cache-control"@).insert(
                        "cache-control"@,
                        seq![encode_utf8(value@)],
                    ));
                }
                headers::response_append(resp_header, "cache-control", value.as_str())?;
            }
        } else {
            proof {
                let value = seq![encode_utf8("no-store, no-cache, must-revalidate"@)];
                assert(headers::appended(
                    f2.remove("cache-control"@),
                    "cache-control"@,
                    "no-store, no-cache, must-revalidate"@,
                ) =~= f2.remove("cache-control"@).insert("cache-control"@, value));
                headers::lemma_room(f2.remove("cache-control"@), "cache-control"@, value, 1);
            }
            headers::response_append(
                resp_header,
                "cache-control",
                "no-store, no-cache, must-revalidate",
            )?;
            headers::response_append(resp_header, "pragma", "no-cache")?;
        }
        Ok(())
    }
}

} // verus!
