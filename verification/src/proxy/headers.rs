//! Message headers: what the header types of `pingora_http` hold, and how they are read and changed.
//!
//! The fields of a header are a map from names in lower case to the values under each name, in
//! the order in which they were added. A header also has a status, or a method and a target.
//!
//! A header can hold a name with a double quote in it, which no text that is looked up, added or
//! removed can name: see `valid_name`.
use crate::text;
use http::HeaderName;
use pingora_http::{RequestHeader, ResponseHeader};
use vstd::prelude::*;
use vstd::string::*;
use vstd::utf8::*;

verus! {

/// The header of a request: opaque, reached through the functions of this module.
#[verifier::external_type_specification]
#[verifier::external_body]
pub struct ExRequestHeader(RequestHeader);

/// The header of a response: opaque, reached through the functions of this module.
#[verifier::external_type_specification]
#[verifier::external_body]
pub struct ExResponseHeader(ResponseHeader);

/// A field name as a header holds it: opaque, read through `HeaderName::as_str`.
#[verifier::external_type_specification]
#[verifier::external_body]
pub struct ExHeaderName(HeaderName);

/// Header fields by name.
pub type Fields = Map<Seq<char>, Seq<Seq<u8>>>;

/// The fields that a request header holds.
pub uninterp spec fn request_fields(h: RequestHeader) -> Map<Seq<char>, Seq<Seq<u8>>>;

/// The method of a request header, as text.
pub uninterp spec fn request_method(h: RequestHeader) -> Seq<char>;

/// The target of a request header, as text.
pub uninterp spec fn request_uri(h: RequestHeader) -> Seq<char>;

/// The protocol version of a request header, as text.
pub uninterp spec fn request_version(h: RequestHeader) -> Seq<char>;

/// The fields that a response header holds.
pub uninterp spec fn response_fields(h: ResponseHeader) -> Map<Seq<char>, Seq<Seq<u8>>>;

/// The fields that a response header holds, one by one, in the order in which it lists them.
pub uninterp spec fn response_list(h: ResponseHeader) -> Seq<(Seq<char>, Seq<u8>)>;

/// The text of a field name.
pub uninterp spec fn name_text(n: HeaderName) -> Seq<char>;

/// The status code of a response header.
pub uninterp spec fn response_status(h: ResponseHeader) -> u16;

/// Two request headers say the same: method, target, version and fields.
pub open spec fn same_request(a: RequestHeader, b: RequestHeader) -> bool {
    &&& request_method(a) == request_method(b)
    &&& request_uri(a) == request_uri(b)
    &&& request_version(a) == request_version(b)
    &&& request_fields(a) == request_fields(b)
}

/// A character that the text of a field name may have.
pub open spec fn name_char(c: char) -> bool {
    ||| ('a' <= c && c <= 'z') || ('A' <= c && c <= 'Z') || ('0' <= c && c <= '9')
    ||| c == '!' || c == '#' || c == '$' || c == '%' || c == '&' || c == '\'' || c == '*'
    ||| c == '+' || c == '-' || c == '.' || c == '^' || c == '_' || c == '`' || c == '|'
    ||| c == '~'
}

/// A text by which a field can be added, looked up or removed.
pub open spec fn valid_name(name: Seq<char>) -> bool {
    0 < name.len() <= 65535 && forall|i: int| 0 <= i < name.len() ==> name_char(#[trigger] name[i])
}

/// A byte that a field value may have.
pub open spec fn value_byte(b: u8) -> bool {
    (b >= 32 && b != 127) || b == 9
}

/// Bytes that can be a field value.
pub open spec fn valid_value(v: Seq<u8>) -> bool {
    forall|i: int| 0 <= i < v.len() ==> value_byte(#[trigger] v[i])
}

/// The values under a name.
pub open spec fn values_at(f: Fields, name: Seq<char>) -> Seq<Seq<u8>> {
    if f.dom().contains(name) {
        f[name]
    } else {
        Seq::empty()
    }
}

/// The first value under a name.
pub open spec fn first_value(f: Fields, name: Seq<char>) -> Option<Seq<u8>> {
    if f.dom().contains(name) {
        Some(f[name][0])
    } else {
        None
    }
}

/// The first value that is found under a text.
pub open spec fn looked_up(f: Fields, name: Seq<char>) -> Option<Seq<u8>> {
    if valid_name(name) {
        first_value(f, text::lowered(name))
    } else {
        None
    }
}

/// The fields without those that are found under a text.
pub open spec fn without(f: Fields, name: Seq<char>) -> Fields {
    if valid_name(name) {
        f.remove(text::lowered(name))
    } else {
        f
    }
}

/// The fields with one more value under a name.
pub open spec fn appended(f: Fields, name: Seq<char>, value: Seq<char>) -> Fields {
    f.insert(
        text::lowered(name),
        values_at(f, text::lowered(name)).push(encode_utf8(value)),
    )
}

/// The fields with one value in place of those under a name.
pub open spec fn inserted(f: Fields, name: Seq<char>, value: Seq<char>) -> Fields {
    f.insert(text::lowered(name), seq![encode_utf8(value)])
}

/// Why a field is refused whose value is not valid when it is appended.
pub open spec fn append_value_error() -> Seq<char> {
    " InvalidHTTPHeader context: invalid value while append"@
}

/// Why a field is refused whose value is not valid when it is inserted.
pub open spec fn insert_value_error() -> Seq<char> {
    " InvalidHTTPHeader context: invalid value while insert"@
}

/// Why a field is refused whose name is not valid.
pub open spec fn name_error() -> Seq<char> {
    " InvalidHTTPHeader context: invalid header name cause: invalid HTTP header name"@
}

/// What appending a field comes to.
pub open spec fn append_result(f: Fields, name: Seq<char>, value: Seq<char>) -> Result<
    Fields,
    Seq<char>,
> {
    if !valid_value(encode_utf8(value)) {
        Err(append_value_error())
    } else if !valid_name(name) {
        Err(name_error())
    } else {
        Ok(appended(f, name, value))
    }
}

/// What inserting a field comes to.
pub open spec fn insert_result(f: Fields, name: Seq<char>, value: Seq<char>) -> Result<
    Fields,
    Seq<char>,
> {
    if !valid_value(encode_utf8(value)) {
        Err(insert_value_error())
    } else if !valid_name(name) {
        Err(name_error())
    } else {
        Ok(inserted(f, name, value))
    }
}

/// As many names as a header is sure to have room for.
pub const MAX_NAMES: usize = 6554;

/// There are `n` names.
pub open spec fn has_names(f: Fields, n: nat) -> bool {
    f.dom().finite() && f.dom().len() == n
}

/// Whether there is room for `more` names.
pub open spec fn room(f: Fields, more: int) -> bool {
    f.dom().finite() && f.dom().len() + more <= MAX_NAMES
}

/// One more name takes one place.
pub proof fn lemma_room(f: Fields, name: Seq<char>, values: Seq<Seq<u8>>, more: int)
    requires
        room(f, more + 1),
    ensures
        room(f.insert(name, values), more),
        room(f.remove(name), more + 1),
        room(without(f, name), more + 1),
        room(f, more),
{
}

/// The first value under a name in a response header, as text.
pub fn response_text(h: &ResponseHeader, name: &str) -> (r: Option<String>)
    ensures
        match r {
            Some(s) => looked_up_text(response_fields(*h), name@) == Some(s@),
            None => looked_up_text(response_fields(*h), name@) is None,
        },
{
    match response_get(h, name) {
        Some(v) => value_text(&v),
        None => None,
    }
}

/// The first value under a name in a request header, as text.
pub fn request_text(h: &RequestHeader, name: &str) -> (r: Option<String>)
    ensures
        match r {
            Some(s) => looked_up_text(request_fields(*h), name@) == Some(s@),
            None => looked_up_text(request_fields(*h), name@) is None,
        },
{
    match request_get(h, name) {
        Some(v) => value_text(&v),
        None => None,
    }
}

/// The number of names in a response header, by `HeaderMap::keys_len`: each counts once.
#[verifier::external_body]
fn response_names(h: &ResponseHeader) -> (r: usize)
    ensures
        has_names(response_fields(*h), r as nat),
{
    h.headers.keys_len()
}

/// The number of names in a request header, by `HeaderMap::keys_len`: each counts once.
#[verifier::external_body]
fn request_names(h: &RequestHeader) -> (r: usize)
    ensures
        has_names(request_fields(*h), r as nat),
{
    h.headers.keys_len()
}

/// Whether a response header has room for `more` names.
pub fn response_has_room(h: &ResponseHeader, more: usize) -> (r: bool)
    ensures
        r == room(response_fields(*h), more as int),
{
    let n = response_names(h);
    n <= MAX_NAMES && more <= MAX_NAMES - n
}

/// Whether a request header has room for `more` names.
pub fn request_has_room(h: &RequestHeader, more: usize) -> (r: bool)
    ensures
        r == room(request_fields(*h), more as int),
{
    let n = request_names(h);
    n <= MAX_NAMES && more <= MAX_NAMES - n
}

/// Builds a response header with `ResponseHeader::build`: it has the status and no fields. Codes
/// from 100 to 999 are accepted; the text of the error is that of its `Display`.
#[verifier::external_body]
pub(crate) fn response_build(status: u16, size_hint: usize) -> (r: Result<ResponseHeader, String>)
    ensures
        match r {
            Ok(h) => 100 <= status <= 999 && response_status(h) == status && response_fields(h)
                == Map::<Seq<char>, Seq<Seq<u8>>>::empty(),
            Err(e) => !(100 <= status <= 999) && e@
                == " InvalidHTTPHeader context: invalid status"@,
        },
{
    ResponseHeader::build(status, Some(size_hint)).map_err(|e| e.to_string())
}

/// Copies a response header with its `clone`: status and fields are the same, and so is the order
/// in which the fields are listed.
#[verifier::external_body]
pub(crate) fn response_clone(h: &ResponseHeader) -> (r: ResponseHeader)
    ensures
        response_fields(r) == response_fields(*h),
        response_status(r) == response_status(*h),
        response_list(r) == response_list(*h),
{
    h.clone()
}

/// Copies a request header with its `clone`: method, target, version and fields are the same.
#[verifier::external_body]
pub(crate) fn request_clone(h: &RequestHeader) -> (r: RequestHeader)
    ensures
        same_request(r, *h),
{
    h.clone()
}

/// The status code of a response header, by `StatusCode::as_u16`: it has three digits.
#[verifier::external_body]
pub(crate) fn response_status_code(h: &ResponseHeader) -> (r: u16)
    ensures
        r == response_status(*h),
        100 <= r <= 999,
{
    h.status.as_u16()
}

/// The method of a request header, by `Method::as_str`.
#[verifier::external_body]
pub(crate) fn request_method_text(h: &RequestHeader) -> (r: String)
    ensures
        r@ == request_method(*h),
{
    h.method.as_str().to_string()
}

/// The target of a request header, by the `Display` of its `Uri`.
#[verifier::external_body]
pub(crate) fn request_uri_text(h: &RequestHeader) -> (r: String)
    ensures
        r@ == request_uri(*h),
{
    h.uri.to_string()
}

/// The protocol version of a request header, by the `Debug` of its `Version`.
#[verifier::external_body]
pub(crate) fn request_version_text(h: &RequestHeader) -> (r: String)
    ensures
        r@ == request_version(*h),
{
    format!("{:?}", h.version)
}

/// The first value under a name in a response header, by `HeaderMap::get`. Names are compared
/// without regard to case, and a name that is present has at least one value. Nothing is found
/// under a text that is not valid as a name.
#[verifier::external_body]
pub(crate) fn response_get(h: &ResponseHeader, name: &str) -> (r: Option<Vec<u8>>)
    ensures
        match r {
            Some(v) => looked_up(response_fields(*h), name@) == Some(v@)
                && response_fields(*h)[text::lowered(name@)].len() > 0,
            None => looked_up(response_fields(*h), name@) is None,
        },
{
    h.headers.get(name).map(|v| v.as_bytes().to_vec())
}

/// The first value under a name in a request header, by `HeaderMap::get`. Names are compared
/// without regard to case, and a name that is present has at least one value. Nothing is found
/// under a text that is not valid as a name.
#[verifier::external_body]
pub(crate) fn request_get(h: &RequestHeader, name: &str) -> (r: Option<Vec<u8>>)
    ensures
        match r {
            Some(v) => looked_up(request_fields(*h), name@) == Some(v@)
                && request_fields(*h)[text::lowered(name@)].len() > 0,
            None => looked_up(request_fields(*h), name@) is None,
        },
{
    h.headers.get(name).map(|v| v.as_bytes().to_vec())
}

/// The values that a list of fields holds under a name, in order.
pub open spec fn values_named(p: Seq<(Seq<char>, Seq<u8>)>, name: Seq<char>) -> Seq<Seq<u8>>
    decreases p.len(),
{
    if p.len() == 0 {
        Seq::empty()
    } else {
        let rest = values_named(p.drop_last(), name);
        if p.last().0 == name {
            rest.push(p.last().1)
        } else {
            rest
        }
    }
}

/// A list of fields as texts and bytes.
pub open spec fn pair_views(p: Seq<(String, Vec<u8>)>) -> Seq<(Seq<char>, Seq<u8>)> {
    p.map_values(|e: (String, Vec<u8>)| (e.0@, e.1@))
}

/// All fields of a response header, by `HeaderMap::iter`: under each name the values that the
/// header has there, in their order. Which name comes first is a matter of the header, and the same
/// in each listing of it.
#[verifier::external_body]
pub(crate) fn response_pairs(h: &ResponseHeader) -> (r: Vec<(String, Vec<u8>)>)
    ensures
        pair_views(r@) == response_list(*h),
        forall|name: Seq<char>| #[trigger]
            values_named(pair_views(r@), name) == values_at(response_fields(*h), name),
{
    h.headers.iter().map(|(k, v)| (k.to_string(), v.as_bytes().to_vec())).collect()
}

/// A list that holds each of `names` once.
pub open spec fn lists_names(v: Seq<HeaderName>, names: Set<Seq<char>>) -> bool {
    &&& forall|i: int| 0 <= i < v.len() ==> names.contains(name_text(#[trigger] v[i]))
    &&& forall|k: Seq<char>| #[trigger]
        names.contains(k) ==> exists|i: int| 0 <= i < v.len() && name_text(#[trigger] v[i]) == k
    &&& forall|i: int, j: int|
        0 <= i < j < v.len() ==> name_text(#[trigger] v[i]) != name_text(#[trigger] v[j])
}

/// The text of a field name, by `HeaderName::as_str`.
pub assume_specification[ HeaderName::as_str ](n: &HeaderName) -> (r: &str)
    ensures
        r@ == name_text(*n),
;

/// The names in a response header, by `HeaderMap::keys`: each once, in an order that is left open.
#[verifier::external_body]
pub(crate) fn response_keys(h: &ResponseHeader) -> (r: Vec<HeaderName>)
    ensures
        lists_names(r@, response_fields(*h).dom()),
{
    h.headers.keys().cloned().collect()
}

/// The names in a request header, by `HeaderMap::keys`: each once, in an order that is left open.
#[verifier::external_body]
pub(crate) fn request_keys(h: &RequestHeader) -> (r: Vec<HeaderName>)
    ensures
        lists_names(r@, request_fields(*h).dom()),
{
    h.headers.keys().cloned().collect()
}

/// Appends a field with `ResponseHeader::append_header`: the value goes behind those already under
/// the name, or the header stays as it was and the error's text says which part is not valid.
#[verifier::external_body]
pub(crate) fn response_append(h: &mut ResponseHeader, name: &str, value: &str) -> (r: Result<
    (),
    String,
>)
    requires
        room(response_fields(*old(h)), 1),
    ensures
        response_status(*final(h)) == response_status(*old(h)),
        match append_result(response_fields(*old(h)), name@, value@) {
            Ok(f) => r is Ok && response_fields(*final(h)) == f,
            Err(e) => r matches Err(x) && x@ == e && response_fields(*final(h)) == response_fields(
                *old(h),
            ),
        },
{
    h.append_header(name.to_string(), value).map(|_| ()).map_err(|e| e.to_string())
}

/// Inserts a field with `ResponseHeader::insert_header`: the value takes the place of those under
/// the name, or the header stays as it was and the error's text says which part is not valid.
#[verifier::external_body]
pub(crate) fn response_insert(h: &mut ResponseHeader, name: &str, value: &str) -> (r: Result<
    (),
    String,
>)
    requires
        room(response_fields(*old(h)), 1),
    ensures
        response_status(*final(h)) == response_status(*old(h)),
        match insert_result(response_fields(*old(h)), name@, value@) {
            Ok(f) => r is Ok && response_fields(*final(h)) == f,
            Err(e) => r matches Err(x) && x@ == e && response_fields(*final(h)) == response_fields(
                *old(h),
            ),
        },
{
    h.insert_header(name.to_string(), value).map_err(|e| e.to_string())
}

/// Removes all fields under a text with `ResponseHeader::remove_header`; the answer is whether
/// there were any. There are none under a text that is not valid as a name. Where there are none,
/// the fields are listed as before; how they are listed where some are removed is left unsaid.
#[verifier::external_body]
pub(crate) fn response_remove(h: &mut ResponseHeader, name: &str) -> (r: bool)
    ensures
        response_status(*final(h)) == response_status(*old(h)),
        response_fields(*final(h)) == without(response_fields(*old(h)), name@),
        r == (looked_up(response_fields(*old(h)), name@) is Some),
        !r ==> response_list(*final(h)) == response_list(*old(h)),
{
    h.remove_header(name).is_some()
}

/// Appends a field with `RequestHeader::append_header`: the value goes behind those already under
/// the name, or the header stays as it was and the error's text says which part is not valid.
#[verifier::external_body]
pub(crate) fn request_append(h: &mut RequestHeader, name: &str, value: &str) -> (r: Result<
    (),
    String,
>)
    requires
        room(request_fields(*old(h)), 1),
    ensures
        request_method(*final(h)) == request_method(*old(h)),
        request_uri(*final(h)) == request_uri(*old(h)),
        request_version(*final(h)) == request_version(*old(h)),
        match append_result(request_fields(*old(h)), name@, value@) {
            Ok(f) => r is Ok && request_fields(*final(h)) == f,
            Err(e) => r matches Err(x) && x@ == e && request_fields(*final(h)) == request_fields(
                *old(h),
            ),
        },
{
    h.append_header(name.to_string(), value).map(|_| ()).map_err(|e| e.to_string())
}

/// Removes all fields under a text with `RequestHeader::remove_header`; the answer is whether there
/// were any. There are none under a text that is not valid as a name.
#[verifier::external_body]
pub(crate) fn request_remove(h: &mut RequestHeader, name: &str) -> (r: bool)
    ensures
        request_method(*final(h)) == request_method(*old(h)),
        request_uri(*final(h)) == request_uri(*old(h)),
        request_version(*final(h)) == request_version(*old(h)),
        request_fields(*final(h)) == without(request_fields(*old(h)), name@),
        r == (looked_up(request_fields(*old(h)), name@) is Some),
{
    h.remove_header(name).is_some()
}

/// Removes all fields under a name with `ResponseHeader::remove_header`; the answer is whether
/// there were any. A name is found as the header holds it.
#[verifier::external_body]
pub(crate) fn response_remove_name(h: &mut ResponseHeader, name: &HeaderName) -> (r: bool)
    ensures
        response_status(*final(h)) == response_status(*old(h)),
        response_fields(*final(h)) == response_fields(*old(h)).remove(name_text(*name)),
        r == response_fields(*old(h)).dom().contains(name_text(*name)),
{
    h.remove_header(name).is_some()
}

/// Removes all fields under a name with `RequestHeader::remove_header`; the answer is whether there
/// were any. A name is found as the header holds it.
#[verifier::external_body]
pub(crate) fn request_remove_name(h: &mut RequestHeader, name: &HeaderName) -> (r: bool)
    ensures
        request_method(*final(h)) == request_method(*old(h)),
        request_uri(*final(h)) == request_uri(*old(h)),
        request_version(*final(h)) == request_version(*old(h)),
        request_fields(*final(h)) == request_fields(*old(h)).remove(name_text(*name)),
        r == request_fields(*old(h)).dom().contains(name_text(*name)),
{
    h.remove_header(name).is_some()
}

/// A byte of a value that can be read as text.
pub open spec fn visible_byte(b: u8) -> bool {
    (b >= 32 && b < 127) || b == 9
}

/// Bytes as the characters with the same numbers.
pub open spec fn byte_chars(v: Seq<u8>) -> Seq<char> {
    v.map_values(|b: u8| b as char)
}

/// A value as text, where all its bytes are visible ASCII characters or tabs.
pub open spec fn visible_text(v: Seq<u8>) -> Option<Seq<char>> {
    if forall|i: int| 0 <= i < v.len() ==> visible_byte(#[trigger] v[i]) {
        Some(byte_chars(v))
    } else {
        None
    }
}

/// The first value under a name, as text.
pub open spec fn first_text(f: Fields, name: Seq<char>) -> Option<Seq<char>> {
    match first_value(f, name) {
        Some(v) => visible_text(v),
        None => None,
    }
}

/// The first value that is found under a text, as text.
pub open spec fn looked_up_text(f: Fields, name: Seq<char>) -> Option<Seq<char>> {
    match looked_up(f, name) {
        Some(v) => visible_text(v),
        None => None,
    }
}

/// Reads a value as text.
pub fn value_text(v: &Vec<u8>) -> (r: Option<String>)
    ensures
        match r {
            Some(s) => visible_text(v@) == Some(s@),
            None => visible_text(v@) is None,
        },
{
    let mut s = String::new();
    let mut i: usize = 0;
    while i < v.len()
        invariant
            i <= v@.len(),
            s@ == byte_chars(v@.take(i as int)),
            forall|j: int| 0 <= j < i ==> visible_byte(#[trigger] v@[j]),
        decreases v@.len() - i,
    {
        let b: u8 = v[i];
        if !((b >= 32 && b < 127) || b == 9) {
            assert(!visible_byte(v@[i as int]));
            return None;
        }
        s.push(b as char);
        assert(byte_chars(v@.take(i + 1)) =~= byte_chars(v@.take(i as int)).push(b as char));
        i = i + 1;
    }
    assert(v@.take(i as int) =~= v@);
    Some(s)
}

/// The field names that the proxy reads or sets are valid and in lower case.
pub proof fn lemma_own_names()
    ensures
        valid_name("accept-encoding"@),
        valid_name("authorization"@),
        valid_name("cache-control"@),
        valid_name("content-encoding"@),
        valid_name("content-length"@),
        valid_name("content-type"@),
        valid_name("pragma"@),
        valid_name("referer"@),
        valid_name("server"@),
        valid_name("transfer-encoding"@),
        valid_name("user-agent"@),
        valid_name("vary"@),
        valid_name("x-cache"@),
        text::lowered("accept-encoding"@) == "accept-encoding"@,
        text::lowered("authorization"@) == "authorization"@,
        text::lowered("cache-control"@) == "cache-control"@,
        text::lowered("content-encoding"@) == "content-encoding"@,
        text::lowered("content-length"@) == "content-length"@,
        text::lowered("content-type"@) == "content-type"@,
        text::lowered("pragma"@) == "pragma"@,
        text::lowered("referer"@) == "referer"@,
        text::lowered("server"@) == "server"@,
        text::lowered("transfer-encoding"@) == "transfer-encoding"@,
        text::lowered("user-agent"@) == "user-agent"@,
        text::lowered("vary"@) == "vary"@,
        text::lowered("x-cache"@) == "x-cache"@,
{
    reveal_strlit("accept-encoding");
    reveal_strlit("authorization");
    reveal_strlit("cache-control");
    reveal_strlit("content-encoding");
    reveal_strlit("content-length");
    reveal_strlit("content-type");
    reveal_strlit("pragma");
    reveal_strlit("referer");
    reveal_strlit("server");
    reveal_strlit("transfer-encoding");
    reveal_strlit("user-agent");
    reveal_strlit("vary");
    reveal_strlit("x-cache");
}

/// A value that can be read as text is valid as that text.
pub proof fn lemma_visible_value(v: Seq<u8>)
    ensures
        visible_text(v) matches Some(t) ==> valid_value(encode_utf8(t)),
{
    if let Some(t) = visible_text(v) {
        assert forall|i: int| 0 <= i < t.len() implies '\0' <= #[trigger] t[i] && t[i] <= '\u{7f}' by {
            assert(visible_byte(v[i]));
            assert(t[i] == v[i] as char);
        }
        is_ascii_chars_encode_utf8(t);
        let w = encode_utf8(t);
        assert forall|i: int| 0 <= i < w.len() implies value_byte(#[trigger] w[i]) by {
            assert(visible_byte(v[i]));
            assert(t[i] == v[i] as char);
            assert(w[i] == t[i] as u8);
        }
    }
}

/// A text of printable ASCII characters.
pub open spec fn printable(s: Seq<char>) -> bool {
    forall|i: int| 0 <= i < s.len() ==> ' ' <= #[trigger] s[i] && s[i] <= '~'
}

/// A value made of printable ASCII characters is valid.
pub proof fn lemma_printable_value(s: Seq<char>)
    requires
        printable(s),
    ensures
        valid_value(encode_utf8(s)),
        visible_text(encode_utf8(s)) == Some(s),
{
    assert(is_ascii_chars(s)) by {
        assert forall|i: int| 0 <= i < s.len() implies '\0' <= #[trigger] s[i] && s[i]
            <= '\u{7f}' by {
            assert(' ' <= s[i] && s[i] <= '~');
        }
    }
    is_ascii_chars_encode_utf8(s);
    let v = encode_utf8(s);
    assert forall|i: int| 0 <= i < v.len() implies value_byte(#[trigger] v[i]) && visible_byte(
        v[i],
    ) by {
        assert(' ' <= s[i] && s[i] <= '~');
        assert(v[i] == s[i] as u8);
    }
    assert forall|i: int| 0 <= i < v.len() implies byte_chars(v)[i] == #[trigger] s[i] by {
        assert(' ' <= s[i] && s[i] <= '~');
        assert(v[i] == s[i] as u8);
    }
    assert(byte_chars(v) =~= s);
}

} // verus!
