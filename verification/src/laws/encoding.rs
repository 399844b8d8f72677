//! Laws on compression: which responses are compressed, how, and what the client gets.
use crate::laws::texts;
use crate::proxy::compression;
use crate::proxy::compression::{CompressionEncoding, CompressionStrategy};
use crate::proxy::context;
use crate::proxy::headers;
use crate::proxy::headers::Fields;
use crate::proxy::pipeline;
use crate::text;
use vstd::prelude::*;
use vstd::string::*;

verus! {

/// A text is made of something before a word, the word, and something behind it.
pub open spec fn holds(t: Seq<char>, word: Seq<char>) -> bool {
    exists|a: Seq<char>, b: Seq<char>| t == #[trigger] (a + word + b)
}

/// A text is made of a word and something behind it.
pub open spec fn begins(t: Seq<char>, word: Seq<char>) -> bool {
    exists|rest: Seq<char>| t == #[trigger] (word + rest)
}

proof fn lemma_holds(t: Seq<char>, word: Seq<char>)
    ensures
        text::has_infix(t, word) <==> holds(t, word),
{
    texts::law_infix_is_there(t, word);
    if holds(t, word) {
        let (a, b) = choose|a: Seq<char>, b: Seq<char>| t == #[trigger] (a + word + b);
        texts::law_infix_is_found(a, word, b);
    }
}

/// A content type is compressed for clients exactly if it begins with text/, application/json,
/// application/javascript or application/xml and holds none of zip, gzip and compressed.
pub proof fn law_compressible_types(t: Seq<char>)
    ensures
        compression::compressible_type(t) <==> (begins(t, "text/"@) || begins(
            t,
            "application/json"@,
        ) || begins(t, "application/javascript"@) || begins(t, "application/xml"@)) && !holds(
            t,
            "zip"@,
        ) && !holds(t, "gzip"@) && !holds(t, "compressed"@),
{
    texts::law_prefix(t, "text/"@);
    texts::law_prefix(t, "application/json"@);
    texts::law_prefix(t, "application/javascript"@);
    texts::law_prefix(t, "application/xml"@);
    lemma_holds(t, "zip"@);
    lemma_holds(t, "gzip"@);
    lemma_holds(t, "compressed"@);
}

/// A response is compressed exactly if it is not yet, and has a content type that is.
pub proof fn law_compressible_responses(f: Fields)
    ensures
        compression::compressible(f) <==> !f.dom().contains("content-encoding"@) && (
        headers::first_text(f, "content-type"@) matches Some(t) && compression::compressible_type(
            t,
        )),
{
}

/// A client gets brotli exactly if it names it, in any case; else zstd if it names that; else gzip
/// if it names that; else nothing.
pub proof fn law_chosen_encoding(accept: Seq<char>)
    ensures
        ({
            let t = text::lowered(accept);
            let chosen = compression::preferred(Some(accept));
            &&& holds(t, "br"@) ==> chosen == Some(CompressionEncoding::Brotli)
            &&& !holds(t, "br"@) && holds(t, "zstd"@) ==> chosen == Some(CompressionEncoding::Zstd)
            &&& !holds(t, "br"@) && !holds(t, "zstd"@) && holds(t, "gzip"@) ==> chosen == Some(
                CompressionEncoding::Gzip,
            )
            &&& !holds(t, "br"@) && !holds(t, "zstd"@) && !holds(t, "gzip"@) ==> chosen is None
        }),
{
    lemma_holds(text::lowered(accept), "br"@);
    lemma_holds(text::lowered(accept), "zstd"@);
    lemma_holds(text::lowered(accept), "gzip"@);
}

/// What is sent in an encoding is named as that in the headers.
pub proof fn law_names_of_encodings()
    ensures
        CompressionEncoding::Gzip.name() == "gzip"@,
        CompressionEncoding::Brotli.name() == "br"@,
        CompressionEncoding::Zstd.name() == "zstd"@,
        CompressionEncoding::Identity.name() == "identity"@,
{
}

/// The response is sent in an encoding exactly if it is one that is compressed and the client names
/// an encoding; it is then the one that the client gets.
pub proof fn law_encoding_of_responses(f: Fields, accept: Option<Seq<char>>)
    ensures
        pipeline::response_encoding(f, accept) == (if compression::compressible(f) {
            compression::preferred(accept)
        } else {
            None
        }),
        compression::preferred(None) is None,
{
}

/// Bodies below 150 bytes are sent as they are. Longer ones are compressed with gzip at level 6,
/// with brotli at quality 5 and a window of 22, or with zstd at level 3.
pub proof fn law_how_bodies_are_compressed(
    data: Seq<u8>,
    encoding: CompressionEncoding,
    z: Seq<u8>,
)
    ensures
        data.len() < 150 ==> (compression::encodes(data, encoding, Ok(z)) <==> z == data),
        compression::encodes(data, CompressionEncoding::Identity, Ok(z)) <==> z == data,
        data.len() >= 150 ==> (compression::encodes(data, CompressionEncoding::Gzip, Ok(z))
            <==> compression::gzip_of(data, 6) == Ok::<Seq<u8>, compression::CodecFaultV>(z)),
        data.len() >= 150 ==> (compression::encodes(data, CompressionEncoding::Brotli, Ok(z))
            <==> compression::brotli_makes(data, 5, 22, Some(z))),
        data.len() >= 150 ==> (compression::encodes(data, CompressionEncoding::Zstd, Ok(z))
            <==> compression::zstd_of(data, 3) == Ok::<Seq<u8>, compression::CodecFaultV>(z)),
{
}

/// Where compressing fails, the client gets the body as it is, and is not told of an encoding.
pub proof fn law_failed_compression(
    body: Seq<u8>,
    encoding: CompressionEncoding,
    error: Seq<char>,
    z: Seq<u8>,
)
    ensures
        pipeline::settled_body(body, encoding, Err(error)) == (body, CompressionEncoding::Identity),
        pipeline::settled_body(body, encoding, Ok(z)) == (z, encoding),
        context::settled_chunk(body, Err(error)) == body,
        context::settled_chunk(body, Ok(z)) == z,
{
}

/// A client that names no encoding gets the body as it is.
pub proof fn law_bodies_for_plain_clients(
    body: Seq<u8>,
    accept: Option<Seq<char>>,
    sent: Seq<u8>,
    encoding: CompressionEncoding,
)
    requires
        pipeline::sends_body(body, accept, sent, encoding),
        compression::preferred(accept) is None,
    ensures
        sent == body,
        encoding == CompressionEncoding::Identity,
{
}

/// A piece of a response that is sent as it is, or that is empty, is not changed.
pub proof fn law_plain_pieces(
    data: Seq<u8>,
    encoding: Option<CompressionEncoding>,
    out: Seq<u8>,
)
    requires
        encoding is None || data.len() < 150,
        context::sends_chunk(data, encoding, out),
    ensures
        out == data,
{
}

/// A cache that goes by the content type packs a body unless its type names one that is packed
/// already: images in AVIF, WebP, PNG or JPEG, web fonts, videos, archives, and all audio.
pub proof fn law_types_that_are_packed_already(t: Seq<char>)
    ensures
        CompressionStrategy::Auto.wants(Some(t)) <==> !(holds(t, "image/avif"@) || holds(
            t,
            "image/webp"@,
        ) || holds(t, "image/png"@) || holds(t, "image/jpeg"@) || holds(t, "font/woff2"@) || holds(
            t,
            "font/woff"@,
        ) || holds(t, "video/webm"@) || holds(t, "video/ogg"@) || holds(t, "video/mpeg"@) || holds(
            t,
            "video/mp4"@,
        ) || holds(t, "application/zip"@) || holds(t, "application/gzip"@) || holds(
            t,
            "application/x-compress"@,
        ) || holds(t, "application/x-gzip"@) || holds(t, "application/x-bzip2"@) || holds(
            t,
            "application/x-rar-compressed"@,
        ) || holds(t, "application/x-7z-compressed"@) || holds(t, "audio/"@)),
        CompressionStrategy::Auto.wants(None),
        CompressionStrategy::All.wants(Some(t)),
        !CompressionStrategy::Off.wants(Some(t)),
{
    let s = compression::skipped_types();
    assert forall|i: int| 0 <= i < s.len() implies text::has_infix(t, #[trigger] s[i]) <==> holds(
        t,
        s[i],
    ) by {
        lemma_holds(t, s[i]);
    }
    assert(s.len() == 18);
    assert(s[0] == "image/avif"@ && s[1] == "image/webp"@ && s[2] == "image/png"@);
    assert(s[3] == "image/jpeg"@ && s[4] == "font/woff2"@ && s[5] == "font/woff"@);
    assert(s[6] == "video/webm"@ && s[7] == "video/ogg"@ && s[8] == "video/mpeg"@);
    assert(s[9] == "video/mp4"@ && s[10] == "application/zip"@ && s[11] == "application/gzip"@);
    assert(s[12] == "application/x-compress"@ && s[13] == "application/x-gzip"@);
    assert(s[14] == "application/x-bzip2"@ && s[15] == "application/x-rar-compressed"@);
    assert(s[16] == "application/x-7z-compressed"@ && s[17] == "audio/"@);
}

} // verus!
