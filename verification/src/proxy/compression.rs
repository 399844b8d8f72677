//! Compression of responses for clients and of bodies for the cache.
use crate::proxy::buffer;
use crate::proxy::headers;
use crate::text;
use bytes::Bytes;
use pingora_http::{RequestHeader, ResponseHeader};
use std::io::{Read, Write};
use vstd::prelude::*;
use vstd::string::*;

verus! {

/// The level at which gzip compresses.
pub const DEFAULT_GZIP_LEVEL: u32 = 6;

/// The quality at which brotli compresses.
pub const DEFAULT_BROTLI_QUALITY: i32 = 5;

/// The window size of brotli.
pub const BROTLI_WINDOW: i32 = 22;

/// The level at which zstd compresses.
pub const DEFAULT_ZSTD_LEVEL: i32 = 3;

/// Bodies below this size are sent as they are.
pub const MIN_COMPRESSED_SIZE: usize = 150;

/// Content types whose bodies the cache leaves as they are.
pub open spec fn skipped_types() -> Seq<Seq<char>> {
    seq![
        "image/avif"@,
        "image/webp"@,
        "image/png"@,
        "image/jpeg"@,
        "font/woff2"@,
        "font/woff"@,
        "video/webm"@,
        "video/ogg"@,
        "video/mpeg"@,
        "video/mp4"@,
        "application/zip"@,
        "application/gzip"@,
        "application/x-compress"@,
        "application/x-gzip"@,
        "application/x-bzip2"@,
        "application/x-rar-compressed"@,
        "application/x-7z-compressed"@,
        "audio/"@,
    ]
}

/// Content types whose bodies the cache leaves as they are.
pub fn skip_compression() -> (r: Vec<&'static str>)
    ensures
        text::texts(r@) == skipped_types(),
{
    let r = vec![
        "image/avif",
        "image/webp",
        "image/png",
        "image/jpeg",
        "font/woff2",
        "font/woff",
        "video/webm",
        "video/ogg",
        "video/mpeg",
        "video/mp4",
        "application/zip",
        "application/gzip",
        "application/x-compress",
        "application/x-gzip",
        "application/x-bzip2",
        "application/x-rar-compressed",
        "application/x-7z-compressed",
        "audio/",
    ];
    assert(text::texts(r@) =~= skipped_types());
    r
}

/// A content type that names one of those.
pub open spec fn type_skipped(t: Seq<char>) -> bool {
    exists|i: int|
        0 <= i < skipped_types().len() && text::has_infix(t, #[trigger] skipped_types()[i])
}

/// Whether a content type names one of those.
fn is_skipped(t: &str) -> (r: bool)
    ensures
        r == type_skipped(t@),
{
    let skip = skip_compression();
    let mut i: usize = 0;
    while i < skip.len()
        invariant
            i <= skip@.len(),
            text::texts(skip@) == skipped_types(),
            forall|j: int| 0 <= j < i ==> !text::has_infix(t@, #[trigger] skipped_types()[j]),
        decreases skip@.len() - i,
    {
        assert(skipped_types()[i as int] == skip@[i as int]@);
        if text::contains(t, skip[i]) {
            return true;
        }
        i = i + 1;
    }
    false
}

/// How the cache compresses bodies.
#[derive(Clone, Copy, Debug, PartialEq, Eq, Structural)]
pub enum CompressionStrategy {
    /// Not at all.
    Off,
    /// Every body.
    All,
    /// By content type.
    Auto,
}

impl Default for CompressionStrategy {
    fn default() -> (r: Self)
        ensures
            r == CompressionStrategy::Auto,
    {
        CompressionStrategy::Auto
    }
}

/// At which step a compressor failed, and the text of its error.
#[derive(Debug)]
pub enum CodecFault {
    Create(String),
    Write(String),
    Finish(String),
}

/// The contents of a `CodecFault`.
pub enum CodecFaultV {
    Create(Seq<char>),
    Write(Seq<char>),
    Finish(Seq<char>),
}

impl View for CodecFault {
    type V = CodecFaultV;

    open spec fn view(&self) -> CodecFaultV {
        match self {
            CodecFault::Create(e) => CodecFaultV::Create(e@),
            CodecFault::Write(e) => CodecFaultV::Write(e@),
            CodecFault::Finish(e) => CodecFaultV::Finish(e@),
        }
    }
}

/// The contents of what a compressor returned.
pub open spec fn codec_view(r: Result<Vec<u8>, CodecFault>) -> Result<Seq<u8>, CodecFaultV> {
    match r {
        Ok(v) => Ok(v@),
        Err(e) => Err(e@),
    }
}

/// What `flate2::write::GzEncoder` makes of `data` at a level.
pub uninterp spec fn gzip_of(data: Seq<u8>, level: u32) -> Result<Seq<u8>, CodecFaultV>;

/// What `flate2::read::GzDecoder` reads out of `data`, or the text of its error.
pub uninterp spec fn gunzip_of(data: Seq<u8>) -> Result<Seq<u8>, Seq<char>>;

/// `outcome` can be what `brotli::enc::BrotliCompress` makes of `data`, `None` where it fails.
///
/// Two runs on the same data need not agree: what the encoder chooses rests on floating-point
/// logarithms, whose last digits are a matter of the machine.
pub uninterp spec fn brotli_makes(
    data: Seq<u8>,
    quality: i32,
    lgwin: i32,
    outcome: Option<Seq<u8>>,
) -> bool;

/// What `zstd::Encoder` makes of `data` at a level.
pub uninterp spec fn zstd_of(data: Seq<u8>, level: i32) -> Result<Seq<u8>, CodecFaultV>;

/// Compresses with `flate2::write::GzEncoder`: all of `data` is written, then the stream is
/// finished. The contract claims that the outcome depends on the bytes and the level alone, and
/// that `flate2::read::GzDecoder` gives the bytes back.
#[verifier::external_body]
fn gzip(data: &[u8], level: u32) -> (r: Result<Vec<u8>, CodecFault>)
    requires
        level <= 9,
    ensures
        codec_view(r) == gzip_of(data@, level),
        match r {
            Ok(z) => gunzip_of(z@) == Ok::<Seq<u8>, Seq<char>>(data@),
            Err(_) => true,
        },
{
    let mut encoder = flate2::write::GzEncoder::new(
        Vec::with_capacity(data.len()),
        flate2::Compression::new(level),
    );
    encoder.write_all(data).map_err(|e| CodecFault::Write(e.to_string()))?;
    encoder.finish().map_err(|e| CodecFault::Finish(e.to_string()))
}

/// Decompresses with `flate2::read::GzDecoder`, up to the end of its stream. The contract claims
/// that the outcome depends on the bytes alone.
#[verifier::external_body]
fn gunzip(data: &[u8]) -> (r: Result<Vec<u8>, String>)
    ensures
        match r {
            Ok(v) => gunzip_of(data@) == Ok::<Seq<u8>, Seq<char>>(v@),
            Err(e) => gunzip_of(data@) == Err::<Seq<u8>, Seq<char>>(e@),
        },
{
    let mut out = Vec::new();
    match flate2::read::GzDecoder::new(data).read_to_end(&mut out) {
        Ok(_) => Ok(out),
        Err(e) => Err(e.to_string()),
    }
}

/// Compresses with `brotli::enc::BrotliCompress`. The contract claims that the outcome is one that
/// the call can have on these bytes with this quality and this window size; which one, and when it
/// fails, is left unsaid.
#[verifier::external_body]
fn brotli(data: &[u8], quality: i32, lgwin: i32) -> (r: Option<Vec<u8>>)
    requires
        0 <= quality <= 11,
        10 <= lgwin <= 24,
    ensures
        match r {
            Some(v) => brotli_makes(data@, quality, lgwin, Some(v@)),
            None => brotli_makes(data@, quality, lgwin, None),
        },
{
    let mut out = Vec::with_capacity(data.len());
    let params = brotli::enc::BrotliEncoderParams { quality, lgwin, ..Default::default() };
    match brotli::enc::BrotliCompress(&mut std::io::Cursor::new(data), &mut out, &params) {
        Ok(_) => Some(out),
        Err(_) => None,
    }
}

/// Compresses with `zstd::Encoder`: it is created, all of `data` is written, then the stream is
/// finished. The contract claims that the outcome depends on the bytes and the level alone.
#[verifier::external_body]
fn zstd(data: &[u8], level: i32) -> (r: Result<Vec<u8>, CodecFault>)
    requires
        1 <= level <= 22,
    ensures
        codec_view(r) == zstd_of(data@, level),
{
    let mut encoder = zstd::Encoder::new(Vec::with_capacity(data.len()), level)
        .map_err(|e| CodecFault::Create(e.to_string()))?;
    encoder.write_all(data).map_err(|e| CodecFault::Write(e.to_string()))?;
    encoder.finish().map_err(|e| CodecFault::Finish(e.to_string()))
}

/// The buffer or the message that gzip's outcome stands for.
pub open spec fn gzip_meaning(r: Result<Seq<u8>, CodecFaultV>) -> Result<Seq<u8>, Seq<char>> {
    match r {
        Ok(z) => Ok(z),
        Err(CodecFaultV::Finish(e)) => Err("Gzip compression finish error: "@ + e),
        Err(CodecFaultV::Write(e)) => Err("Gzip compression error: "@ + e),
        Err(CodecFaultV::Create(e)) => Err("Gzip compression error: "@ + e),
    }
}

/// The buffer or the message that the outcome of reading gzip stands for.
pub open spec fn gunzip_meaning(r: Result<Seq<u8>, Seq<char>>) -> Result<Seq<u8>, Seq<char>> {
    match r {
        Ok(d) => Ok(d),
        Err(e) => Err("Gzip decompression error: "@ + e),
    }
}

/// `out` can be the buffer or the message that compressing `data` with brotli comes to.
pub open spec fn brotli_meaning(data: Seq<u8>, out: Result<Seq<u8>, Seq<char>>) -> bool {
    match out {
        Ok(z) => brotli_makes(data, DEFAULT_BROTLI_QUALITY, BROTLI_WINDOW, Some(z)),
        Err(e) => e == "Brotli compression failed"@ && brotli_makes(
            data,
            DEFAULT_BROTLI_QUALITY,
            BROTLI_WINDOW,
            None,
        ),
    }
}

/// The buffer or the message that zstd's outcome stands for.
pub open spec fn zstd_meaning(r: Result<Seq<u8>, CodecFaultV>) -> Result<Seq<u8>, Seq<char>> {
    match r {
        Ok(z) => Ok(z),
        Err(CodecFaultV::Create(e)) => Err("Zstd encoder creation error: "@ + e),
        Err(CodecFaultV::Write(e)) => Err("Zstd compression error: "@ + e),
        Err(CodecFaultV::Finish(e)) => Err("Zstd compression finish error: "@ + e),
    }
}

/// The contents of a buffer or of a message.
pub open spec fn outcome_view(r: Result<Bytes, String>) -> Result<Seq<u8>, Seq<char>> {
    match r {
        Ok(b) => Ok(buffer::contents(b)),
        Err(e) => Err(e@),
    }
}

/// A message with the text of an error behind it.
fn with_cause(message: &str, cause: &String) -> (r: String)
    ensures
        r@ == message@ + cause@,
{
    String::from_str(message).concat(cause.as_str())
}

/// Compression of buffers.
pub struct CompressUtils;

impl CompressUtils {
    /// The buffer that gzip made, or the message of its fault.
    pub fn gzip_outcome(r: Result<Vec<u8>, CodecFault>) -> (out: Result<Bytes, String>)
        ensures
            outcome_view(out) == gzip_meaning(codec_view(r)),
    {
        match r {
            Ok(z) => Ok(buffer::from_vec(z)),
            Err(CodecFault::Finish(e)) => Err(with_cause("Gzip compression finish error: ", &e)),
            Err(CodecFault::Write(e)) => Err(with_cause("Gzip compression error: ", &e)),
            Err(CodecFault::Create(e)) => Err(with_cause("Gzip compression error: ", &e)),
        }
    }

    /// The buffer that was read out of gzip, or the message of its fault.
    pub fn gunzip_outcome(r: Result<Vec<u8>, String>) -> (out: Result<Bytes, String>)
        ensures
            match r {
                Ok(v) => out matches Ok(b) && buffer::contents(b) == v@,
                Err(e) => out matches Err(m) && m@ == "Gzip decompression error: "@ + e@,
            },
    {
        match r {
            Ok(v) => Ok(buffer::from_vec(v)),
            Err(e) => Err(with_cause("Gzip decompression error: ", &e)),
        }
    }

    /// The buffer that brotli made, or the message of its fault.
    pub fn brotli_outcome(r: Option<Vec<u8>>) -> (out: Result<Bytes, String>)
        ensures
            match r {
                Some(v) => out matches Ok(b) && buffer::contents(b) == v@,
                None => out matches Err(m) && m@ == "Brotli compression failed"@,
            },
    {
        match r {
            Some(v) => Ok(buffer::from_vec(v)),
            None => Err("Brotli compression failed".to_owned()),
        }
    }

    /// The buffer that zstd made, or the message of its fault.
    pub fn zstd_outcome(r: Result<Vec<u8>, CodecFault>) -> (out: Result<Bytes, String>)
        ensures
            outcome_view(out) == zstd_meaning(codec_view(r)),
    {
        match r {
            Ok(z) => Ok(buffer::from_vec(z)),
            Err(CodecFault::Create(e)) => Err(with_cause("Zstd encoder creation error: ", &e)),
            Err(CodecFault::Write(e)) => Err(with_cause("Zstd compression error: ", &e)),
            Err(CodecFault::Finish(e)) => Err(with_cause("Zstd compression finish error: ", &e)),
        }
    }

    /// Compresses with gzip; decompression gives the bytes back.
    pub fn compress_gzip(data: &Bytes) -> (r: Result<Bytes, String>)
        ensures
            outcome_view(r) == gzip_meaning(gzip_of(buffer::contents(*data), DEFAULT_GZIP_LEVEL)),
            r matches Ok(z) ==> gunzip_of(buffer::contents(z)) == Ok::<Seq<u8>, Seq<char>>(
                buffer::contents(*data),
            ),
    {
        CompressUtils::gzip_outcome(gzip(buffer::as_slice(data), DEFAULT_GZIP_LEVEL))
    }

    /// Decompresses gzip.
    pub fn decompress_gzip(data: &Bytes) -> (r: Result<Bytes, String>)
        ensures
            outcome_view(r) == gunzip_meaning(gunzip_of(buffer::contents(*data))),
    {
        CompressUtils::gunzip_outcome(gunzip(buffer::as_slice(data)))
    }

    /// Compresses with brotli.
    pub fn compress_brotli(data: &Bytes) -> (r: Result<Bytes, String>)
        ensures
            brotli_meaning(buffer::contents(*data), outcome_view(r)),
    {
        CompressUtils::brotli_outcome(
            brotli(buffer::as_slice(data), DEFAULT_BROTLI_QUALITY, BROTLI_WINDOW),
        )
    }

    /// Compresses with zstd.
    pub fn compress_zstd(data: &Bytes) -> (r: Result<Bytes, String>)
        ensures
            outcome_view(r) == zstd_meaning(zstd_of(buffer::contents(*data), DEFAULT_ZSTD_LEVEL)),
    {
        CompressUtils::zstd_outcome(zstd(buffer::as_slice(data), DEFAULT_ZSTD_LEVEL))
    }
}

impl CompressionStrategy {
    /// Whether bodies of a content type are to be compressed.
    pub open spec fn wants(self, content_type: Option<Seq<char>>) -> bool {
        match self {
            CompressionStrategy::Off => false,
            CompressionStrategy::All => true,
            CompressionStrategy::Auto => match content_type {
                Some(t) => !type_skipped(t),
                None => true,
            },
        }
    }

    /// What a body becomes in the cache.
    pub open spec fn packed(self, data: Seq<u8>) -> Result<Seq<u8>, Seq<char>> {
        match self {
            CompressionStrategy::All => gzip_meaning(gzip_of(data, DEFAULT_GZIP_LEVEL)),
            _ => Ok(data),
        }
    }

    /// What a body in the cache stands for.
    pub open spec fn unpacked(self, data: Seq<u8>) -> Result<Seq<u8>, Seq<char>> {
        match self {
            CompressionStrategy::All => gunzip_meaning(gunzip_of(data)),
            _ => Ok(data),
        }
    }

    /// Whether bodies of a content type are to be compressed.
    pub fn should_compress(&self, content_type: Option<&str>) -> (r: bool)
        ensures
            r == self.wants(
                match content_type {
                    Some(t) => Some(t@),
                    None => None,
                },
            ),
    {
        match self {
            CompressionStrategy::Off => false,
            CompressionStrategy::All => true,
            CompressionStrategy::Auto => match content_type {
                Some(t) => !is_skipped(t),
                None => true,
            },
        }
    }

    /// Packs a body for the cache; what is packed unpacks to the body.
    pub fn compress(&self, data: Bytes) -> (r: Result<Bytes, String>)
        ensures
            outcome_view(r) == self.packed(buffer::contents(data)),
            r matches Ok(z) ==> self.unpacked(buffer::contents(z)) == Ok::<Seq<u8>, Seq<char>>(
                buffer::contents(data),
            ),
    {
        match self {
            CompressionStrategy::All => CompressUtils::compress_gzip(&data),
            CompressionStrategy::Off => Ok(data),
            CompressionStrategy::Auto => Ok(data),
        }
    }

    /// Unpacks a body of the cache.
    pub fn decompress(&self, data: &Bytes) -> (r: Result<Bytes, String>)
        ensures
            outcome_view(r) == self.unpacked(buffer::contents(*data)),
    {
        match self {
            CompressionStrategy::All => CompressUtils::decompress_gzip(data),
            CompressionStrategy::Off => Ok(buffer::share(data)),
            CompressionStrategy::Auto => Ok(buffer::share(data)),
        }
    }
}

/// How a response can be encoded.
#[derive(Clone, Copy, Debug, PartialEq, Eq, Structural)]
pub enum CompressionEncoding {
    Gzip,
    Brotli,
    Zstd,
    /// As it is.
    Identity,
}

impl CompressionEncoding {
    /// The name of the encoding in headers.
    pub open spec fn name(self) -> Seq<char> {
        match self {
            CompressionEncoding::Gzip => "gzip"@,
            CompressionEncoding::Brotli => "br"@,
            CompressionEncoding::Zstd => "zstd"@,
            CompressionEncoding::Identity => "identity"@,
        }
    }

    /// The name of the encoding in headers.
    pub fn as_str(&self) -> (r: &'static str)
        ensures
            r@ == self.name(),
    {
        match self {
            CompressionEncoding::Gzip => "gzip",
            CompressionEncoding::Brotli => "br",
            CompressionEncoding::Zstd => "zstd",
            CompressionEncoding::Identity => "identity",
        }
    }

    /// All encodings, the most wanted first.
    pub fn all_supported() -> (r: &'static [CompressionEncoding])
        ensures
            r@ == seq![
                CompressionEncoding::Brotli,
                CompressionEncoding::Zstd,
                CompressionEncoding::Gzip,
                CompressionEncoding::Identity,
            ],
    {
        &[
            CompressionEncoding::Brotli,
            CompressionEncoding::Zstd,
            CompressionEncoding::Gzip,
            CompressionEncoding::Identity,
        ]
    }
}

/// The encoding to use for a client that accepts what `accept` says.
pub open spec fn preferred(accept: Option<Seq<char>>) -> Option<CompressionEncoding> {
    match accept {
        Some(t) => if text::has_infix(text::lowered(t), "br"@) {
            Some(CompressionEncoding::Brotli)
        } else if text::has_infix(text::lowered(t), "zstd"@) {
            Some(CompressionEncoding::Zstd)
        } else if text::has_infix(text::lowered(t), "gzip"@) {
            Some(CompressionEncoding::Gzip)
        } else {
            None
        },
        None => None,
    }
}

/// A content type whose bodies are compressed for clients.
pub open spec fn compressible_type(t: Seq<char>) -> bool {
    &&& text::has_prefix(t, "text/"@) || text::has_prefix(t, "application/json"@)
        || text::has_prefix(t, "application/javascript"@) || text::has_prefix(
        t,
        "application/xml"@,
    )
    &&& !text::has_infix(t, "zip"@)
    &&& !text::has_infix(t, "gzip"@)
    &&& !text::has_infix(t, "compressed"@)
}

/// A response that is compressed for clients that want it.
pub open spec fn compressible(f: headers::Fields) -> bool {
    !f.dom().contains("content-encoding"@) && match headers::first_text(f, "content-type"@) {
        Some(t) => compressible_type(t),
        None => false,
    }
}

/// `out` can be what compressing a body for a client comes to. Only brotli leaves a choice.
pub open spec fn encodes(
    data: Seq<u8>,
    encoding: CompressionEncoding,
    out: Result<Seq<u8>, Seq<char>>,
) -> bool {
    if data.len() < MIN_COMPRESSED_SIZE {
        out == Ok::<Seq<u8>, Seq<char>>(data)
    } else {
        match encoding {
            CompressionEncoding::Gzip => out == gzip_meaning(gzip_of(data, DEFAULT_GZIP_LEVEL)),
            CompressionEncoding::Brotli => brotli_meaning(data, out),
            CompressionEncoding::Zstd => out == zstd_meaning(zstd_of(data, DEFAULT_ZSTD_LEVEL)),
            CompressionEncoding::Identity => out == Ok::<Seq<u8>, Seq<char>>(data),
        }
    }
}

/// Compression for clients.
pub struct ClientCompression;

impl ClientCompression {
    /// The encoding to use for a client that sends `accept` in its accept-encoding field.
    pub fn choose_encoding(accept: Option<&str>) -> (r: Option<CompressionEncoding>)
        ensures
            r == preferred(
                match accept {
                    Some(t) => Some(t@),
                    None => None,
                },
            ),
    {
        match accept {
            Some(t) => {
                let lower = text::to_lower(t);
                let all = CompressionEncoding::all_supported();
                let mut i: usize = 0;
                while i < all.len()
                    invariant
                        i <= all@.len(),
                        lower@ == text::lowered(t@),
                        accept == Some(t),
                        all@ == seq![
                            CompressionEncoding::Brotli,
                            CompressionEncoding::Zstd,
                            CompressionEncoding::Gzip,
                            CompressionEncoding::Identity,
                        ],
                        forall|j: int|
                            0 <= j < i && all@[j] != CompressionEncoding::Identity
                                ==> !text::has_infix(lower@, (#[trigger] all@[j]).name()),
                    decreases all@.len() - i,
                {
                    let encoding = all[i];
                    if encoding != CompressionEncoding::Identity && text::contains(
                        lower.as_str(),
                        encoding.as_str(),
                    ) {
                        assert(i > 0 ==> !text::has_infix(lower@, all@[0].name()));
                        assert(i > 1 ==> !text::has_infix(lower@, all@[1].name()));
                        return Some(encoding);
                    }
                    i = i + 1;
                }
                assert(!text::has_infix(lower@, all@[0].name()));
                assert(!text::has_infix(lower@, all@[1].name()));
                assert(!text::has_infix(lower@, all@[2].name()));
                None
            },
            None => None,
        }
    }

    /// The encoding to use for a request.
    pub fn select_encoding(req_header: &RequestHeader) -> (r: Option<CompressionEncoding>)
        ensures
            r == preferred(
                headers::first_text(headers::request_fields(*req_header), "accept-encoding"@),
            ),
    {
        proof {
            headers::lemma_own_names();
        }
        match headers::request_text(req_header, "accept-encoding") {
            Some(t) => ClientCompression::choose_encoding(Some(t.as_str())),
            None => None,
        }
    }

    /// Whether bodies of a content type are compressed for clients.
    pub fn is_compressible_type(t: &str) -> (r: bool)
        ensures
            r == compressible_type(t@),
    {
        (text::starts_with(t, "text/") || text::starts_with(t, "application/json")
            || text::starts_with(t, "application/javascript") || text::starts_with(
            t,
            "application/xml",
        )) && !text::contains(t, "zip") && !text::contains(t, "gzip") && !text::contains(
            t,
            "compressed",
        )
    }

    /// Whether a response is to be compressed.
    pub fn should_compress(resp_header: &ResponseHeader) -> (r: bool)
        ensures
            r == compressible(headers::response_fields(*resp_header)),
    {
        proof {
            headers::lemma_own_names();
        }
        if headers::response_get(resp_header, "content-encoding").is_some() {
            return false;
        }
        match headers::response_text(resp_header, "content-type") {
            Some(t) => ClientCompression::is_compressible_type(t.as_str()),
            None => false,
        }
    }

    /// Compresses a body for a client.
    pub fn compress(data: &Bytes, encoding: CompressionEncoding) -> (r: Result<Bytes, String>)
        ensures
            encodes(buffer::contents(*data), encoding, outcome_view(r)),
    {
        if buffer::as_slice(data).len() < MIN_COMPRESSED_SIZE {
            return Ok(buffer::share(data));
        }
        match encoding {
            CompressionEncoding::Gzip => CompressUtils::compress_gzip(data),
            CompressionEncoding::Brotli => CompressUtils::compress_brotli(data),
            CompressionEncoding::Zstd => CompressUtils::compress_zstd(data),
            CompressionEncoding::Identity => Ok(buffer::share(data)),
        }
    }
}

/// An encoding is only chosen that the client names, and the most wanted of those: brotli before
/// zstd before gzip. None is chosen only where the client names none.
pub proof fn law_encoding_is_the_most_wanted(accept: Seq<char>)
    ensures
        match preferred(Some(accept)) {
            Some(CompressionEncoding::Brotli) => text::has_infix(text::lowered(accept), "br"@),
            Some(CompressionEncoding::Zstd) => text::has_infix(text::lowered(accept), "zstd"@)
                && !text::has_infix(text::lowered(accept), "br"@),
            Some(CompressionEncoding::Gzip) => text::has_infix(text::lowered(accept), "gzip"@)
                && !text::has_infix(text::lowered(accept), "br"@) && !text::has_infix(
                text::lowered(accept),
                "zstd"@,
            ),
            Some(CompressionEncoding::Identity) => false,
            None => !text::has_infix(text::lowered(accept), "br"@) && !text::has_infix(
                text::lowered(accept),
                "zstd"@,
            ) && !text::has_infix(text::lowered(accept), "gzip"@),
        },
        preferred(None) is None,
{
}

} // verus!
