//! Shared byte buffers: what a `bytes::Bytes` holds, and how it is made and read.
use bytes::Bytes;
use vstd::prelude::*;

verus! {

/// A shared byte buffer: opaque, reached through the functions of this module.
#[verifier::external_type_specification]
#[verifier::external_body]
pub struct ExBytes(Bytes);

/// The bytes that a buffer holds.
pub uninterp spec fn contents(b: Bytes) -> Seq<u8>;

/// Turns a vector into a buffer with the same bytes, by `Bytes::from`.
#[verifier::external_body]
pub(crate) fn from_vec(v: Vec<u8>) -> (r: Bytes)
    ensures
        contents(r) == v@,
{
    Bytes::from(v)
}

/// The bytes of a buffer, by its `deref` to a slice.
#[verifier::external_body]
pub(crate) fn as_slice(b: &Bytes) -> (r: &[u8])
    ensures
        r@ == contents(*b),
{
    b
}

/// A second handle to the same bytes, by `Bytes::clone`.
#[verifier::external_body]
pub(crate) fn share(b: &Bytes) -> (r: Bytes)
    ensures
        contents(r) == contents(*b),
{
    b.clone()
}

/// The bytes of a list of buffers, one behind the other.
pub open spec fn concatenated(chunks: Seq<Bytes>) -> Seq<u8>
    decreases chunks.len(),
{
    if chunks.len() == 0 {
        Seq::empty()
    } else {
        concatenated(chunks.drop_last()) + contents(chunks.last())
    }
}

/// One buffer with the bytes of all.
pub fn concat(chunks: &Vec<Bytes>) -> (r: Bytes)
    ensures
        contents(r) == concatenated(chunks@),
{
    let mut out: Vec<u8> = Vec::new();
    let mut i: usize = 0;
    assert(chunks@.take(0) =~= Seq::<Bytes>::empty());
    while i < chunks.len()
        invariant
            i <= chunks@.len(),
            out@ == concatenated(chunks@.take(i as int)),
        decreases chunks@.len() - i,
    {
        out.extend_from_slice(as_slice(&chunks[i]));
        assert(chunks@.take(i + 1).drop_last() =~= chunks@.take(i as int));
        i = i + 1;
    }
    assert(chunks@.take(i as int) =~= chunks@);
    from_vec(out)
}

} // verus!
