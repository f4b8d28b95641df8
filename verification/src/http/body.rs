//! Reference-counted byte buffers.

use bytes::Bytes;

use vstd::prelude::*;

verus! {

/// The byte buffer of the `bytes` crate: cheap to clone, immutable contents.
#[verifier::external_type_specification]
#[verifier::external_body]
pub struct ExBytes(Bytes);

/// The bytes that a buffer holds.
pub uninterp spec fn content(data: Bytes) -> Seq<u8>;

/// Calls `Bytes::from` on a vector: the buffer holds the bytes of the vector.
#[verifier::external_body]
pub(crate) fn bytes_from_vec(data: Vec<u8>) -> (r: Bytes)
    ensures
        content(r) == data@,
{
    Bytes::from(data)
}

/// Calls `Bytes::clone`: the clone shares the bytes of the buffer.
#[verifier::external_body]
pub(crate) fn bytes_clone(data: &Bytes) -> (r: Bytes)
    ensures
        content(r) == content(*data),
{
    data.clone()
}

} // verus!
