use vstd::prelude::*;
use shared_buffer::OwnedBuffer;

verus! {

#[verifier::external_type_specification]
#[verifier::external_body]
pub struct ExOwnedBuffer(OwnedBuffer);

/// The bytes held by an `OwnedBuffer`.
pub uninterp spec fn buffer_bytes(b: OwnedBuffer) -> Seq<u8>;

/// `OwnedBuffer::from(Vec<u8>)`: the buffer holds exactly the bytes of the
/// vector (the vector is moved into a `Bytes` without copying).
#[verifier::external_body]
pub(crate) fn buffer_from_vec(v: Vec<u8>) -> (r: OwnedBuffer)
    ensures
        buffer_bytes(r) == v@,
{
    OwnedBuffer::from(v)
}

/// `OwnedBuffer::clone`: a cheap clone sharing the same bytes.
#[verifier::external_body]
pub(crate) fn buffer_clone(b: &OwnedBuffer) -> (r: OwnedBuffer)
    ensures
        buffer_bytes(r) == buffer_bytes(*b),
{
    b.clone()
}

/// `OwnedBuffer::len` (through its `Deref` to `[u8]`): the number of bytes held.
#[verifier::external_body]
pub(crate) fn buffer_len(b: &OwnedBuffer) -> (r: usize)
    ensures
        r == buffer_bytes(*b).len(),
{
    b.len()
}

} // verus!
