//! Trusted interface to the `bytes` crate: `bytes::Bytes` carries the opaque
//! payload run of a batch. The contents of a `Bytes` value are named by
//! `bytes_view`; every wrapper below states what the called `bytes` function
//! does to that sequence.
use vstd::prelude::*;

verus! {

#[verifier::external_type_specification]
#[verifier::external_body]
pub struct ExBytes(bytes::Bytes);

/// The byte sequence a `bytes::Bytes` value holds.
pub uninterp spec fn bytes_view(b: bytes::Bytes) -> Seq<u8>;

/// Relies on `Bytes::from(Vec<u8>)`: the new value holds exactly the
/// bytes of the vector.
#[verifier::external_body]
pub fn bytes_from_vec(v: Vec<u8>) -> (r: bytes::Bytes)
    ensures
        bytes_view(r) == v@,
{
    bytes::Bytes::from(v)
}

/// Relies on `Bytes::copy_from_slice`: the new value copies the slice.
#[verifier::external_body]
pub fn bytes_copy_from_slice(s: &[u8]) -> (r: bytes::Bytes)
    ensures
        bytes_view(r) == s@,
{
    bytes::Bytes::copy_from_slice(s)
}

/// Relies on `Bytes::len`: the number of bytes held.
#[verifier::external_body]
pub fn bytes_len(b: &bytes::Bytes) -> (r: usize)
    ensures
        r == bytes_view(*b).len(),
{
    b.len()
}

/// Relies on `<Bytes as Deref>::deref` to `[u8]` and
/// `Vec::extend_from_slice`: appends the held bytes to the vector.
#[verifier::external_body]
pub fn bytes_append_to(dst: &mut Vec<u8>, b: &bytes::Bytes)
    ensures
        final(dst)@ == old(dst)@ + bytes_view(*b),
{
    dst.extend_from_slice(b)
}

} // verus!
