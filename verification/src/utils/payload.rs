//! Contracts for the reference-counted byte buffers that carry payloads.
//!
//! `bytes::Bytes` is opaque to the verifier. Its contents are named by
//! [`payload`], and each buffer operation the channels use is reached through
//! one function here whose contract is taken on trust from the `bytes` crate.

use bytes::Bytes;
use vstd::prelude::*;

verus! {

/// `bytes::Bytes`: carried through as it is; nothing inside it is looked at.
#[verifier::external_type_specification]
#[verifier::external_body]
pub struct ExBytes(Bytes);

/// The bytes that a buffer holds, in order.
pub uninterp spec fn payload(b: Bytes) -> Seq<u8>;

/// `Bytes::len`: the number of bytes in the buffer.
#[verifier::external_body]
pub(crate) fn payload_len(b: &Bytes) -> (n: usize)
    ensures
        n == payload(*b).len(),
{
    b.len()
}

/// `Clone::clone` on `Bytes`: a second handle on the same bytes.
pub assume_specification[ <Bytes as Clone>::clone ](b: &Bytes) -> (copy: Bytes)
    ensures
        payload(copy) == payload(*b),
;

/// `Bytes::slice` on the range `begin..end`: a handle on that part of the
/// buffer. The call panics unless `begin <= end <= len`, which the
/// precondition demands.
#[verifier::external_body]
pub(crate) fn payload_slice(b: &Bytes, begin: usize, end: usize) -> (part: Bytes)
    requires
        begin <= end <= payload(*b).len(),
    ensures
        payload(part) == payload(*b).subrange(begin as int, end as int),
{
    b.slice(begin..end)
}

/// `Bytes::from(Vec<u8>)`: a buffer that holds the vector's bytes.
#[verifier::external_body]
pub(crate) fn payload_from_vec(v: Vec<u8>) -> (b: Bytes)
    ensures
        payload(b) == v@,
{
    Bytes::from(v)
}

/// `AsRef<[u8]>` of `Bytes`: the buffer's bytes as a slice.
#[verifier::external_body]
pub(crate) fn payload_bytes(b: &Bytes) -> (bytes: &[u8])
    ensures
        bytes@ == payload(*b),
{
    b.as_ref()
}

} // verus!
