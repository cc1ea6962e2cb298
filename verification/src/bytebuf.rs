//! The wire buffer: `bytes::BytesMut`, the growable byte buffer the
//! protocol reads from and writes into. The buffer type is outside code, so
//! its contents are named by an uninterpreted view and each operation the
//! protocol needs is a trusted wrapper whose contract restates what the
//! `bytes` crate documents.
use bytes::Buf;
use bytes::BytesMut;
use vstd::prelude::*;

verus! {

#[verifier::external_type_specification]
#[verifier::external_body]
pub struct ExBytesMut(BytesMut);

/// The bytes the buffer currently holds, in order.
pub uninterp spec fn bm_view(b: BytesMut) -> Seq<u8>;

/// Relies on bytes::BytesMut::len: the number of bytes held.
#[verifier::external_body]
pub(crate) fn bm_len(b: &BytesMut) -> (r: usize)
    ensures
        r == bm_view(*b).len(),
{
    b.len()
}

/// Relies on bytes::BytesMut dereferencing to its byte slice: the byte at
/// index `i`.
#[verifier::external_body]
pub(crate) fn bm_byte(b: &BytesMut, i: usize) -> (r: u8)
    requires
        i < bm_view(*b).len(),
    ensures
        r == bm_view(*b)[i as int],
{
    b[i]
}

/// Relies on bytes::Buf::advance for BytesMut: discards the first `cnt`
/// bytes; it panics when `cnt` exceeds the length, which the contract
/// rules out.
#[verifier::external_body]
pub(crate) fn bm_advance(b: &mut BytesMut, cnt: usize)
    requires
        cnt <= bm_view(*old(b)).len(),
    ensures
        bm_view(*final(b)) == bm_view(*old(b)).skip(cnt as int),
{
    b.advance(cnt)
}

/// Relies on bytes::BytesMut::extend_from_slice: appends the slice's bytes.
#[verifier::external_body]
pub(crate) fn bm_extend(b: &mut BytesMut, s: &[u8])
    ensures
        bm_view(*final(b)) == bm_view(*old(b)) + s@,
{
    b.extend_from_slice(s)
}

} // verus!
