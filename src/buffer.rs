use vstd::prelude::*;
use bytes::{Buf, Bytes};

verus! {

/// `bytes::Bytes`, the cursor over an archive's bytes that the decoders consume.
#[verifier::external_type_specification]
#[verifier::external_body]
pub struct ExBytes(Bytes);

/// The bytes that remain in a buffer.
pub uninterp spec fn bytes_view(b: Bytes) -> Seq<u8>;

/// Relies on `AsRef<[u8]> for Bytes`: the slice of the bytes that remain.
#[verifier::external_body]
pub(crate) fn remaining_slice(b: &Bytes) -> (r: &[u8])
    ensures
        r@ == bytes_view(*b),
{
    b.as_ref()
}

/// Relies on `Buf::advance` for `Bytes`: drops the first `n` bytes (it panics past the end).
#[verifier::external_body]
pub(crate) fn advance(b: &mut Bytes, n: usize)
    requires
        n <= bytes_view(*old(b)).len(),
    ensures
        bytes_view(*final(b)) == bytes_view(*old(b)).skip(n as int),
{
    b.advance(n)
}

} // verus!
