//! SHA-256 over a byte stream that arrives in pieces (`sha2::Sha256`).

use vstd::prelude::*;

verus! {

/// A SHA-256 computation in progress.
///
/// Verus cannot take `sha2::Sha256` as a declared outside type (it is an alias
/// of a generic wrapper over typenum-parameterised cores), so the hasher is held
/// in this opaque struct; [`sha256_absorbed`] names what it has been fed.
#[verifier::external_body]
pub struct Sha256Stream {
    inner: sha2::Sha256,
}

/// The bytes fed to a hasher since it was created, in order.
pub uninterp spec fn sha256_absorbed(h: Sha256Stream) -> Seq<u8>;

/// The SHA-256 digest of `data`, as `sha2::Sha256` computes it.
pub uninterp spec fn sha256(data: Seq<u8>) -> Seq<u8>;

/// `<sha2::Sha256 as Digest>::new`: a hasher that has absorbed nothing.
#[verifier::external_body]
pub(crate) fn sha256_new() -> (h: Sha256Stream)
    ensures
        sha256_absorbed(h) == Seq::<u8>::empty(),
{
    Sha256Stream { inner: <sha2::Sha256 as sha2::Digest>::new() }
}

/// `Digest::update`: the hasher has absorbed `data` after what it held.
#[verifier::external_body]
pub(crate) fn sha256_update(h: &mut Sha256Stream, data: &[u8])
    ensures
        sha256_absorbed(*final(h)) == sha256_absorbed(*old(h)) + data@,
{
    sha2::Digest::update(&mut h.inner, data);
}

/// `Digest::finalize`: the digest of everything the hasher absorbed, the same
/// value a one-shot hash of the concatenation gives.
#[verifier::external_body]
pub(crate) fn sha256_finalize(h: Sha256Stream) -> (r: [u8; 32])
    ensures
        r@ == sha256(sha256_absorbed(h)),
{
    sha2::Digest::finalize(h.inner).into()
}

} // verus!
