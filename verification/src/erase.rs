//! Wiping secrets from memory.

use vstd::prelude::*;

use zeroize::Zeroize;

use crate::cipher::KEY_SIZE;

verus! {

/// Overwrites the bytes of `v` with zeros and empties it, with
/// `Zeroize::zeroize` for `Vec<u8>` (zeroize crate).
///
/// Trusted: the vector is empty afterwards (the crate clears it after the
/// volatile writes). That the old bytes are gone from memory is not stated.
#[verifier::external_body]
pub(crate) fn zeroize_bytes(v: &mut Vec<u8>)
    ensures
        final(v)@ == Seq::<u8>::empty(),
{
    v.zeroize();
}

/// Overwrites a key with zeros, with `Zeroize::zeroize` for `[u8; N]`
/// (zeroize crate).
///
/// Trusted: every byte of the key is zero afterwards.
#[verifier::external_body]
pub(crate) fn zeroize_key(key: &mut [u8; KEY_SIZE])
    ensures
        final(key)@ == Seq::new(KEY_SIZE as nat, |i: int| 0u8),
{
    key.zeroize();
}

} // verus!
