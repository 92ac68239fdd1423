//! XChaCha20-Poly1305 sealing and opening of single chunks, and fresh nonces.

use vstd::prelude::*;

use aead::rand_core::RngCore;
use aead::OsRng;
use chacha20poly1305::{AeadInPlace, Key, KeyInit, Tag, XChaCha20Poly1305, XNonce};

use crate::frame::{NONCE_SIZE, TAG_SIZE};

verus! {

/// Size in bytes of a cipher key.
pub const KEY_SIZE: usize = 32;

/// The ciphertext and tag that XChaCha20-Poly1305 produces for a plaintext
/// under a key, a nonce and associated data.
pub uninterp spec fn xchacha20poly1305_seal(
    key: Seq<u8>,
    nonce: Seq<u8>,
    associated_data: Seq<u8>,
    plaintext: Seq<u8>,
) -> (Seq<u8>, Seq<u8>);

/// The longest message, in bytes, that the cipher seals or opens: the
/// keystream of one nonce has `u32::MAX` blocks of 64 bytes, and the first
/// one is spent on the Poly1305 key.
pub const CIPHER_MAX_LEN: u64 = 64 * (0xffff_ffff - 1);

/// Whether the cipher handles a message of `len` bytes without running out
/// of keystream.
pub open spec fn cipher_accepts_len(len: nat) -> bool {
    len <= CIPHER_MAX_LEN
}

/// `plaintext` is within the cipher's limit and seals, under the key, the
/// nonce and the associated data, to `ciphertext` and `tag`.
pub open spec fn chunk_opens_to(
    key: Seq<u8>,
    associated_data: Seq<u8>,
    nonce: Seq<u8>,
    ciphertext: Seq<u8>,
    tag: Seq<u8>,
    plaintext: Seq<u8>,
) -> bool {
    &&& cipher_accepts_len(plaintext.len())
    &&& xchacha20poly1305_seal(key, nonce, associated_data, plaintext) == (ciphertext, tag)
}

/// The bytes in an optional vector.
pub open spec fn bytes_of(v: Option<Vec<u8>>) -> Option<Seq<u8>> {
    match v {
        Some(b) => Some(b@),
        None => None,
    }
}

/// Seals `plaintext` with `AeadInPlace::encrypt_in_place_detached` of
/// `XChaCha20Poly1305` (chacha20poly1305 crate).
///
/// Trusted: within the keystream limit the call succeeds (the crate refuses
/// only messages of `u32::MAX` blocks or more, and the stream cipher, started
/// at block 1, has keystream for this length); the result is the named
/// sealing of the arguments; the ciphertext is as long as the plaintext and
/// the tag has 16 bytes. Longer messages are not admitted: on some of them
/// the crate panics.
#[verifier::external_body]
pub(crate) fn seal(key: &[u8; KEY_SIZE], nonce: &[u8], associated_data: &[u8], plaintext: &[u8]) -> (r:
    Option<(Vec<u8>, Vec<u8>)>)
    requires
        nonce@.len() == NONCE_SIZE,
        cipher_accepts_len(plaintext@.len()),
    ensures
        r is Some,
        r matches Some((c, t)) ==> (c@, t@) == xchacha20poly1305_seal(
            key@,
            nonce@,
            associated_data@,
            plaintext@,
        ),
        r matches Some((c, t)) ==> c@.len() == plaintext@.len() && t@.len() == TAG_SIZE,
{
    let cipher = XChaCha20Poly1305::new(Key::from_slice(key));
    let mut buffer = plaintext.to_vec();
    match cipher.encrypt_in_place_detached(XNonce::from_slice(nonce), associated_data, &mut buffer) {
        Ok(tag) => Some((buffer, tag.to_vec())),
        Err(_) => None,
    }
}

/// Opens a sealed chunk with `AeadInPlace::decrypt_in_place_detached` of
/// `XChaCha20Poly1305` (chacha20poly1305 crate).
///
/// Trusted: a plaintext comes back only if it is as long as the ciphertext
/// and seals to exactly the given ciphertext and tag (the crate recomputes the Poly1305 tag over the
/// ciphertext, compares it, then removes the same keystream), and any
/// plaintext that seals to them is the one that comes back. Ciphertexts
/// beyond the keystream limit are not admitted: on some of them the crate
/// panics.
#[verifier::external_body]
pub(crate) fn open(
    key: &[u8; KEY_SIZE],
    nonce: &[u8],
    associated_data: &[u8],
    ciphertext: &[u8],
    tag: &[u8],
) -> (r: Option<Vec<u8>>)
    requires
        nonce@.len() == NONCE_SIZE,
        tag@.len() == TAG_SIZE,
        cipher_accepts_len(ciphertext@.len()),
    ensures
        r matches Some(p) ==> chunk_opens_to(
            key@,
            associated_data@,
            nonce@,
            ciphertext@,
            tag@,
            p@,
        ),
        r matches Some(p) ==> p@.len() == ciphertext@.len(),
        forall|p: Seq<u8>|
            #[trigger] chunk_opens_to(key@, associated_data@, nonce@, ciphertext@, tag@, p)
                ==> bytes_of(r) == Some(p),
{
    let cipher = XChaCha20Poly1305::new(Key::from_slice(key));
    let mut buffer = ciphertext.to_vec();
    let tag = Tag::from_slice(tag);
    match cipher.decrypt_in_place_detached(XNonce::from_slice(nonce), associated_data, &mut buffer, tag) {
        Ok(()) => Some(buffer),
        Err(_) => None,
    }
}

/// Draws a nonce from the operating system with `RngCore::try_fill_bytes` of
/// `OsRng` (rand_core, re-exported by aead).
///
/// Trusted: when bytes come back there are 24 of them. Nothing is said of
/// their value, which is random, nor of when the system refuses.
#[verifier::external_body]
fn random_nonce() -> (r: Option<Vec<u8>>)
    ensures
        r matches Some(n) ==> n@.len() == NONCE_SIZE,
{
    let mut nonce = XNonce::default();
    match OsRng.try_fill_bytes(&mut nonce) {
        Ok(()) => Some(nonce.to_vec()),
        Err(_) => None,
    }
}

/// The operating system's random source, as the writer sees it: it hands
/// out nonces, and keeps a log of those it handed out and a count of the
/// times it refused.
pub struct NonceSource {
    drawn: Ghost<Seq<Seq<u8>>>,
    refusals: Ghost<nat>,
}

impl NonceSource {
    /// The nonces handed out so far, in order.
    pub closed spec fn drawn(&self) -> Seq<Seq<u8>> {
        self.drawn@
    }

    /// How often the operating system refused a nonce.
    pub closed spec fn refusals(&self) -> nat {
        self.refusals@
    }

    /// A source that has handed out and refused nothing yet.
    pub fn new() -> (s: NonceSource)
        ensures
            s.drawn() == Seq::<Seq<u8>>::empty(),
            s.refusals() == 0,
    {
        NonceSource { drawn: Ghost(Seq::empty()), refusals: Ghost(0) }
    }

    /// Draws a nonce; it joins the log, or a refusal by the operating
    /// system is counted.
    pub fn draw(&mut self) -> (r: Option<Vec<u8>>)
        ensures
            r matches Some(n) ==> {
                &&& n@.len() == NONCE_SIZE
                &&& final(self).drawn() == old(self).drawn().push(n@)
                &&& final(self).refusals() == old(self).refusals()
            },
            r is None ==> {
                &&& final(self).drawn() == old(self).drawn()
                &&& final(self).refusals() == old(self).refusals() + 1
            },
    {
        match random_nonce() {
            Some(n) => {
                self.drawn = Ghost(self.drawn@.push(n@));
                Some(n)
            },
            None => {
                self.refusals = Ghost(self.refusals@ + 1);
                None
            },
        }
    }
}

} // verus!
