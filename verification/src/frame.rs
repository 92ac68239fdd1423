//! The frame format of a sealed chunk.

use vstd::prelude::*;
use vstd::bytes::{spec_u64_from_le_bytes, spec_u64_to_le_bytes};

verus! {

/// Size in bytes of the nonce at the start of every frame.
pub const NONCE_SIZE: usize = 24;

/// Size in bytes of the little-endian length field that follows the nonce.
pub const LEN_FIELD_SIZE: usize = 8;

/// Size in bytes of the nonce and the length field together.
pub const HEADER_SIZE: usize = 32;

/// Size in bytes of the authentication tag at the end of every frame.
pub const TAG_SIZE: usize = 16;

/// The largest ciphertext length that a reader accepts in a frame (8 MiB).
pub const MAX_CHUNK_SIZE: usize = 1024 * 1024 * 8;

/// Why a chunk could not be sealed or opened.
#[derive(Debug, Clone, Copy, PartialEq, Eq, Structural)]
pub enum ChunkError {
    /// The operating system gave no random bytes for a nonce.
    NonceUnavailable,
    /// The cipher refused to seal the chunk (it is too long for it).
    EncryptionFailed,
    /// A frame declares a length that does not fit in `usize`.
    LengthOverflow,
    /// A frame declares a length above [`MAX_CHUNK_SIZE`].
    ChunkTooLarge,
    /// The input ended inside a frame.
    Truncated,
    /// A frame failed authentication.
    DecryptionFailed,
}

/// The little-endian encoding of a length, as it stands in a frame.
pub open spec fn len_field(len: nat) -> Seq<u8> {
    spec_u64_to_le_bytes(len as u64)
}

/// A frame: nonce, length of the ciphertext, ciphertext, tag.
pub open spec fn frame(nonce: Seq<u8>, ciphertext: Seq<u8>, tag: Seq<u8>) -> Seq<u8> {
    nonce + len_field(ciphertext.len()) + ciphertext + tag
}

/// The ciphertext length that the length field of a frame header declares.
pub open spec fn declared_len(header: Seq<u8>) -> u64 {
    spec_u64_from_le_bytes(header.subrange(NONCE_SIZE as int, HEADER_SIZE as int))
}

/// The total size of a frame whose ciphertext has `len` bytes.
pub open spec fn frame_size(len: nat) -> nat {
    (HEADER_SIZE + len + TAG_SIZE) as nat
}

/// The size that a frame read so far (`partial`) must reach before the next
/// field is complete: the nonce, then the header, then the whole frame.
pub open spec fn frame_target(partial: Seq<u8>) -> int {
    if partial.len() < NONCE_SIZE {
        NONCE_SIZE as int
    } else if partial.len() < HEADER_SIZE {
        HEADER_SIZE as int
    } else {
        frame_size(declared_len(partial) as nat) as int
    }
}

/// A frame read so far: short of its target, and with an admissible
/// declared length once the header is complete.
pub open spec fn partial_frame_ok(partial: Seq<u8>) -> bool {
    &&& partial.len() < frame_target(partial)
    &&& partial.len() >= HEADER_SIZE ==> declared_len(partial) <= MAX_CHUNK_SIZE
}

/// The nonce of a frame.
pub open spec fn frame_nonce(f: Seq<u8>) -> Seq<u8> {
    f.subrange(0, NONCE_SIZE as int)
}

/// The ciphertext of a frame.
pub open spec fn frame_ciphertext(f: Seq<u8>) -> Seq<u8> {
    f.subrange(HEADER_SIZE as int, HEADER_SIZE + declared_len(f))
}

/// The tag of a frame.
pub open spec fn frame_tag(f: Seq<u8>) -> Seq<u8> {
    f.subrange(HEADER_SIZE + declared_len(f), HEADER_SIZE + declared_len(f) + TAG_SIZE)
}

/// Builds the frame of a sealed chunk.
pub fn encode_frame(nonce: &[u8], ciphertext: &[u8], tag: &[u8]) -> (f: Vec<u8>)
    requires
        ciphertext@.len() <= u64::MAX,
    ensures
        f@ == frame(nonce@, ciphertext@, tag@),
{
    let mut f: Vec<u8> = Vec::new();
    f.extend_from_slice(nonce);
    let len = ciphertext.len() as u64;
    let field = vstd::bytes::u64_to_le_bytes(len);
    f.extend_from_slice(field.as_slice());
    f.extend_from_slice(ciphertext);
    f.extend_from_slice(tag);
    assert(f@ =~= frame(nonce@, ciphertext@, tag@));
    f
}

/// Reads the length field of a frame header.
///
/// The declared length must fit in `usize` and must not exceed
/// [`MAX_CHUNK_SIZE`].
pub fn parse_len_field(field: &[u8]) -> (r: Result<usize, ChunkError>)
    requires
        field@.len() == LEN_FIELD_SIZE,
    ensures
        ({
            let v = spec_u64_from_le_bytes(field@);
            &&& v > usize::MAX ==> r == Err::<usize, ChunkError>(ChunkError::LengthOverflow)
            &&& v <= usize::MAX && v > MAX_CHUNK_SIZE ==> r == Err::<usize, ChunkError>(
                ChunkError::ChunkTooLarge,
            )
            &&& v <= MAX_CHUNK_SIZE ==> r == Ok::<usize, ChunkError>(v as usize)
        }),
{
    let v = vstd::bytes::u64_from_le_bytes(field);
    if v > usize::MAX as u64 {
        return Err(ChunkError::LengthOverflow);
    }
    let len = v as usize;
    if len > MAX_CHUNK_SIZE {
        Err(ChunkError::ChunkTooLarge)
    } else {
        Ok(len)
    }
}

} // verus!
