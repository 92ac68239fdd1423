//! Chunked, authenticated encryption of a byte stream.
//!
//! A stream is cut into chunks; each chunk is sealed with XChaCha20-Poly1305
//! under a fresh random nonce and written as one frame:
//!
//! ```text
//! nonce (24 bytes) | ciphertext length (u64, little endian) | ciphertext | tag (16 bytes)
//! ```
//!
//! [`Writer`] gathers plaintext into chunks and seals them; [`Reader`] parses
//! frames, authenticates and opens them, and serves the plaintext back.
//! Both are state machines: the caller moves the bytes in and out.

pub mod frame;
pub mod cipher;
mod erase;
pub mod writer;
pub mod stream;
pub mod reader;
pub mod laws;

pub use cipher::KEY_SIZE;
pub use frame::{encode_frame, parse_len_field, ChunkError, MAX_CHUNK_SIZE};
pub use reader::Reader;
pub use writer::{WriteOutcome, Writer};
