# lox

Streaming encrypted archives. An archive is a tar stream, compressed with
xz, cut into chunks; each chunk is sealed with XChaCha20-Poly1305 under a
fresh random nonce and stored as a frame:

    nonce (24 bytes) | ciphertext length (u64, little endian) | ciphertext | tag (16 bytes)

Layout:

- `src/` — the verified library (Verus): the frame format (`frame`), the
  cipher calls (`cipher`), the chunk writer and reader state machines
  (`writer`, `reader`), what streams of frames decode to (`stream`), and the
  laws that tie them together (`laws`).
- `app/` — `std::io` adapters that move bytes between those state machines
  and real writers and readers, and the `Encoder` / `Decoder` that stack
  tar, xz and encryption over files.
- `tests/` — tests of the library on concrete values, including a published
  XChaCha20-Poly1305 test vector.
