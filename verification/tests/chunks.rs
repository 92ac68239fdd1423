use chacha20poly1305::{AeadInPlace, KeyInit, XChaCha20Poly1305, XNonce};
use lox::{encode_frame, parse_len_field, ChunkError, Reader, WriteOutcome, Writer, MAX_CHUNK_SIZE};

const KEY: [u8; 32] = [
    0x80, 0x81, 0x82, 0x83, 0x84, 0x85, 0x86, 0x87, 0x88, 0x89, 0x8a, 0x8b, 0x8c, 0x8d, 0x8e, 0x8f,
    0x90, 0x91, 0x92, 0x93, 0x94, 0x95, 0x96, 0x97, 0x98, 0x99, 0x9a, 0x9b, 0x9c, 0x9d, 0x9e, 0x9f,
];

const AAD: [u8; 12] = [0x50, 0x51, 0x52, 0x53, 0xc0, 0xc1, 0xc2, 0xc3, 0xc4, 0xc5, 0xc6, 0xc7];

const NONCE: [u8; 24] = [
    0x40, 0x41, 0x42, 0x43, 0x44, 0x45, 0x46, 0x47, 0x48, 0x49, 0x4a, 0x4b, 0x4c, 0x4d, 0x4e, 0x4f,
    0x50, 0x51, 0x52, 0x53, 0x54, 0x55, 0x56, 0x57,
];

const PLAINTEXT: &[u8] = b"Ladies and Gentlemen of the class of '99: \
    If I could offer you only one tip for the future, sunscreen would be it.";

const CIPHERTEXT: [u8; 114] = [
    0xbd, 0x6d, 0x17, 0x9d, 0x3e, 0x83, 0xd4, 0x3b, 0x95, 0x76, 0x57, 0x94, 0x93, 0xc0, 0xe9, 0x39,
    0x57, 0x2a, 0x17, 0x00, 0x25, 0x2b, 0xfa, 0xcc, 0xbe, 0xd2, 0x90, 0x2c, 0x21, 0x39, 0x6c, 0xbb,
    0x73, 0x1c, 0x7f, 0x1b, 0x0b, 0x4a, 0xa6, 0x44, 0x0b, 0xf3, 0xa8, 0x2f, 0x4e, 0xda, 0x7e, 0x39,
    0xae, 0x64, 0xc6, 0x70, 0x8c, 0x54, 0xc2, 0x16, 0xcb, 0x96, 0xb7, 0x2e, 0x12, 0x13, 0xb4, 0x52,
    0x2f, 0x8c, 0x9b, 0xa4, 0x0d, 0xb5, 0xd9, 0x45, 0xb1, 0x1b, 0x69, 0xb9, 0x82, 0xc1, 0xbb, 0x9e,
    0x3f, 0x3f, 0xac, 0x2b, 0xc3, 0x69, 0x48, 0x8f, 0x76, 0xb2, 0x38, 0x35, 0x65, 0xd3, 0xff, 0xf9,
    0x21, 0xf9, 0x66, 0x4c, 0x97, 0x63, 0x7d, 0xa9, 0x76, 0x88, 0x12, 0xf6, 0x15, 0xc6, 0x8b, 0x13,
    0xb5, 0x2e,
];

const TAG: [u8; 16] = [
    0xc0, 0x87, 0x59, 0x24, 0xc1, 0xc7, 0x98, 0x79, 0x47, 0xde, 0xaf, 0xd8, 0x78, 0x0a, 0xcf, 0x49,
];

fn expected_frame() -> Vec<u8> {
    let mut f = NONCE.to_vec();
    f.extend_from_slice(&(CIPHERTEXT.len() as u64).to_le_bytes());
    f.extend_from_slice(&CIPHERTEXT);
    f.extend_from_slice(&TAG);
    f
}

/// Hands a whole byte stream to a reader, as large pieces as it wants, and
/// collects the plaintext it serves.
fn read_all(reader: &mut Reader, stream: &[u8], piece: usize) -> Result<Vec<u8>, ChunkError> {
    let mut out = Vec::new();
    let mut at = 0;
    loop {
        let mut buf = [0u8; 7];
        while let Some(n) = reader.read(&mut buf) {
            assert!(n <= buf.len());
            if n == 0 {
                break;
            }
            out.extend_from_slice(&buf[..n]);
        }
        if at == stream.len() {
            reader.end_of_input()?;
            return Ok(out);
        }
        let n = reader.wanted().min(piece).min(stream.len() - at);
        reader.supply(&stream[at..at + n])?;
        at += n;
    }
}

/// Writes all of `data` through a writer and returns the frames it emits,
/// the last chunk flushed.
fn write_all(writer: &mut Writer, data: &[u8]) -> Vec<Vec<u8>> {
    let mut frames = Vec::new();
    let mut at = 0;
    while at < data.len() {
        match writer.write(&data[at..]).unwrap() {
            WriteOutcome::Accepted(n) => at += n,
            WriteOutcome::Sealed(f) => frames.push(f),
        }
    }
    if let Some(f) = writer.flush_chunk().unwrap() {
        frames.push(f);
    }
    frames
}

#[test]
fn encode_frame_lays_out_nonce_length_ciphertext_tag() {
    let f = encode_frame(&[1, 2], &[9, 8, 7], &[5]);
    assert_eq!(f, vec![1, 2, 3, 0, 0, 0, 0, 0, 0, 0, 9, 8, 7, 5]);
}

#[test]
fn parse_len_field_reads_little_endian() {
    assert_eq!(parse_len_field(&[0x10, 0x02, 0, 0, 0, 0, 0, 0]), Ok(0x0210));
    assert_eq!(parse_len_field(&[0, 0, 0x80, 0, 0, 0, 0, 0]), Ok(MAX_CHUNK_SIZE));
}

#[test]
fn parse_len_field_rejects_large_chunks() {
    assert_eq!(parse_len_field(&[1, 0, 0x80, 0, 0, 0, 0, 0]), Err(ChunkError::ChunkTooLarge));
    let big = parse_len_field(&[0xff; 8]);
    if usize::BITS == 64 {
        assert_eq!(big, Err(ChunkError::ChunkTooLarge));
    } else {
        assert_eq!(big, Err(ChunkError::LengthOverflow));
    }
}

#[test]
fn seal_with_nonce_matches_reference_vector() {
    let mut w = Writer::new(KEY, 200, &AAD);
    match w.write(PLAINTEXT).unwrap() {
        WriteOutcome::Accepted(n) => assert_eq!(n, PLAINTEXT.len()),
        WriteOutcome::Sealed(_) => panic!("nothing was pending"),
    }
    let f = w.seal_with_nonce(&NONCE).unwrap();
    assert_eq!(f, expected_frame());
    assert_ne!(&f[32..32 + PLAINTEXT.len()], PLAINTEXT);
    assert_eq!(w.flush_chunk(), Ok(None));
}

#[test]
fn reader_opens_reference_vector() {
    let mut r = Reader::new(KEY, &AAD);
    let out = read_all(&mut r, &expected_frame(), usize::MAX).unwrap();
    assert_eq!(out, PLAINTEXT);
}

#[test]
fn reader_opens_reference_vector_byte_by_byte() {
    let mut r = Reader::new(KEY, &AAD);
    let out = read_all(&mut r, &expected_frame(), 1).unwrap();
    assert_eq!(out, PLAINTEXT);
}

#[test]
fn writer_takes_up_to_chunk_size() {
    let mut w = Writer::new(KEY, 4, b"ad");
    assert!(matches!(w.write(&[1, 2, 3]), Ok(WriteOutcome::Accepted(3))));
    assert!(matches!(w.write(&[4, 5, 6]), Ok(WriteOutcome::Accepted(1))));
    match w.write(&[5, 6]) {
        Ok(WriteOutcome::Sealed(f)) => assert_eq!(f.len(), 24 + 8 + 4 + 16),
        other => panic!("expected a sealed frame, got {:?}", other),
    }
    assert!(matches!(w.write(&[5, 6]), Ok(WriteOutcome::Accepted(2))));
}

#[test]
fn writer_with_zero_chunk_size_takes_nothing() {
    let mut w = Writer::new(KEY, 0, b"");
    assert!(matches!(w.write(&[1, 2, 3]), Ok(WriteOutcome::Accepted(0))));
    assert_eq!(w.flush_chunk(), Ok(None));
}

#[test]
fn writer_flush_of_nothing_emits_nothing() {
    let mut w = Writer::new(KEY, 16, b"");
    assert_eq!(w.flush_chunk(), Ok(None));
}

#[test]
fn frames_use_fresh_nonces() {
    let mut w = Writer::new(KEY, 3, b"");
    let frames = write_all(&mut w, &[7; 6]);
    assert_eq!(frames.len(), 2);
    assert_ne!(frames[0][..24], frames[1][..24]);
    assert_ne!(frames[0], frames[1]);
}

#[test]
fn stream_round_trip() {
    let data: Vec<u8> = (0..1000u32).map(|i| (i * 7 % 251) as u8).collect();
    let mut w = Writer::new(KEY, 64, b"associated-data");
    let frames = write_all(&mut w, &data);
    assert_eq!(frames.len(), 16);
    for f in &frames[..15] {
        assert_eq!(f.len(), 24 + 8 + 64 + 16);
    }
    let stream: Vec<u8> = frames.concat();
    for piece in [1, 5, 100, usize::MAX] {
        let mut r = Reader::new(KEY, b"associated-data");
        assert_eq!(read_all(&mut r, &stream, piece).unwrap(), data);
    }
}

#[test]
fn empty_stream_reads_nothing() {
    let mut r = Reader::new(KEY, b"");
    assert_eq!(read_all(&mut r, &[], 10).unwrap(), Vec::<u8>::new());
}

#[test]
fn tampered_ciphertext_is_rejected() {
    let mut f = expected_frame();
    f[40] ^= 1;
    let mut r = Reader::new(KEY, &AAD);
    assert_eq!(read_all(&mut r, &f, usize::MAX), Err(ChunkError::DecryptionFailed));
}

#[test]
fn tampered_tag_is_rejected() {
    let mut f = expected_frame();
    let last = f.len() - 1;
    f[last] ^= 0x80;
    let mut r = Reader::new(KEY, &AAD);
    assert_eq!(read_all(&mut r, &f, usize::MAX), Err(ChunkError::DecryptionFailed));
}

#[test]
fn wrong_associated_data_is_rejected() {
    let mut r = Reader::new(KEY, b"other");
    assert_eq!(read_all(&mut r, &expected_frame(), usize::MAX), Err(ChunkError::DecryptionFailed));
}

#[test]
fn wrong_key_is_rejected() {
    let mut key = KEY;
    key[0] ^= 1;
    let mut r = Reader::new(key, &AAD);
    assert_eq!(read_all(&mut r, &expected_frame(), usize::MAX), Err(ChunkError::DecryptionFailed));
}

#[test]
fn truncated_frame_is_an_error() {
    let f = expected_frame();
    for cut in [1, 23, 24, 31, 32, 100, f.len() - 1] {
        let mut r = Reader::new(KEY, &AAD);
        assert_eq!(read_all(&mut r, &f[..cut], usize::MAX), Err(ChunkError::Truncated));
    }
}

#[test]
fn oversized_length_field_is_rejected() {
    let mut f = NONCE.to_vec();
    f.extend_from_slice(&((MAX_CHUNK_SIZE as u64) + 1).to_le_bytes());
    let mut r = Reader::new(KEY, &AAD);
    assert_eq!(r.supply(&f[..24]), Ok(None));
    assert_eq!(r.supply(&f[24..]), Err(ChunkError::ChunkTooLarge));
    assert_eq!(r.wanted(), 24);
}

#[test]
fn reader_wants_field_by_field() {
    let mut r = Reader::new(KEY, &AAD);
    let f = expected_frame();
    assert!(r.awaiting_nonce());
    assert_eq!(r.wanted(), 24);
    assert_eq!(r.supply(&f[..10]), Ok(None));
    assert_eq!(r.wanted(), 14);
    assert_eq!(r.supply(&f[10..24]), Ok(None));
    assert!(!r.awaiting_nonce());
    assert_eq!(r.wanted(), 8);
    assert_eq!(r.supply(&f[24..32]), Ok(None));
    assert_eq!(r.wanted(), 114 + 16);
    assert_eq!(r.supply(&f[32..]), Ok(Some(114)));
    assert_eq!(r.wanted(), 24);
}

#[test]
fn reader_serves_in_order_and_then_asks_for_more() {
    let mut r = Reader::new(KEY, &AAD);
    assert_eq!(r.read(&mut [0u8; 4]), None);
    assert_eq!(r.supply(&expected_frame()[..24]), Ok(None));
    let f = expected_frame();
    assert_eq!(r.supply(&f[24..32]), Ok(None));
    assert_eq!(r.supply(&f[32..]), Ok(Some(114)));
    let mut buf = [0u8; 100];
    assert_eq!(r.read(&mut buf), Some(100));
    assert_eq!(&buf[..], &PLAINTEXT[..100]);
    let mut buf = [0xaa; 20];
    assert_eq!(r.read(&mut buf), Some(14));
    assert_eq!(&buf[..14], &PLAINTEXT[100..]);
    assert_eq!(&buf[14..], &[0xaa; 6]);
    assert_eq!(r.read(&mut buf), None);
}

#[test]
fn zero_length_chunk_opens_to_nothing() {
    let cipher = XChaCha20Poly1305::new(&KEY.into());
    let tag = cipher
        .encrypt_in_place_detached(XNonce::from_slice(&NONCE), &AAD, &mut [])
        .unwrap();
    let f = encode_frame(&NONCE, &[], &tag);
    assert_eq!(f.len(), 24 + 8 + 16);
    let mut r = Reader::new(KEY, &AAD);
    assert_eq!(r.supply(&f[..24]), Ok(None));
    assert_eq!(r.supply(&f[24..32]), Ok(None));
    assert_eq!(r.supply(&f[32..]), Ok(Some(0)));
    assert_eq!(r.read(&mut [0u8; 4]), None);
}

#[test]
fn wipe_clears_state() {
    let mut w = Writer::new(KEY, 8, b"ad");
    assert!(matches!(w.write(&[1, 2]), Ok(WriteOutcome::Accepted(2))));
    w.wipe();
    assert_eq!(w.flush_chunk(), Ok(None));
    let mut r = Reader::new(KEY, &AAD);
    let f = expected_frame();
    assert_eq!(r.supply(&f[..24]), Ok(None));
    r.wipe();
    assert_eq!(r.wanted(), 24);
    assert_eq!(r.read(&mut [0u8; 1]), None);
}

#[test]
fn chunks_above_the_reader_limit_are_rejected() {
    let data = vec![3u8; MAX_CHUNK_SIZE + 1];
    let mut w = Writer::new(KEY, MAX_CHUNK_SIZE + 1, b"");
    let frames = write_all(&mut w, &data);
    assert_eq!(frames.len(), 1);
    let mut r = Reader::new(KEY, b"");
    assert_eq!(r.supply(&frames[0][..24]), Ok(None));
    assert_eq!(r.supply(&frames[0][24..32]), Err(ChunkError::ChunkTooLarge));
}

#[test]
fn chunk_at_the_reader_limit_round_trips() {
    let data: Vec<u8> = (0..MAX_CHUNK_SIZE).map(|i| (i % 253) as u8).collect();
    let mut w = Writer::new(KEY, MAX_CHUNK_SIZE, b"x");
    let frames = write_all(&mut w, &data);
    assert_eq!(frames.len(), 1);
    let mut r = Reader::new(KEY, b"x");
    assert_eq!(read_all(&mut r, &frames[0], usize::MAX).unwrap(), data);
}

#[test]
fn reading_into_an_empty_buffer_serves_nothing() {
    let mut r = Reader::new(KEY, &AAD);
    let f = expected_frame();
    assert_eq!(r.supply(&f[..24]), Ok(None));
    assert_eq!(r.supply(&f[24..32]), Ok(None));
    assert_eq!(r.supply(&f[32..]), Ok(Some(114)));
    assert_eq!(r.read(&mut []), Some(0));
    let mut buf = [0u8; 114];
    assert_eq!(r.read(&mut buf), Some(114));
    assert_eq!(&buf[..], PLAINTEXT);
}

#[test]
fn reader_continues_after_a_frame() {
    let mut w = Writer::new(KEY, 5, &AAD);
    let frames = write_all(&mut w, b"hello world");
    assert_eq!(frames.len(), 3);
    let mut r = Reader::new(KEY, &AAD);
    let stream = frames.concat();
    let first = 24 + 8 + 5 + 16;
    assert_eq!(r.supply(&stream[..24]), Ok(None));
    assert_eq!(r.supply(&stream[24..32]), Ok(None));
    assert_eq!(r.supply(&stream[32..first]), Ok(Some(5)));
    assert_eq!(r.wanted(), 24);
    let mut buf = [0u8; 8];
    assert_eq!(r.read(&mut buf), Some(5));
    assert_eq!(&buf[..5], b"hello");
    assert_eq!(r.read(&mut buf), None);
    assert_eq!(read_all(&mut r, &stream[first..], 3).unwrap(), b" world");
}

#[test]
fn headers_show_only_the_length() {
    let mut w1 = Writer::new(KEY, 16, &AAD);
    let mut w2 = Writer::new(KEY, 16, &AAD);
    assert!(matches!(w1.write(b"first chunk"), Ok(WriteOutcome::Accepted(11))));
    assert!(matches!(w2.write(b"other bytes"), Ok(WriteOutcome::Accepted(11))));
    let f1 = w1.seal_with_nonce(&NONCE).unwrap();
    let f2 = w2.seal_with_nonce(&NONCE).unwrap();
    assert_eq!(f1.len(), f2.len());
    assert_eq!(f1[..32], f2[..32]);
    assert_ne!(f1[32..], f2[32..]);
}

#[test]
fn splitting_of_the_input_does_not_matter() {
    let mut w = Writer::new(KEY, 10, &AAD);
    let frames = write_all(&mut w, b"an input that spans several chunks");
    let stream = frames.concat();
    let whole = read_all(&mut Reader::new(KEY, &AAD), &stream, usize::MAX).unwrap();
    for piece in 1..60 {
        assert_eq!(read_all(&mut Reader::new(KEY, &AAD), &stream, piece).unwrap(), whole);
    }
    assert_eq!(whole, b"an input that spans several chunks");
}
