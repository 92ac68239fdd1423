//! Streams of frames and what they decode to.

use vstd::prelude::*;

use crate::cipher::chunk_opens_to;
use crate::frame::{
    declared_len, frame_ciphertext, frame_nonce, frame_size, frame_tag, partial_frame_ok,
    HEADER_SIZE, MAX_CHUNK_SIZE, NONCE_SIZE,
};

verus! {

/// `plaintext` is what the complete frame `f` opens to.
pub open spec fn frame_opens_to(
    key: Seq<u8>,
    associated_data: Seq<u8>,
    f: Seq<u8>,
    plaintext: Seq<u8>,
) -> bool {
    chunk_opens_to(
        key,
        associated_data,
        frame_nonce(f),
        frame_ciphertext(f),
        frame_tag(f),
        plaintext,
    )
}

/// `bytes` is a sequence of frames that open, one after the other, to
/// `chunks`: read from the front, each frame declares the length of its
/// chunk, which is within [`MAX_CHUNK_SIZE`], and authenticates under the key
/// and associated data.
pub open spec fn stream_decodes_to(
    key: Seq<u8>,
    associated_data: Seq<u8>,
    bytes: Seq<u8>,
    chunks: Seq<Seq<u8>>,
) -> bool
    decreases chunks.len(),
{
    if chunks.len() == 0 {
        bytes.len() == 0
    } else {
        let p = chunks[0];
        let size = frame_size(p.len());
        &&& bytes.len() >= size
        &&& p.len() <= MAX_CHUNK_SIZE
        &&& declared_len(bytes) == p.len()
        &&& frame_opens_to(key, associated_data, bytes.take(size as int), p)
        &&& stream_decodes_to(key, associated_data, bytes.skip(size as int), chunks.drop_first())
    }
}

/// A frame that opens to `p` decodes, alone, to `p`.
pub open spec fn single_frame_decodes_to(
    key: Seq<u8>,
    associated_data: Seq<u8>,
    f: Seq<u8>,
    p: Seq<u8>,
) -> bool {
    &&& f.len() == frame_size(p.len())
    &&& p.len() <= MAX_CHUNK_SIZE
    &&& declared_len(f) == p.len()
    &&& frame_opens_to(key, associated_data, f, p)
}

/// A decoded stream followed by one more frame that opens to `p` decodes to
/// its chunks followed by `p`.
pub proof fn lemma_decodes_append(
    key: Seq<u8>,
    associated_data: Seq<u8>,
    bytes: Seq<u8>,
    chunks: Seq<Seq<u8>>,
    f: Seq<u8>,
    p: Seq<u8>,
)
    requires
        stream_decodes_to(key, associated_data, bytes, chunks),
        single_frame_decodes_to(key, associated_data, f, p),
    ensures
        stream_decodes_to(key, associated_data, bytes + f, chunks.push(p)),
    decreases chunks.len(),
{
    let all = bytes + f;
    let size_p = frame_size(p.len()) as int;
    if chunks.len() == 0 {
        assert(all =~= f);
        assert(f.take(size_p) =~= f);
        assert(f.skip(size_p) =~= Seq::<u8>::empty());
        assert(chunks.push(p).drop_first() =~= Seq::<Seq<u8>>::empty());
        assert(chunks.push(p)[0] == p);
        assert(stream_decodes_to(key, associated_data, f.skip(size_p), Seq::<Seq<u8>>::empty()));
        assert(frame_opens_to(key, associated_data, all.take(size_p), p));
    } else {
        let size = frame_size(chunks[0].len()) as int;
        let rest = bytes.skip(size);
        lemma_decodes_append(key, associated_data, rest, chunks.drop_first(), f, p);
        assert(all.take(size) =~= bytes.take(size));
        assert(all.skip(size) =~= rest + f);
        assert(all.subrange(24, 32) =~= bytes.subrange(24, 32));
        assert(chunks.push(p).drop_first() =~= chunks.drop_first().push(p));
        assert(chunks.push(p)[0] == chunks[0]);
        assert(declared_len(all) == declared_len(bytes));
        assert(frame_opens_to(key, associated_data, all.take(size), chunks[0]));
        assert(stream_decodes_to(key, associated_data, all.skip(size), chunks.push(p).drop_first()));
    }
}

/// Frame boundaries are set by the bytes: when a stream decodes to
/// `chunks`, any decoding of it followed by more bytes begins with a
/// decoding of it and goes on with a decoding of the bytes that follow.
pub proof fn lemma_decoding_splits(
    key: Seq<u8>,
    associated_data: Seq<u8>,
    bytes: Seq<u8>,
    more: Seq<u8>,
    chunks: Seq<Seq<u8>>,
    other: Seq<Seq<u8>>,
)
    requires
        stream_decodes_to(key, associated_data, bytes, chunks),
        stream_decodes_to(key, associated_data, bytes + more, other),
    ensures
        chunks.len() <= other.len(),
        stream_decodes_to(key, associated_data, bytes, other.take(chunks.len() as int)),
        stream_decodes_to(key, associated_data, more, other.skip(chunks.len() as int)),
    decreases chunks.len(),
{
    let all = bytes + more;
    if chunks.len() == 0 {
        assert(all =~= more);
        assert(other.take(0) =~= Seq::<Seq<u8>>::empty());
        assert(other.skip(0) =~= other);
    } else {
        let n = chunks.len() as int;
        let size = frame_size(chunks[0].len()) as int;
        assert(all.subrange(24, 32) =~= bytes.subrange(24, 32));
        assert(other.len() > 0);
        assert(other[0].len() == chunks[0].len());
        assert(all.take(size) =~= bytes.take(size));
        assert(all.skip(size) =~= bytes.skip(size) + more);
        lemma_decoding_splits(
            key,
            associated_data,
            bytes.skip(size),
            more,
            chunks.drop_first(),
            other.drop_first(),
        );
        assert(other.take(n).drop_first() =~= other.drop_first().take(n - 1));
        assert(other.skip(n) =~= other.drop_first().skip(n - 1));
        assert(other.take(n)[0] == other[0]);
    }
}

/// A single frame decodes to exactly one chunk, one that it opens to.
pub proof fn lemma_single_frame_decoding(
    key: Seq<u8>,
    associated_data: Seq<u8>,
    f: Seq<u8>,
    chunks: Seq<Seq<u8>>,
)
    requires
        f.len() == frame_size(declared_len(f) as nat),
        stream_decodes_to(key, associated_data, f, chunks),
    ensures
        chunks.len() == 1,
        single_frame_decodes_to(key, associated_data, f, chunks[0]),
{
    let size = frame_size(chunks[0].len()) as int;
    assert(chunks.len() > 0);
    assert(f.take(size) =~= f);
    assert(f.skip(size).len() == 0);
    lemma_empty_decodes_to_no_chunks(key, associated_data, f.skip(size), chunks.drop_first());
}

/// Empty input decodes only to no chunks.
pub proof fn lemma_empty_decodes_to_no_chunks(
    key: Seq<u8>,
    associated_data: Seq<u8>,
    bytes: Seq<u8>,
    chunks: Seq<Seq<u8>>,
)
    requires
        bytes.len() == 0,
        stream_decodes_to(key, associated_data, bytes, chunks),
    ensures
        chunks == Seq::<Seq<u8>>::empty(),
{
    assert(chunks.len() == 0);
    assert(chunks =~= Seq::<Seq<u8>>::empty());
}

/// Input made of whole frames followed by an unfinished frame splits in one
/// way only: two such splittings of the same bytes have the same whole
/// frames.
pub proof fn lemma_whole_frames_unique(
    key: Seq<u8>,
    associated_data: Seq<u8>,
    whole1: Seq<u8>,
    rest1: Seq<u8>,
    chunks1: Seq<Seq<u8>>,
    whole2: Seq<u8>,
    rest2: Seq<u8>,
    chunks2: Seq<Seq<u8>>,
)
    requires
        stream_decodes_to(key, associated_data, whole1, chunks1),
        stream_decodes_to(key, associated_data, whole2, chunks2),
        partial_frame_ok(rest1),
        partial_frame_ok(rest2),
        whole1 + rest1 == whole2 + rest2,
    ensures
        whole1 == whole2,
        rest1 == rest2,
{
    if whole1.len() <= whole2.len() {
        lemma_whole_frames_prefix(key, associated_data, whole1, rest1, chunks1, whole2, rest2, chunks2);
    } else {
        lemma_whole_frames_prefix(key, associated_data, whole2, rest2, chunks2, whole1, rest1, chunks1);
    }
}

/// The shorter of two such splittings has no fewer whole frames.
proof fn lemma_whole_frames_prefix(
    key: Seq<u8>,
    associated_data: Seq<u8>,
    whole1: Seq<u8>,
    rest1: Seq<u8>,
    chunks1: Seq<Seq<u8>>,
    whole2: Seq<u8>,
    rest2: Seq<u8>,
    chunks2: Seq<Seq<u8>>,
)
    requires
        stream_decodes_to(key, associated_data, whole1, chunks1),
        stream_decodes_to(key, associated_data, whole2, chunks2),
        partial_frame_ok(rest1),
        whole1 + rest1 == whole2 + rest2,
        whole1.len() <= whole2.len(),
    ensures
        whole1 == whole2,
        rest1 == rest2,
{
    let all = whole1 + rest1;
    assert(whole2 =~= all.take(whole2.len() as int));
    let between = whole2.skip(whole1.len() as int);
    assert(whole2 =~= whole1 + between);
    assert(rest1 =~= between + rest2) by {
        assert(all.skip(whole1.len() as int) =~= rest1);
        assert((whole2 + rest2).skip(whole1.len() as int) =~= between + rest2);
    }
    if between.len() > 0 {
        lemma_decoding_splits(key, associated_data, whole1, between, chunks1, chunks2);
        let later = chunks2.skip(chunks1.len() as int);
        if later.len() == 0 {
            assert(between.len() == 0);
        }
        let q = later[0];
        assert(between.len() >= frame_size(q.len()));
        assert(declared_len(between) == q.len());
        assert(rest1.subrange(NONCE_SIZE as int, HEADER_SIZE as int) =~= between.subrange(
            NONCE_SIZE as int,
            HEADER_SIZE as int,
        ));
        assert(false);
    }
    assert(whole1 =~= whole2);
    assert(rest1 =~= rest2);
}

} // verus!
