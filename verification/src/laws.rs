//! What holds of frames, of the writer's output and of the reader's input
//! across calls.

use vstd::prelude::*;
use vstd::bytes::{lemma_auto_spec_u64_to_from_le_bytes, spec_u64_to_le_bytes};

use crate::cipher::{chunk_opens_to, cipher_accepts_len};
use crate::frame::{
    declared_len, frame, frame_ciphertext, frame_nonce, frame_size, frame_tag, ChunkError,
    HEADER_SIZE, MAX_CHUNK_SIZE, NONCE_SIZE, TAG_SIZE,
};
use crate::stream::{
    frame_opens_to, lemma_decodes_append, lemma_whole_frames_unique, single_frame_decodes_to,
    stream_decodes_to,
};
use crate::reader::Reader;
use crate::writer::{flatten, is_sealed_frame, sealed_frame_under, WriteOutcome, Writer};

verus! {

/// Reading a frame gives back the nonce, the ciphertext length, the
/// ciphertext and the tag it was built from.
pub proof fn lemma_frame_fields(nonce: Seq<u8>, ciphertext: Seq<u8>, tag: Seq<u8>)
    requires
        nonce.len() == NONCE_SIZE,
        tag.len() == TAG_SIZE,
        ciphertext.len() <= u64::MAX,
    ensures
        ({
            let f = frame(nonce, ciphertext, tag);
            &&& f.len() == frame_size(ciphertext.len())
            &&& declared_len(f) == ciphertext.len()
            &&& frame_nonce(f) == nonce
            &&& frame_ciphertext(f) == ciphertext
            &&& frame_tag(f) == tag
        }),
{
    let f = frame(nonce, ciphertext, tag);
    let field = spec_u64_to_le_bytes(ciphertext.len() as u64);
    lemma_auto_spec_u64_to_from_le_bytes();
    assert(field.len() == 8);
    assert(f.subrange(NONCE_SIZE as int, HEADER_SIZE as int) =~= field);
    assert(frame_nonce(f) =~= nonce);
    assert(frame_ciphertext(f) =~= ciphertext);
    assert(frame_tag(f) =~= tag);
}

/// A frame that a writer sealed from a chunk opens, in a reader with the
/// same key and associated data, to that chunk; its header declares the
/// chunk's length.
pub proof fn lemma_sealed_frame_opens(
    key: Seq<u8>,
    associated_data: Seq<u8>,
    chunk: Seq<u8>,
    f: Seq<u8>,
)
    requires
        is_sealed_frame(key, associated_data, chunk, f),
    ensures
        chunk.len() <= MAX_CHUNK_SIZE ==> single_frame_decodes_to(key, associated_data, f, chunk),
        f.len() == frame_size(chunk.len()),
        declared_len(f) == chunk.len(),
        frame_opens_to(key, associated_data, f, chunk),
{
    let nonce = choose|nonce: Seq<u8>| sealed_frame_under(key, associated_data, nonce, chunk, f);
    let sealed = crate::cipher::xchacha20poly1305_seal(key, nonce, associated_data, chunk);
    lemma_frame_fields(nonce, sealed.0, sealed.1);
    assert(chunk_opens_to(key, associated_data, nonce, sealed.0, sealed.1, chunk));
}

/// The frames that a writer sealed from chunks of at most
/// [`MAX_CHUNK_SIZE`] bytes, laid end to end, decode to those chunks.
pub proof fn lemma_stream_roundtrip(
    key: Seq<u8>,
    associated_data: Seq<u8>,
    frames: Seq<Seq<u8>>,
    chunks: Seq<Seq<u8>>,
)
    requires
        frames.len() == chunks.len(),
        forall|i: int|
            0 <= i < chunks.len() ==> #[trigger] is_sealed_frame(
                key,
                associated_data,
                chunks[i],
                frames[i],
            ),
        forall|i: int| 0 <= i < chunks.len() ==> (#[trigger] chunks[i]).len() <= MAX_CHUNK_SIZE,
    ensures
        stream_decodes_to(key, associated_data, flatten(frames), chunks),
    decreases chunks.len(),
{
    if chunks.len() > 0 {
        let n = chunks.len() - 1;
        let front_frames = frames.drop_last();
        let front_chunks = chunks.drop_last();
        lemma_stream_roundtrip(key, associated_data, front_frames, front_chunks);
        assert(is_sealed_frame(key, associated_data, chunks[n], frames[n]));
        assert(chunks[n].len() <= MAX_CHUNK_SIZE);
        lemma_sealed_frame_opens(key, associated_data, chunks[n], frames[n]);
        lemma_decodes_append(
            key,
            associated_data,
            flatten(front_frames),
            front_chunks,
            frames[n],
            chunks[n],
        );
        assert(flatten(frames) =~= flatten(front_frames) + frames[n]);
        assert(chunks =~= front_chunks.push(chunks[n]));
    }
}

/// What a writer with a chunk size of at most [`MAX_CHUNK_SIZE`] has taken
/// in is the chunks it sealed followed by the pending chunk, and the frames
/// it emitted for those chunks, laid end to end, decode to them.
pub proof fn lemma_writer_output_decodes(w: Writer, frames: Seq<Seq<u8>>)
    requires
        w.inv(),
        w.chunk_size() <= MAX_CHUNK_SIZE,
        frames.len() == w.chunks().len(),
        forall|i: int|
            0 <= i < frames.len() ==> #[trigger] is_sealed_frame(
                w.key(),
                w.associated_data(),
                w.chunks()[i],
                frames[i],
            ),
    ensures
        stream_decodes_to(w.key(), w.associated_data(), flatten(frames), w.chunks()),
        w.taken() == flatten(w.chunks()) + w.pending(),
{
    assert forall|i: int| 0 <= i < w.chunks().len() implies (
    #[trigger] w.chunks()[i]).len() <= MAX_CHUNK_SIZE by {
        assert(w.chunks()[i].len() <= w.chunk_size());
    }
    lemma_stream_roundtrip(w.key(), w.associated_data(), frames, w.chunks());
}

/// A reader that has taken in exactly the frames a writer emitted, under
/// the same key and associated data and with a chunk size of at most
/// [`MAX_CHUNK_SIZE`], has opened exactly the writer's chunks: laid end to
/// end, and followed by what is still pending in the writer, they are all
/// that the writer took in.
pub proof fn lemma_reader_returns_writer_input(w: Writer, r: Reader, frames: Seq<Seq<u8>>)
    requires
        w.inv(),
        r.inv(),
        w.chunk_size() <= MAX_CHUNK_SIZE,
        r.key() == w.key(),
        r.associated_data() == w.associated_data(),
        frames.len() == w.chunks().len(),
        forall|i: int|
            0 <= i < frames.len() ==> #[trigger] is_sealed_frame(
                w.key(),
                w.associated_data(),
                w.chunks()[i],
                frames[i],
            ),
        r.decoded_input() == flatten(frames),
    ensures
        r.opened_chunks() == w.chunks(),
        flatten(r.opened_chunks()) + w.pending() == w.taken(),
{
    lemma_writer_output_decodes(w, frames);
    // The reader's input has one decoding only: the writer's chunks are it.
    assert(stream_decodes_to(r.key(), r.associated_data(), r.decoded_input(), w.chunks()));
}

/// Two chunks of the same length sealed under the same nonce give frames of
/// the same length with the same header: a frame's header shows nothing of
/// its chunk but the length.
pub proof fn lemma_header_shows_only_length(
    key: Seq<u8>,
    associated_data: Seq<u8>,
    nonce: Seq<u8>,
    chunk1: Seq<u8>,
    f1: Seq<u8>,
    chunk2: Seq<u8>,
    f2: Seq<u8>,
)
    requires
        sealed_frame_under(key, associated_data, nonce, chunk1, f1),
        sealed_frame_under(key, associated_data, nonce, chunk2, f2),
        chunk1.len() == chunk2.len(),
    ensures
        f1.len() == f2.len(),
        f1.take(HEADER_SIZE as int) == f2.take(HEADER_SIZE as int),
{
    let s1 = crate::cipher::xchacha20poly1305_seal(key, nonce, associated_data, chunk1);
    let s2 = crate::cipher::xchacha20poly1305_seal(key, nonce, associated_data, chunk2);
    lemma_auto_spec_u64_to_from_le_bytes();
    assert(f1.take(HEADER_SIZE as int) =~= nonce + spec_u64_to_le_bytes(chunk1.len() as u64));
    assert(f2.take(HEADER_SIZE as int) =~= nonce + spec_u64_to_le_bytes(chunk2.len() as u64));
}

/// A reader's state is set by the bytes it has taken in, not by how they
/// were split across calls: two readers with the same key and associated
/// data whose frames opened and unfinished frame together hold the same
/// bytes have opened the same frames to the same chunks, hold the same
/// unfinished frame and serve the same plaintext.
pub proof fn lemma_reader_state_set_by_input(r1: Reader, r2: Reader)
    requires
        r1.inv(),
        r2.inv(),
        r1.key() == r2.key(),
        r1.associated_data() == r2.associated_data(),
        r1.decoded_input() + r1.partial() == r2.decoded_input() + r2.partial(),
    ensures
        r1.decoded_input() == r2.decoded_input(),
        r1.partial() == r2.partial(),
        r1.opened_chunks() == r2.opened_chunks(),
        r1.plaintext() == r2.plaintext(),
{
    lemma_whole_frames_unique(
        r1.key(),
        r1.associated_data(),
        r1.decoded_input(),
        r1.partial(),
        r1.opened_chunks(),
        r2.decoded_input(),
        r2.partial(),
        r2.opened_chunks(),
    );
    assert(stream_decodes_to(r2.key(), r2.associated_data(), r2.decoded_input(), r1.opened_chunks()));
}

/// Flushing seals exactly what is pending. With nothing pending it emits
/// nothing and changes nothing. With a pending chunk the cipher can take, it
/// emits the frame of that chunk, sealed with the writer's key and
/// associated data, and leaves nothing pending, unless the operating system
/// refused a nonce during the call; and it reports a refused nonce only
/// when the operating system did refuse one. A frame it emits carries the
/// nonce drawn for it in that call, and no other nonce is drawn.
pub proof fn lemma_flush_chunk_seals_pending(
    before: Writer,
    after: Writer,
    r: Result<Option<Vec<u8>>, ChunkError>,
)
    requires
        before.inv(),
        Writer::flush_chunk_outcome(before, after, r),
    ensures
        before.pending().len() == 0 ==> r is Ok && after.pending() == before.pending()
            && after.chunks() == before.chunks(),
        before.pending().len() > 0 && cipher_accepts_len(before.pending().len())
            && after.nonce_refusals() == before.nonce_refusals() ==> (r matches Ok(Some(f)) && {
            &&& is_sealed_frame(before.key(), before.associated_data(), before.pending(), f@)
            &&& f@.len() == frame_size(before.pending().len())
            &&& after.pending().len() == 0
            &&& after.chunks() == before.chunks().push(before.pending())
            &&& after.taken() == before.taken()
        }),
        r matches Ok(Some(f)) ==> after.nonces_drawn() == before.nonces_drawn().push(
            f@.take(NONCE_SIZE as int),
        ),
        r == Err::<Option<Vec<u8>>, ChunkError>(ChunkError::NonceUnavailable)
            ==> after.nonce_refusals() > before.nonce_refusals(),
        r == Err::<Option<Vec<u8>>, ChunkError>(ChunkError::EncryptionFailed) ==> !cipher_accepts_len(
            before.pending().len(),
        ),
{
    if let Ok(Some(f)) = r {
        if before.pending().len() > 0 {
            lemma_sealed_frame_opens(before.key(), before.associated_data(), before.pending(), f@);
        }
    }
}

/// Writing takes input while the pending chunk has room, as much of it as
/// fits; once the pending chunk is full it seals it, with the writer's key
/// and associated data, into a frame and empties it, unless the operating
/// system refused a nonce during the call, which is the only time a refused
/// nonce is reported. A frame it emits carries the nonce drawn for it in
/// that call.
pub proof fn lemma_write_chunks_input(
    before: Writer,
    after: Writer,
    buf: Seq<u8>,
    r: Result<WriteOutcome, ChunkError>,
)
    requires
        before.inv(),
        Writer::write_outcome(before, after, buf, r),
    ensures
        !before.must_seal() ==> (r matches Ok(WriteOutcome::Accepted(n)) && {
            &&& n <= buf.len()
            &&& after.pending() == before.pending() + buf.take(n as int)
            &&& n == buf.len() || after.pending().len() == after.chunk_size()
            &&& after.taken() == before.taken() + buf.take(n as int)
        }),
        before.must_seal() && cipher_accepts_len(before.pending().len())
            && after.nonce_refusals() == before.nonce_refusals() ==> (r matches Ok(
            WriteOutcome::Sealed(f),
        ) && {
            &&& is_sealed_frame(before.key(), before.associated_data(), before.pending(), f@)
            &&& f@.len() == frame_size(before.chunk_size())
            &&& after.pending().len() == 0
            &&& after.chunks() == before.chunks().push(before.pending())
            &&& after.taken() == before.taken()
        }),
        r matches Ok(WriteOutcome::Sealed(f)) ==> after.nonces_drawn() == before.nonces_drawn().push(
            f@.take(NONCE_SIZE as int),
        ),
        r == Err::<WriteOutcome, ChunkError>(ChunkError::NonceUnavailable)
            ==> after.nonce_refusals() > before.nonce_refusals(),
        r == Err::<WriteOutcome, ChunkError>(ChunkError::EncryptionFailed) ==> !cipher_accepts_len(
            before.pending().len(),
        ),
{
    if let Ok(WriteOutcome::Sealed(f)) = r {
        if before.must_seal() {
            lemma_sealed_frame_opens(before.key(), before.associated_data(), before.pending(), f@);
        }
    }
}

} // verus!
