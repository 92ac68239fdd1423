//! Gathering plaintext into chunks and sealing each chunk into a frame.

use vstd::prelude::*;

use crate::cipher::{
    cipher_accepts_len, seal, xchacha20poly1305_seal, NonceSource, CIPHER_MAX_LEN, KEY_SIZE,
};
use crate::erase::{zeroize_bytes, zeroize_key};
use crate::frame::{encode_frame, frame, frame_nonce, ChunkError, NONCE_SIZE, TAG_SIZE};

verus! {

/// `f` is the frame of `plaintext` sealed under `nonce`: the cipher took the
/// plaintext, gave a ciphertext as long as it and a 16-byte tag, and the
/// frame holds the nonce, the length, the ciphertext and the tag.
pub open spec fn sealed_frame_under(
    key: Seq<u8>,
    associated_data: Seq<u8>,
    nonce: Seq<u8>,
    plaintext: Seq<u8>,
    f: Seq<u8>,
) -> bool {
    let sealed = xchacha20poly1305_seal(key, nonce, associated_data, plaintext);
    &&& nonce.len() == NONCE_SIZE
    &&& cipher_accepts_len(plaintext.len())
    &&& sealed.0.len() == plaintext.len()
    &&& sealed.1.len() == TAG_SIZE
    &&& f == frame(nonce, sealed.0, sealed.1)
}

/// `f` is the frame of `plaintext` sealed under some nonce.
pub open spec fn is_sealed_frame(
    key: Seq<u8>,
    associated_data: Seq<u8>,
    plaintext: Seq<u8>,
    f: Seq<u8>,
) -> bool {
    exists|nonce: Seq<u8>| #[trigger] sealed_frame_under(key, associated_data, nonce, plaintext, f)
}

/// The chunks laid end to end.
pub open spec fn flatten(chunks: Seq<Seq<u8>>) -> Seq<u8>
    decreases chunks.len(),
{
    if chunks.len() == 0 {
        Seq::empty()
    } else {
        flatten(chunks.drop_last()) + chunks.last()
    }
}

/// The smaller of two lengths.
pub open spec fn min_len(a: int, b: int) -> int {
    if a < b {
        a
    } else {
        b
    }
}

/// What one call of [`Writer::write`] did.
#[derive(Debug)]
pub enum WriteOutcome {
    /// This many bytes of the input were taken into the pending chunk.
    Accepted(usize),
    /// The pending chunk was full and has been sealed into this frame; no
    /// input was taken yet.
    Sealed(Vec<u8>),
}

/// Cuts a plaintext stream into chunks of `chunk_size` bytes and seals each
/// into a frame.
pub struct Writer {
    key: [u8; KEY_SIZE],
    ad: Vec<u8>,
    chunk_size: usize,
    buffer: Vec<u8>,
    taken: Ghost<Seq<u8>>,
    sealed: Ghost<Seq<Seq<u8>>>,
    nonces: Ghost<Seq<Seq<u8>>>,
    source: NonceSource,
}

impl Writer {
    /// The cipher key.
    pub closed spec fn key(&self) -> Seq<u8> {
        self.key@
    }

    /// The associated data authenticated with every chunk.
    pub closed spec fn associated_data(&self) -> Seq<u8> {
        self.ad@
    }

    /// The number of plaintext bytes in a full chunk.
    pub closed spec fn chunk_size(&self) -> nat {
        self.chunk_size as nat
    }

    /// The plaintext taken in and not sealed yet.
    pub closed spec fn pending(&self) -> Seq<u8> {
        self.buffer@
    }

    /// All the plaintext taken in so far.
    pub closed spec fn taken(&self) -> Seq<u8> {
        self.taken@
    }

    /// The chunks sealed so far, in order.
    pub closed spec fn chunks(&self) -> Seq<Seq<u8>> {
        self.sealed@
    }

    /// The nonces the chunks were sealed under, in order: one per chunk.
    pub closed spec fn nonces(&self) -> Seq<Seq<u8>> {
        self.nonces@
    }

    /// The nonces drawn for this writer from the operating system, in
    /// order.
    pub closed spec fn nonces_drawn(&self) -> Seq<Seq<u8>> {
        self.source.drawn()
    }

    /// How often the operating system refused this writer a nonce.
    pub closed spec fn nonce_refusals(&self) -> nat {
        self.source.refusals()
    }

    /// The pending chunk never exceeds the chunk size; every chunk sealed
    /// was full and not empty; and what was taken in is the sealed chunks
    /// followed by the pending one.
    pub open spec fn inv(&self) -> bool {
        &&& self.pending().len() <= self.chunk_size()
        &&& forall|i: int|
            0 <= i < self.chunks().len() ==> 0 < (#[trigger] self.chunks()[i]).len()
                <= self.chunk_size()
        &&& self.taken() == flatten(self.chunks()) + self.pending()
        &&& self.nonces().len() == self.chunks().len()
    }

    /// Key, associated data and chunk size are those of `other`.
    pub open spec fn same_setup(&self, other: &Writer) -> bool {
        &&& self.key() == other.key()
        &&& self.associated_data() == other.associated_data()
        &&& self.chunk_size() == other.chunk_size()
    }

    /// The pending chunk holds data and is full.
    pub open spec fn must_seal(&self) -> bool {
        0 < self.pending().len() && self.pending().len() == self.chunk_size()
    }

    /// `f` is the frame of the pending chunk sealed under `nonce`.
    pub open spec fn seals_pending_under(&self, nonce: Seq<u8>, f: Seq<u8>) -> bool {
        sealed_frame_under(self.key(), self.associated_data(), nonce, self.pending(), f)
    }

    /// Creates a writer with nothing pending.
    pub fn new(key: [u8; KEY_SIZE], chunk_size: usize, associated_data: &[u8]) -> (w: Writer)
        ensures
            w.inv(),
            w.key() == key@,
            w.associated_data() == associated_data@,
            w.chunk_size() == chunk_size,
            w.pending() == Seq::<u8>::empty(),
            w.taken() == Seq::<u8>::empty(),
            w.chunks() == Seq::<Seq<u8>>::empty(),
            w.nonces() == Seq::<Seq<u8>>::empty(),
            w.nonce_refusals() == 0,
            w.nonces_drawn() == Seq::<Seq<u8>>::empty(),
    {
        let ad = vstd::slice::slice_to_vec(associated_data);
        let w = Writer {
            key,
            ad,
            chunk_size,
            buffer: Vec::new(),
            taken: Ghost(Seq::empty()),
            sealed: Ghost(Seq::empty()),
            nonces: Ghost(Seq::empty()),
            source: NonceSource::new(),
        };
        assert(w.taken() =~= flatten(w.chunks()) + w.pending());
        w
    }

    /// The effect of sealing the pending chunk under `nonce`: the chunk
    /// joins the sealed chunks and the nonce joins their nonces.
    pub open spec fn sealed_pending(&self, before: &Writer, nonce: Seq<u8>) -> bool {
        &&& self.pending() == Seq::<u8>::empty()
        &&& self.chunks() == before.chunks().push(before.pending())
        &&& self.nonces() == before.nonces().push(nonce)
        &&& self.taken() == before.taken()
        &&& self.nonce_refusals() == before.nonce_refusals()
    }

    /// The effect of a nonce the operating system refused: nothing changes
    /// but the count of refusals.
    pub open spec fn refused_nonce(&self, before: &Writer) -> bool {
        &&& self.same_setup(before)
        &&& self.pending() == before.pending()
        &&& self.taken() == before.taken()
        &&& self.chunks() == before.chunks()
        &&& self.nonces() == before.nonces()
        &&& self.nonces_drawn() == before.nonces_drawn()
        &&& self.nonce_refusals() == before.nonce_refusals() + 1
    }

    /// What sealing the pending chunk under a fresh nonce gave: `before` and
    /// `after` are the writer before and after, which must seal.
    pub open spec fn seal_outcome(
        before: Writer,
        after: Writer,
        r: Result<Vec<u8>, ChunkError>,
    ) -> bool {
        match r {
            Ok(f) => {
                &&& before.seals_pending_under(frame_nonce(f@), f@)
                &&& after.sealed_pending(&before, frame_nonce(f@))
                &&& after.nonces_drawn() == before.nonces_drawn().push(frame_nonce(f@))
            },
            Err(e) => (e == ChunkError::NonceUnavailable && after.refused_nonce(&before)) || (e
                == ChunkError::EncryptionFailed && !cipher_accepts_len(before.pending().len())
                && after == before),
        }
    }

    /// What [`Writer::flush_chunk`] did, from the writer before to the
    /// writer after.
    pub open spec fn flush_chunk_outcome(
        before: Writer,
        after: Writer,
        r: Result<Option<Vec<u8>>, ChunkError>,
    ) -> bool {
        &&& after.same_setup(&before)
        &&& before.pending().len() == 0 ==> r == Ok::<Option<Vec<u8>>, ChunkError>(None) && after
            == before
        &&& before.pending().len() > 0 ==> match r {
            Ok(Some(f)) => Writer::seal_outcome(before, after, Ok(f)),
            Ok(None) => false,
            Err(e) => Writer::seal_outcome(before, after, Err(e)),
        }
    }

    /// What [`Writer::write`] did with `buf`, from the writer before to the
    /// writer after.
    pub open spec fn write_outcome(
        before: Writer,
        after: Writer,
        buf: Seq<u8>,
        r: Result<WriteOutcome, ChunkError>,
    ) -> bool {
        &&& after.same_setup(&before)
        &&& before.must_seal() ==> match r {
            Ok(WriteOutcome::Sealed(f)) => Writer::seal_outcome(before, after, Ok(f)),
            Ok(WriteOutcome::Accepted(_)) => false,
            Err(e) => Writer::seal_outcome(before, after, Err(e)),
        }
        &&& !before.must_seal() ==> match r {
            Ok(WriteOutcome::Accepted(n)) => {
                &&& n == min_len(before.chunk_size() - before.pending().len(), buf.len() as int)
                &&& after.pending() == before.pending() + buf.take(n as int)
                &&& after.taken() == before.taken() + buf.take(n as int)
                &&& after.chunks() == before.chunks()
                &&& after.nonces() == before.nonces()
                &&& after.nonce_refusals() == before.nonce_refusals()
                &&& after.nonces_drawn() == before.nonces_drawn()
            },
            _ => false,
        }
    }

    /// Seals the pending chunk, which holds data, under the given nonce.
    ///
    /// Fails, changing nothing, exactly when the chunk is too long for the
    /// cipher.
    pub fn seal_with_nonce(&mut self, nonce: &[u8]) -> (r: Result<Vec<u8>, ChunkError>)
        requires
            old(self).inv(),
            old(self).pending().len() > 0,
            nonce@.len() == NONCE_SIZE,
        ensures
            final(self).inv(),
            final(self).same_setup(old(self)),
            r is Ok <==> cipher_accepts_len(old(self).pending().len()),
            r matches Ok(f) ==> old(self).seals_pending_under(nonce@, f@)
                && final(self).sealed_pending(old(self), nonce@),
            final(self).nonces_drawn() == old(self).nonces_drawn(),
            r is Err ==> r == Err::<Vec<u8>, ChunkError>(ChunkError::EncryptionFailed)
                && *final(self) == *old(self),
    {
        if self.buffer.len() as u64 > CIPHER_MAX_LEN {
            return Err(ChunkError::EncryptionFailed);
        }
        match seal(&self.key, nonce, self.ad.as_slice(), self.buffer.as_slice()) {
            None => Err(ChunkError::EncryptionFailed),
            Some((ciphertext, tag)) => {
                let f = encode_frame(nonce, ciphertext.as_slice(), tag.as_slice());
                let ghost chunk = self.buffer@;
                self.buffer.clear();
                self.sealed = Ghost(self.sealed@.push(chunk));
                self.nonces = Ghost(self.nonces@.push(nonce@));
                proof {
                    assert(self.sealed@.drop_last() =~= old(self).chunks());
                    assert(forall|i: int|
                        0 <= i < self.sealed@.len() ==> 0 < (#[trigger] self.sealed@[i]).len()
                            <= self.chunk_size);
                    assert(self.taken@ =~= flatten(self.sealed@) + self.buffer@);
                }
                Ok(f)
            },
        }
    }

    /// Seals the pending chunk, if there is one, under a nonce drawn for it
    /// from the operating system, and records that nonce.
    ///
    /// With nothing pending it returns `Ok(None)`. A failure changes nothing.
    pub fn flush_chunk(&mut self) -> (r: Result<Option<Vec<u8>>, ChunkError>)
        requires
            old(self).inv(),
        ensures
            final(self).inv(),
            final(self).same_setup(old(self)),
            Writer::flush_chunk_outcome(*old(self), *final(self), r),
            !cipher_accepts_len(old(self).pending().len()) ==> r is Err,
    {
        if self.buffer.len() == 0 {
            return Ok(None);
        }
        if self.buffer.len() as u64 > CIPHER_MAX_LEN {
            return Err(ChunkError::EncryptionFailed);
        }
        let nonce = match self.source.draw() {
            Some(n) => n,
            None => return Err(ChunkError::NonceUnavailable),
        };
        let ghost before = *self;
        match self.seal_with_nonce(nonce.as_slice()) {
            Ok(f) => {
                assert(before.seals_pending_under(nonce@, f@));
                assert(frame_nonce(f@) =~= nonce@);
                Ok(Some(f))
            },
            Err(e) => Err(e),
        }
    }

    /// Takes as much of `buf` as fits in the pending chunk.
    ///
    /// When the pending chunk is full and not empty it is sealed first, and
    /// the frame is returned without taking any input: the caller emits the
    /// frame and calls again. With a chunk size of zero nothing is ever
    /// taken.
    pub fn write(&mut self, buf: &[u8]) -> (r: Result<WriteOutcome, ChunkError>)
        requires
            old(self).inv(),
        ensures
            final(self).inv(),
            final(self).same_setup(old(self)),
            Writer::write_outcome(*old(self), *final(self), buf@, r),
    {
        if self.buffer.len() == self.chunk_size && self.buffer.len() > 0 {
            return match self.flush_chunk() {
                Ok(Some(f)) => Ok(WriteOutcome::Sealed(f)),
                Ok(None) => Ok(WriteOutcome::Accepted(0)),
                Err(e) => Err(e),
            };
        }
        let room = self.chunk_size - self.buffer.len();
        let take = if room < buf.len() {
            room
        } else {
            buf.len()
        };
        let part = vstd::slice::slice_subrange(buf, 0, take);
        self.buffer.extend_from_slice(part);
        self.taken = Ghost(self.taken@ + part@);
        assert(self.buffer@ =~= old(self).pending() + buf@.take(take as int));
        assert(self.taken@ =~= flatten(self.sealed@) + self.buffer@);
        Ok(WriteOutcome::Accepted(take))
    }

    /// Wipes the key, the associated data and the pending plaintext.
    pub fn wipe(&mut self)
        ensures
            final(self).inv(),
            final(self).pending() == Seq::<u8>::empty(),
            final(self).associated_data() == Seq::<u8>::empty(),
            final(self).key() == Seq::new(KEY_SIZE as nat, |i: int| 0u8),
            final(self).chunk_size() == 0,
            final(self).taken() == Seq::<u8>::empty(),
            final(self).chunks() == Seq::<Seq<u8>>::empty(),
            final(self).nonces() == Seq::<Seq<u8>>::empty(),
    {
        zeroize_key(&mut self.key);
        zeroize_bytes(&mut self.ad);
        zeroize_bytes(&mut self.buffer);
        self.chunk_size = 0;
        self.taken = Ghost(Seq::empty());
        self.sealed = Ghost(Seq::empty());
        self.nonces = Ghost(Seq::empty());
        assert(self.taken@ =~= flatten(self.sealed@) + self.buffer@);
    }
}

} // verus!
