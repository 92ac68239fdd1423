//! Parsing frames, opening them, and serving the plaintext.

use vstd::prelude::*;

use crate::cipher::{open, KEY_SIZE};
use crate::erase::{zeroize_bytes, zeroize_key};
use crate::frame::{
    declared_len, frame_size, frame_target, parse_len_field, partial_frame_ok, ChunkError,
    HEADER_SIZE, MAX_CHUNK_SIZE, NONCE_SIZE, TAG_SIZE,
};
use crate::stream::{
    frame_opens_to, lemma_decodes_append, lemma_decoding_splits, lemma_empty_decodes_to_no_chunks,
    lemma_single_frame_decoding, single_frame_decodes_to, stream_decodes_to,
};
use crate::writer::min_len;

verus! {

/// Reads a stream of frames and serves the plaintext of each in turn.
///
/// The caller asks [`Reader::wanted`] how many bytes the current field still
/// needs, reads at most that many from its source and hands them to
/// [`Reader::supply`]; at the end of the source it calls
/// [`Reader::end_of_input`]. [`Reader::read`] serves the plaintext of the
/// last chunk opened.
pub struct Reader {
    key: [u8; KEY_SIZE],
    ad: Vec<u8>,
    buffer: Vec<u8>,
    pos: usize,
    frame: Vec<u8>,
    decoded: Ghost<Seq<u8>>,
    opened: Ghost<Seq<Seq<u8>>>,
}

impl Reader {
    /// The cipher key.
    pub closed spec fn key(&self) -> Seq<u8> {
        self.key@
    }

    /// The associated data authenticated with every chunk.
    pub closed spec fn associated_data(&self) -> Seq<u8> {
        self.ad@
    }

    /// The plaintext of the last chunk opened.
    pub closed spec fn plaintext(&self) -> Seq<u8> {
        self.buffer@
    }

    /// How much of [`Reader::plaintext`] has been served.
    pub closed spec fn position(&self) -> nat {
        self.pos as nat
    }

    /// The bytes of the frame being read.
    pub closed spec fn partial(&self) -> Seq<u8> {
        self.frame@
    }

    /// The input of all the frames opened so far.
    pub closed spec fn decoded_input(&self) -> Seq<u8> {
        self.decoded@
    }

    /// The plaintexts of all the frames opened so far, in order.
    pub closed spec fn opened_chunks(&self) -> Seq<Seq<u8>> {
        self.opened@
    }

    /// The served position lies within the plaintext; the frame being read
    /// is well formed so far; the frames opened so far decode to the chunks
    /// opened and to nothing else; the plaintext is the last chunk opened.
    pub open spec fn inv(&self) -> bool {
        &&& self.position() <= self.plaintext().len()
        &&& partial_frame_ok(self.partial())
        &&& stream_decodes_to(
            self.key(),
            self.associated_data(),
            self.decoded_input(),
            self.opened_chunks(),
        )
        &&& forall|chunks: Seq<Seq<u8>>|
            #[trigger] stream_decodes_to(
                self.key(),
                self.associated_data(),
                self.decoded_input(),
                chunks,
            ) ==> chunks == self.opened_chunks()
        &&& self.opened_chunks().len() == 0 ==> self.plaintext() == Seq::<u8>::empty()
        &&& self.opened_chunks().len() > 0 ==> self.plaintext() == self.opened_chunks().last()
    }

    /// With nothing decoded, only no chunks are a decoding.
    proof fn lemma_fresh_history(&self)
        requires
            self.decoded_input() == Seq::<u8>::empty(),
            self.opened_chunks() == Seq::<Seq<u8>>::empty(),
        ensures
            stream_decodes_to(self.key(), self.associated_data(), self.decoded_input(), self.opened_chunks()),
            forall|chunks: Seq<Seq<u8>>|
                #[trigger] stream_decodes_to(
                    self.key(),
                    self.associated_data(),
                    self.decoded_input(),
                    chunks,
                ) ==> chunks == self.opened_chunks(),
    {
        assert forall|chunks: Seq<Seq<u8>>|
            #[trigger] stream_decodes_to(
                self.key(),
                self.associated_data(),
                self.decoded_input(),
                chunks,
            ) implies chunks == self.opened_chunks() by {
            lemma_empty_decodes_to_no_chunks(
                self.key(),
                self.associated_data(),
                self.decoded_input(),
                chunks,
            );
        }
    }

    /// The frames opened so far are those of `other`.
    pub open spec fn same_history(&self, other: &Reader) -> bool {
        &&& self.decoded_input() == other.decoded_input()
        &&& self.opened_chunks() == other.opened_chunks()
    }

    /// Key and associated data are those of `other`.
    pub open spec fn same_setup(&self, other: &Reader) -> bool {
        &&& self.key() == other.key()
        &&& self.associated_data() == other.associated_data()
    }

    /// Plaintext and served position are those of `other`.
    pub open spec fn same_plaintext(&self, other: &Reader) -> bool {
        &&& self.plaintext() == other.plaintext()
        &&& self.position() == other.position()
    }

    /// The number of bytes the current field still needs.
    pub open spec fn spec_wanted(&self) -> int {
        frame_target(self.partial()) - self.partial().len()
    }

    /// Creates a reader at the start of a stream.
    pub fn new(key: [u8; KEY_SIZE], associated_data: &[u8]) -> (r: Reader)
        ensures
            r.inv(),
            r.key() == key@,
            r.associated_data() == associated_data@,
            r.plaintext() == Seq::<u8>::empty(),
            r.position() == 0,
            r.partial() == Seq::<u8>::empty(),
            r.decoded_input() == Seq::<u8>::empty(),
            r.opened_chunks() == Seq::<Seq<u8>>::empty(),
    {
        let ad = vstd::slice::slice_to_vec(associated_data);
        let r = Reader {
            key,
            ad,
            buffer: Vec::new(),
            pos: 0,
            frame: Vec::new(),
            decoded: Ghost(Seq::empty()),
            opened: Ghost(Seq::empty()),
        };
        proof {
            r.lemma_fresh_history();
        }
        r
    }

    /// Whether the reader is inside the nonce of a frame, where the end of
    /// the input may mark the end of the stream.
    pub fn awaiting_nonce(&self) -> (b: bool)
        ensures
            b == (self.partial().len() < NONCE_SIZE),
    {
        self.frame.len() < NONCE_SIZE
    }

    /// The number of bytes the current field still needs.
    pub fn wanted(&self) -> (n: usize)
        requires
            self.inv(),
        ensures
            n == self.spec_wanted(),
            n > 0,
    {
        let got = self.frame.len();
        if got < NONCE_SIZE {
            NONCE_SIZE - got
        } else if got < HEADER_SIZE {
            HEADER_SIZE - got
        } else {
            let field = vstd::slice::slice_subrange(self.frame.as_slice(), NONCE_SIZE, HEADER_SIZE);
            let len = vstd::bytes::u64_from_le_bytes(field) as usize;
            HEADER_SIZE + len + TAG_SIZE - got
        }
    }

    /// Takes bytes of the current field, at most [`Reader::wanted`] of them.
    ///
    /// Once the header is complete its length field is checked: a length
    /// that does not fit in `usize`, or exceeds [`MAX_CHUNK_SIZE`], is an
    /// error. Once the frame is complete it is opened: on success its
    /// plaintext replaces the served one and its length is returned; a frame
    /// that fails authentication is an error. After an error the partial
    /// frame is dropped.
    pub fn supply(&mut self, data: &[u8]) -> (r: Result<Option<usize>, ChunkError>)
        requires
            old(self).inv(),
            0 < data@.len() <= old(self).spec_wanted(),
        ensures
            final(self).inv(),
            final(self).same_setup(old(self)),
            ({
                let acc = old(self).partial() + data@;
                let len = declared_len(acc);
                &&& acc.len() < frame_size(len as nat) ==> final(self).same_history(old(self))
                &&& r is Ok ==> final(self).decoded_input() + final(self).partial()
                    == old(self).decoded_input() + acc
                &&& forall|f: Seq<u8>, p: Seq<u8>|
                    #[trigger] single_frame_decodes_to(
                        old(self).key(),
                        old(self).associated_data(),
                        f,
                        p,
                    ) && acc.len() <= f.len() && acc == f.take(acc.len() as int) ==> {
                        &&& r is Ok
                        &&& acc.len() == f.len() ==> r == Ok::<Option<usize>, ChunkError>(
                            Some(p.len() as usize),
                        ) && final(self).plaintext() == p
                    }
                &&& acc.len() < HEADER_SIZE ==> {
                    &&& r == Ok::<Option<usize>, ChunkError>(None)
                    &&& final(self).partial() == acc
                    &&& final(self).same_plaintext(old(self))
                }
                &&& acc.len() == HEADER_SIZE ==> {
                    &&& final(self).same_plaintext(old(self))
                    &&& len > usize::MAX ==> r == Err::<Option<usize>, ChunkError>(
                        ChunkError::LengthOverflow,
                    ) && final(self).partial() == Seq::<u8>::empty()
                    &&& len <= usize::MAX && len > MAX_CHUNK_SIZE ==> r == Err::<
                        Option<usize>,
                        ChunkError,
                    >(ChunkError::ChunkTooLarge) && final(self).partial() == Seq::<u8>::empty()
                    &&& len <= MAX_CHUNK_SIZE ==> r == Ok::<Option<usize>, ChunkError>(None)
                        && final(self).partial() == acc
                }
                &&& HEADER_SIZE < acc.len() < frame_size(len as nat) ==> {
                    &&& r == Ok::<Option<usize>, ChunkError>(None)
                    &&& final(self).partial() == acc
                    &&& final(self).same_plaintext(old(self))
                }
                &&& HEADER_SIZE < acc.len() == frame_size(len as nat) ==> {
                    &&& final(self).partial() == Seq::<u8>::empty()
                    &&& r != Ok::<Option<usize>, ChunkError>(None)
                    &&& r matches Ok(Some(n)) ==> {
                        &&& n == len
                        &&& final(self).plaintext().len() == len
                        &&& final(self).opened_chunks() == old(self).opened_chunks().push(
                            final(self).plaintext(),
                        )
                        &&& final(self).decoded_input() == old(self).decoded_input() + acc
                        &&& frame_opens_to(
                            old(self).key(),
                            old(self).associated_data(),
                            acc,
                            final(self).plaintext(),
                        )
                        &&& final(self).position() == 0
                    }
                    &&& forall|p: Seq<u8>|
                        #[trigger] frame_opens_to(
                            old(self).key(),
                            old(self).associated_data(),
                            acc,
                            p,
                        ) ==> r == Ok::<Option<usize>, ChunkError>(Some(len as usize))
                            && final(self).plaintext() == p
                    &&& r is Err ==> r == Err::<Option<usize>, ChunkError>(
                        ChunkError::DecryptionFailed,
                    ) && final(self).same_plaintext(old(self)) && final(self).same_history(
                        old(self),
                    )
                }
            }),
    {
        let ghost before = self.frame@;
        self.frame.extend_from_slice(data);
        let ghost acc = self.frame@;
        assert(acc =~= before + data@);
        let got = self.frame.len();
        if got < HEADER_SIZE {
            assert(self.decoded@ + acc =~= self.decoded@ + self.frame@);
            return Ok(None);
        }
        let field = vstd::slice::slice_subrange(self.frame.as_slice(), NONCE_SIZE, HEADER_SIZE);
        assert(field@ =~= acc.subrange(NONCE_SIZE as int, HEADER_SIZE as int));
        if got == HEADER_SIZE {
            match parse_len_field(field) {
                Err(e) => {
                    proof {
                        assert forall|f: Seq<u8>, p: Seq<u8>|
                            #[trigger] single_frame_decodes_to(self.key@, self.ad@, f, p)
                                && acc.len() <= f.len() && acc == f.take(
                                acc.len() as int,
                            ) implies false by {
                            assert(acc.subrange(NONCE_SIZE as int, HEADER_SIZE as int) =~= f.subrange(
                                NONCE_SIZE as int,
                                HEADER_SIZE as int,
                            ));
                        }
                    }
                    self.frame.clear();
                    return Err(e);
                },
                Ok(_) => {
                    assert(self.decoded@ + acc =~= self.decoded@ + self.frame@);
                    assert forall|f: Seq<u8>, p: Seq<u8>|
                        #[trigger] single_frame_decodes_to(
                            old(self).key(),
                            old(self).associated_data(),
                            f,
                            p,
                        ) implies acc.len() < f.len() by {}
                    return Ok(None);
                },
            }
        }
        assert(before.len() >= HEADER_SIZE);
        assert(before.subrange(NONCE_SIZE as int, HEADER_SIZE as int) =~= acc.subrange(
            NONCE_SIZE as int,
            HEADER_SIZE as int,
        ));
        let len = vstd::bytes::u64_from_le_bytes(field) as usize;
        let total = HEADER_SIZE + len + TAG_SIZE;
        if got < total {
            assert(self.decoded@ + acc =~= self.decoded@ + self.frame@);
            assert forall|f: Seq<u8>, p: Seq<u8>|
                #[trigger] single_frame_decodes_to(
                    old(self).key(),
                    old(self).associated_data(),
                    f,
                    p,
                ) && acc.len() <= f.len() && acc == f.take(acc.len() as int) implies acc.len()
                < f.len() by {
                assert(acc.subrange(NONCE_SIZE as int, HEADER_SIZE as int) =~= f.subrange(
                    NONCE_SIZE as int,
                    HEADER_SIZE as int,
                ));
            }
            return Ok(None);
        }
        proof {
            assert forall|f: Seq<u8>, p: Seq<u8>|
                #[trigger] single_frame_decodes_to(self.key@, self.ad@, f, p) && acc.len() <= f.len()
                    && acc == f.take(acc.len() as int) implies acc == f by {
                assert(acc.subrange(NONCE_SIZE as int, HEADER_SIZE as int) =~= f.subrange(
                    NONCE_SIZE as int,
                    HEADER_SIZE as int,
                ));
                assert(acc =~= f);
            }
        }
        let opened = {
            let all = self.frame.as_slice();
            let nonce = vstd::slice::slice_subrange(all, 0, NONCE_SIZE);
            let ciphertext = vstd::slice::slice_subrange(all, HEADER_SIZE, HEADER_SIZE + len);
            let tag = vstd::slice::slice_subrange(all, HEADER_SIZE + len, total);
            open(&self.key, nonce, self.ad.as_slice(), ciphertext, tag)
        };
        self.frame.clear();
        match opened {
            Some(p) => {
                proof {
                    let key = self.key@;
                    let ad = self.ad@;
                    let d = self.decoded@;
                    let cs = self.opened@;
                    assert(single_frame_decodes_to(key, ad, acc, p@));
                    lemma_decodes_append(key, ad, d, cs, acc, p@);
                    assert forall|other: Seq<Seq<u8>>|
                        #[trigger] stream_decodes_to(key, ad, d + acc, other) implies other
                        == cs.push(p@) by {
                        lemma_decoding_splits(key, ad, d, acc, cs, other);
                        assert(other.take(cs.len() as int) == cs);
                        let rest = other.skip(cs.len() as int);
                        lemma_single_frame_decoding(key, ad, acc, rest);
                        assert(frame_opens_to(key, ad, acc, rest[0]));
                        assert(rest[0] == p@);
                        assert(other =~= other.take(cs.len() as int) + rest);
                        assert(other =~= cs.push(p@));
                    }
                }
                self.decoded = Ghost(self.decoded@ + acc);
                self.opened = Ghost(self.opened@.push(p@));
                self.buffer = p;
                self.pos = 0;
                assert(self.decoded@ + self.frame@ =~= old(self).decoded_input() + acc);
                Ok(Some(len))
            },
            None => Err(ChunkError::DecryptionFailed),
        }
    }

    /// Marks the end of the input: the end of the stream when no frame is
    /// under way, a truncated frame otherwise (which is then dropped).
    pub fn end_of_input(&mut self) -> (r: Result<(), ChunkError>)
        requires
            old(self).inv(),
        ensures
            final(self).inv(),
            final(self).same_setup(old(self)),
            final(self).same_plaintext(old(self)),
            final(self).same_history(old(self)),
            final(self).partial() == Seq::<u8>::empty(),
            old(self).partial().len() == 0 ==> r == Ok::<(), ChunkError>(()),
            old(self).partial().len() > 0 ==> r == Err::<(), ChunkError>(ChunkError::Truncated),
    {
        if self.frame.len() == 0 {
            Ok(())
        } else {
            self.frame.clear();
            Err(ChunkError::Truncated)
        }
    }

    /// Serves plaintext into `buf`: as many bytes as are left and fit.
    ///
    /// Returns `None`, changing nothing, when all of the plaintext has been
    /// served; the caller then reads the next frame.
    pub fn read(&mut self, buf: &mut [u8]) -> (r: Option<usize>)
        requires
            old(self).inv(),
        ensures
            final(self).inv(),
            final(self).same_setup(old(self)),
            final(self).plaintext() == old(self).plaintext(),
            final(self).partial() == old(self).partial(),
            final(self).same_history(old(self)),
            old(self).position() == old(self).plaintext().len() ==> {
                &&& r is None
                &&& final(self).position() == old(self).position()
                &&& final(buf)@ == old(buf)@
            },
            old(self).position() < old(self).plaintext().len() ==> (r matches Some(n) && {
                let pos = old(self).position() as int;
                &&& n == min_len(old(self).plaintext().len() - pos, old(buf)@.len() as int)
                &&& final(self).position() == pos + n
                &&& final(buf)@ == old(self).plaintext().subrange(pos, pos + n)
                    + old(buf)@.skip(n as int)
            }),
    {
        if self.pos >= self.buffer.len() {
            return None;
        }
        let left = self.buffer.len() - self.pos;
        let take = if left < buf.len() {
            left
        } else {
            buf.len()
        };
        let ghost orig = buf@;
        let mut i: usize = 0;
        while i < take
            invariant
                take <= buf@.len(),
                buf@.len() == orig.len(),
                self.pos + take <= self.buffer.len(),
                i <= take,
                forall|j: int| 0 <= j < i ==> buf@[j] == self.buffer@[self.pos + j],
                forall|j: int| i <= j < orig.len() ==> buf@[j] == orig[j],
            decreases take - i,
        {
            buf[i] = self.buffer[self.pos + i];
            i = i + 1;
        }
        assert(buf@ =~= self.buffer@.subrange(self.pos as int, self.pos + take) + orig.skip(
            take as int,
        ));
        self.pos = self.pos + take;
        Some(take)
    }

    /// Wipes the key, the associated data, the plaintext and the frame being
    /// read.
    pub fn wipe(&mut self)
        ensures
            final(self).inv(),
            final(self).key() == Seq::new(KEY_SIZE as nat, |i: int| 0u8),
            final(self).associated_data() == Seq::<u8>::empty(),
            final(self).plaintext() == Seq::<u8>::empty(),
            final(self).position() == 0,
            final(self).partial() == Seq::<u8>::empty(),
            final(self).decoded_input() == Seq::<u8>::empty(),
            final(self).opened_chunks() == Seq::<Seq<u8>>::empty(),
    {
        zeroize_key(&mut self.key);
        zeroize_bytes(&mut self.ad);
        zeroize_bytes(&mut self.buffer);
        zeroize_bytes(&mut self.frame);
        self.pos = 0;
        self.decoded = Ghost(Seq::empty());
        self.opened = Ghost(Seq::empty());
        proof {
            self.lemma_fresh_history();
        }
    }
}

} // verus!
