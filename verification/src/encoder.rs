//! The chunked encoder as a state machine: the caller reads from its byte
//! source and hands each read to the encoder, which seals what was read and
//! says whether to read on.

use crate::cipher::{append_sealed, seal, xchacha20poly1305_sealed, KEY_SIZE};
use crate::error::EncryptError;
use crate::layout::{effective_len, effective_length, padding_fits, CHUNK_SIZE, TAG_SIZE};
use crate::nonce::{nonce_bytes, nonce_for_index};
use vstd::prelude::*;
use vstd::slice::{slice_subrange, slice_to_vec};

verus! {

/// What one read from the byte source gave.
pub enum ReadOutcome<'a> {
    /// The bytes that were read, at most one chunk of them. No bytes at all
    /// means that the source is exhausted.
    Bytes(&'a [u8]),
    /// The source reported an error.
    Failed,
}

/// What the caller does after a step that succeeded.
#[derive(Clone, Copy, Debug, PartialEq, Eq, Structural)]
pub enum Progress {
    /// A chunk was sealed: read again.
    ReadMore,
    /// The source is exhausted: the output is complete.
    Finished,
}

/// The encoder as a mathematical value.
pub struct EncoderState {
    /// The key that every chunk is sealed under.
    pub key: Seq<u8>,
    /// Number of bytes by which a short chunk is extended.
    pub padding: nat,
    /// Index of the next chunk.
    pub next_index: u32,
    /// The chunk buffer: what the latest reads left in it.
    pub buffer: Seq<u8>,
    /// The sealed chunks so far, one after the other.
    pub output: Seq<u8>,
}

impl EncoderState {
    /// What holds of every encoder: the key has the cipher's key length, and
    /// the buffer holds exactly one chunk.
    pub open spec fn valid(self) -> bool {
        &&& self.key.len() == KEY_SIZE
        &&& self.buffer.len() == CHUNK_SIZE
    }

    /// The encoder before its first read: a zeroed buffer and no output.
    pub open spec fn initial(key: Seq<u8>, padding: nat, start_index: u32) -> EncoderState {
        EncoderState {
            key,
            padding,
            next_index: start_index,
            buffer: Seq::new(CHUNK_SIZE as nat, |k: int| 0u8),
            output: Seq::empty(),
        }
    }

    /// The buffer after `bytes` were read into its front. What lay behind
    /// them stays.
    pub open spec fn refilled(self, bytes: Seq<u8>) -> Seq<u8> {
        bytes + self.buffer.subrange(bytes.len() as int, CHUNK_SIZE as int)
    }

    /// The bytes that are sealed for a read of `bytes`: the bytes themselves
    /// and, behind a short read, as many bytes of padding as were asked for.
    /// The padding is not fresh: it is what the buffer holds behind the
    /// bytes, zero where nothing was read yet and the bytes of an earlier
    /// read elsewhere.
    pub open spec fn plaintext(self, bytes: Seq<u8>) -> Seq<u8> {
        self.refilled(bytes).subrange(0, effective_len(bytes.len(), self.padding) as int)
    }

    /// The chunk that a read of `bytes` adds to the output.
    pub open spec fn segment(self, bytes: Seq<u8>) -> Seq<u8> {
        xchacha20poly1305_sealed(self.key, nonce_bytes(self.next_index), self.plaintext(bytes))
    }

    /// The encoder after a read of `bytes` was sealed.
    pub open spec fn absorb(self, bytes: Seq<u8>) -> EncoderState {
        EncoderState {
            key: self.key,
            padding: self.padding,
            next_index: (self.next_index + 1) as u32,
            buffer: self.refilled(bytes),
            output: self.output + self.segment(bytes),
        }
    }
}

/// Encrypts a byte stream chunk by chunk. It owns the key, the chunk buffer,
/// the chunk index and the output of one run.
///
/// The caller reads from its source into a buffer of one chunk, hands every
/// read to [`ChunkedEncoder::step`] and goes on until a step says
/// [`Progress::Finished`] or fails; [`ChunkedEncoder::finish`] then hands
/// out the sealed chunks. After a failure nothing of the output is valid.
pub struct ChunkedEncoder {
    key: Vec<u8>,
    padding: usize,
    next_index: u32,
    buffer: Vec<u8>,
    output: Vec<u8>,
}

impl View for ChunkedEncoder {
    type V = EncoderState;

    closed spec fn view(&self) -> EncoderState {
        EncoderState {
            key: self.key@,
            padding: self.padding as nat,
            next_index: self.next_index,
            buffer: self.buffer@,
            output: self.output@,
        }
    }
}

/// Copies `bytes` over the front of the buffer.
fn fill_prefix(buffer: &mut Vec<u8>, bytes: &[u8])
    requires
        bytes@.len() <= old(buffer)@.len(),
    ensures
        final(buffer)@ == bytes@ + old(buffer)@.subrange(
            bytes@.len() as int,
            old(buffer)@.len() as int,
        ),
{
    let count: usize = bytes.len();
    let mut i: usize = 0;
    while i < count
        invariant
            count == bytes@.len(),
            i <= count <= buffer@.len(),
            buffer@.len() == old(buffer)@.len(),
            forall|k: int| 0 <= k < i ==> buffer@[k] == bytes@[k],
            forall|k: int| i <= k < buffer@.len() ==> buffer@[k] == old(buffer)@[k],
        decreases count - i,
    {
        buffer[i] = bytes[i];
        i = i + 1;
    }
    assert(buffer@ =~= bytes@ + old(buffer)@.subrange(
        bytes@.len() as int,
        old(buffer)@.len() as int,
    ));
}

impl ChunkedEncoder {
    /// Starts a run under `key` whose first chunk gets the index
    /// `start_index`. The key must be exactly 32 bytes long.
    ///
    /// For one key, no index may ever be used twice: a run that continues an
    /// earlier one starts behind the highest index that was used.
    pub fn new(key: &[u8], padding: usize, start_index: u32) -> (r: Result<
        ChunkedEncoder,
        EncryptError,
    >)
        ensures
            key@.len() == KEY_SIZE ==> (r matches Ok(encoder) && encoder@.valid() && encoder@
                == EncoderState::initial(key@, padding as nat, start_index)),
            key@.len() != KEY_SIZE ==> (r matches Err(e) && e == EncryptError::InvalidKeyLength),
    {
        if key.len() != KEY_SIZE {
            return Err(EncryptError::InvalidKeyLength);
        }
        let encoder = ChunkedEncoder {
            key: slice_to_vec(key),
            padding,
            next_index: start_index,
            buffer: vec![0u8; CHUNK_SIZE],
            output: Vec::new(),
        };
        assert(encoder@.buffer =~= EncoderState::initial(key@, padding as nat, start_index).buffer);
        Ok(encoder)
    }

    /// Index that the next chunk will be sealed under.
    pub fn next_index(&self) -> (index: u32)
        ensures
            index == self@.next_index,
    {
        self.next_index
    }

    /// Takes one read from the byte source.
    ///
    /// A failed read ends the run with `ReadFailure`, an empty read completes
    /// it. A short read whose padding would reach past the chunk buffer ends
    /// the run with `InvalidPadding`. Any other read is sealed under the
    /// nonce of the current chunk index and appended to the output, and the
    /// index moves on by one.
    ///
    /// A read never holds more than one chunk, and the chunk index must not
    /// be exhausted when a chunk is sealed.
    pub fn step(&mut self, outcome: ReadOutcome<'_>) -> (r: Result<Progress, EncryptError>)
        requires
            old(self)@.valid(),
            outcome matches ReadOutcome::Bytes(bytes) ==> bytes@.len() <= CHUNK_SIZE && (
            bytes@.len() > 0 ==> old(self)@.next_index < u32::MAX),
        ensures
            final(self)@.valid(),
            ({
                let before = old(self)@;
                let after = final(self)@;
                match outcome {
                    ReadOutcome::Failed => {
                        &&& r == Err::<Progress, EncryptError>(EncryptError::ReadFailure)
                        &&& after == before
                    },
                    ReadOutcome::Bytes(bytes) => if bytes@.len() == 0 {
                        &&& r == Ok::<Progress, EncryptError>(Progress::Finished)
                        &&& after == before
                    } else if !padding_fits(bytes@.len(), before.padding) {
                        &&& r == Err::<Progress, EncryptError>(EncryptError::InvalidPadding)
                        &&& after == before
                    } else {
                        &&& r == Ok::<Progress, EncryptError>(Progress::ReadMore)
                        &&& after == before.absorb(bytes@)
                        &&& before.segment(bytes@).len() == effective_len(
                            bytes@.len(),
                            before.padding,
                        ) + TAG_SIZE
                    },
                }
            }),
    {
        match outcome {
            ReadOutcome::Failed => Err(EncryptError::ReadFailure),
            ReadOutcome::Bytes(bytes) => {
                let count: usize = bytes.len();
                if count == 0 {
                    return Ok(Progress::Finished);
                }
                let length: usize = match effective_length(count, self.padding) {
                    Ok(length) => length,
                    Err(e) => {
                        return Err(e);
                    },
                };
                fill_prefix(&mut self.buffer, bytes);
                let nonce: [u8; 24] = nonce_for_index(self.next_index);
                let sealed = seal(
                    self.key.as_slice(),
                    &nonce,
                    slice_subrange(self.buffer.as_slice(), 0, length),
                );
                match append_sealed(&mut self.output, sealed) {
                    Ok(()) => {},
                    Err(e) => {
                        return Err(e);
                    },
                }
                self.next_index = self.next_index + 1;
                Ok(Progress::ReadMore)
            },
        }
    }

    /// Ends the run and hands out what was sealed.
    pub fn finish(self) -> (output: Vec<u8>)
        ensures
            output@ == self@.output,
    {
        self.output
    }
}

} // verus!
