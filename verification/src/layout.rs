//! How an input is cut into chunks, and how long each sealed chunk is.

use crate::error::EncryptError;
use vstd::prelude::*;

verus! {

/// Number of bytes read from the input for one chunk; also the capacity of
/// the buffer that a chunk is sealed from.
pub const CHUNK_SIZE: usize = 262144;

/// Length in bytes of the authentication tag that ends every sealed chunk.
pub const TAG_SIZE: usize = 16;

/// Number of chunks that an input of `len` bytes is cut into.
pub open spec fn chunk_count(len: nat) -> nat {
    ((len + CHUNK_SIZE - 1) / (CHUNK_SIZE as int)) as nat
}

/// Number of input bytes in chunk `i` of an input of `len` bytes: a full
/// chunk, except that the last chunk holds what is left.
pub open spec fn read_len(len: nat, i: nat) -> nat {
    if (i + 1) * CHUNK_SIZE <= len {
        CHUNK_SIZE as nat
    } else {
        (len - i * CHUNK_SIZE) as nat
    }
}

/// Number of bytes sealed for a chunk of which `count` bytes were read: a
/// short chunk is extended by the padding, a full chunk is not.
pub open spec fn effective_len(count: nat, padding: nat) -> nat {
    if count < CHUNK_SIZE {
        count + padding
    } else {
        count
    }
}

/// Whether a chunk of `count` bytes, extended by the padding where it is
/// short, still lies within the chunk buffer.
pub open spec fn padding_fits(count: nat, padding: nat) -> bool {
    effective_len(count, padding) <= CHUNK_SIZE
}

/// Whether the padding fits every chunk of an input of `len` bytes. Only the
/// last chunk can be short, so only it decides.
pub open spec fn input_padding_fits(len: nat, padding: nat) -> bool {
    len % (CHUNK_SIZE as nat) != 0 ==> len % (CHUNK_SIZE as nat) + padding <= CHUNK_SIZE
}

/// Length of sealed chunk `i` of an input of `len` bytes.
pub open spec fn segment_len(len: nat, padding: nat, i: nat) -> nat {
    (effective_len(read_len(len, i), padding) + TAG_SIZE) as nat
}

/// Length of the whole output for an input of `len` bytes.
pub open spec fn output_len(len: nat, padding: nat) -> nat {
    let tail: nat = if len % (CHUNK_SIZE as nat) != 0 {
        padding
    } else {
        0
    };
    (len + chunk_count(len) * TAG_SIZE + tail) as nat
}

/// An input whose length is a multiple of the chunk size, sealed without
/// padding, gives one segment per chunk of input, each a full chunk plus its
/// tag.
pub proof fn lemma_whole_chunks(len: nat)
    requires
        len % (CHUNK_SIZE as nat) == 0,
    ensures
        chunk_count(len) == len / (CHUNK_SIZE as nat),
        forall|i: nat| i < chunk_count(len) ==> segment_len(len, 0, i) == CHUNK_SIZE + TAG_SIZE,
        output_len(len, 0) == chunk_count(len) * (CHUNK_SIZE + TAG_SIZE),
{
}

/// A non-empty input shorter than one chunk gives exactly one segment: the
/// input, the padding and the tag.
pub proof fn lemma_single_short_chunk(len: nat, padding: nat)
    requires
        0 < len < CHUNK_SIZE,
    ensures
        chunk_count(len) == 1,
        segment_len(len, padding, 0) == len + padding + TAG_SIZE,
        output_len(len, padding) == len + padding + TAG_SIZE,
{
}

/// An empty input gives no segment at all, whatever the padding.
pub proof fn lemma_empty_input(padding: nat)
    ensures
        chunk_count(0) == 0,
        output_len(0, padding) == 0,
        input_padding_fits(0, padding),
{
}

/// Reading on at `pos`, where only whole chunks were read before, takes the
/// next chunk of the input: a full one, or what is left. Its segment extends
/// the output of the input read so far.
pub proof fn lemma_next_chunk(len: nat, pos: nat, padding: nat)
    requires
        pos < len,
        pos % (CHUNK_SIZE as nat) == 0,
    ensures
        ({
            let done = chunk_count(pos);
            let count = read_len(len, done);
            &&& pos == done * CHUNK_SIZE
            &&& done < chunk_count(len)
            &&& 0 < count <= CHUNK_SIZE
            &&& count == if len - pos < CHUNK_SIZE {
                len - pos
            } else {
                CHUNK_SIZE as int
            }
            &&& chunk_count(pos + count) == done + 1
            &&& pos + count == len || (pos + count) % (CHUNK_SIZE as nat) == 0
            &&& pos + count < len ==> done + 1 < chunk_count(len)
            &&& count < CHUNK_SIZE ==> count == len % (CHUNK_SIZE as nat)
            &&& pos + count == len && count == CHUNK_SIZE ==> len % (CHUNK_SIZE as nat) == 0
            &&& output_len(pos + count, padding) == output_len(pos, 0) + segment_len(
                len,
                padding,
                done,
            )
        }),
{
}

/// Counts the chunks that an input of `len` bytes is cut into.
pub fn chunks_in(len: usize) -> (count: usize)
    ensures
        count == chunk_count(len as nat),
{
    let whole: usize = len / CHUNK_SIZE;
    if len % CHUNK_SIZE == 0 {
        whole
    } else {
        whole + 1
    }
}

/// The number of buffer bytes to seal for a chunk of which `count` bytes
/// were read, or `InvalidPadding` where the padding would
/// reach past the end of the buffer.
pub fn effective_length(count: usize, padding: usize) -> (r: Result<usize, EncryptError>)
    requires
        count <= CHUNK_SIZE,
    ensures
        padding_fits(count as nat, padding as nat) ==> r == Ok::<usize, EncryptError>(
            effective_len(count as nat, padding as nat) as usize,
        ),
        !padding_fits(count as nat, padding as nat) ==> r == Err::<usize, EncryptError>(
            EncryptError::InvalidPadding,
        ),
{
    if count < CHUNK_SIZE {
        if padding > CHUNK_SIZE - count {
            Err(EncryptError::InvalidPadding)
        } else {
            Ok(count + padding)
        }
    } else {
        Ok(count)
    }
}

} // verus!
