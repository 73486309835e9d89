//! Encryption of a whole input held in memory.

use crate::cipher::{xchacha20poly1305_sealed, KEY_SIZE};
use crate::encoder::{ChunkedEncoder, EncoderState, Progress, ReadOutcome};
use crate::error::EncryptError;
use crate::layout::{
    chunk_count, input_padding_fits, lemma_empty_input, lemma_next_chunk,
    lemma_single_short_chunk, lemma_whole_chunks, output_len, padding_fits, read_len,
    segment_len, CHUNK_SIZE, TAG_SIZE,
};
use crate::nonce::run_nonce;
use vstd::prelude::*;
use vstd::seq_lib::lemma_flatten_concat;
use vstd::slice::slice_subrange;

verus! {

/// The chunk buffer as chunk `i` of the input finds it: zeroed before the
/// first chunk, and holding the chunk before it otherwise.
pub open spec fn stale_buffer(input: Seq<u8>, i: nat) -> Seq<u8> {
    if i == 0 {
        Seq::new(CHUNK_SIZE as nat, |k: int| 0u8)
    } else {
        input.subrange((i - 1) * CHUNK_SIZE, i * CHUNK_SIZE)
    }
}

/// The bytes that are sealed for chunk `i` of the input: the chunk itself
/// and, where it is short, the padding, which is what the buffer holds
/// behind the chunk.
pub open spec fn chunk_plaintext(input: Seq<u8>, padding: nat, i: nat) -> Seq<u8> {
    let count = read_len(input.len(), i);
    let read = input.subrange(i * CHUNK_SIZE, i * CHUNK_SIZE + count);
    if count < CHUNK_SIZE {
        read + stale_buffer(input, i).subrange(count as int, (count + padding) as int)
    } else {
        read
    }
}

/// Sealed chunk `i` of a run that starts at the chunk index `start`.
pub open spec fn segment(key: Seq<u8>, input: Seq<u8>, padding: nat, start: u32, i: nat) -> Seq<
    u8,
> {
    xchacha20poly1305_sealed(key, run_nonce(start, i), chunk_plaintext(input, padding, i))
}

/// The sealed chunks of a run, in input order.
pub open spec fn segments(key: Seq<u8>, input: Seq<u8>, padding: nat, start: u32) -> Seq<
    Seq<u8>,
> {
    Seq::new(chunk_count(input.len()), |i: int| segment(key, input, padding, start, i as nat))
}

/// What a run returns: the sealed chunks one after the other, or the reason
/// why there is no output.
pub open spec fn encryption_of(input: Seq<u8>, key: Seq<u8>, padding: nat, start: u32) -> Result<
    Seq<u8>,
    EncryptError,
> {
    if key.len() != KEY_SIZE {
        Err(EncryptError::InvalidKeyLength)
    } else if !input_padding_fits(input.len(), padding) {
        Err(EncryptError::InvalidPadding)
    } else {
        Ok(segments(key, input, padding, start).flatten())
    }
}

/// Whether `r` is what a run on these arguments returns.
pub open spec fn is_encryption_of(
    r: Result<Vec<u8>, EncryptError>,
    input: Seq<u8>,
    key: Seq<u8>,
    padding: nat,
    start: u32,
) -> bool {
    match r {
        Ok(output) => {
            &&& encryption_of(input, key, padding, start) == Ok::<Seq<u8>, EncryptError>(output@)
            &&& output@.len() == output_len(input.len(), padding)
            &&& forall|i: nat|
                i < chunk_count(input.len()) ==> (#[trigger] segment(
                    key,
                    input,
                    padding,
                    start,
                    i,
                )).len() == segment_len(input.len(), padding, i)
        },
        Err(e) => encryption_of(input, key, padding, start) == Err::<Seq<u8>, EncryptError>(e),
    }
}

/// An input whose length is a multiple of the chunk size, sealed without
/// padding under a key of the right length, gives one segment per chunk of
/// input, each as long as a full chunk and its tag.
pub proof fn lemma_whole_chunks_sealed(
    r: Result<Vec<u8>, EncryptError>,
    input: Seq<u8>,
    key: Seq<u8>,
    start: u32,
)
    requires
        is_encryption_of(r, input, key, 0, start),
        key.len() == KEY_SIZE,
        input.len() % (CHUNK_SIZE as nat) == 0,
    ensures
        r is Ok,
        r->Ok_0@ == segments(key, input, 0, start).flatten(),
        segments(key, input, 0, start).len() == input.len() / (CHUNK_SIZE as nat),
        forall|i: int|
            0 <= i < segments(key, input, 0, start).len() ==> (#[trigger] segments(
                key,
                input,
                0,
                start,
            )[i]).len() == CHUNK_SIZE + TAG_SIZE,
{
    lemma_whole_chunks(input.len());
    assert forall|i: int| 0 <= i < segments(key, input, 0, start).len() implies (#[trigger] segments(
        key,
        input,
        0,
        start,
    )[i]).len() == CHUNK_SIZE + TAG_SIZE by {
        assert(segments(key, input, 0, start)[i] == segment(key, input, 0, start, i as nat));
    }
}

/// A non-empty input shorter than one chunk, whose padding fits, gives
/// exactly one segment under a key of the right length: the sealed input and
/// padding, as long as the two and the tag together.
pub proof fn lemma_short_input_sealed(
    r: Result<Vec<u8>, EncryptError>,
    input: Seq<u8>,
    key: Seq<u8>,
    padding: nat,
    start: u32,
)
    requires
        is_encryption_of(r, input, key, padding, start),
        key.len() == KEY_SIZE,
        0 < input.len() < CHUNK_SIZE,
        input.len() + padding <= CHUNK_SIZE,
    ensures
        r is Ok,
        segments(key, input, padding, start).len() == 1,
        r->Ok_0@ == segment(key, input, padding, start, 0),
        r->Ok_0@.len() == input.len() + padding + TAG_SIZE,
{
    lemma_single_short_chunk(input.len(), padding);
    let all = segments(key, input, padding, start);
    assert(all[0] == segment(key, input, padding, start, 0));
    all.lemma_flatten_one_element();
}

/// An empty input gives an empty output under a key of the right length,
/// whatever the padding: where there is no chunk, nothing is padded.
pub proof fn lemma_empty_input_sealed(
    r: Result<Vec<u8>, EncryptError>,
    input: Seq<u8>,
    key: Seq<u8>,
    padding: nat,
    start: u32,
)
    requires
        is_encryption_of(r, input, key, padding, start),
        key.len() == KEY_SIZE,
        input.len() == 0,
    ensures
        r is Ok,
        segments(key, input, padding, start).len() == 0,
        r->Ok_0@ == Seq::<u8>::empty(),
{
    lemma_empty_input(padding);
    assert(r->Ok_0@ =~= Seq::<u8>::empty());
}

/// A key of any length but 32 bytes is refused, whatever the input.
pub proof fn lemma_wrong_key_refused(
    r: Result<Vec<u8>, EncryptError>,
    input: Seq<u8>,
    key: Seq<u8>,
    padding: nat,
    start: u32,
)
    requires
        is_encryption_of(r, input, key, padding, start),
        key.len() != KEY_SIZE,
    ensures
        r == Err::<Vec<u8>, EncryptError>(EncryptError::InvalidKeyLength),
{
}

/// Under a key of the right length, a run fails with `InvalidPadding`
/// exactly when the last chunk is short and does not fit in the chunk buffer
/// together with its padding; otherwise it succeeds.
pub proof fn lemma_padding_decides(
    r: Result<Vec<u8>, EncryptError>,
    input: Seq<u8>,
    key: Seq<u8>,
    padding: nat,
    start: u32,
)
    requires
        is_encryption_of(r, input, key, padding, start),
        key.len() == KEY_SIZE,
    ensures
        ({
            let last = input.len() % (CHUNK_SIZE as nat);
            if last != 0 && last + padding > CHUNK_SIZE {
                r == Err::<Vec<u8>, EncryptError>(EncryptError::InvalidPadding)
            } else {
                r is Ok
            }
        }),
{
}

/// The first `k` segments of a run, all of them before the last, take up
/// `k` times the length of a full chunk and its tag.
proof fn lemma_full_segments_len(all: Seq<Seq<u8>>, k: nat)
    requires
        k <= all.len(),
        forall|i: int| 0 <= i < k ==> (#[trigger] all[i]).len() == CHUNK_SIZE + TAG_SIZE,
    ensures
        all.subrange(0, k as int).flatten().len() == k * (CHUNK_SIZE + TAG_SIZE),
    decreases k,
{
    if k == 0 {
        assert(all.subrange(0, 0) =~= Seq::<Seq<u8>>::empty());
    } else {
        lemma_full_segments_len(all, (k - 1) as nat);
        assert(all.subrange(0, k as int) =~= all.subrange(0, k - 1).push(all[k - 1]));
        all.subrange(0, k - 1).lemma_flatten_push(all[k - 1]);
    }
}

/// Where in the output segment `i` lies. The output records no boundaries,
/// but every segment before the last is as long as a full chunk and its tag,
/// so segment `i` starts at `i` times that length. This is what lets a
/// decoder that knows the chunk size and the padding cut the output back
/// into its segments.
pub proof fn lemma_segment_position(
    r: Result<Vec<u8>, EncryptError>,
    input: Seq<u8>,
    key: Seq<u8>,
    padding: nat,
    start: u32,
    i: nat,
)
    requires
        is_encryption_of(r, input, key, padding, start),
        r is Ok,
        i < chunk_count(input.len()),
    ensures
        ({
            let from = i * (CHUNK_SIZE + TAG_SIZE);
            let to = from + segment_len(input.len(), padding, i);
            &&& to <= r->Ok_0@.len()
            &&& r->Ok_0@.subrange(from, to) == segment(key, input, padding, start, i)
        }),
{
    let all = segments(key, input, padding, start);
    let before = all.subrange(0, i as int);
    let after = all.subrange(i as int + 1, all.len() as int);
    assert forall|j: int| 0 <= j < i implies (#[trigger] all[j]).len() == CHUNK_SIZE
        + TAG_SIZE by {
        assert(all[j] == segment(key, input, padding, start, j as nat));
    }
    lemma_full_segments_len(all, i);
    assert(all[i as int] == segment(key, input, padding, start, i));
    assert(all =~= before.push(all[i as int]) + after);
    lemma_flatten_concat(before.push(all[i as int]), after);
    before.lemma_flatten_push(all[i as int]);
    let from = i * (CHUNK_SIZE + TAG_SIZE);
    let to = from + segment_len(input.len(), padding, i);
    assert(r->Ok_0@ == before.flatten() + all[i as int] + after.flatten());
    assert(r->Ok_0@.subrange(from, to) =~= all[i as int]);
}

/// Sealing chunk `done` of the input with an encoder that has sealed the
/// chunks before it adds that chunk's segment, and leaves the buffer as the
/// next chunk expects it.
proof fn lemma_absorb_chunk(
    before: EncoderState,
    input: Seq<u8>,
    key: Seq<u8>,
    padding: nat,
    start: u32,
    done: nat,
)
    requires
        before.valid(),
        before.key == key,
        before.padding == padding,
        before.next_index == start + done,
        done < chunk_count(input.len()),
        before.buffer == stale_buffer(input, done),
        padding_fits(read_len(input.len(), done), padding),
    ensures
        ({
            let count = read_len(input.len(), done);
            let chunk = input.subrange(done * CHUNK_SIZE, done * CHUNK_SIZE + count);
            &&& before.segment(chunk) == segment(key, input, padding, start, done)
            &&& done + 1 < chunk_count(input.len()) ==> before.refilled(chunk) == stale_buffer(
                input,
                done + 1,
            )
        }),
{
    let count = read_len(input.len(), done);
    let chunk = input.subrange(done * CHUNK_SIZE, done * CHUNK_SIZE + count);
    assert(before.plaintext(chunk) =~= chunk_plaintext(input, padding, done));
    if done + 1 < chunk_count(input.len()) {
        assert(before.refilled(chunk) =~= stale_buffer(input, done + 1));
    }
}

/// Encrypts `input` chunk by chunk, numbering the chunks from `chunk_index`,
/// and returns the sealed chunks one after the other. No chunk index may
/// pass `u32::MAX`.
fn encrypt_file_xchacha20_internal(
    input: &[u8],
    key: &[u8],
    padding: usize,
    chunk_index: u32,
) -> (r: Result<Vec<u8>, EncryptError>)
    requires
        chunk_index + chunk_count(input@.len()) <= u32::MAX,
    ensures
        is_encryption_of(r, input@, key@, padding as nat, chunk_index),
{
    let mut encoder = match ChunkedEncoder::new(key, padding, chunk_index) {
        Ok(encoder) => encoder,
        Err(e) => {
            return Err(e);
        },
    };
    let len: usize = input.len();
    let mut pos: usize = 0;
    let ghost all = segments(key@, input@, padding as nat, chunk_index);
    loop
        invariant
            len == input@.len(),
            key@.len() == KEY_SIZE,
            chunk_index + chunk_count(input@.len()) <= u32::MAX,
            all == segments(key@, input@, padding as nat, chunk_index),
            pos <= len,
            pos == len || pos % CHUNK_SIZE == 0,
            pos == len ==> input_padding_fits(len as nat, padding as nat),
            encoder@.valid(),
            encoder@.key == key@,
            encoder@.padding == padding,
            encoder@.next_index == chunk_index + chunk_count(pos as nat),
            pos < len ==> encoder@.buffer == stale_buffer(input@, chunk_count(pos as nat)),
            encoder@.output == all.subrange(0, chunk_count(pos as nat) as int).flatten(),
            encoder@.output.len() == output_len(pos as nat, padding as nat),
            forall|i: nat|
                i < chunk_count(pos as nat) ==> (#[trigger] segment(
                    key@,
                    input@,
                    padding as nat,
                    chunk_index,
                    i,
                )).len() == segment_len(len as nat, padding as nat, i),
        ensures
            pos == len,
            input_padding_fits(len as nat, padding as nat),
            encoder@.output == all.flatten(),
            encoder@.output.len() == output_len(len as nat, padding as nat),
            forall|i: nat|
                i < chunk_count(len as nat) ==> (#[trigger] segment(
                    key@,
                    input@,
                    padding as nat,
                    chunk_index,
                    i,
                )).len() == segment_len(len as nat, padding as nat, i),
        decreases len - pos,
    {
        let remaining: usize = len - pos;
        let count: usize = if remaining < CHUNK_SIZE {
            remaining
        } else {
            CHUNK_SIZE
        };
        let chunk = slice_subrange(input, pos, pos + count);
        let ghost done = chunk_count(pos as nat);
        let ghost before = encoder@;
        proof {
            if pos < len {
                lemma_next_chunk(len as nat, pos as nat, padding as nat);
            }
        }
        match encoder.step(ReadOutcome::Bytes(chunk)) {
            Err(e) => {
                return Err(e);
            },
            Ok(Progress::Finished) => {
                assert(all.subrange(0, chunk_count(pos as nat) as int) =~= all);
                break ;
            },
            Ok(Progress::ReadMore) => {
                proof {
                    lemma_absorb_chunk(before, input@, key@, padding as nat, chunk_index, done);
                    assert(all.subrange(0, done as int + 1) =~= all.subrange(0, done as int).push(
                        all[done as int],
                    ));
                    all.subrange(0, done as int).lemma_flatten_push(all[done as int]);
                }
                pos = pos + count;
            },
        }
    }
    Ok(encoder.finish())
}

/// Encrypts `input_file` under `key` with XChaCha20-Poly1305, chunk by chunk,
/// and returns the sealed chunks one after the other.
///
/// Chunk `i` is sealed under the nonce of the index `chunk_index + i`, where
/// a missing `chunk_index` counts as 0. A last chunk that is shorter than a
/// full chunk is extended by `padding` bytes before it is sealed: zero bytes
/// where it is the only chunk, and otherwise the bytes that the chunk before
/// it holds at those positions.
///
/// The key must be 32 bytes long (`InvalidKeyLength`), and the padded last
/// chunk must fit in one chunk (`InvalidPadding`). No chunk index may pass
/// `u32::MAX`. For one key, no index may ever be used twice: a call that
/// continues an earlier one starts behind the highest index that was used.
pub fn encrypt_file_xchacha20(
    input_file: &[u8],
    key: &[u8],
    padding: usize,
    chunk_index: Option<u32>,
) -> (r: Result<Vec<u8>, EncryptError>)
    requires
        start_index(chunk_index) + chunk_count(input_file@.len()) <= u32::MAX,
    ensures
        is_encryption_of(r, input_file@, key@, padding as nat, start_index(chunk_index)),
{
    let start: u32 = match chunk_index {
        Some(index) => index,
        None => 0,
    };
    encrypt_file_xchacha20_internal(input_file, key, padding, start)
}

/// The index of the first chunk of a run: the one that was asked for, or 0.
pub open spec fn start_index(chunk_index: Option<u32>) -> u32 {
    match chunk_index {
        Some(index) => index,
        None => 0,
    }
}

} // verus!
