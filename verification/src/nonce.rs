//! Derivation of the per-chunk nonce from the chunk index.

use vstd::prelude::*;

verus! {

/// Length in bytes of an XChaCha20-Poly1305 nonce.
pub const NONCE_SIZE: usize = 24;

/// The nonce of the chunk with the given index: the index in little-endian
/// order in the first four bytes, zero in the twenty bytes that follow.
pub open spec fn nonce_bytes(index: u32) -> Seq<u8> {
    seq![
        (index % 256) as u8,
        (index / 256 % 256) as u8,
        (index / 65536 % 256) as u8,
        (index / 16777216) as u8,
    ] + Seq::new(20, |k: int| 0u8)
}

/// The number that the first four bytes of a nonce encode in little-endian order.
pub open spec fn nonce_index(nonce: Seq<u8>) -> int {
    nonce[0] + 256 * nonce[1] + 65536 * nonce[2] + 16777216 * nonce[3]
}

/// The nonce of chunk `i` of a run whose first chunk has the index `start`.
pub open spec fn run_nonce(start: u32, i: nat) -> Seq<u8> {
    nonce_bytes((start + i) as u32)
}

/// A nonce is 24 bytes long, and the chunk index can be read back from it.
pub proof fn lemma_nonce_encodes_index(index: u32)
    ensures
        nonce_bytes(index).len() == NONCE_SIZE,
        nonce_index(nonce_bytes(index)) == index,
        forall|k: int| 4 <= k < 24 ==> nonce_bytes(index)[k] == 0,
{
    assert(index == (index % 256) + 256 * (index / 256 % 256) + 65536 * (index / 65536 % 256)
        + 16777216 * (index / 16777216)) by (bit_vector);
    assert(index / 16777216 < 256) by (bit_vector);
    let nonce = nonce_bytes(index);
    assert(nonce[0] == index % 256);
    assert(nonce[1] == index / 256 % 256);
    assert(nonce[2] == index / 65536 % 256);
    assert(nonce[3] == index / 16777216);
}

/// Two chunk indices share a nonce only if they are the same index.
pub proof fn lemma_nonce_injective(i: u32, j: u32)
    ensures
        nonce_bytes(i) == nonce_bytes(j) <==> i == j,
{
    lemma_nonce_encodes_index(i);
    lemma_nonce_encodes_index(j);
}

/// Within one run, which numbers its chunks `start`, `start + 1`, ..., no two
/// chunks are sealed under the same nonce.
pub proof fn lemma_run_nonces_distinct(start: u32, count: nat)
    requires
        start + count <= u32::MAX,
    ensures
        forall|i: nat, j: nat|
            i < count && j < count && i != j ==> #[trigger] run_nonce(start, i) != #[trigger] run_nonce(
                start,
                j,
            ),
{
    assert forall|i: nat, j: nat| i < count && j < count && i != j implies #[trigger] run_nonce(
        start,
        i,
    ) != #[trigger] run_nonce(start, j) by {
        lemma_nonce_injective((start + i) as u32, (start + j) as u32);
    }
}

/// Two runs whose index ranges do not overlap never seal two chunks under the
/// same nonce, so they may share a key.
pub proof fn lemma_disjoint_runs_nonces_distinct(
    start_a: u32,
    count_a: nat,
    start_b: u32,
    count_b: nat,
)
    requires
        start_a + count_a <= u32::MAX,
        start_b + count_b <= u32::MAX,
        start_a + count_a <= start_b || start_b + count_b <= start_a,
    ensures
        forall|i: nat, j: nat|
            i < count_a && j < count_b ==> #[trigger] run_nonce(start_a, i) != #[trigger] run_nonce(
                start_b,
                j,
            ),
{
    assert forall|i: nat, j: nat| i < count_a && j < count_b implies #[trigger] run_nonce(
        start_a,
        i,
    ) != #[trigger] run_nonce(start_b, j) by {
        lemma_nonce_injective((start_a + i) as u32, (start_b + j) as u32);
    }
}

/// Builds the nonce for one chunk.
pub fn nonce_for_index(index: u32) -> (nonce: [u8; 24])
    ensures
        nonce@ == nonce_bytes(index),
{
    let b0: u8 = (index & 0xff) as u8;
    let b1: u8 = ((index >> 8) & 0xff) as u8;
    let b2: u8 = ((index >> 16) & 0xff) as u8;
    let b3: u8 = ((index >> 24) & 0xff) as u8;
    assert(index & 0xff == index % 256) by (bit_vector);
    assert((index >> 8) & 0xff == index / 256 % 256) by (bit_vector);
    assert((index >> 16) & 0xff == index / 65536 % 256) by (bit_vector);
    assert((index >> 24) & 0xff == index / 16777216) by (bit_vector);
    let nonce: [u8; 24] = [
        b0, b1, b2, b3, 0, 0, 0, 0, 0, 0, 0, 0, 0, 0, 0, 0, 0, 0, 0, 0, 0, 0, 0, 0,
    ];
    assert(nonce@ =~= nonce_bytes(index));
    nonce
}

} // verus!
