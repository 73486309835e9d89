use chacha20poly1305::aead::{Aead, KeyInit};
use chacha20poly1305::{Key, XChaCha20Poly1305, XNonce};
use encrypt_file::{
    append_sealed, encrypt_file_xchacha20, generate_key, ChunkedEncoder, EncryptError, Progress,
    ReadOutcome, CHUNK_SIZE, KEY_SIZE, TAG_SIZE,
};

const KEY: [u8; 32] = [7u8; 32];

fn bytes(len: usize, seed: u8) -> Vec<u8> {
    (0..len).map(|i| (i as u8).wrapping_mul(13).wrapping_add(seed)).collect()
}

fn seal_with(key: &[u8], index: u32, plaintext: &[u8]) -> Vec<u8> {
    let mut nonce = [0u8; 24];
    nonce[..4].copy_from_slice(&index.to_le_bytes());
    let cipher = XChaCha20Poly1305::new(Key::from_slice(key));
    cipher.encrypt(XNonce::from_slice(&nonce), plaintext).expect("sealing")
}

#[test]
fn encoder_refuses_a_key_of_the_wrong_length() {
    assert_eq!(ChunkedEncoder::new(&KEY[..31], 0, 0).err(), Some(EncryptError::InvalidKeyLength));
    assert_eq!(ChunkedEncoder::new(&[0u8; 33], 0, 0).err(), Some(EncryptError::InvalidKeyLength));
    assert_eq!(ChunkedEncoder::new(&[], 5, 9).err(), Some(EncryptError::InvalidKeyLength));
}

#[test]
fn encoder_starts_at_the_given_index_with_no_output() {
    let encoder = ChunkedEncoder::new(&KEY, 0, 17).ok().unwrap();
    assert_eq!(encoder.next_index(), 17);
    assert_eq!(encoder.finish(), Vec::<u8>::new());
}

#[test]
fn failed_read_ends_the_run() {
    let mut encoder = ChunkedEncoder::new(&KEY, 0, 0).ok().unwrap();
    assert_eq!(encoder.step(ReadOutcome::Failed), Err(EncryptError::ReadFailure));
}

#[test]
fn failed_read_after_a_chunk_ends_the_run() {
    let mut encoder = ChunkedEncoder::new(&KEY, 0, 0).ok().unwrap();
    let data = bytes(100, 1);
    assert_eq!(encoder.step(ReadOutcome::Bytes(&data)), Ok(Progress::ReadMore));
    assert_eq!(encoder.step(ReadOutcome::Failed), Err(EncryptError::ReadFailure));
    assert_eq!(encoder.next_index(), 1);
}

#[test]
fn empty_read_finishes_without_output() {
    let mut encoder = ChunkedEncoder::new(&KEY, 50, 3).ok().unwrap();
    assert_eq!(encoder.step(ReadOutcome::Bytes(&[])), Ok(Progress::Finished));
    assert_eq!(encoder.next_index(), 3);
    assert_eq!(encoder.finish(), Vec::<u8>::new());
}

#[test]
fn each_chunk_moves_the_index_on_by_one() {
    let mut encoder = ChunkedEncoder::new(&KEY, 0, 10).ok().unwrap();
    let data = bytes(20, 2);
    assert_eq!(encoder.step(ReadOutcome::Bytes(&data)), Ok(Progress::ReadMore));
    assert_eq!(encoder.next_index(), 11);
    assert_eq!(encoder.step(ReadOutcome::Bytes(&data)), Ok(Progress::ReadMore));
    assert_eq!(encoder.next_index(), 12);
    assert_eq!(encoder.step(ReadOutcome::Bytes(&[])), Ok(Progress::Finished));
    assert_eq!(encoder.next_index(), 12);
}

#[test]
fn step_appends_the_sealed_chunk() {
    let mut encoder = ChunkedEncoder::new(&KEY, 0, 5).ok().unwrap();
    let first = bytes(300, 3);
    let second = bytes(200, 4);
    assert_eq!(encoder.step(ReadOutcome::Bytes(&first)), Ok(Progress::ReadMore));
    assert_eq!(encoder.step(ReadOutcome::Bytes(&second)), Ok(Progress::ReadMore));
    let mut expected = seal_with(&KEY, 5, &first);
    expected.extend_from_slice(&seal_with(&KEY, 6, &second));
    assert_eq!(encoder.finish(), expected);
}

#[test]
fn every_short_read_is_padded_from_the_buffer() {
    let mut encoder = ChunkedEncoder::new(&KEY, 4, 0).ok().unwrap();
    let first = bytes(10, 5);
    let second = bytes(6, 6);
    assert_eq!(encoder.step(ReadOutcome::Bytes(&first)), Ok(Progress::ReadMore));
    assert_eq!(encoder.step(ReadOutcome::Bytes(&second)), Ok(Progress::ReadMore));
    let mut first_plain = first.clone();
    first_plain.extend_from_slice(&[0, 0, 0, 0]);
    let mut second_plain = second.clone();
    second_plain.extend_from_slice(&first[6..10]);
    let mut expected = seal_with(&KEY, 0, &first_plain);
    expected.extend_from_slice(&seal_with(&KEY, 1, &second_plain));
    let output = encoder.finish();
    assert_eq!(output.len(), (10 + 4 + TAG_SIZE) + (6 + 4 + TAG_SIZE));
    assert_eq!(output, expected);
}

#[test]
fn full_read_is_not_padded() {
    let mut encoder = ChunkedEncoder::new(&KEY, 1000, 0).ok().unwrap();
    let data = bytes(CHUNK_SIZE, 7);
    assert_eq!(encoder.step(ReadOutcome::Bytes(&data)), Ok(Progress::ReadMore));
    assert_eq!(encoder.finish(), seal_with(&KEY, 0, &data));
}

#[test]
fn padding_past_the_buffer_ends_the_run() {
    let mut encoder = ChunkedEncoder::new(&KEY, CHUNK_SIZE - 99, 0).ok().unwrap();
    let fits = bytes(99, 8);
    let too_long = bytes(100, 9);
    assert_eq!(encoder.step(ReadOutcome::Bytes(&fits)), Ok(Progress::ReadMore));
    assert_eq!(encoder.step(ReadOutcome::Bytes(&too_long)), Err(EncryptError::InvalidPadding));
    assert_eq!(encoder.next_index(), 1);
    assert_eq!(encoder.finish().len(), CHUNK_SIZE + TAG_SIZE);
}

#[test]
fn encoder_fed_with_whole_chunks_agrees_with_the_encryption_of_the_input() {
    let input = bytes(2 * CHUNK_SIZE + 77, 10);
    let mut encoder = ChunkedEncoder::new(&KEY, 12, 3).ok().unwrap();
    for chunk in input.chunks(CHUNK_SIZE) {
        assert_eq!(encoder.step(ReadOutcome::Bytes(chunk)), Ok(Progress::ReadMore));
    }
    assert_eq!(encoder.step(ReadOutcome::Bytes(&[])), Ok(Progress::Finished));
    assert_eq!(Ok(encoder.finish()), encrypt_file_xchacha20(&input, &KEY, 12, Some(3)));
}

#[test]
fn sealed_chunk_is_appended_to_the_output() {
    let mut output = vec![1u8, 2, 3];
    assert_eq!(append_sealed(&mut output, Ok(vec![4, 5])), Ok(()));
    assert_eq!(output, vec![1, 2, 3, 4, 5]);
    assert_eq!(append_sealed(&mut output, Ok(vec![])), Ok(()));
    assert_eq!(output, vec![1, 2, 3, 4, 5]);
}

#[test]
fn cipher_failure_is_reported_and_leaves_the_output() {
    let mut output = vec![1u8, 2, 3];
    assert_eq!(
        append_sealed(&mut output, Err(chacha20poly1305::aead::Error)),
        Err(EncryptError::SealFailure)
    );
    assert_eq!(output, vec![1, 2, 3]);
}

#[test]
fn generated_key_has_the_key_length() {
    assert_eq!(KEY_SIZE, 32);
    assert_eq!(generate_key().len(), KEY_SIZE);
}

#[test]
fn generated_keys_differ() {
    assert_ne!(generate_key(), generate_key());
}

#[test]
fn generated_key_is_accepted_by_the_encoder() {
    let key = generate_key();
    let output = encrypt_file_xchacha20(b"attack at dawn", &key, 2, None).unwrap();
    assert_eq!(output.len(), 14 + 2 + TAG_SIZE);
    let mut plain = b"attack at dawn".to_vec();
    plain.extend_from_slice(&[0, 0]);
    assert_eq!(output, seal_with(&key, 0, &plain));
}
