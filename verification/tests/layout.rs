use encrypt_file::{chunks_in, effective_length, EncryptError, CHUNK_SIZE, TAG_SIZE};

#[test]
fn sizes_are_those_of_the_format() {
    assert_eq!(CHUNK_SIZE, 262144);
    assert_eq!(TAG_SIZE, 16);
}

#[test]
fn chunks_in_counts_whole_and_partial_chunks() {
    assert_eq!(chunks_in(0), 0);
    assert_eq!(chunks_in(1), 1);
    assert_eq!(chunks_in(CHUNK_SIZE - 1), 1);
    assert_eq!(chunks_in(CHUNK_SIZE), 1);
    assert_eq!(chunks_in(CHUNK_SIZE + 1), 2);
    assert_eq!(chunks_in(3 * CHUNK_SIZE), 3);
    assert_eq!(chunks_in(3 * CHUNK_SIZE + 5), 4);
}

#[test]
fn short_chunk_is_extended_by_the_padding() {
    assert_eq!(effective_length(10, 0), Ok(10));
    assert_eq!(effective_length(10, 5), Ok(15));
    assert_eq!(effective_length(1, 100), Ok(101));
    assert_eq!(effective_length(CHUNK_SIZE - 1, 1), Ok(CHUNK_SIZE));
}

#[test]
fn full_chunk_is_never_padded() {
    assert_eq!(effective_length(CHUNK_SIZE, 0), Ok(CHUNK_SIZE));
    assert_eq!(effective_length(CHUNK_SIZE, 5), Ok(CHUNK_SIZE));
    assert_eq!(effective_length(CHUNK_SIZE, usize::MAX), Ok(CHUNK_SIZE));
}

#[test]
fn padding_may_fill_the_buffer_exactly() {
    assert_eq!(effective_length(100, CHUNK_SIZE - 100), Ok(CHUNK_SIZE));
}

#[test]
fn effective_length_refuses_padding_past_the_buffer() {
    assert_eq!(effective_length(100, CHUNK_SIZE - 99), Err(EncryptError::InvalidPadding));
    assert_eq!(effective_length(CHUNK_SIZE - 1, 2), Err(EncryptError::InvalidPadding));
    assert_eq!(effective_length(1, CHUNK_SIZE), Err(EncryptError::InvalidPadding));
}

#[test]
fn padding_that_would_overflow_is_refused() {
    assert_eq!(effective_length(1, usize::MAX), Err(EncryptError::InvalidPadding));
    assert_eq!(effective_length(CHUNK_SIZE - 1, usize::MAX), Err(EncryptError::InvalidPadding));
}
