use encrypt_file::{nonce_for_index, NONCE_SIZE};

#[test]
fn nonce_has_the_cipher_nonce_length() {
    assert_eq!(NONCE_SIZE, 24);
    assert_eq!(nonce_for_index(0).len(), NONCE_SIZE);
}

#[test]
fn nonce_of_index_zero_is_all_zero() {
    assert_eq!(nonce_for_index(0), [0u8; 24]);
}

#[test]
fn nonce_of_index_one_sets_only_the_first_byte() {
    let mut expected = [0u8; 24];
    expected[0] = 1;
    assert_eq!(nonce_for_index(1), expected);
}

#[test]
fn nonce_holds_the_index_in_little_endian_order() {
    let nonce = nonce_for_index(0x0102_0304);
    assert_eq!(&nonce[..4], &[0x04, 0x03, 0x02, 0x01]);
    assert_eq!(&nonce[4..], &[0u8; 20]);
}

#[test]
fn nonce_of_index_256_carries_into_the_second_byte() {
    let nonce = nonce_for_index(256);
    assert_eq!(&nonce[..4], &[0, 1, 0, 0]);
    assert_eq!(&nonce[4..], &[0u8; 20]);
}

#[test]
fn nonce_of_the_largest_index() {
    let nonce = nonce_for_index(u32::MAX);
    assert_eq!(&nonce[..4], &[0xff, 0xff, 0xff, 0xff]);
    assert_eq!(&nonce[4..], &[0u8; 20]);
}

#[test]
fn nonce_matches_the_little_endian_bytes_of_std() {
    for index in [0u32, 1, 255, 256, 65535, 65536, 0x00ff_ffff, 0x0100_0000, 0xdead_beef, u32::MAX] {
        let nonce = nonce_for_index(index);
        assert_eq!(&nonce[..4], &index.to_le_bytes());
        assert_eq!(&nonce[4..], &[0u8; 20]);
    }
}

#[test]
fn nonces_of_a_run_are_pairwise_distinct() {
    let start = u32::MAX - 300;
    let nonces: Vec<[u8; 24]> = (0..300u32).map(|i| nonce_for_index(start + i)).collect();
    for i in 0..nonces.len() {
        for j in (i + 1)..nonces.len() {
            assert_ne!(nonces[i], nonces[j]);
        }
    }
}

#[test]
fn nonces_of_disjoint_runs_never_coincide() {
    let first: Vec<[u8; 24]> = (0..200u32).map(nonce_for_index).collect();
    let second: Vec<[u8; 24]> = (200..400u32).map(nonce_for_index).collect();
    for a in &first {
        for b in &second {
            assert_ne!(a, b);
        }
    }
}
