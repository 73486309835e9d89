//! The boundary to the `chacha20poly1305` crate: sealing one chunk and
//! drawing a fresh key. Nothing of the cipher itself is proved here; the
//! contracts of `seal` and `fresh_key` are taken on trust from the crate.

use crate::error::EncryptError;
use chacha20poly1305::aead::{Aead, KeyInit, OsRng};
use chacha20poly1305::{Key, XChaCha20Poly1305, XNonce};
use vstd::prelude::*;

verus! {

/// Length in bytes of an XChaCha20-Poly1305 key.
pub const KEY_SIZE: usize = 32;

/// `chacha20poly1305::aead::Error`, the opaque error of the cipher.
#[verifier::external_type_specification]
#[verifier::external_body]
pub struct ExAeadError(chacha20poly1305::aead::Error);

/// What `XChaCha20Poly1305::encrypt` returns for a 32-byte key, a 24-byte
/// nonce and a plaintext, with no associated data: the ciphertext followed by
/// its authentication tag.
pub uninterp spec fn xchacha20poly1305_sealed(
    key: Seq<u8>,
    nonce: Seq<u8>,
    plaintext: Seq<u8>,
) -> Seq<u8>;

/// Calls `XChaCha20Poly1305::new` on the key and `Aead::encrypt` on the nonce
/// and the plaintext, with no associated data.
///
/// Trusted: for a plaintext that the keystream has room for, the cipher
/// returns the ciphertext, which is as long as the plaintext, followed by the
/// 16-byte tag; the result depends on the key, the nonce and the plaintext
/// alone. The cipher returns an error only for a plaintext of `u32::MAX` or
/// more 64-byte blocks, and panics where the keystream, which has one block
/// less than that, runs out before the plaintext does: both are left out
/// here. The key must be 32 bytes long, else the conversion into the
/// cipher's key type panics; and the plaintext with its tag must not be
/// longer than a `Vec` can be, else the allocation of the result panics.
#[verifier::external_body]
pub(crate) fn seal(key: &[u8], nonce: &[u8; 24], plaintext: &[u8]) -> (sealed: Result<
    Vec<u8>,
    chacha20poly1305::aead::Error,
>)
    requires
        key@.len() == KEY_SIZE,
        plaintext@.len() / 64 < 0xffff_fffe,
        plaintext@.len() + 16 <= isize::MAX,
    ensures
        sealed is Ok,
        sealed matches Ok(bytes) ==> bytes@ == xchacha20poly1305_sealed(key@, nonce@, plaintext@)
            && bytes@.len() == plaintext@.len() + 16,
{
    let cipher = XChaCha20Poly1305::new(Key::from_slice(key));
    cipher.encrypt(XNonce::from_slice(nonce), plaintext)
}

/// Calls `XChaCha20Poly1305::generate_key` with the operating system's random
/// number generator.
///
/// Trusted: the key is 32 bytes long. Nothing is said of its bytes, which
/// differ from call to call. The generator panics where the operating system
/// cannot supply randomness.
#[verifier::external_body]
fn fresh_key() -> (key: Vec<u8>)
    ensures
        key@.len() == KEY_SIZE,
{
    XChaCha20Poly1305::generate_key(&mut OsRng).to_vec()
}

/// Generates a fresh random key for the cipher.
pub fn generate_key() -> (key: Vec<u8>)
    ensures
        key@.len() == KEY_SIZE,
{
    fresh_key()
}

/// Appends a sealed chunk to the output, or reports that the cipher failed
/// and leaves the output as it was.
pub fn append_sealed(
    output: &mut Vec<u8>,
    sealed: Result<Vec<u8>, chacha20poly1305::aead::Error>,
) -> (r: Result<(), EncryptError>)
    ensures
        match sealed {
            Ok(bytes) => r is Ok && final(output)@ == old(output)@ + bytes@,
            Err(_) => r == Err::<(), EncryptError>(EncryptError::SealFailure) && final(output)@
                == old(output)@,
        },
{
    match sealed {
        Ok(mut bytes) => {
            output.append(&mut bytes);
            Ok(())
        },
        Err(_) => Err(EncryptError::SealFailure),
    }
}

} // verus!
