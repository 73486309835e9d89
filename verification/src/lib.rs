//! Chunked authenticated encryption of a byte stream with XChaCha20-Poly1305.
//!
//! The input is cut into chunks of [`CHUNK_SIZE`] bytes. Each chunk is sealed
//! on its own under a nonce derived from a running 32-bit chunk index, and the
//! sealed chunks are concatenated in input order, without any framing.

pub mod cipher;
pub mod encoder;
pub mod error;
pub mod layout;
pub mod nonce;
pub mod stream;

pub use cipher::{append_sealed, generate_key, KEY_SIZE};
pub use encoder::{ChunkedEncoder, Progress, ReadOutcome};
pub use error::EncryptError;
pub use layout::{chunks_in, effective_length, CHUNK_SIZE, TAG_SIZE};
pub use nonce::{nonce_for_index, NONCE_SIZE};
pub use stream::encrypt_file_xchacha20;
