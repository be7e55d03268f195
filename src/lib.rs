//! AES-256-CBC stream codec with the iterated SHA-256 key derivation of the
//! 7z archive format.
use vstd::prelude::*;

pub mod cipher;
pub mod decoder;
pub mod encoder;
pub mod error;
pub mod kdf;
pub mod primitives;

pub use decoder::{Aes256Sha256Decoder, SeekFrom};
pub use encoder::{Aes256Sha256Encoder, AesEncoderOptions};
pub use error::Error;

verus! {

} // verus!
