//! The calls into the cryptographic crates, each with the contract it is
//! trusted to meet.
use aes::cipher::{BlockDecryptMut, BlockEncryptMut, KeyIvInit};
use vstd::prelude::*;

verus! {

#[verifier::external_type_specification]
#[verifier::external_body]
pub struct ExIoError(std::io::Error);

/// The SHA-256 digest of a byte sequence.
pub uninterp spec fn sha256_digest(data: Seq<u8>) -> Seq<u8>;

/// The plaintext block that AES-256 in CBC mode yields for one ciphertext
/// block, under a key and the chaining value that precedes the block.
pub uninterp spec fn cbc_decrypt_block(key: Seq<u8>, chain: Seq<u8>, block: Seq<u8>) -> Seq<u8>;

/// The ciphertext block that AES-256 in CBC mode yields for one plaintext
/// block, under a key and the chaining value that precedes the block.
pub uninterp spec fn cbc_encrypt_block(key: Seq<u8>, chain: Seq<u8>, block: Seq<u8>) -> Seq<u8>;

/// Relies on `sha2::Sha256::digest`: the 32-byte SHA-256 digest of `data`.
#[verifier::external_body]
pub(crate) fn sha256(data: &[u8]) -> (r: [u8; 32])
    ensures
        r@ == sha256_digest(data@),
{
    <sha2::Sha256 as sha2::Digest>::digest(data).into()
}

/// Relies on `cbc::Decryptor::<aes::Aes256>` made by `KeyIvInit::new` from
/// `key` and `chain`, then `BlockDecryptMut::decrypt_block_mut` on `block`:
/// one CBC decryption step.
#[verifier::external_body]
pub(crate) fn decrypt_block(key: &[u8; 32], chain: &[u8; 16], block: &[u8; 16]) -> (r: [u8; 16])
    ensures
        r@ == cbc_decrypt_block(key@, chain@, block@),
{
    let mut out = aes::cipher::generic_array::GenericArray::from(*block);
    cbc::Decryptor::<aes::Aes256>::new(key.into(), chain.into()).decrypt_block_mut(&mut out);
    out.into()
}

/// Relies on `cbc::Encryptor::<aes::Aes256>` made by `KeyIvInit::new` from
/// `key` and `chain`, then `BlockEncryptMut::encrypt_block_mut` on `block`:
/// one CBC encryption step, which the decryption step with the same key and
/// chaining value undoes.
#[verifier::external_body]
pub(crate) fn encrypt_block(key: &[u8; 32], chain: &[u8; 16], block: &[u8; 16]) -> (r: [u8; 16])
    ensures
        r@ == cbc_encrypt_block(key@, chain@, block@),
        cbc_decrypt_block(key@, chain@, r@) == block@,
{
    let mut out = aes::cipher::generic_array::GenericArray::from(*block);
    cbc::Encryptor::<aes::Aes256>::new(key.into(), chain.into()).encrypt_block_mut(&mut out);
    out.into()
}

/// Relies on `rand::random`, which draws from the thread-local generator.
pub assume_specification<T>[ rand::random::<T> ]() -> (r: T)
    where
        rand::distributions::Standard: rand::distributions::Distribution<T>,
;

/// Relies on `std::io::Error::new` with `ErrorKind::InvalidData`: an I/O
/// error that carries `msg`.
#[verifier::external_body]
pub(crate) fn invalid_data(msg: &str) -> (r: std::io::Error) {
    std::io::Error::new(std::io::ErrorKind::InvalidData, msg.to_string())
}

} // verus!
