use vstd::prelude::*;
use aes_gcm::aead::generic_array::GenericArray;
use aes_gcm::aead::Aead;
use aes_gcm::{Aes256Gcm, KeyInit};

verus! {

/// The `aes-gcm` crate's error.
#[verifier::external_type_specification]
#[verifier::external_body]
pub struct ExAeadError(aes_gcm::Error);

/// What AES-256-GCM encryption (`Aead::encrypt` of `Aes256Gcm`, no associated
/// data) returns for `key`, `nonce` and `plaintext`: the ciphertext followed by
/// the tag.
pub uninterp spec fn aes256_gcm_seal(key: Seq<u8>, nonce: Seq<u8>, plaintext: Seq<u8>) -> Seq<u8>;

/// What AES-256-GCM decryption (`Aead::decrypt` of `Aes256Gcm`, no associated
/// data) returns for `key`, `nonce` and `ciphertext`: `None` where the tag does
/// not authenticate the ciphertext.
pub uninterp spec fn aes256_gcm_open(key: Seq<u8>, nonce: Seq<u8>, ciphertext: Seq<u8>) -> Option<
    Seq<u8>,
>;

/// The longest plaintext that AES-GCM encrypts, in bytes (`aes_gcm::P_MAX`).
pub open spec fn aes_gcm_max_plaintext() -> int {
    0x10_0000_0000
}

/// The length of the AES-GCM tag, in bytes.
pub open spec fn aes_gcm_tag_len() -> int {
    16
}

/// Calls `Aes256Gcm::new(key).encrypt(nonce, plaintext)`. Claimed: on a
/// plaintext of at most `P_MAX` bytes it succeeds, the result is the named
/// sealing, the tag makes it 16 bytes longer than the plaintext, and decryption
/// with the same key and nonce gives the plaintext back. On a longer plaintext
/// the crate returns an error once it has allocated room for the result; that
/// input is left out.
#[verifier::external_body]
pub(crate) fn aes256_gcm_encrypt(key: &[u8; 32], nonce: &[u8; 12], plaintext: &[u8]) -> (res:
    Result<Vec<u8>, aes_gcm::Error>)
    requires
        plaintext@.len() <= aes_gcm_max_plaintext(),
    ensures
        res is Ok,
        res matches Ok(c) ==> c@ == aes256_gcm_seal(key@, nonce@, plaintext@),
        res matches Ok(c) ==> c@.len() == plaintext@.len() + aes_gcm_tag_len(),
        res matches Ok(c) ==> aes256_gcm_open(key@, nonce@, c@) == Some(plaintext@),
{
    let cipher = Aes256Gcm::new(GenericArray::from_slice(key));
    cipher.encrypt(GenericArray::from_slice(nonce), plaintext)
}

/// Calls `Aes256Gcm::new(key).decrypt(nonce, ciphertext)`. Claimed: the result
/// is the named opening, and it fails on a ciphertext shorter than the 16-byte
/// tag. `GenericArray::from_slice` panics on a nonce that is not 12 bytes long.
#[verifier::external_body]
pub(crate) fn aes256_gcm_decrypt(key: &[u8; 32], nonce: &[u8], ciphertext: &[u8]) -> (res: Result<
    Vec<u8>,
    aes_gcm::Error,
>)
    requires
        nonce@.len() == 12,
    ensures
        res is Ok <==> aes256_gcm_open(key@, nonce@, ciphertext@) is Some,
        res matches Ok(p) ==> p@ == aes256_gcm_open(key@, nonce@, ciphertext@)->0,
        ciphertext@.len() < aes_gcm_tag_len() ==> res is Err,
{
    let cipher = Aes256Gcm::new(GenericArray::from_slice(key));
    cipher.decrypt(GenericArray::from_slice(nonce), ciphertext)
}

} // verus!
