use vstd::prelude::*;
use rand::RngCore;

verus! {

/// Calls `rand::random::<[u8; 12]>()`. Nothing is claimed of the bytes.
#[verifier::external_body]
pub(crate) fn random_nonce() -> [u8; 12] {
    rand::random::<[u8; 12]>()
}

/// Fills 12 bytes from `rand::thread_rng()` with `RngCore::fill_bytes`. Nothing
/// is claimed of the bytes.
#[verifier::external_body]
pub(crate) fn thread_rng_iv() -> [u8; 12] {
    let mut iv = [0u8; 12];
    rand::thread_rng().fill_bytes(&mut iv);
    iv
}

} // verus!
