//! Ed25519 signatures over byte strings, by `ed25519-dalek`.
use vstd::prelude::*;

verus! {

/// The signature that Ed25519 makes of `msg` with the 32-byte secret key `sk`.
pub uninterp spec fn spec_ed25519_sign(sk: Seq<u8>, msg: Seq<u8>) -> Seq<u8>;

/// The 32-byte verifying key that belongs to the secret key `sk`.
pub uninterp spec fn spec_ed25519_public(sk: Seq<u8>) -> Seq<u8>;

/// Whether `sig` is a valid Ed25519 signature of `msg` under the verifying
/// key bytes `vk` (false where `vk` is not a valid key).
pub uninterp spec fn spec_ed25519_verify(vk: Seq<u8>, msg: Seq<u8>, sig: Seq<u8>) -> bool;

/// `SigningKey::from_bytes(sk).sign(msg)`: Ed25519 signing is deterministic,
/// so the signature is named as a function of key and message. It is also
/// stated that the signature verifies under the key's own verifying key, as
/// the crate documents (its examples sign and then verify).
#[verifier::external_body]
pub(crate) fn ed25519_sign(sk: &[u8; 32], msg: &[u8]) -> (r: [u8; 64])
    ensures
        r@ == spec_ed25519_sign(sk@, msg@),
        spec_ed25519_verify(spec_ed25519_public(sk@), msg@, r@),
{
    let key = ed25519_dalek::SigningKey::from_bytes(sk);
    ed25519_dalek::Signer::sign(&key, msg).to_bytes()
}

/// `SigningKey::from_bytes(sk).verifying_key().to_bytes()`.
#[verifier::external_body]
pub(crate) fn ed25519_public(sk: &[u8; 32]) -> (r: [u8; 32])
    ensures
        r@ == spec_ed25519_public(sk@),
{
    ed25519_dalek::SigningKey::from_bytes(sk).verifying_key().to_bytes()
}

/// `VerifyingKey::from_bytes(vk)` followed by `Verifier::verify(msg, sig)`:
/// true exactly when the key bytes are a valid key and the signature
/// verifies; which signatures verify is left to the name.
#[verifier::external_body]
pub(crate) fn ed25519_verify(vk: &[u8; 32], msg: &[u8], sig: &[u8; 64]) -> (r: bool)
    ensures
        r == spec_ed25519_verify(vk@, msg@, sig@),
{
    match ed25519_dalek::VerifyingKey::from_bytes(vk) {
        Ok(key) => ed25519_dalek::Verifier::verify(
            &key,
            msg,
            &ed25519_dalek::Signature::from_bytes(sig),
        ).is_ok(),
        Err(_) => false,
    }
}

/// Whether two 32-byte keys are the same.
pub fn keys_equal(a: &[u8; 32], b: &[u8; 32]) -> (r: bool)
    ensures
        r == (a@ == b@),
{
    let mut i: usize = 0;
    while i < 32
        invariant
            i <= 32,
            a@.len() == 32,
            b@.len() == 32,
            forall|j: int| 0 <= j < i ==> a@[j] == b@[j],
        decreases 32 - i,
    {
        if a[i] != b[i] {
            return false;
        }
        i = i + 1;
    }
    assert(a@ =~= b@);
    true
}

} // verus!
