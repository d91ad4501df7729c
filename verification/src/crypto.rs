//! Ed25519 (`ed25519-dalek`) and the operating-system random source (`rand`),
//! as the identity logic uses them.
//!
//! Keys are held as their 32-byte secret (the RFC 8032 seed); every call
//! rebuilds the `ed25519-dalek` key from it. What the signature scheme
//! computes is named here, not written out.

use vstd::prelude::*;
use ed25519_dalek::{Signature, Signer, SigningKey, Verifier, VerifyingKey};
use rand::rngs::OsRng;

verus! {

/// The Ed25519 public key (compressed point) of a 32-byte secret key.
pub uninterp spec fn ed25519_public_key(secret: Seq<u8>) -> Seq<u8>;

/// The Ed25519 signature of `msg` under a 32-byte secret key.
pub uninterp spec fn ed25519_signature(secret: Seq<u8>, msg: Seq<u8>) -> Seq<u8>;

/// Whether 32 bytes decompress to a curve point, so that they can be used as
/// an Ed25519 verifying key.
pub uninterp spec fn ed25519_key_decodes(public: Seq<u8>) -> bool;

/// Whether `sig` is a valid Ed25519 signature of `msg` under `public`.
pub uninterp spec fn ed25519_signature_verifies(public: Seq<u8>, msg: Seq<u8>, sig: Seq<u8>) -> bool;

/// `SigningKey::generate(&mut OsRng)`, kept as its 32-byte secret.
/// The secret is random: nothing is claimed of which one comes back, only that
/// its public key, like every key derived from a secret, decodes.
/// `OsRng` panics if the operating system cannot supply randomness.
#[verifier::external_body]
pub(crate) fn generate_secret_key() -> (secret: [u8; 32])
    ensures
        ed25519_key_decodes(ed25519_public_key(secret@)),
{
    SigningKey::generate(&mut OsRng).to_bytes()
}

/// `SigningKey::verifying_key` of the key built by `SigningKey::from_bytes`,
/// as its 32 bytes (`VerifyingKey::to_bytes`). Claimed: the result is the
/// named public key of the secret, and it decodes (it is the compression of a
/// curve point).
#[verifier::external_body]
pub(crate) fn public_key_of(secret: &[u8; 32]) -> (public: [u8; 32])
    ensures
        public@ == ed25519_public_key(secret@),
        ed25519_key_decodes(public@),
{
    SigningKey::from_bytes(secret).verifying_key().to_bytes()
}

/// `Signer::sign` of the key built by `SigningKey::from_bytes`, as 64 bytes
/// (`Signature::to_bytes`). Claimed: the result is the named signature, and it
/// verifies under the key's own public key (Ed25519 correctness).
#[verifier::external_body]
pub(crate) fn sign(secret: &[u8; 32], msg: &[u8]) -> (sig: [u8; 64])
    ensures
        sig@ == ed25519_signature(secret@, msg@),
        ed25519_signature_verifies(ed25519_public_key(secret@), msg@, sig@),
{
    SigningKey::from_bytes(secret).sign(msg).to_bytes()
}

/// `VerifyingKey::from_bytes`: whether it succeeds, which is exactly the named
/// decodability of the 32 bytes.
#[verifier::external_body]
pub(crate) fn public_key_decodes(public: &[u8; 32]) -> (ok: bool)
    ensures
        ok == ed25519_key_decodes(public@),
{
    VerifyingKey::from_bytes(public).is_ok()
}

/// `Verifier::verify` on the key `VerifyingKey::from_bytes` gives for
/// `public`, with `Signature::from_bytes(sig)`: whether it succeeds, which is
/// exactly the named validity. Only called on a key that decodes.
#[verifier::external_body]
pub(crate) fn verify(public: &[u8; 32], msg: &[u8], sig: &[u8; 64]) -> (ok: bool)
    requires
        ed25519_key_decodes(public@),
    ensures
        ok == ed25519_signature_verifies(public@, msg@, sig@),
{
    match VerifyingKey::from_bytes(public) {
        Ok(key) => key.verify(msg, &Signature::from_bytes(sig)).is_ok(),
        Err(_) => false,
    }
}

/// `RngCore::fill_bytes` of `OsRng` on 32 bytes. Random: nothing is claimed of
/// the result. `OsRng` panics if the operating system cannot supply randomness.
#[verifier::external_body]
pub(crate) fn random_32() -> (bytes: [u8; 32]) {
    let mut out = [0u8; 32];
    rand::RngCore::fill_bytes(&mut OsRng, &mut out);
    out
}

} // verus!
