use ed25519_dalek::{Signer, SigningKey, Verifier};
use mnp_core::identity::{IdentityError, KIND_HUMAN};
use mnp_core::nitrokey::{device_secret_from_bytes, fresh_device_secret, HardwareHuman};

const SEED: [u8; 32] = [7u8; 32];
const HUMAN_PK: [u8; 32] = [0x5f; 32];

#[test]
fn hardware_human_announce_uses_device_public_key() {
    let h = HardwareHuman::new(SEED, HUMAN_PK);
    let a = h.announce();
    assert_eq!(a.kind, KIND_HUMAN);
    assert_eq!(a.device_pk, SigningKey::from_bytes(&SEED).verifying_key().to_bytes());
    assert_ne!(a.device_pk, SEED);
    assert_eq!(a.principal_pk, HUMAN_PK);
}

#[test]
fn hardware_human_device_signature_is_ed25519() {
    let h = HardwareHuman::new(SEED, HUMAN_PK);
    let sig = h.device_signature(b"transcript");
    let key = SigningKey::from_bytes(&SEED);
    assert_eq!(sig, key.sign(b"transcript").to_bytes());
    let parsed = ed25519_dalek::Signature::from_bytes(&sig);
    assert!(key.verifying_key().verify(b"transcript", &parsed).is_ok());
    assert_ne!(sig, h.device_signature(b"other"));
}

#[test]
fn hardware_human_proof_keeps_openpgp_signature() {
    let h = HardwareHuman::new(SEED, HUMAN_PK);
    let pgp = vec![0x88, 0x75, 0x04, 0x00];
    let p = h.make_proof(b"t", pgp.clone());
    assert_eq!(p.device_sig, h.device_signature(b"t"));
    assert_eq!(p.principal_sig, pgp);
}

#[test]
fn device_seed_must_be_32_bytes() {
    assert_eq!(device_secret_from_bytes(&[1u8; 31]), Err(IdentityError::BadPublicKey));
    assert_eq!(device_secret_from_bytes(&[1u8; 33]), Err(IdentityError::BadPublicKey));
    assert_eq!(device_secret_from_bytes(&[]), Err(IdentityError::BadPublicKey));
    let mut raw = [0u8; 32];
    raw[0] = 9;
    raw[31] = 4;
    assert_eq!(device_secret_from_bytes(&raw), Ok(raw));
}

#[test]
fn fresh_device_secrets_differ() {
    let a = fresh_device_secret();
    let b = fresh_device_secret();
    assert_ne!(a, b);
    let h = HardwareHuman::new(a, HUMAN_PK);
    assert_eq!(h.announce().device_pk, SigningKey::from_bytes(&a).verifying_key().to_bytes());
}
