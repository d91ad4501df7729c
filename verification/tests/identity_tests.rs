use mnp_core::identity::{
    transcript, verify_proof, Announce, Challenge, IdentityBackend, IdentityError, IdentityKeys,
    Proof, ProofVerdict, ANNOUNCE_LEN, EXPORTER_LABEL, KIND_HUMAN, KIND_PEER, SIG_LEN,
};

#[test]
fn announce_round_trip() {
    let keys = IdentityKeys::generate(KIND_HUMAN).unwrap();
    let a = keys.announce();
    assert_eq!(Announce::decode(&a.encode()).unwrap(), a);
}

#[test]
fn proof_verifies_with_pin() {
    let client = IdentityKeys::generate(KIND_HUMAN).unwrap();
    let server = IdentityKeys::generate(KIND_PEER).unwrap();
    let c_ann = client.announce();
    let s_ann = server.announce();
    let c_n = Challenge::fresh().nonce;
    let s_n = Challenge::fresh().nonce;
    let exp = [7u8; 32];
    let t = transcript(&c_ann, &s_ann, &c_n, &s_n, &exp);
    let proof = client.prove(&t);
    verify_proof(&c_ann, &c_ann, KIND_HUMAN, &t, &proof).unwrap();
}

#[test]
fn proof_fails_if_unpinned() {
    let client = IdentityKeys::generate(KIND_HUMAN).unwrap();
    let other = IdentityKeys::generate(KIND_HUMAN).unwrap();
    let t = transcript(
        &client.announce(),
        &IdentityKeys::generate(KIND_PEER).unwrap().announce(),
        &[1; 32],
        &[2; 32],
        &[3; 32],
    );
    let proof = client.prove(&t);
    let err = verify_proof(
        &client.announce(),
        &other.announce(),
        KIND_HUMAN,
        &t,
        &proof,
    )
    .unwrap_err();
    assert_eq!(err, IdentityError::Untrusted);
}

#[test]
fn decode_rejects_short_announce() {
    assert!(matches!(
        Announce::decode(&[0; 8]),
        Err(IdentityError::BadAnnounce(8))
    ));
}

#[test]
fn proof_length_prefixed_round_trip() {
    let p = Proof {
        device_sig: [7; 64],
        principal_sig: vec![1, 2, 3, 4],
    };
    let decoded = Proof::decode(&p.encode().unwrap()).unwrap();
    assert_eq!(decoded, p);
}

#[test]
fn software_keys_still_impl_backend() {
    let k = IdentityKeys::generate(KIND_HUMAN).unwrap();
    assert_eq!(k.kind(), KIND_HUMAN);
    assert_eq!(
        IdentityKeys::prove(&k, &[1, 2, 3]).principal_sig.len(),
        SIG_LEN
    );
}

#[test]
fn generate_rejects_unknown_kind() {
    assert!(matches!(
        IdentityKeys::generate(2),
        Err(IdentityError::BadKind(2))
    ));
}

#[test]
fn announce_layout_and_kind_check() {
    let a = Announce {
        kind: KIND_PEER,
        device_pk: [0x11; 32],
        principal_pk: [0x22; 32],
    };
    let bytes = a.encode();
    assert_eq!(bytes.len(), ANNOUNCE_LEN);
    assert_eq!(bytes[0], 3);
    assert_eq!(bytes[1], 0x11);
    assert_eq!(bytes[32], 0x11);
    assert_eq!(bytes[33], 0x22);
    assert_eq!(bytes[64], 0x22);
    let mut bad = bytes;
    bad[0] = 2;
    assert_eq!(Announce::decode(&bad), Err(IdentityError::BadKind(2)));
}

#[test]
fn challenge_round_trip_and_length() {
    let c = Challenge { nonce: [9; 32] };
    assert_eq!(Challenge::decode(&c.encode()).unwrap(), c);
    assert_eq!(
        Challenge::decode(&[0; 31]),
        Err(IdentityError::BadChallenge(31))
    );
}

#[test]
fn proof_decode_errors() {
    assert_eq!(Proof::decode(&[0; 65]), Err(IdentityError::BadProof(65)));
    let mut bytes = vec![0u8; 64];
    bytes.extend_from_slice(&3u16.to_le_bytes());
    bytes.extend_from_slice(&[1, 2]);
    assert_eq!(Proof::decode(&bytes), Err(IdentityError::BadProof(68)));
    let p = Proof {
        device_sig: [0; 64],
        principal_sig: vec![0; 70_000],
    };
    assert_eq!(p.encode(), Err(IdentityError::BadProof(70_000)));
}

#[test]
fn proof_wire_layout() {
    let p = Proof {
        device_sig: [5; 64],
        principal_sig: vec![0xde, 0xad],
    };
    let bytes = p.encode().unwrap();
    assert_eq!(bytes.len(), 68);
    assert_eq!(&bytes[64..66], &[2, 0]);
    assert_eq!(&bytes[66..], &[0xde, 0xad]);
}

#[test]
fn transcript_layout() {
    let c = Announce {
        kind: KIND_HUMAN,
        device_pk: [1; 32],
        principal_pk: [2; 32],
    };
    let s = Announce {
        kind: KIND_PEER,
        device_pk: [3; 32],
        principal_pk: [4; 32],
    };
    let t = transcript(&c, &s, &[5; 32], &[6; 32], &[7; 32]);
    assert_eq!(t.len(), 242);
    assert_eq!(&t[..15], b"MNP-IDENTITY-V0");
    assert_eq!(t[15], 0);
    assert_eq!(&t[16..81], &c.encode()[..]);
    assert_eq!(&t[81..146], &s.encode()[..]);
    assert_eq!(&t[146..178], &[5; 32]);
    assert_eq!(&t[178..210], &[6; 32]);
    assert_eq!(&t[210..242], &[7; 32]);
    assert_eq!(&EXPORTER_LABEL, b"EXPORTER-MNP-Identity");
}

#[test]
fn verify_proof_failures() {
    let client = IdentityKeys::generate(KIND_HUMAN).unwrap();
    let ann = client.announce();
    let t = vec![1u8, 2, 3];
    let proof = client.prove(&t);
    assert_eq!(
        verify_proof(&ann, &ann, KIND_PEER, &t, &proof),
        Err(IdentityError::RoleMismatch)
    );
    let mut tampered = proof.clone();
    tampered.device_sig[0] ^= 1;
    assert_eq!(
        verify_proof(&ann, &ann, KIND_HUMAN, &t, &tampered),
        Err(IdentityError::BadSignature)
    );
    let mut tampered = proof.clone();
    tampered.principal_sig[0] ^= 1;
    assert_eq!(
        verify_proof(&ann, &ann, KIND_HUMAN, &t, &tampered),
        Err(IdentityError::BadSignature)
    );
    assert_eq!(
        verify_proof(&ann, &ann, KIND_HUMAN, &[9, 9], &proof),
        Err(IdentityError::BadSignature)
    );
    let mut openpgp = proof.clone();
    openpgp.principal_sig = vec![0x88; 119];
    assert_eq!(
        verify_proof(&ann, &ann, KIND_HUMAN, &t, &openpgp),
        Ok(ProofVerdict::OpenPgpPending)
    );
    assert_eq!(
        verify_proof(&ann, &ann, KIND_HUMAN, &t, &proof),
        Ok(ProofVerdict::Verified)
    );
}

#[test]
fn verify_proof_rejects_undecodable_key() {
    let client = IdentityKeys::generate(KIND_HUMAN).unwrap();
    let t = vec![4u8; 10];
    let proof = client.prove(&t);
    let mut ann = client.announce();
    // y = 2 has no matching x on edwards25519: this encoding does not decompress.
    let mut bad = [0u8; 32];
    bad[0] = 2;
    ann.device_pk = bad;
    assert_eq!(
        verify_proof(&ann, &ann, KIND_HUMAN, &t, &proof),
        Err(IdentityError::BadPublicKey)
    );
}

#[test]
fn keys_sign_deterministically_and_announce_stably() {
    let k = IdentityKeys::generate(KIND_PEER).unwrap();
    assert_eq!(k.announce(), k.announce());
    assert_eq!(k.prove(&[1, 2]), k.prove(&[1, 2]));
    assert_ne!(k.prove(&[1, 2]).device_sig, k.prove(&[1, 3]).device_sig);
    let a = k.announce();
    assert_eq!(a.kind, KIND_PEER);
    assert_ne!(a.device_pk, a.principal_pk);
    let via_trait = IdentityBackend::prove(&k, &[1, 2]).unwrap();
    assert_eq!(via_trait, k.prove(&[1, 2]));
    assert_eq!(IdentityBackend::announce(&k), a);
}
