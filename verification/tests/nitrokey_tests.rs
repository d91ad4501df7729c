use mnp_core::identity::IdentityError;
use mnp_core::nitrokey::{
    check_signer_key, first_ed25519_pk, scan_would_panic, unhex, unhex_would_cut,
    validsig_fingerprint, GPG_USER,
};

const PK_HEX: &str = "5f1d0a8b2c3e4f60718293a4b5c6d7e8f90a1b2c3d4e5f60718293a4b5c6d7e8";

fn pk_bytes() -> [u8; 32] {
    let v = unhex(PK_HEX).unwrap();
    let mut a = [0u8; 32];
    a.copy_from_slice(&v);
    a
}

fn packets(pkey1: &str) -> String {
    format!(
        "# off=0 ctb=98 tag=6 hlen=2 plen=51\n:public key packet:\n\tversion 4, algo 22, created 1700000000, expires 0\n\tpkey[0]: 092B06010401DA470F01 ed25519 (1.3.6.1.4.1.11591.15.1)\n\tpkey[1]: {pkey1}\n\tkeyid: 0123456789ABCDEF\n# off=53 ctb=b4 tag=13 hlen=2 plen=13\n:user ID packet: \"major@local\"\n"
    )
}

#[test]
fn unhex_pairs_and_errors() {
    assert_eq!(unhex("0aFf"), Ok(vec![0x0a, 0xff]));
    assert_eq!(unhex(""), Ok(vec![]));
    assert_eq!(unhex("abc"), Err(()));
    assert_eq!(unhex("zz"), Err(()));
    // `u8::from_str_radix` accepts a leading plus sign
    assert_eq!(unhex("+a01"), Ok(vec![0x0a, 0x01]));
    assert_eq!(unhex("-a"), Err(()));
    assert!(!unhex_would_cut("0aff".as_bytes()));
    // the first window of "0é0" ends inside 'é'; in "aaé" the scan stops first
    assert!(unhex_would_cut("aaé".as_bytes()) == false);
    assert!(unhex_would_cut("0é0".as_bytes()));
}

#[test]
fn parse_ed25519_from_packet_listing() {
    let text = packets(&format!("40{PK_HEX}"));
    assert!(!scan_would_panic(&text));
    assert_eq!(first_ed25519_pk(&text), Ok(pk_bytes()));
    assert_eq!(check_signer_key(&text, &pk_bytes()), Ok(()));
    assert_eq!(
        check_signer_key(&text, &[0u8; 32]),
        Err(IdentityError::Untrusted)
    );
}

#[test]
fn packet_listing_errors() {
    // not the 0x40-prefixed native encoding
    let text = packets(&format!("41{PK_HEX}"));
    assert_eq!(first_ed25519_pk(&text), Err(IdentityError::BadPublicKey));
    // not hex
    let text = packets("40zz");
    assert_eq!(first_ed25519_pk(&text), Err(IdentityError::BadPublicKey));
    // no value on the pkey[1] line
    let text = packets("");
    assert_eq!(first_ed25519_pk(&text), Err(IdentityError::BadPublicKey));
    // no public key packet at all
    assert_eq!(
        first_ed25519_pk(":user ID packet: \"x\"\n\tpkey[1]: 40\n"),
        Err(IdentityError::HardwareUnavailable(
            "no Ed25519 public key packet".to_string()
        ))
    );
    // the next packet starts before any pkey[1]
    assert_eq!(
        first_ed25519_pk(":public key packet:\n\tversion 4\n:signature packet:\n\tpkey[1]: 40\n"),
        Err(IdentityError::HardwareUnavailable(
            "no Ed25519 public key packet".to_string()
        ))
    );
}

#[test]
fn validsig_status_lines() {
    let status = "[GNUPG:] NEWSIG\n[GNUPG:] GOODSIG 0123 major\r\n[GNUPG:] VALIDSIG ABCDEF0123 2024-01-01 1700000000 0 4 0 22 8 00 ABCDEF0123\n";
    assert_eq!(validsig_fingerprint(status), Ok(b"ABCDEF0123".to_vec()));
    assert_eq!(
        validsig_fingerprint("[GNUPG:] BADSIG 0123 major\n"),
        Err(IdentityError::BadSignature)
    );
    // mentions VALIDSIG but no line carries a fingerprint
    assert_eq!(
        validsig_fingerprint("[GNUPG:] VALIDSIG \nVALIDSIG x\n"),
        Err(IdentityError::BadSignature)
    );
    assert_eq!(GPG_USER, "major@local");
}
