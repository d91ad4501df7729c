use mnp_core::access::{
    decode_grant, decode_request, encode_deny, encode_grant, encode_request, AccessError, Policy,
    ServiceId, ECHO_PING, ECHO_PONG,
};
use mnp_core::identity::{IdentityKeys, KIND_HUMAN};

#[test]
fn echo_allowed_ssh_denied() {
    let who = IdentityKeys::generate(KIND_HUMAN).unwrap().announce();
    let policy = Policy::lab_echo_for(&who);
    assert!(policy.allows(&who, ServiceId::Echo));
    assert!(!policy.allows(&who, ServiceId::Ssh));
    let other = IdentityKeys::generate(KIND_HUMAN).unwrap().announce();
    assert!(!policy.allows(&other, ServiceId::Echo));
}

#[test]
fn request_grant_deny_round_trip() {
    for s in [ServiceId::Echo, ServiceId::Ssh, ServiceId::Rdp, ServiceId::Vnc] {
        assert_eq!(decode_request(&encode_request(s)), Ok(s));
        assert_eq!(decode_grant(&encode_grant(s)), Ok(s));
        assert_eq!(decode_request(&encode_deny(s, 7)), Ok(s));
    }
    assert_eq!(encode_request(ServiceId::Vnc), vec![4]);
    assert_eq!(encode_grant(ServiceId::Echo), vec![1]);
    assert_eq!(encode_deny(ServiceId::Rdp, 9), vec![3, 9]);
}

#[test]
fn access_decode_errors() {
    assert_eq!(decode_request(&[]), Err(AccessError::BadPayload));
    assert_eq!(decode_grant(&[0]), Err(AccessError::UnknownService(0)));
    assert_eq!(decode_request(&[5, 1]), Err(AccessError::UnknownService(5)));
    assert_eq!(ServiceId::try_from(2u8), Ok(ServiceId::Ssh));
    assert_eq!(&ECHO_PING, b"ping");
    assert_eq!(&ECHO_PONG, b"pong");
    let denied = AccessError::Denied(ServiceId::Ssh);
    assert_ne!(denied, AccessError::BadPayload);
}
