use mnp_core::frame::{
    decode, decode_header, encode, Frame, FrameError, FrameHeader, MessageType, HEADER_LEN,
    LAB_MAGIC, LAB_MAX_PAYLOAD,
};

#[test]
fn round_trip_hello() {
    let frame = Frame::empty(MessageType::Hello);
    let bytes = encode(&frame).unwrap();
    assert_eq!(bytes.len(), HEADER_LEN);
    let decoded = decode(&bytes).unwrap();
    assert_eq!(decoded.ty, MessageType::Hello);
    assert_eq!(decoded.session, 0);
    assert!(decoded.payload.is_empty());
}

#[test]
fn header_too_short() {
    let err = decode_header(&[0; 5]).unwrap_err();
    assert_eq!(err, FrameError::HeaderTooShort(5));
}

#[test]
fn unknown_type() {
    let mut bytes = encode(&Frame::empty(MessageType::Hello)).unwrap();
    bytes[5] = 0x99;
    let err = decode_header(&bytes).unwrap_err();
    assert_eq!(err, FrameError::UnknownType(0x99));
}

#[test]
fn oversize_length_does_not_allocate_payload() {
    let mut header = encode(&Frame::empty(MessageType::Hello)).unwrap();
    header[8..12].copy_from_slice(&(LAB_MAX_PAYLOAD + 1).to_le_bytes());
    let err = decode_header(&header).unwrap_err();
    assert_eq!(err, FrameError::PayloadTooLarge(LAB_MAX_PAYLOAD + 1));
    assert!(decode(&header).is_err());
}

#[test]
fn encode_rejects_oversize_payload() {
    let frame = Frame {
        ty: MessageType::ErrorFrame,
        flags: 0,
        session: 0,
        payload: vec![0; (LAB_MAX_PAYLOAD as usize) + 1],
    };
    let err = encode(&frame).unwrap_err();
    assert_eq!(err, FrameError::PayloadTooLarge(LAB_MAX_PAYLOAD + 1));
}

#[test]
fn encode_forces_session_zero() {
    let frame = Frame {
        ty: MessageType::Goodbye,
        flags: 1,
        session: 42,
        payload: b"x".to_vec(),
    };
    let decoded = decode(&encode(&frame).unwrap()).unwrap();
    assert_eq!(decoded.session, 0);
    assert_eq!(decoded.flags, 1);
    assert_eq!(decoded.payload, b"x");
}

#[test]
fn encode_exact_layout() {
    let frame = Frame {
        ty: MessageType::HelloAck,
        flags: 0x0201,
        session: 7,
        payload: vec![0xaa, 0xbb, 0xcc],
    };
    let bytes = encode(&frame).unwrap();
    assert_eq!(
        bytes,
        vec![
            b'M', b'N', b'P', b'1', 0, 0x02, 0x01, 0x02, 3, 0, 0, 0, 0, 0, 0, 0, 0, 0, 0, 0,
            0xaa, 0xbb, 0xcc
        ]
    );
    assert_eq!(LAB_MAGIC, *b"MNP1");
}

#[test]
fn decode_ignores_trailing_bytes() {
    let frame = Frame {
        ty: MessageType::ErrorFrame,
        flags: 3,
        session: 0,
        payload: vec![1, 2],
    };
    let mut bytes = encode(&frame).unwrap();
    bytes.extend_from_slice(&[9, 9, 9]);
    assert_eq!(decode(&bytes).unwrap(), frame);
}

#[test]
fn decode_header_reads_fields() {
    let mut bytes = encode(&Frame::empty(MessageType::Goodbye)).unwrap();
    bytes[12..20].copy_from_slice(&0x0102030405060708u64.to_le_bytes());
    bytes[6..8].copy_from_slice(&0xbeefu16.to_le_bytes());
    assert_eq!(
        decode_header(&bytes).unwrap(),
        FrameHeader {
            ty: MessageType::Goodbye,
            flags: 0xbeef,
            length: 0,
            session: 0x0102030405060708,
        }
    );
}

#[test]
fn bad_magic_and_version() {
    let mut bytes = encode(&Frame::empty(MessageType::Hello)).unwrap();
    bytes[0] = b'X';
    assert_eq!(
        decode_header(&bytes).unwrap_err(),
        FrameError::BadMagic(*b"XNP1")
    );
    let mut bytes = encode(&Frame::empty(MessageType::Hello)).unwrap();
    bytes[4] = 9;
    assert_eq!(decode_header(&bytes).unwrap_err(), FrameError::BadVersion(9));
}

#[test]
fn payload_too_short() {
    let frame = Frame {
        ty: MessageType::Hello,
        flags: 0,
        session: 0,
        payload: vec![5; 10],
    };
    let bytes = encode(&frame).unwrap();
    assert_eq!(
        decode(&bytes[..25]).unwrap_err(),
        FrameError::PayloadTooShort { want: 10, got: 5 }
    );
}

#[test]
fn max_payload_accepted() {
    let frame = Frame {
        ty: MessageType::Hello,
        flags: 0,
        session: 0,
        payload: vec![1; LAB_MAX_PAYLOAD as usize],
    };
    let bytes = encode(&frame).unwrap();
    assert_eq!(bytes.len(), HEADER_LEN + LAB_MAX_PAYLOAD as usize);
    assert_eq!(decode(&bytes).unwrap(), frame);
}

#[test]
fn message_type_try_from() {
    assert_eq!(MessageType::try_from(0x02u8), Ok(MessageType::HelloAck));
    assert_eq!(MessageType::try_from(0x04u8), Ok(MessageType::Goodbye));
    assert_eq!(MessageType::try_from(0u8), Err(FrameError::UnknownType(0)));
    assert_eq!(MessageType::ErrorFrame.code(), 0x03);
}

#[test]
fn identity_access_and_data_types_decode() {
    let cases = [
        (0x10u8, MessageType::IdAnnounce),
        (0x11, MessageType::Challenge),
        (0x12, MessageType::Proof),
        (0x30, MessageType::AccessRequest),
        (0x31, MessageType::AccessGrant),
        (0x32, MessageType::AccessDeny),
        (0x40, MessageType::Data),
    ];
    for (code, ty) in cases {
        let mut bytes = encode(&Frame::empty(MessageType::Hello)).unwrap();
        bytes[5] = code;
        let header = decode_header(&bytes).unwrap();
        assert_eq!(header.ty, ty);
        assert_eq!(header.ty.code(), code);
        assert_eq!(MessageType::try_from(code), Ok(ty));
        let frame = Frame { ty, flags: 0, session: 0, payload: vec![code] };
        let encoded = encode(&frame).unwrap();
        assert_eq!(encoded[5], code);
        assert_eq!(decode(&encoded).unwrap(), frame);
    }
}

#[test]
fn unassigned_type_bytes_stay_unknown() {
    for code in [0x00u8, 0x05, 0x0f, 0x13, 0x2f, 0x33, 0x3f, 0x41, 0xff] {
        let mut bytes = encode(&Frame::empty(MessageType::Hello)).unwrap();
        bytes[5] = code;
        assert_eq!(decode_header(&bytes).unwrap_err(), FrameError::UnknownType(code));
    }
}
