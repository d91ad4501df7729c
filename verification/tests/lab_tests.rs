use mnp_core::frame::{Frame, FrameError, MessageType};
use mnp_core::lab::{answer_hello, check_hello_ack, reject_v4_mapped, LabAddr, LabError};
use mnp_core::{LAB_ALPN, LAB_LISTEN, LAB_SERVER_NAME};

#[test]
fn bind_rejects_ipv4() {
    let err = reject_v4_mapped(&LabAddr::V4([127, 0, 0, 1], 0)).unwrap_err();
    assert!(matches!(err, LabError::Ipv4));
}

#[test]
fn v4_mapped_rejected_real_v6_accepted() {
    let mapped = [0, 0, 0, 0, 0, 0, 0, 0, 0, 0, 0xff, 0xff, 127, 0, 0, 1];
    assert_eq!(
        reject_v4_mapped(&LabAddr::V6(mapped, 4433)),
        Err(LabError::Ipv4Mapped)
    );
    let lo = [0, 0, 0, 0, 0, 0, 0, 0, 0, 0, 0, 0, 0, 0, 0, 1];
    assert_eq!(reject_v4_mapped(&LabAddr::V6(lo, 4433)), Ok(()));
}

#[test]
fn hello_ack_checks() {
    assert_eq!(check_hello_ack(&Frame::empty(MessageType::HelloAck)), Ok(()));
    assert_eq!(
        check_hello_ack(&Frame::empty(MessageType::Goodbye)),
        Err(LabError::UnexpectedType(MessageType::HelloAck, MessageType::Goodbye))
    );
}

#[test]
fn server_answers() {
    let a = answer_hello(Ok(MessageType::Hello));
    assert_eq!(a.reply, Some(MessageType::HelloAck));
    assert_eq!(a.outcome, Ok(()));
    let a = answer_hello(Err(FrameError::PayloadTooLarge(70_000)));
    assert_eq!(a.reply, Some(MessageType::ErrorFrame));
    assert_eq!(
        a.outcome,
        Err(LabError::Frame(FrameError::PayloadTooLarge(70_000)))
    );
    let a = answer_hello(Ok(MessageType::Goodbye));
    assert_eq!(a.reply, None);
    assert_eq!(
        a.outcome,
        Err(LabError::UnexpectedType(MessageType::Hello, MessageType::Goodbye))
    );
    let a = answer_hello(Err(FrameError::BadVersion(1)));
    assert_eq!(a.reply, None);
}

#[test]
fn lab_constants() {
    assert_eq!(&LAB_ALPN, b"mnp-lab/0");
    assert_eq!(LAB_SERVER_NAME, "localhost");
    assert_eq!(LAB_LISTEN, "[::1]:4433");
}
