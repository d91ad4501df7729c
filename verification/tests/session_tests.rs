use mnp_core::session::{Session, SessionError, SessionState};

#[test]
fn lab_auto_accept_reaches_ready() {
    let mut s = Session::new_lab();
    s.on_quic_connected().unwrap();
    s.on_hello_ok().unwrap();
    assert_eq!(s.state(), SessionState::Ready);
    assert!(s.lab_auto_accept());
}

#[test]
fn hello_before_quic_is_illegal() {
    let mut s = Session::new_lab();
    let err = s.on_hello_ok().unwrap_err();
    assert!(matches!(
        err,
        SessionError::Illegal {
            from: SessionState::Disconnected,
            event: "hello"
        }
    ));
}

#[test]
fn double_connect_is_illegal() {
    let mut s = Session::new_lab();
    s.on_quic_connected().unwrap();
    assert!(s.on_quic_connected().is_err());
}

#[test]
fn goodbye_returns_to_disconnected() {
    let mut s = Session::new_lab();
    s.on_quic_connected().unwrap();
    s.on_hello_ok().unwrap();
    s.on_goodbye_or_loss();
    assert_eq!(s.state(), SessionState::Disconnected);
}

#[test]
fn refused_event_keeps_state() {
    let mut s = Session::new_lab();
    s.on_quic_connected().unwrap();
    s.on_hello_ok().unwrap();
    let err = s.on_quic_connected().unwrap_err();
    assert_eq!(
        err,
        SessionError::Illegal {
            from: SessionState::Ready,
            event: "quic_connected"
        }
    );
    assert_eq!(s.state(), SessionState::Ready);
    let err = s.on_hello_ok().unwrap_err();
    assert_eq!(
        err,
        SessionError::Illegal {
            from: SessionState::Ready,
            event: "hello"
        }
    );
    assert_eq!(s.state(), SessionState::Ready);
    assert!(s.lab_auto_accept());
}

#[test]
fn reconnect_after_goodbye() {
    let mut s = Session::new_lab();
    s.on_goodbye_or_loss();
    assert_eq!(s.state(), SessionState::Disconnected);
    s.on_quic_connected().unwrap();
    assert_eq!(s.state(), SessionState::QuicConnected);
    s.on_hello_ok().unwrap();
    assert_eq!(s.state(), SessionState::Ready);
}

#[test]
fn auto_accept_survives_any_event_sequence() {
    let mut s = Session::new_lab();
    let _ = s.on_hello_ok();
    assert!(s.lab_auto_accept());
    let _ = s.on_quic_connected();
    let _ = s.on_quic_connected();
    assert!(s.lab_auto_accept());
    let _ = s.on_hello_ok();
    let _ = s.on_hello_ok();
    assert!(s.lab_auto_accept());
    s.on_goodbye_or_loss();
    s.on_goodbye_or_loss();
    let _ = s.on_hello_ok();
    assert!(s.lab_auto_accept());
    assert_eq!(s.state(), SessionState::Disconnected);
}
