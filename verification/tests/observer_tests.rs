use mnp_core::observer::{
    hostname_from, inet6_would_panic, parse_if_inet6, Addr, ObserverError, Snapshot, OBSERVER_VERSION,
};

#[test]
fn snapshot_round_trip() {
    let snap = Snapshot {
        hostname: "lab".into(),
        os: "linux-x86_64".into(),
        uptime_secs: 42,
        ipv6: vec![Addr {
            iface: "lo".into(),
            addr: [0, 0, 0, 0, 0, 0, 0, 0, 0, 0, 0, 0, 0, 0, 0, 1],
        }],
    };
    let decoded = Snapshot::decode(&snap.encode().unwrap()).unwrap();
    assert_eq!(decoded, snap);
}

#[test]
fn snapshot_layout() {
    let snap = Snapshot {
        hostname: "h".into(),
        os: "ö".into(),
        uptime_secs: 258,
        ipv6: vec![],
    };
    let bytes = snap.encode().unwrap();
    assert_eq!(
        bytes,
        vec![OBSERVER_VERSION, 1, 0, b'h', 2, 0, 0xc3, 0xb6, 2, 1, 0, 0, 0, 0, 0, 0, 0, 0]
    );
}

#[test]
fn snapshot_errors() {
    assert_eq!(Snapshot::decode(&[]), Err(ObserverError::BadPayload));
    assert_eq!(Snapshot::decode(&[2]), Err(ObserverError::BadVersion(2)));
    assert_eq!(Snapshot::decode(&[1, 0]), Err(ObserverError::BadPayload));
    // invalid UTF-8 hostname
    assert_eq!(
        Snapshot::decode(&[1, 1, 0, 0xff, 0, 0]),
        Err(ObserverError::BadPayload)
    );
    let long = Snapshot {
        hostname: "x".repeat(70_000),
        os: String::new(),
        uptime_secs: 0,
        ipv6: vec![],
    };
    assert_eq!(long.encode(), Err(ObserverError::BadPayload));
    // one address promised, none present
    let snap = Snapshot {
        hostname: String::new(),
        os: String::new(),
        uptime_secs: 1,
        ipv6: vec![],
    };
    let mut bytes = snap.encode().unwrap();
    let n = bytes.len();
    bytes[n - 2] = 1;
    assert_eq!(Snapshot::decode(&bytes), Err(ObserverError::BadPayload));
}

#[test]
fn snapshot_trailing_bytes_ignored() {
    let snap = Snapshot {
        hostname: "a".into(),
        os: "b".into(),
        uptime_secs: u64::MAX,
        ipv6: vec![
            Addr {
                iface: "eth0".into(),
                addr: [0xfe, 0x80, 0, 0, 0, 0, 0, 0, 0, 0, 0, 0, 0, 0, 0, 1],
            },
            Addr {
                iface: "wlan0".into(),
                addr: [0x20, 0x01, 0x0d, 0xb8, 0, 0, 0, 0, 0, 0, 0, 0, 0, 0, 0, 2],
            },
        ],
    };
    let mut bytes = snap.encode().unwrap();
    bytes.extend_from_slice(&[7, 7]);
    assert_eq!(Snapshot::decode(&bytes).unwrap(), snap);
}

#[test]
fn hostname_first_line_trimmed() {
    assert_eq!(hostname_from("lab-host\n"), "lab-host");
    assert_eq!(hostname_from("  a b \r\nsecond"), "a b");
    assert_eq!(hostname_from("\u{a0}ziemia\u{3000}"), "ziemia");
    assert_eq!(hostname_from(""), "unknown");
    assert_eq!(hostname_from(" \t\n"), "unknown");
}

#[test]
fn if_inet6_lines() {
    let text = "00000000000000000000000000000001 01 80 10 80       lo\n\
fe800000000000000000000000000001 02 40 20 80     eth0\n\
short line\n\
zz800000000000000000000000000001 02 40 20 80     bad\n\
fe80 02 40 20 80     tooshort\n";
    assert!(!inet6_would_panic(text));
    let addrs = parse_if_inet6(text);
    assert_eq!(
        addrs,
        vec![
            Addr {
                iface: "lo".into(),
                addr: [0, 0, 0, 0, 0, 0, 0, 0, 0, 0, 0, 0, 0, 0, 0, 1],
            },
            Addr {
                iface: "eth0".into(),
                addr: [0xfe, 0x80, 0, 0, 0, 0, 0, 0, 0, 0, 0, 0, 0, 0, 0, 1],
            },
        ]
    );
    assert!(parse_if_inet6("").is_empty());
}
