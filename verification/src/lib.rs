//! Shared MNP library: the laboratory wire frame, the session state machine,
//! software identity (announce / challenge / proof), service access and the
//! observer snapshot codec.

mod crypto;
pub mod access;
pub mod frame;
pub mod identity;
pub mod lab;
pub mod nitrokey;
pub mod observer;
pub mod session;
pub mod text;

use vstd::prelude::*;

verus! {

/// Laboratory ALPN `b"mnp-lab/0"`. Throwaway, not a v1 contract.
pub const LAB_ALPN: [u8; 9] = [0x6d, 0x6e, 0x70, 0x2d, 0x6c, 0x61, 0x62, 0x2f, 0x30];

/// TLS server name used with the lab certificate (SAN DNS: localhost).
pub const LAB_SERVER_NAME: &'static str = "localhost";

/// Default lab listen address. IPv6 loopback, not a v1 port allocation.
pub const LAB_LISTEN: &'static str = "[::1]:4433";

} // verus!
