//! Decisions of the laboratory HELLO exchange and of the IPv6-only rule.
//!
//! The QUIC / TLS plumbing that carries them is not here: it hands these
//! functions the peer address and the frames it read, and performs what they
//! decide.

use vstd::prelude::*;
use crate::frame::{Frame, FrameError, MessageType};

verus! {

/// A socket address: IPv4 octets or IPv6 octets, with the port.
#[derive(Debug, Clone, Copy, PartialEq, Eq)]
pub enum LabAddr {
    V4([u8; 4], u16),
    V6([u8; 16], u16),
}

/// Refusals of the lab link that the protocol itself decides.
#[derive(Debug, Clone, PartialEq, Eq)]
pub enum LabError {
    Ipv4,
    Ipv4Mapped,
    UnexpectedType(MessageType, MessageType),
    Frame(FrameError),
}

/// Whether IPv6 octets are an IPv4-mapped address `::ffff:a.b.c.d`.
pub open spec fn is_v4_mapped(octets: Seq<u8>) -> bool {
    &&& forall|i: int| 0 <= i < 10 ==> octets[i] == 0
    &&& octets[10] == 0xff
    &&& octets[11] == 0xff
}

/// What `reject_v4_mapped` decides: IPv4 and IPv4-mapped IPv6 are refused.
pub open spec fn spec_reject_v4_mapped(addr: LabAddr) -> Result<(), LabError> {
    match addr {
        LabAddr::V4(_, _) => Err(LabError::Ipv4),
        LabAddr::V6(o, _) => if is_v4_mapped(o@) {
            Err(LabError::Ipv4Mapped)
        } else {
            Ok(())
        },
    }
}

/// `Ipv6Addr::to_ipv4_mapped(..).is_some()`: the first ten octets are zero
/// and the next two are `0xff`.
fn v4_mapped(octets: &[u8; 16]) -> (r: bool)
    ensures
        r == is_v4_mapped(octets@),
{
    let mut i: usize = 0;
    while i < 10
        invariant
            0 <= i <= 10,
            forall|j: int| 0 <= j < i ==> octets@[j] == 0,
        decreases 10 - i,
    {
        if octets[i] != 0 {
            return false;
        }
        i = i + 1;
    }
    octets[10] == 0xff && octets[11] == 0xff
}

/// IPv4 and IPv4-mapped IPv6 are not allowed in the lab.
pub fn reject_v4_mapped(addr: &LabAddr) -> (res: Result<(), LabError>)
    ensures
        res == spec_reject_v4_mapped(*addr),
{
    match addr {
        LabAddr::V4(_, _) => Err(LabError::Ipv4),
        LabAddr::V6(o, _) => {
            if v4_mapped(o) {
                Err(LabError::Ipv4Mapped)
            } else {
                Ok(())
            }
        },
    }
}

/// Client side: the frame read after HELLO must be HELLO_ACK.
pub fn check_hello_ack(ack: &Frame) -> (res: Result<(), LabError>)
    ensures
        ack.ty == MessageType::HelloAck ==> res is Ok,
        ack.ty != MessageType::HelloAck ==> res == Err::<(), LabError>(
            LabError::UnexpectedType(MessageType::HelloAck, ack.ty),
        ),
{
    if ack.ty != MessageType::HelloAck {
        return Err(LabError::UnexpectedType(MessageType::HelloAck, ack.ty));
    }
    Ok(())
}

/// What the server does with the first frame of a connection.
#[derive(Debug, PartialEq, Eq)]
pub struct HelloAnswer {
    /// The frame type to write back, if any.
    pub reply: Option<MessageType>,
    /// How the exchange ends.
    pub outcome: Result<(), LabError>,
}

/// What `answer_hello` decides for the first frame read (or the frame error).
pub open spec fn spec_answer_hello(read: Result<MessageType, FrameError>) -> HelloAnswer {
    match read {
        Err(FrameError::PayloadTooLarge(n)) => HelloAnswer {
            reply: Some(MessageType::ErrorFrame),
            outcome: Err(LabError::Frame(FrameError::PayloadTooLarge(n))),
        },
        Err(e) => HelloAnswer { reply: None, outcome: Err(LabError::Frame(e)) },
        Ok(ty) => if ty == MessageType::Hello {
            HelloAnswer { reply: Some(MessageType::HelloAck), outcome: Ok(()) }
        } else {
            HelloAnswer {
                reply: None,
                outcome: Err(LabError::UnexpectedType(MessageType::Hello, ty)),
            }
        },
    }
}

/// Server side: an oversize frame is answered with ERROR and refused; HELLO is
/// answered with HELLO_ACK; anything else is refused without an answer.
pub fn answer_hello(read: Result<MessageType, FrameError>) -> (a: HelloAnswer)
    ensures
        a == spec_answer_hello(read),
{
    match read {
        Err(FrameError::PayloadTooLarge(n)) => HelloAnswer {
            reply: Some(MessageType::ErrorFrame),
            outcome: Err(LabError::Frame(FrameError::PayloadTooLarge(n))),
        },
        Err(e) => HelloAnswer { reply: None, outcome: Err(LabError::Frame(e)) },
        Ok(ty) => {
            if ty == MessageType::Hello {
                HelloAnswer { reply: Some(MessageType::HelloAck), outcome: Ok(()) }
            } else {
                HelloAnswer {
                    reply: None,
                    outcome: Err(LabError::UnexpectedType(MessageType::Hello, ty)),
                }
            }
        },
    }
}

/// The server answers HELLO_ACK exactly to HELLO, and ERROR exactly to an
/// oversize frame; the client and the server accept exactly the frame type
/// the other side owes them.
pub proof fn lemma_hello_exchange(read: Result<MessageType, FrameError>)
    ensures
        spec_answer_hello(read).reply == Some(MessageType::HelloAck) <==> read == Ok::<
            MessageType,
            FrameError,
        >(MessageType::Hello),
        spec_answer_hello(read).reply == Some(MessageType::ErrorFrame) <==> (read matches Err(
            FrameError::PayloadTooLarge(_),
        )),
        spec_answer_hello(read).outcome is Ok <==> read == Ok::<MessageType, FrameError>(
            MessageType::Hello,
        ),
{
}

} // verus!
