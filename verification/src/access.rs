//! Identity-aware service access. Not RDP. Not a VPN.
//!
//! A policy lists which announce may call which service; the access frames
//! carry one service byte (and, for a refusal, one reason byte).

use vstd::prelude::*;
use vstd::std_specs::convert::TryFromSpecImpl;
use crate::identity::Announce;

verus! {

#[derive(Debug, Clone, Copy, PartialEq, Eq, Structural)]
pub enum ServiceId {
    Echo,
    Ssh,
    Rdp,
    Vnc,
}

#[derive(Debug, Clone, Copy, PartialEq, Eq, Structural)]
pub enum AccessError {
    UnknownService(u8),
    Denied(ServiceId),
    BadPayload,
}

/// `b"ping"`: what the client sends on the echo service.
pub const ECHO_PING: [u8; 4] = [0x70, 0x69, 0x6e, 0x67];

/// `b"pong"`: what the echo service answers.
pub const ECHO_PONG: [u8; 4] = [0x70, 0x6f, 0x6e, 0x67];

impl ServiceId {
    /// The wire value of the service byte.
    pub open spec fn spec_code(self) -> u8 {
        match self {
            ServiceId::Echo => 1,
            ServiceId::Ssh => 2,
            ServiceId::Rdp => 3,
            ServiceId::Vnc => 4,
        }
    }

    /// What a service byte names: a service, or the refusal of an unknown one.
    pub open spec fn spec_try_from_u8(b: u8) -> Result<ServiceId, AccessError> {
        if b == 1 {
            Ok(ServiceId::Echo)
        } else if b == 2 {
            Ok(ServiceId::Ssh)
        } else if b == 3 {
            Ok(ServiceId::Rdp)
        } else if b == 4 {
            Ok(ServiceId::Vnc)
        } else {
            Err(AccessError::UnknownService(b))
        }
    }

    pub fn code(self) -> (b: u8)
        ensures
            b == self.spec_code(),
    {
        match self {
            ServiceId::Echo => 1,
            ServiceId::Ssh => 2,
            ServiceId::Rdp => 3,
            ServiceId::Vnc => 4,
        }
    }

    pub fn from_u8(value: u8) -> (res: Result<ServiceId, AccessError>)
        ensures
            res == Self::spec_try_from_u8(value),
    {
        match value {
            1 => Ok(ServiceId::Echo),
            2 => Ok(ServiceId::Ssh),
            3 => Ok(ServiceId::Rdp),
            4 => Ok(ServiceId::Vnc),
            other => Err(AccessError::UnknownService(other)),
        }
    }
}

impl TryFrom<u8> for ServiceId {
    type Error = AccessError;

    fn try_from(value: u8) -> (res: Result<ServiceId, AccessError>) {
        ServiceId::from_u8(value)
    }
}

impl TryFromSpecImpl<u8> for ServiceId {
    open spec fn obeys_try_from_spec() -> bool {
        true
    }

    open spec fn try_from_spec(v: u8) -> Result<ServiceId, AccessError> {
        ServiceId::spec_try_from_u8(v)
    }
}

/// Lab policy: which announce may call which service.
#[derive(Debug, Clone)]
pub struct Policy {
    allowed: Vec<(Announce, ServiceId)>,
}

impl View for Policy {
    type V = Seq<(Announce, ServiceId)>;

    closed spec fn view(&self) -> Seq<(Announce, ServiceId)> {
        self.allowed@
    }
}

/// Whether a policy's entries let `who` use `service`.
pub open spec fn spec_allows(entries: Seq<(Announce, ServiceId)>, who: Announce, service: ServiceId) -> bool {
    exists|i: int| 0 <= i < entries.len() && #[trigger] entries[i] == (who, service)
}

impl Policy {
    /// The pinned peer may use echo only.
    pub fn lab_echo_for(who: &Announce) -> (p: Policy)
        ensures
            p@ == seq![(*who, ServiceId::Echo)],
    {
        let mut allowed: Vec<(Announce, ServiceId)> = Vec::new();
        allowed.push((*who, ServiceId::Echo));
        Policy { allowed }
    }

    pub fn allows(&self, who: &Announce, service: ServiceId) -> (r: bool)
        ensures
            r == spec_allows(self@, *who, service),
    {
        let mut i: usize = 0;
        while i < self.allowed.len()
            invariant
                0 <= i <= self.allowed@.len(),
                forall|j: int| 0 <= j < i ==> self.allowed@[j] != (*who, service),
            decreases self.allowed@.len() - i,
        {
            let (ann, svc) = self.allowed[i];
            if ann == *who && svc == service {
                assert(self.allowed@[i as int] == (*who, service));
                return true;
            }
            i = i + 1;
        }
        false
    }
}

/// The one-byte payload of an access request or grant.
pub open spec fn service_bytes(service: ServiceId) -> Seq<u8> {
    seq![service.spec_code()]
}

/// What `decode_request` (and `decode_grant`) returns: the first byte names
/// the service; an empty buffer is a bad payload; later bytes are ignored.
pub open spec fn spec_decode_request(buf: Seq<u8>) -> Result<ServiceId, AccessError> {
    if buf.len() == 0 {
        Err(AccessError::BadPayload)
    } else {
        ServiceId::spec_try_from_u8(buf[0])
    }
}

pub fn encode_request(service: ServiceId) -> (out: Vec<u8>)
    ensures
        out@ == service_bytes(service),
{
    let mut out: Vec<u8> = Vec::new();
    out.push(service.code());
    assert(out@ =~= service_bytes(service));
    out
}

pub fn decode_request(buf: &[u8]) -> (res: Result<ServiceId, AccessError>)
    ensures
        res == spec_decode_request(buf@),
{
    match buf.first() {
        None => Err(AccessError::BadPayload),
        Some(b) => ServiceId::from_u8(*b),
    }
}

pub fn encode_grant(service: ServiceId) -> (out: Vec<u8>)
    ensures
        out@ == service_bytes(service),
{
    let mut out: Vec<u8> = Vec::new();
    out.push(service.code());
    assert(out@ =~= service_bytes(service));
    out
}

pub fn decode_grant(buf: &[u8]) -> (res: Result<ServiceId, AccessError>)
    ensures
        res == spec_decode_request(buf@),
{
    decode_request(buf)
}

pub fn encode_deny(service: ServiceId, reason: u8) -> (out: Vec<u8>)
    ensures
        out@ == seq![service.spec_code(), reason],
{
    let mut out: Vec<u8> = Vec::new();
    out.push(service.code());
    out.push(reason);
    assert(out@ =~= seq![service.spec_code(), reason]);
    out
}

/// A request, a grant and a refusal all decode to the service they were made
/// for.
pub proof fn lemma_access_round_trip(service: ServiceId, reason: u8)
    ensures
        spec_decode_request(service_bytes(service)) == Ok::<ServiceId, AccessError>(service),
        spec_decode_request(seq![service.spec_code(), reason]) == Ok::<ServiceId, AccessError>(
            service,
        ),
{
}

/// The service ids on the wire are the documented ones: echo 1, ssh 2,
/// rdp 3, vnc 4. A byte names a service exactly when it is one of these, and
/// then it names the service whose id it is; the payloads of a request, a
/// grant and a refusal begin with that id.
pub proof fn lemma_service_ids(service: ServiceId, b: u8)
    ensures
        ServiceId::Echo.spec_code() == 1,
        ServiceId::Ssh.spec_code() == 2,
        ServiceId::Rdp.spec_code() == 3,
        ServiceId::Vnc.spec_code() == 4,
        ServiceId::spec_try_from_u8(b) is Ok <==> 1 <= b <= 4,
        ServiceId::spec_try_from_u8(b) matches Ok(t) ==> t.spec_code() == b,
        ServiceId::spec_try_from_u8(b) is Err ==> ServiceId::spec_try_from_u8(b) == Err::<
            ServiceId,
            AccessError,
        >(AccessError::UnknownService(b)),
        service_bytes(service).len() == 1 && service_bytes(service)[0] == service.spec_code(),
        1 <= service.spec_code() <= 4,
{
}

/// The lab policy for `who` lets exactly `who` use exactly echo.
pub proof fn lemma_lab_policy_is_echo_only(pinned: Announce, who: Announce, service: ServiceId)
    ensures
        spec_allows(seq![(pinned, ServiceId::Echo)], who, service) <==> (who == pinned && service
            == ServiceId::Echo),
{
    let s = seq![(pinned, ServiceId::Echo)];
    if who == pinned && service == ServiceId::Echo {
        assert(s[0] == (who, service));
    }
}

} // verus!
