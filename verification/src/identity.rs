//! Software-key identity: announce / challenge / proof.
//!
//! Each side holds two Ed25519 keys (device and principal), announces their
//! public halves, and signs one canonical transcript with both.

use vstd::prelude::*;
use vstd::bytes::*;
use vstd::std_specs::cmp::PartialEqSpecImpl;
use crate::crypto::{
    ed25519_key_decodes, ed25519_public_key, ed25519_signature, ed25519_signature_verifies,
};

verus! {

pub const KIND_HUMAN: u8 = 1;

pub const KIND_PEER: u8 = 3;

pub const PK_LEN: usize = 32;

pub const SIG_LEN: usize = 64;

pub const NONCE_LEN: usize = 32;

pub const ANNOUNCE_LEN: usize = 65;

pub const EXPORTER_LEN: usize = 32;

/// TLS exporter label `b"EXPORTER-MNP-Identity"`.
pub const EXPORTER_LABEL: [u8; 21] = [
    0x45, 0x58, 0x50, 0x4f, 0x52, 0x54, 0x45, 0x52, 0x2d, 0x4d, 0x4e, 0x50, 0x2d, 0x49, 0x64, 0x65,
    0x6e, 0x74, 0x69, 0x74, 0x79,
];

/// Transcript domain `b"MNP-IDENTITY-V0"`.
const DOMAIN: [u8; 15] = [
    0x4d, 0x4e, 0x50, 0x2d, 0x49, 0x44, 0x45, 0x4e, 0x54, 0x49, 0x54, 0x59, 0x2d, 0x56, 0x30,
];

#[derive(Debug, Clone, PartialEq, Eq)]
pub enum IdentityError {
    BadAnnounce(usize),
    BadChallenge(usize),
    BadProof(usize),
    BadKind(u8),
    Untrusted,
    RoleMismatch,
    BadPublicKey,
    BadSignature,
    HardwareUnavailable(String),
    Gpg(String),
}

#[derive(Debug, Clone, Copy, Eq)]
pub struct Announce {
    pub kind: u8,
    pub device_pk: [u8; 32],
    pub principal_pk: [u8; 32],
}

#[derive(Debug, Clone, Copy, PartialEq, Eq)]
pub struct Challenge {
    pub nonce: [u8; 32],
}

#[derive(Debug, Clone, PartialEq, Eq)]
pub struct Proof {
    pub device_sig: [u8; 64],
    /// Software: 64-byte raw Ed25519. Hardware human key: OpenPGP detached signature.
    pub principal_sig: Vec<u8>,
}

/// How far `verify_proof` could check a proof. Only `Verified` is
/// acceptance: `OpenPgpPending` is not, and a caller that cannot finish the
/// OpenPGP check must refuse the peer.
#[must_use]
#[derive(Debug, Clone, Copy, PartialEq, Eq, Structural)]
pub enum ProofVerdict {
    /// Both signatures are Ed25519 and both verified.
    Verified,
    /// The device signature verified; the principal signature is not a raw
    /// Ed25519 signature (an OpenPGP detached signature from a hardware key)
    /// and is left to an OpenPGP verifier, against `principal_pk`.
    OpenPgpPending,
}

/// The principal kinds an announce may carry.
pub open spec fn valid_kind(kind: u8) -> bool {
    kind == KIND_HUMAN || kind == KIND_PEER
}

pub open spec fn domain_seq() -> Seq<u8> {
    seq![0x4du8, 0x4eu8, 0x50u8, 0x2du8, 0x49u8, 0x44u8, 0x45u8, 0x4eu8, 0x54u8, 0x49u8, 0x54u8,
        0x59u8, 0x2du8, 0x56u8, 0x30u8]
}

/// The 65 announce bytes: kind, device key, principal key.
pub open spec fn announce_bytes(a: Announce) -> Seq<u8> {
    seq![a.kind] + a.device_pk@ + a.principal_pk@
}

/// Whether `res` is what `Announce::decode` returns for `buf`: a length error,
/// a kind error, or the announce whose encoding is exactly `buf`.
pub open spec fn announce_decode_result(buf: Seq<u8>, res: Result<Announce, IdentityError>) -> bool {
    if buf.len() != ANNOUNCE_LEN {
        res == Err::<Announce, IdentityError>(IdentityError::BadAnnounce(buf.len() as usize))
    } else if !valid_kind(buf[0]) {
        res == Err::<Announce, IdentityError>(IdentityError::BadKind(buf[0]))
    } else {
        res matches Ok(a) && announce_bytes(a) == buf
    }
}

/// The signed transcript, identical on both sides.
pub open spec fn spec_transcript(
    client_announce: Announce,
    server_announce: Announce,
    client_nonce: Seq<u8>,
    server_nonce: Seq<u8>,
    exporter: Seq<u8>,
) -> Seq<u8> {
    domain_seq() + seq![0u8] + announce_bytes(client_announce) + announce_bytes(server_announce)
        + client_nonce + server_nonce + exporter
}

/// What a proof is on the wire: device signature, 16-bit little-endian length,
/// principal signature.
pub open spec fn proof_bytes(device_sig: Seq<u8>, principal_sig: Seq<u8>) -> Seq<u8> {
    device_sig + spec_u16_to_le_bytes(principal_sig.len() as u16) + principal_sig
}

/// Whether `Proof::decode` accepts a buffer.
pub open spec fn proof_decodes(buf: Seq<u8>) -> bool {
    buf.len() >= SIG_LEN + 2 && buf.len() - (SIG_LEN + 2) == spec_u16_from_le_bytes(
        buf.subrange(64, 66),
    )
}

/// What `verify_proof` returns.
pub open spec fn spec_verify_proof(
    announce: Announce,
    trust: Announce,
    expected_kind: u8,
    transcript: Seq<u8>,
    device_sig: Seq<u8>,
    principal_sig: Seq<u8>,
) -> Result<ProofVerdict, IdentityError> {
    if announce.kind != expected_kind {
        Err(IdentityError::RoleMismatch)
    } else if announce != trust {
        Err(IdentityError::Untrusted)
    } else if !ed25519_key_decodes(announce.device_pk@) || !ed25519_key_decodes(
        announce.principal_pk@,
    ) {
        Err(IdentityError::BadPublicKey)
    } else if !ed25519_signature_verifies(announce.device_pk@, transcript, device_sig) {
        Err(IdentityError::BadSignature)
    } else if principal_sig.len() == SIG_LEN {
        if ed25519_signature_verifies(announce.principal_pk@, transcript, principal_sig) {
            Ok(ProofVerdict::Verified)
        } else {
            Err(IdentityError::BadSignature)
        }
    } else {
        Ok(ProofVerdict::OpenPgpPending)
    }
}

/// Copy 32 bytes out of a slice.
pub(crate) fn array32(s: &[u8]) -> (a: [u8; 32])
    requires
        s@.len() == 32,
    ensures
        a@ == s@,
{
    let mut a = [0u8; 32];
    let mut i: usize = 0;
    while i < 32
        invariant
            s@.len() == 32,
            0 <= i <= 32,
            forall|j: int| 0 <= j < i ==> a@[j] == s@[j],
        decreases 32 - i,
    {
        a[i] = s[i];
        i = i + 1;
    }
    assert(a@ =~= s@);
    a
}

/// Copy 64 bytes out of a slice.
fn array64(s: &[u8]) -> (a: [u8; 64])
    requires
        s@.len() == 64,
    ensures
        a@ == s@,
{
    let mut a = [0u8; 64];
    let mut i: usize = 0;
    while i < 64
        invariant
            s@.len() == 64,
            0 <= i <= 64,
            forall|j: int| 0 <= j < i ==> a@[j] == s@[j],
        decreases 64 - i,
    {
        a[i] = s[i];
        i = i + 1;
    }
    assert(a@ =~= s@);
    a
}

/// Whether two byte arrays of the same length hold the same bytes.
pub(crate) fn same_bytes32(a: &[u8; 32], b: &[u8; 32]) -> (r: bool)
    ensures
        r == (*a == *b),
{
    let mut i: usize = 0;
    while i < 32
        invariant
            0 <= i <= 32,
            forall|j: int| 0 <= j < i ==> a@[j] == b@[j],
        decreases 32 - i,
    {
        if a[i] != b[i] {
            assert(a@[i as int] != b@[i as int]);
            return false;
        }
        i = i + 1;
    }
    assert(*a =~= *b);
    true
}

impl PartialEq for Announce {
    fn eq(&self, other: &Announce) -> (r: bool) {
        self.kind == other.kind && same_bytes32(&self.device_pk, &other.device_pk) && same_bytes32(
            &self.principal_pk,
            &other.principal_pk,
        )
    }
}

impl PartialEqSpecImpl for Announce {
    open spec fn obeys_eq_spec() -> bool {
        true
    }

    open spec fn eq_spec(&self, other: &Announce) -> bool {
        *self == *other
    }
}

impl Announce {
    pub fn encode(&self) -> (out: [u8; 65])
        ensures
            out@ == announce_bytes(*self),
    {
        let mut out = [0u8; 65];
        out[0] = self.kind;
        let mut i: usize = 0;
        while i < 32
            invariant
                0 <= i <= 32,
                out@[0] == self.kind,
                forall|j: int| 0 <= j < i ==> out@[1 + j] == self.device_pk@[j],
                forall|j: int| 0 <= j < i ==> out@[33 + j] == self.principal_pk@[j],
            decreases 32 - i,
        {
            out[1 + i] = self.device_pk[i];
            out[33 + i] = self.principal_pk[i];
            i = i + 1;
        }
        assert(out@ =~= announce_bytes(*self));
        out
    }

    pub fn decode(buf: &[u8]) -> (res: Result<Announce, IdentityError>)
        ensures
            announce_decode_result(buf@, res),
    {
        if buf.len() != ANNOUNCE_LEN {
            return Err(IdentityError::BadAnnounce(buf.len()));
        }
        let kind = buf[0];
        if kind != KIND_HUMAN && kind != KIND_PEER {
            return Err(IdentityError::BadKind(kind));
        }
        let device_pk = array32(&buf[1..33]);
        let principal_pk = array32(&buf[33..65]);
        let a = Announce { kind, device_pk, principal_pk };
        assert(announce_bytes(a) =~= buf@);
        Ok(a)
    }
}

impl Challenge {
    /// A fresh random nonce from the operating system.
    pub fn fresh() -> (c: Challenge) {
        Challenge { nonce: crate::crypto::random_32() }
    }

    pub fn encode(&self) -> (out: [u8; 32])
        ensures
            out == self.nonce,
    {
        self.nonce
    }

    pub fn decode(buf: &[u8]) -> (res: Result<Challenge, IdentityError>)
        ensures
            buf@.len() != NONCE_LEN ==> res == Err::<Challenge, IdentityError>(
                IdentityError::BadChallenge(buf@.len() as usize),
            ),
            buf@.len() == NONCE_LEN ==> (res matches Ok(c) && c.nonce@ == buf@),
    {
        if buf.len() != NONCE_LEN {
            return Err(IdentityError::BadChallenge(buf.len()));
        }
        Ok(Challenge { nonce: array32(buf) })
    }
}

impl Proof {
    /// Device signature, 16-bit little-endian length, principal signature.
    /// A principal signature longer than `u16::MAX` bytes is refused.
    pub fn encode(&self) -> (res: Result<Vec<u8>, IdentityError>)
        ensures
            self.principal_sig@.len() > u16::MAX ==> res == Err::<Vec<u8>, IdentityError>(
                IdentityError::BadProof(self.principal_sig@.len() as usize),
            ),
            self.principal_sig@.len() <= u16::MAX ==> (res matches Ok(out) && out@ == proof_bytes(
                self.device_sig@,
                self.principal_sig@,
            )),
    {
        let n = self.principal_sig.len();
        if n > 0xffffusize {
            return Err(IdentityError::BadProof(n));
        }
        let len = n as u16;
        let mut out: Vec<u8> = Vec::with_capacity(SIG_LEN + 2 + n);
        out.extend_from_slice(self.device_sig.as_slice());
        let len_le = u16_to_le_bytes(len);
        out.extend_from_slice(len_le.as_slice());
        out.extend_from_slice(self.principal_sig.as_slice());
        assert(out@ =~= proof_bytes(self.device_sig@, self.principal_sig@));
        Ok(out)
    }

    /// Refuses a buffer shorter than the fixed part, or whose length field
    /// does not match the bytes that follow it, with the buffer's length.
    pub fn decode(buf: &[u8]) -> (res: Result<Proof, IdentityError>)
        ensures
            !proof_decodes(buf@) ==> res == Err::<Proof, IdentityError>(
                IdentityError::BadProof(buf@.len() as usize),
            ),
            proof_decodes(buf@) ==> (res matches Ok(p) && p.device_sig@ == buf@.subrange(0, 64)
                && p.principal_sig@ == buf@.subrange(66, buf@.len() as int)),
    {
        if buf.len() < SIG_LEN + 2 {
            return Err(IdentityError::BadProof(buf.len()));
        }
        let device_sig = array64(&buf[0..64]);
        let len = u16_from_le_bytes(&buf[64..66]) as usize;
        let rest = &buf[66..buf.len()];
        if rest.len() != len {
            return Err(IdentityError::BadProof(buf.len()));
        }
        Ok(Proof { device_sig, principal_sig: vstd::slice::slice_to_vec(rest) })
    }
}

/// The canonical transcript both sides sign.
pub fn transcript(
    client_announce: &Announce,
    server_announce: &Announce,
    client_nonce: &[u8; 32],
    server_nonce: &[u8; 32],
    exporter: &[u8; 32],
) -> (t: Vec<u8>)
    ensures
        t@ == spec_transcript(
            *client_announce,
            *server_announce,
            client_nonce@,
            server_nonce@,
            exporter@,
        ),
{
    let mut t: Vec<u8> = Vec::with_capacity(15 + 1 + ANNOUNCE_LEN * 2 + NONCE_LEN * 2 + EXPORTER_LEN);
    t.extend_from_slice(DOMAIN.as_slice());
    t.push(0);
    let ca = client_announce.encode();
    t.extend_from_slice(ca.as_slice());
    let sa = server_announce.encode();
    t.extend_from_slice(sa.as_slice());
    t.extend_from_slice(client_nonce.as_slice());
    t.extend_from_slice(server_nonce.as_slice());
    t.extend_from_slice(exporter.as_slice());
    assert(DOMAIN@ =~= domain_seq());
    assert(t@ =~= spec_transcript(
        *client_announce,
        *server_announce,
        client_nonce@,
        server_nonce@,
        exporter@,
    ));
    t
}

pub struct IdentityKeys {
    pub kind: u8,
    device: [u8; 32],
    principal: [u8; 32],
}

impl IdentityKeys {
    /// The principal kind the keys stand for.
    pub closed spec fn spec_kind(&self) -> u8 {
        self.kind
    }

    /// The device public key.
    pub closed spec fn device_public(&self) -> Seq<u8> {
        ed25519_public_key(self.device@)
    }

    /// The principal (human or peer) public key.
    pub closed spec fn principal_public(&self) -> Seq<u8> {
        ed25519_public_key(self.principal@)
    }

    /// The device signature of a message.
    pub closed spec fn device_signature(&self, msg: Seq<u8>) -> Seq<u8> {
        ed25519_signature(self.device@, msg)
    }

    /// The principal signature of a message.
    pub closed spec fn principal_signature(&self, msg: Seq<u8>) -> Seq<u8> {
        ed25519_signature(self.principal@, msg)
    }

    /// Both public keys are usable verifying keys. Holds of every key pair
    /// that `generate` makes.
    pub closed spec fn wf(&self) -> bool {
        ed25519_key_decodes(self.device_public()) && ed25519_key_decodes(self.principal_public())
    }

    /// Whether `a` is the announce of these keys.
    pub closed spec fn announces(&self, a: Announce) -> bool {
        a.kind == self.kind && a.device_pk@ == self.device_public() && a.principal_pk@
            == self.principal_public()
    }

    /// Two fresh random Ed25519 keys for a principal of a known kind.
    pub fn generate(kind: u8) -> (res: Result<IdentityKeys, IdentityError>)
        ensures
            !valid_kind(kind) ==> res == Err::<IdentityKeys, IdentityError>(
                IdentityError::BadKind(kind),
            ),
            valid_kind(kind) ==> (res matches Ok(k) && k.spec_kind() == kind && k.wf()),
    {
        if kind != KIND_HUMAN && kind != KIND_PEER {
            return Err(IdentityError::BadKind(kind));
        }
        let device = crate::crypto::generate_secret_key();
        let principal = crate::crypto::generate_secret_key();
        Ok(IdentityKeys { kind, device, principal })
    }

    pub fn announce(&self) -> (a: Announce)
        ensures
            self.announces(a),
            a.kind == self.spec_kind(),
    {
        Announce {
            kind: self.kind,
            device_pk: crate::crypto::public_key_of(&self.device),
            principal_pk: crate::crypto::public_key_of(&self.principal),
        }
    }

    /// Sign the transcript with both keys. Such a proof passes `verify_proof`
    /// against the keys' own announce, pinned, for their own kind.
    pub fn prove(&self, transcript: &[u8]) -> (p: Proof)
        ensures
            p.device_sig@ == self.device_signature(transcript@),
            p.principal_sig@ == self.principal_signature(transcript@),
            self.wf() ==> forall|a: Announce|
                self.announces(a) ==> spec_verify_proof(
                    a,
                    a,
                    self.spec_kind(),
                    transcript@,
                    #[trigger] p.device_sig@,
                    p.principal_sig@,
                ) == Ok::<ProofVerdict, IdentityError>(ProofVerdict::Verified),
    {
        let device_sig = crate::crypto::sign(&self.device, transcript);
        let principal_sig = crate::crypto::sign(&self.principal, transcript);
        let mut v: Vec<u8> = Vec::with_capacity(SIG_LEN);
        v.extend_from_slice(principal_sig.as_slice());
        assert(v@ =~= principal_sig@);
        Proof { device_sig, principal_sig: v }
    }
}

/// Signing backend for MNP identity: software keys here; a hardware token
/// elsewhere.
pub trait IdentityBackend: Send + Sync {
    /// What `prove` gives back for `transcript`. A backend that states
    /// nothing of its proofs keeps this default.
    open spec fn proves(&self, transcript: Seq<u8>, res: Result<Proof, IdentityError>) -> bool {
        true
    }

    fn kind(&self) -> u8;

    fn announce(&self) -> Announce;

    fn prove(&self, transcript: &[u8]) -> (res: Result<Proof, IdentityError>)
        ensures
            self.proves(transcript@, res),
    ;
}

impl IdentityBackend for IdentityKeys {
    /// Always a proof: the device and principal signatures of the transcript.
    open spec fn proves(&self, transcript: Seq<u8>, res: Result<Proof, IdentityError>) -> bool {
        &&& res is Ok
        &&& res->Ok_0.device_sig@ == self.device_signature(transcript)
        &&& res->Ok_0.principal_sig@ == self.principal_signature(transcript)
    }

    fn kind(&self) -> (k: u8)
        ensures
            k == self.spec_kind(),
    {
        self.kind
    }

    fn announce(&self) -> (a: Announce)
        ensures
            self.announces(a),
            a.kind == self.spec_kind(),
    {
        IdentityKeys::announce(self)
    }

    fn prove(&self, transcript: &[u8]) -> (res: Result<Proof, IdentityError>) {
        Ok(IdentityKeys::prove(self, transcript))
    }
}

/// Check a peer's proof: its kind must match the role, its announce must be
/// the pinned one, both public keys must decode, the device signature must
/// verify, and a raw Ed25519 principal signature must verify. A principal
/// signature of another length is an OpenPGP signature, reported as
/// `OpenPgpPending` for an OpenPGP verifier. Pending is not acceptance: the
/// peer is authenticated only once that verifier accepts the signature.
pub fn verify_proof(
    announce: &Announce,
    trust: &Announce,
    expected_kind: u8,
    transcript: &[u8],
    proof: &Proof,
) -> (res: Result<ProofVerdict, IdentityError>)
    ensures
        res == spec_verify_proof(
            *announce,
            *trust,
            expected_kind,
            transcript@,
            proof.device_sig@,
            proof.principal_sig@,
        ),
{
    if announce.kind != expected_kind {
        return Err(IdentityError::RoleMismatch);
    }
    if announce != trust {
        return Err(IdentityError::Untrusted);
    }
    let device_ok = crate::crypto::public_key_decodes(&announce.device_pk);
    let principal_ok = crate::crypto::public_key_decodes(&announce.principal_pk);
    if !device_ok || !principal_ok {
        return Err(IdentityError::BadPublicKey);
    }
    if !crate::crypto::verify(&announce.device_pk, transcript, &proof.device_sig) {
        return Err(IdentityError::BadSignature);
    }
    if proof.principal_sig.len() == SIG_LEN {
        let ps = array64(proof.principal_sig.as_slice());
        if !crate::crypto::verify(&announce.principal_pk, transcript, &ps) {
            return Err(IdentityError::BadSignature);
        }
        Ok(ProofVerdict::Verified)
    } else {
        Ok(ProofVerdict::OpenPgpPending)
    }
}

/// Fail closed on the device key: no proof is accepted, verified or left
/// pending, unless its device signature verifies under the announced device
/// key over the transcript. Once the role, the pin and both keys pass, a device
/// signature that does not verify is refused as a bad signature, whatever the
/// principal signature is. `Verified` also needs a 64-byte principal signature
/// that verifies under the announced principal key.
pub proof fn lemma_device_signature_always_checked(
    announce: Announce,
    trust: Announce,
    expected_kind: u8,
    transcript: Seq<u8>,
    device_sig: Seq<u8>,
    principal_sig: Seq<u8>,
)
    ensures
        spec_verify_proof(announce, trust, expected_kind, transcript, device_sig, principal_sig)
            is Ok ==> ed25519_signature_verifies(announce.device_pk@, transcript, device_sig),
        (announce.kind == expected_kind && announce == trust && ed25519_key_decodes(
            announce.device_pk@,
        ) && ed25519_key_decodes(announce.principal_pk@) && !ed25519_signature_verifies(
            announce.device_pk@,
            transcript,
            device_sig,
        )) ==> spec_verify_proof(
            announce,
            trust,
            expected_kind,
            transcript,
            device_sig,
            principal_sig,
        ) == Err::<ProofVerdict, IdentityError>(IdentityError::BadSignature),
        spec_verify_proof(announce, trust, expected_kind, transcript, device_sig, principal_sig)
            == Ok::<ProofVerdict, IdentityError>(ProofVerdict::Verified) ==> principal_sig.len()
            == 64 && ed25519_signature_verifies(announce.principal_pk@, transcript, principal_sig),
        spec_verify_proof(announce, trust, expected_kind, transcript, device_sig, principal_sig)
            is Ok ==> announce.kind == expected_kind && announce == trust,
{
}

/// Two announces with the same encoding are the same announce.
pub proof fn lemma_announce_bytes_injective(a: Announce, b: Announce)
    requires
        announce_bytes(a) == announce_bytes(b),
    ensures
        a == b,
{
    assert(a.kind == announce_bytes(a)[0]);
    assert(a.device_pk@ =~= announce_bytes(a).subrange(1, 33));
    assert(b.device_pk@ =~= announce_bytes(b).subrange(1, 33));
    assert(a.principal_pk@ =~= announce_bytes(a).subrange(33, 65));
    assert(b.principal_pk@ =~= announce_bytes(b).subrange(33, 65));
    assert(a.device_pk =~= b.device_pk);
    assert(a.principal_pk =~= b.principal_pk);
}

/// A challenge survives encoding and decoding.
pub proof fn lemma_challenge_round_trip(c: Challenge, decoded: Challenge)
    requires
        decoded.nonce@ == c.nonce@,
    ensures
        decoded == c,
{
    assert(decoded.nonce =~= c.nonce);
}

/// An announce of a known kind survives encoding and decoding.
pub proof fn lemma_announce_round_trip(a: Announce, res: Result<Announce, IdentityError>)
    requires
        valid_kind(a.kind),
        announce_decode_result(announce_bytes(a), res),
    ensures
        res == Ok::<Announce, IdentityError>(a),
{
    lemma_announce_bytes_injective(a, res->Ok_0);
}

/// A proof whose principal signature fits the 16-bit length survives encoding
/// and decoding.
pub proof fn lemma_proof_round_trip(device_sig: Seq<u8>, principal_sig: Seq<u8>)
    requires
        device_sig.len() == SIG_LEN,
        principal_sig.len() <= u16::MAX,
    ensures
        proof_decodes(proof_bytes(device_sig, principal_sig)),
        proof_bytes(device_sig, principal_sig).subrange(0, 64) == device_sig,
        proof_bytes(device_sig, principal_sig).subrange(
            66,
            proof_bytes(device_sig, principal_sig).len() as int,
        ) == principal_sig,
{
    lemma_auto_spec_u16_to_from_le_bytes();
    let b = proof_bytes(device_sig, principal_sig);
    assert(b.subrange(0, 64) =~= device_sig);
    assert(b.subrange(64, 66) =~= spec_u16_to_le_bytes(principal_sig.len() as u16));
    assert(b.subrange(66, b.len() as int) =~= principal_sig);
}

/// Every buffer that `Proof::decode` accepts is the encoding of what it returns.
pub proof fn lemma_decoded_proof_reencodes(buf: Seq<u8>)
    requires
        proof_decodes(buf),
    ensures
        proof_bytes(buf.subrange(0, 64), buf.subrange(66, buf.len() as int)) == buf,
{
    lemma_auto_spec_u16_to_from_le_bytes();
    let n = spec_u16_from_le_bytes(buf.subrange(64, 66));
    assert(spec_u16_to_le_bytes(n) == buf.subrange(64, 66));
    assert(proof_bytes(buf.subrange(0, 64), buf.subrange(66, buf.len() as int)) =~= buf);
}

/// The transcript is the domain, a zero byte, two announces, two nonces and
/// the exporter: 242 bytes.
pub proof fn lemma_transcript_len(
    client_announce: Announce,
    server_announce: Announce,
    client_nonce: Seq<u8>,
    server_nonce: Seq<u8>,
    exporter: Seq<u8>,
)
    requires
        client_nonce.len() == NONCE_LEN,
        server_nonce.len() == NONCE_LEN,
        exporter.len() == EXPORTER_LEN,
    ensures
        spec_transcript(client_announce, server_announce, client_nonce, server_nonce, exporter).len()
            == 242,
{
}

} // verus!
