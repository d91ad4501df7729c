//! Laboratory frame. Throwaway layout, not a v1 contract.
//!
//! MAGIC | VERSION | TYPE | FLAGS | LENGTH | SESSION | PAYLOAD
//!  4B        1B       1B     2B      4B       8B       N
//!
//! All integers are little-endian. `SESSION` is always written as 0.
//! The header is decoded on its own so that an oversize `LENGTH` is refused
//! before any payload is read or allocated.

use vstd::prelude::*;
use vstd::bytes::*;
use vstd::std_specs::convert::TryFromSpecImpl;

verus! {

pub const LAB_MAGIC: [u8; 4] = [0x4d, 0x4e, 0x50, 0x31];

pub const LAB_VERSION: u8 = 0;

pub const HEADER_LEN: usize = 20;

pub const LAB_MAX_PAYLOAD: u32 = 65_536;

#[derive(Debug, Clone, Copy, PartialEq, Eq, Structural)]
pub enum MessageType {
    Hello,
    HelloAck,
    ErrorFrame,
    Goodbye,
    IdAnnounce,
    Challenge,
    Proof,
    AccessRequest,
    AccessGrant,
    AccessDeny,
    Data,
}

#[derive(Debug, Clone, Copy, PartialEq, Eq, Structural)]
pub struct FrameHeader {
    pub ty: MessageType,
    pub flags: u16,
    pub length: u32,
    pub session: u64,
}

#[derive(Debug, Clone, PartialEq, Eq)]
pub struct Frame {
    pub ty: MessageType,
    pub flags: u16,
    pub session: u64,
    pub payload: Vec<u8>,
}

/// What a frame means, with its payload as a sequence of bytes.
pub struct FrameModel {
    pub ty: MessageType,
    pub flags: u16,
    pub session: u64,
    pub payload: Seq<u8>,
}

impl View for Frame {
    type V = FrameModel;

    open spec fn view(&self) -> FrameModel {
        FrameModel { ty: self.ty, flags: self.flags, session: self.session, payload: self.payload@ }
    }
}

#[derive(Debug, Clone, PartialEq, Eq)]
pub enum FrameError {
    HeaderTooShort(usize),
    BadMagic([u8; 4]),
    BadVersion(u8),
    UnknownType(u8),
    PayloadTooLarge(u32),
    PayloadTooShort { want: u32, got: usize },
}

/// The four magic bytes `b"MNP1"`.
pub open spec fn magic_seq() -> Seq<u8> {
    seq![0x4du8, 0x4eu8, 0x50u8, 0x31u8]
}

impl MessageType {
    /// The wire value of the `TYPE` byte.
    pub open spec fn spec_code(self) -> u8 {
        match self {
            MessageType::Hello => 0x01,
            MessageType::HelloAck => 0x02,
            MessageType::ErrorFrame => 0x03,
            MessageType::Goodbye => 0x04,
            MessageType::IdAnnounce => 0x10,
            MessageType::Challenge => 0x11,
            MessageType::Proof => 0x12,
            MessageType::AccessRequest => 0x30,
            MessageType::AccessGrant => 0x31,
            MessageType::AccessDeny => 0x32,
            MessageType::Data => 0x40,
        }
    }

    /// The message type a `TYPE` byte names, if any.
    pub open spec fn spec_from_code(b: u8) -> Option<MessageType> {
        if b == 0x01 {
            Some(MessageType::Hello)
        } else if b == 0x02 {
            Some(MessageType::HelloAck)
        } else if b == 0x03 {
            Some(MessageType::ErrorFrame)
        } else if b == 0x04 {
            Some(MessageType::Goodbye)
        } else if b == 0x10 {
            Some(MessageType::IdAnnounce)
        } else if b == 0x11 {
            Some(MessageType::Challenge)
        } else if b == 0x12 {
            Some(MessageType::Proof)
        } else if b == 0x30 {
            Some(MessageType::AccessRequest)
        } else if b == 0x31 {
            Some(MessageType::AccessGrant)
        } else if b == 0x32 {
            Some(MessageType::AccessDeny)
        } else if b == 0x40 {
            Some(MessageType::Data)
        } else {
            None
        }
    }

    pub open spec fn spec_try_from_u8(b: u8) -> Result<MessageType, FrameError> {
        match Self::spec_from_code(b) {
            Some(t) => Ok(t),
            None => Err(FrameError::UnknownType(b)),
        }
    }

    pub fn code(self) -> (b: u8)
        ensures
            b == self.spec_code(),
    {
        match self {
            MessageType::Hello => 0x01,
            MessageType::HelloAck => 0x02,
            MessageType::ErrorFrame => 0x03,
            MessageType::Goodbye => 0x04,
            MessageType::IdAnnounce => 0x10,
            MessageType::Challenge => 0x11,
            MessageType::Proof => 0x12,
            MessageType::AccessRequest => 0x30,
            MessageType::AccessGrant => 0x31,
            MessageType::AccessDeny => 0x32,
            MessageType::Data => 0x40,
        }
    }

    pub fn from_u8(value: u8) -> (res: Result<MessageType, FrameError>)
        ensures
            res == Self::spec_try_from_u8(value),
    {
        match value {
            0x01 => Ok(MessageType::Hello),
            0x02 => Ok(MessageType::HelloAck),
            0x03 => Ok(MessageType::ErrorFrame),
            0x04 => Ok(MessageType::Goodbye),
            0x10 => Ok(MessageType::IdAnnounce),
            0x11 => Ok(MessageType::Challenge),
            0x12 => Ok(MessageType::Proof),
            0x30 => Ok(MessageType::AccessRequest),
            0x31 => Ok(MessageType::AccessGrant),
            0x32 => Ok(MessageType::AccessDeny),
            0x40 => Ok(MessageType::Data),
            other => Err(FrameError::UnknownType(other)),
        }
    }

    /// Every message type survives a trip through its `TYPE` byte.
    pub proof fn lemma_code_round_trip(self)
        ensures
            Self::spec_from_code(self.spec_code()) == Some(self),
    {
    }

    /// A `TYPE` byte that names a message type is that type's own code.
    pub proof fn lemma_from_code_inverse(b: u8)
        ensures
            Self::spec_from_code(b) is Some ==> Self::spec_from_code(b)->Some_0.spec_code() == b,
            Self::spec_from_code(b) is Some <==> (b == 0x01 || b == 0x02 || b == 0x03 || b == 0x04
                || b == 0x10 || b == 0x11 || b == 0x12 || b == 0x30 || b == 0x31 || b == 0x32 || b
                == 0x40),
    {
    }
}

impl TryFrom<u8> for MessageType {
    type Error = FrameError;

    fn try_from(value: u8) -> (res: Result<MessageType, FrameError>) {
        MessageType::from_u8(value)
    }
}

impl TryFromSpecImpl<u8> for MessageType {
    open spec fn obeys_try_from_spec() -> bool {
        true
    }

    open spec fn try_from_spec(v: u8) -> Result<MessageType, FrameError> {
        MessageType::spec_try_from_u8(v)
    }
}

impl Frame {
    pub fn empty(ty: MessageType) -> (f: Frame)
        ensures
            f@ == (FrameModel { ty, flags: 0, session: 0, payload: Seq::empty() }),
    {
        Frame { ty, flags: 0, session: 0, payload: Vec::new() }
    }
}

/// The 20 header bytes of a frame whose payload is `len` bytes long.
pub open spec fn header_bytes(ty: MessageType, flags: u16, len: u32) -> Seq<u8> {
    magic_seq() + seq![LAB_VERSION, ty.spec_code()] + spec_u16_to_le_bytes(flags)
        + spec_u32_to_le_bytes(len) + spec_u64_to_le_bytes(0u64)
}

/// What `encode` produces: the bytes of the frame with `SESSION` forced to 0,
/// or the refusal of a payload over `LAB_MAX_PAYLOAD`.
pub open spec fn spec_encode(f: FrameModel) -> Result<Seq<u8>, FrameError> {
    if f.payload.len() > u32::MAX {
        Err(FrameError::PayloadTooLarge(u32::MAX))
    } else if f.payload.len() > LAB_MAX_PAYLOAD {
        Err(FrameError::PayloadTooLarge(f.payload.len() as u32))
    } else {
        Ok(header_bytes(f.ty, f.flags, f.payload.len() as u32) + f.payload)
    }
}

/// What `decode_header` returns for a buffer.
pub open spec fn spec_decode_header(buf: Seq<u8>) -> Result<FrameHeader, FrameError> {
    if buf.len() < HEADER_LEN {
        Err(FrameError::HeaderTooShort(buf.len() as usize))
    } else if buf.subrange(0, 4) != magic_seq() {
        Err(FrameError::BadMagic([buf[0], buf[1], buf[2], buf[3]]))
    } else if buf[4] != LAB_VERSION {
        Err(FrameError::BadVersion(buf[4]))
    } else {
        match MessageType::spec_from_code(buf[5]) {
            None => Err(FrameError::UnknownType(buf[5])),
            Some(ty) => {
                let length = spec_u32_from_le_bytes(buf.subrange(8, 12));
                if length > LAB_MAX_PAYLOAD {
                    Err(FrameError::PayloadTooLarge(length))
                } else {
                    Ok(
                        FrameHeader {
                            ty,
                            flags: spec_u16_from_le_bytes(buf.subrange(6, 8)),
                            length,
                            session: spec_u64_from_le_bytes(buf.subrange(12, 20)),
                        },
                    )
                }
            },
        }
    }
}

/// What `decode` returns for a buffer: the header, then exactly `LENGTH`
/// payload bytes; bytes after them are ignored.
pub open spec fn spec_decode(buf: Seq<u8>) -> Result<FrameModel, FrameError> {
    match spec_decode_header(buf) {
        Err(e) => Err(e),
        Ok(h) => {
            let rest = buf.subrange(HEADER_LEN as int, buf.len() as int);
            if rest.len() < h.length {
                Err(FrameError::PayloadTooShort { want: h.length, got: rest.len() as usize })
            } else {
                Ok(
                    FrameModel {
                        ty: h.ty,
                        flags: h.flags,
                        session: h.session,
                        payload: rest.subrange(0, h.length as int),
                    },
                )
            }
        },
    }
}

/// A frame with `SESSION` set to 0: what the far end reads back.
pub open spec fn with_session_zero(f: FrameModel) -> FrameModel {
    FrameModel { session: 0, ..f }
}

/// An encoded frame is `HEADER_LEN` bytes longer than its payload.
pub proof fn lemma_encoded_len(f: FrameModel)
    requires
        spec_encode(f) is Ok,
    ensures
        spec_encode(f)->Ok_0.len() == HEADER_LEN + f.payload.len(),
{
    lemma_auto_spec_u16_to_from_le_bytes();
    lemma_auto_spec_u32_to_from_le_bytes();
    lemma_auto_spec_u64_to_from_le_bytes();
}

/// Whatever `encode` accepts, `decode` gives back, with `SESSION` 0, even when
/// more bytes follow the frame; its header carries the payload length.
pub proof fn lemma_encode_decode_round_trip(f: FrameModel, trailing: Seq<u8>)
    requires
        spec_encode(f) is Ok,
    ensures
        spec_decode_header(spec_encode(f)->Ok_0 + trailing) == Ok::<FrameHeader, FrameError>(
            FrameHeader {
                ty: f.ty,
                flags: f.flags,
                length: f.payload.len() as u32,
                session: 0,
            },
        ),
        spec_decode(spec_encode(f)->Ok_0 + trailing) == Ok::<FrameModel, FrameError>(
            with_session_zero(f),
        ),
{
    lemma_auto_spec_u16_to_from_le_bytes();
    lemma_auto_spec_u32_to_from_le_bytes();
    lemma_auto_spec_u64_to_from_le_bytes();
    let len = f.payload.len() as u32;
    let h = header_bytes(f.ty, f.flags, len);
    let buf = spec_encode(f)->Ok_0 + trailing;
    assert(buf =~= h + f.payload + trailing);
    assert(buf.subrange(0, 4) =~= magic_seq());
    assert(buf.subrange(6, 8) =~= spec_u16_to_le_bytes(f.flags));
    assert(buf.subrange(8, 12) =~= spec_u32_to_le_bytes(len));
    assert(buf.subrange(12, 20) =~= spec_u64_to_le_bytes(0u64));
    f.ty.lemma_code_round_trip();
    let rest = buf.subrange(HEADER_LEN as int, buf.len() as int);
    assert(rest =~= f.payload + trailing);
    assert(rest.subrange(0, len as int) =~= f.payload);
}

/// A frame that `decode` accepts with `SESSION` 0 is re-encoded to exactly
/// the bytes it was read from.
pub proof fn lemma_decode_encode_round_trip(buf: Seq<u8>)
    requires
        spec_decode(buf) is Ok,
        spec_decode(buf)->Ok_0.session == 0,
    ensures
        spec_encode(spec_decode(buf)->Ok_0) == Ok::<Seq<u8>, FrameError>(
            buf.subrange(0, HEADER_LEN + spec_decode(buf)->Ok_0.payload.len()),
        ),
{
    lemma_auto_spec_u16_to_from_le_bytes();
    lemma_auto_spec_u32_to_from_le_bytes();
    lemma_auto_spec_u64_to_from_le_bytes();
    let f = spec_decode(buf)->Ok_0;
    let h = spec_decode_header(buf)->Ok_0;
    let len = h.length;
    assert(spec_u64_from_le_bytes(buf.subrange(12, 20)) == 0u64);
    assert(spec_u64_to_le_bytes(spec_u64_from_le_bytes(buf.subrange(12, 20))) == buf.subrange(
        12,
        20,
    ));
    assert(spec_u16_to_le_bytes(h.flags) == buf.subrange(6, 8));
    assert(spec_u32_to_le_bytes(len) == buf.subrange(8, 12));
    assert(MessageType::spec_from_code(buf[5]) == Some(h.ty));
    assert(h.ty.spec_code() == buf[5]);
    let out = header_bytes(f.ty, f.flags, f.payload.len() as u32) + f.payload;
    assert(out =~= buf.subrange(0, HEADER_LEN + len));
}

/// Encode a frame. `SESSION` is forced to 0. A payload over the lab cap is refused.
pub fn encode(frame: &Frame) -> (res: Result<Vec<u8>, FrameError>)
    ensures
        match res {
            Ok(out) => spec_encode(frame@) == Ok::<Seq<u8>, FrameError>(out@),
            Err(e) => spec_encode(frame@) == Err::<Seq<u8>, FrameError>(e),
        },
{
    let n = frame.payload.len();
    if n > 0xffff_ffffusize {
        return Err(FrameError::PayloadTooLarge(u32::MAX));
    }
    let len = n as u32;
    if len > LAB_MAX_PAYLOAD {
        return Err(FrameError::PayloadTooLarge(len));
    }
    let mut out: Vec<u8> = Vec::with_capacity(HEADER_LEN + n);
    out.push(LAB_MAGIC[0]);
    out.push(LAB_MAGIC[1]);
    out.push(LAB_MAGIC[2]);
    out.push(LAB_MAGIC[3]);
    out.push(LAB_VERSION);
    out.push(frame.ty.code());
    let flags_le = u16_to_le_bytes(frame.flags);
    out.extend_from_slice(flags_le.as_slice());
    let len_le = u32_to_le_bytes(len);
    out.extend_from_slice(len_le.as_slice());
    let session_le = u64_to_le_bytes(0u64);
    out.extend_from_slice(session_le.as_slice());
    out.extend_from_slice(frame.payload.as_slice());
    assert(out@ =~= header_bytes(frame.ty, frame.flags, len) + frame.payload@);
    Ok(out)
}

/// Decode only the 20-byte header. Rejects an oversize `LENGTH` without
/// touching the payload.
pub fn decode_header(buf: &[u8]) -> (res: Result<FrameHeader, FrameError>)
    ensures
        res == spec_decode_header(buf@),
{
    if buf.len() < HEADER_LEN {
        return Err(FrameError::HeaderTooShort(buf.len()));
    }
    let magic: [u8; 4] = [buf[0], buf[1], buf[2], buf[3]];
    if !(buf[0] == LAB_MAGIC[0] && buf[1] == LAB_MAGIC[1] && buf[2] == LAB_MAGIC[2] && buf[3]
        == LAB_MAGIC[3]) {
        assert(buf@.subrange(0, 4) != magic_seq()) by {
            if buf@.subrange(0, 4) == magic_seq() {
                assert(buf@.subrange(0, 4)[0] == buf@[0]);
                assert(buf@.subrange(0, 4)[1] == buf@[1]);
                assert(buf@.subrange(0, 4)[2] == buf@[2]);
                assert(buf@.subrange(0, 4)[3] == buf@[3]);
            }
        }
        return Err(FrameError::BadMagic(magic));
    }
    assert(buf@.subrange(0, 4) =~= magic_seq());
    let version = buf[4];
    if version != LAB_VERSION {
        return Err(FrameError::BadVersion(version));
    }
    let ty = match MessageType::from_u8(buf[5]) {
        Ok(t) => t,
        Err(e) => {
            return Err(e);
        },
    };
    let flags = u16_from_le_bytes(&buf[6..8]);
    let length = u32_from_le_bytes(&buf[8..12]);
    if length > LAB_MAX_PAYLOAD {
        return Err(FrameError::PayloadTooLarge(length));
    }
    let session = u64_from_le_bytes(&buf[12..20]);
    Ok(FrameHeader { ty, flags, length, session })
}

/// Decode a whole frame: the header, then exactly `LENGTH` payload bytes.
pub fn decode(buf: &[u8]) -> (res: Result<Frame, FrameError>)
    ensures
        match res {
            Ok(f) => spec_decode(buf@) == Ok::<FrameModel, FrameError>(f@),
            Err(e) => spec_decode(buf@) == Err::<FrameModel, FrameError>(e),
        },
{
    let header = match decode_header(buf) {
        Ok(h) => h,
        Err(e) => {
            return Err(e);
        },
    };
    let rest = &buf[HEADER_LEN..buf.len()];
    assert(rest@ =~= buf@.subrange(HEADER_LEN as int, buf@.len() as int));
    if rest.len() < header.length as usize {
        return Err(FrameError::PayloadTooShort { want: header.length, got: rest.len() });
    }
    let body = &rest[0..header.length as usize];
    let payload = vstd::slice::slice_to_vec(body);
    let f = Frame { ty: header.ty, flags: header.flags, session: header.session, payload };
    assert(f@ == (FrameModel {
        ty: header.ty,
        flags: header.flags,
        session: header.session,
        payload: rest@.subrange(0, header.length as int),
    }));
    Ok(f)
}

} // verus!
