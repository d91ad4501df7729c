//! Network Observer snapshot: hostname, OS, uptime and IPv6 addresses, and
//! its wire codec.
//!
//! ```text
//! VERSION(1) | str hostname | str os | UPTIME u64 LE | N u16 LE | N × (str iface | 16 octets)
//! str = LEN u16 LE | LEN bytes of UTF-8
//! ```
//!
//! Reading the host (files under `/etc` and `/proc`) is not done here; what
//! was read is handed to `hostname_from` and `parse_if_inet6`.

use vstd::prelude::*;
use vstd::bytes::*;
use vstd::utf8::*;
use vstd::string::StringSliceAdditionalSpecFns;
use crate::nitrokey::{unhex_pairs, unhex_pairs_cut};
use crate::text::{
    at_boundary, lemma_lines_valid, lemma_trim_valid, lemma_words_valid, lines, lines_from,
    next_line, next_word, rskip_space, skip_space, trim, words, words_from,
};

verus! {

broadcast use vstd::utf8::encode_utf8_valid_utf8, vstd::utf8::encode_utf8_decode_utf8;

pub const OBSERVER_VERSION: u8 = 1;

#[derive(Debug, Clone, Copy, PartialEq, Eq, Structural)]
pub enum ObserverError {
    BadPayload,
    BadVersion(u8),
}

/// One IPv6 address of an interface, as its 16 octets.
#[derive(Debug, Clone, PartialEq, Eq)]
pub struct Addr {
    pub iface: String,
    pub addr: [u8; 16],
}

#[derive(Debug, Clone, PartialEq, Eq)]
pub struct Snapshot {
    pub hostname: String,
    pub os: String,
    /// Uptime in whole seconds.
    pub uptime_secs: u64,
    pub ipv6: Vec<Addr>,
}

pub struct AddrModel {
    pub iface: Seq<char>,
    pub addr: Seq<u8>,
}

pub struct SnapshotModel {
    pub hostname: Seq<char>,
    pub os: Seq<char>,
    pub uptime_secs: u64,
    pub ipv6: Seq<AddrModel>,
}

impl View for Addr {
    type V = AddrModel;

    open spec fn view(&self) -> AddrModel {
        AddrModel { iface: self.iface@, addr: self.addr@ }
    }
}

impl View for Snapshot {
    type V = SnapshotModel;

    open spec fn view(&self) -> SnapshotModel {
        SnapshotModel {
            hostname: self.hostname@,
            os: self.os@,
            uptime_secs: self.uptime_secs,
            ipv6: self.ipv6@.map_values(|a: Addr| a@),
        }
    }
}

/// A length-prefixed UTF-8 string field.
pub open spec fn str_field(s: Seq<char>) -> Seq<u8> {
    spec_u16_to_le_bytes(encode_utf8(s).len() as u16) + encode_utf8(s)
}

/// Whether a string's UTF-8 encoding fits the 16-bit length.
pub open spec fn fits_field(s: Seq<char>) -> bool {
    encode_utf8(s).len() <= u16::MAX
}

pub open spec fn addr_bytes(a: AddrModel) -> Seq<u8> {
    str_field(a.iface) + a.addr
}

pub open spec fn addrs_bytes(s: Seq<AddrModel>) -> Seq<u8>
    decreases s.len(),
{
    if s.len() == 0 {
        Seq::empty()
    } else {
        addr_bytes(s[0]) + addrs_bytes(s.drop_first())
    }
}

/// Whether every field of a snapshot fits its length prefix.
pub open spec fn encodable(m: SnapshotModel) -> bool {
    &&& fits_field(m.hostname)
    &&& fits_field(m.os)
    &&& m.ipv6.len() <= u16::MAX
    &&& forall|i: int| 0 <= i < m.ipv6.len() ==> fits_field(#[trigger] m.ipv6[i].iface)
}

/// What `Snapshot::encode` returns.
pub open spec fn spec_encode_snapshot(m: SnapshotModel) -> Result<Seq<u8>, ObserverError> {
    if !encodable(m) {
        Err(ObserverError::BadPayload)
    } else {
        Ok(
            seq![OBSERVER_VERSION] + str_field(m.hostname) + str_field(m.os) + spec_u64_to_le_bytes(
                m.uptime_secs,
            ) + spec_u16_to_le_bytes(m.ipv6.len() as u16) + addrs_bytes(m.ipv6),
        )
    }
}

/// A string field at `pos`: the string and the position after it, if the
/// length prefix, the bytes and their UTF-8 are all there.
pub open spec fn spec_take_str(buf: Seq<u8>, pos: int) -> Option<(Seq<char>, int)> {
    if buf.len() - pos < 2 {
        None
    } else {
        let n = spec_u16_from_le_bytes(buf.subrange(pos, pos + 2)) as int;
        if buf.len() - (pos + 2) < n {
            None
        } else {
            let bytes = buf.subrange(pos + 2, pos + 2 + n);
            if !valid_utf8(bytes) {
                None
            } else {
                Some((decode_utf8(bytes), pos + 2 + n))
            }
        }
    }
}

/// `n` address records from `pos`, appended to `acc`, and the position after them.
pub open spec fn spec_take_addrs(buf: Seq<u8>, pos: int, n: nat, acc: Seq<AddrModel>) -> Option<
    (Seq<AddrModel>, int),
>
    decreases n,
{
    if n == 0 {
        Some((acc, pos))
    } else {
        match spec_take_str(buf, pos) {
            None => None,
            Some((iface, p)) => {
                if buf.len() - p < 16 {
                    None
                } else {
                    spec_take_addrs(
                        buf,
                        p + 16,
                        (n - 1) as nat,
                        acc.push(AddrModel { iface, addr: buf.subrange(p, p + 16) }),
                    )
                }
            },
        }
    }
}

/// What `Snapshot::decode` returns. Bytes after the last address are ignored.
pub open spec fn spec_decode_snapshot(buf: Seq<u8>) -> Result<SnapshotModel, ObserverError> {
    if buf.len() == 0 {
        Err(ObserverError::BadPayload)
    } else if buf[0] != OBSERVER_VERSION {
        Err(ObserverError::BadVersion(buf[0]))
    } else {
        match spec_take_str(buf, 1) {
            None => Err(ObserverError::BadPayload),
            Some((hostname, p1)) => match spec_take_str(buf, p1) {
                None => Err(ObserverError::BadPayload),
                Some((os, p2)) => {
                    if buf.len() - p2 < 10 {
                        Err(ObserverError::BadPayload)
                    } else {
                        let uptime_secs = spec_u64_from_le_bytes(buf.subrange(p2, p2 + 8));
                        let n = spec_u16_from_le_bytes(buf.subrange(p2 + 8, p2 + 10));
                        match spec_take_addrs(buf, p2 + 10, n as nat, Seq::empty()) {
                            None => Err(ObserverError::BadPayload),
                            Some((ipv6, _)) => Ok(SnapshotModel { hostname, os, uptime_secs, ipv6 }),
                        }
                    }
                },
            },
        }
    }
}

/// `std::str::from_utf8`: succeeds exactly when the bytes are valid UTF-8,
/// and then gives the characters they encode.
#[verifier::external_body]
fn utf8_str(bytes: &[u8]) -> (res: Option<&str>)
    ensures
        res is Some <==> valid_utf8(bytes@),
        res matches Some(s) ==> s@ == decode_utf8(bytes@),
{
    std::str::from_utf8(bytes).ok()
}

/// Append a length-prefixed string; refused when it is longer than `u16::MAX` bytes.
fn push_str(out: &mut Vec<u8>, s: &str) -> (res: Result<(), ObserverError>)
    ensures
        fits_field(s@) ==> res is Ok,
        fits_field(s@) ==> final(out)@ == old(out)@ + str_field(s@),
        !fits_field(s@) ==> res == Err::<(), ObserverError>(ObserverError::BadPayload),
        !fits_field(s@) ==> final(out)@ == old(out)@,
{
    let bytes = s.as_bytes();
    let n = bytes.len();
    if n > 0xffffusize {
        return Err(ObserverError::BadPayload);
    }
    let len_le = u16_to_le_bytes(n as u16);
    out.extend_from_slice(len_le.as_slice());
    out.extend_from_slice(bytes);
    assert(final(out)@ =~= old(out)@ + str_field(s@)) by {
        assert(bytes@ == encode_utf8(s@));
    }
    Ok(())
}

/// Read a length-prefixed string at `pos`, giving the position after it.
fn take_str(buf: &[u8], pos: usize) -> (res: Result<(String, usize), ObserverError>)
    requires
        pos <= buf@.len(),
    ensures
        match spec_take_str(buf@, pos as int) {
            None => res == Err::<(String, usize), ObserverError>(ObserverError::BadPayload),
            Some((s, p)) => res matches Ok((st, q)) && st@ == s && q == p,
        },
{
    if buf.len() - pos < 2 {
        return Err(ObserverError::BadPayload);
    }
    let n = u16_from_le_bytes(&buf[pos..pos + 2]) as usize;
    if buf.len() - (pos + 2) < n {
        return Err(ObserverError::BadPayload);
    }
    let bytes = &buf[pos + 2..pos + 2 + n];
    match utf8_str(bytes) {
        None => Err(ObserverError::BadPayload),
        Some(s) => Ok((s.to_owned(), pos + 2 + n)),
    }
}

/// Copy 16 bytes out of a slice.
fn array16(s: &[u8]) -> (a: [u8; 16])
    requires
        s@.len() == 16,
    ensures
        a@ == s@,
{
    let mut a = [0u8; 16];
    let mut i: usize = 0;
    while i < 16
        invariant
            s@.len() == 16,
            0 <= i <= 16,
            forall|j: int| 0 <= j < i ==> a@[j] == s@[j],
        decreases 16 - i,
    {
        a[i] = s[i];
        i = i + 1;
    }
    assert(a@ =~= s@);
    a
}

/// The address records of a prefix, extended by one more record.
proof fn lemma_addrs_bytes_push(s: Seq<AddrModel>, i: int)
    requires
        0 <= i < s.len(),
    ensures
        addrs_bytes(s.take(i + 1)) == addrs_bytes(s.take(i)) + addr_bytes(s[i]),
    decreases i,
{
    if i == 0 {
        assert(s.take(1).drop_first() =~= Seq::<AddrModel>::empty());
        assert(addrs_bytes(s.take(1)) =~= addr_bytes(s[0]) + addrs_bytes(Seq::<AddrModel>::empty()));
    } else {
        let t = s.drop_first();
        lemma_addrs_bytes_push(t, i - 1);
        assert(s.take(i + 1).drop_first() =~= t.take(i));
        assert(s.take(i).drop_first() =~= t.take(i - 1));
        assert(s.take(i + 1)[0] == s[0]);
        assert(s.take(i)[0] == s[0]);
        assert(addrs_bytes(s.take(i + 1)) =~= addrs_bytes(s.take(i)) + addr_bytes(s[i]));
    }
}

/// A string field reads back as the string it was written from: where the
/// bytes `push_str` appends for `s` stand at `pos`, whatever follows them,
/// `take_str` at `pos` gives `s` back and the position just after them.
pub proof fn lemma_take_str_field(buf: Seq<u8>, pos: int, s: Seq<char>)
    requires
        fits_field(s),
        0 <= pos,
        pos + str_field(s).len() <= buf.len(),
        buf.subrange(pos, pos + str_field(s).len()) == str_field(s),
    ensures
        spec_take_str(buf, pos) == Some((s, pos + str_field(s).len())),
{
    lemma_auto_spec_u16_to_from_le_bytes();
    let e = encode_utf8(s);
    let f = str_field(s);
    assert(buf.subrange(pos, pos + 2) =~= f.subrange(0, 2));
    assert(f.subrange(0, 2) =~= spec_u16_to_le_bytes(e.len() as u16));
    assert(buf.subrange(pos + 2, pos + 2 + e.len()) =~= f.subrange(2, f.len() as int));
    assert(f.subrange(2, f.len() as int) =~= e);
}

/// Address records read back as the records they were written from.
proof fn lemma_take_addrs(buf: Seq<u8>, pos: int, s: Seq<AddrModel>, acc: Seq<AddrModel>)
    requires
        0 <= pos,
        pos + addrs_bytes(s).len() <= buf.len(),
        buf.subrange(pos, pos + addrs_bytes(s).len()) == addrs_bytes(s),
        forall|i: int| 0 <= i < s.len() ==> fits_field(#[trigger] s[i].iface),
        forall|i: int| 0 <= i < s.len() ==> (#[trigger] s[i]).addr.len() == 16,
    ensures
        spec_take_addrs(buf, pos, s.len(), acc) == Some((acc + s, pos + addrs_bytes(s).len())),
    decreases s.len(),
{
    if s.len() == 0 {
        assert(acc + s =~= acc);
    } else {
        let a = s[0];
        let t = s.drop_first();
        let ab = addr_bytes(a);
        let fl: int = str_field(a.iface).len() as int;
        assert(addrs_bytes(s) == ab + addrs_bytes(t));
        assert(buf.subrange(pos, pos + fl) =~= addrs_bytes(s).subrange(0, fl));
        assert(addrs_bytes(s).subrange(0, fl) =~= str_field(a.iface));
        lemma_take_str_field(buf, pos, a.iface);
        let p: int = pos + fl;
        assert(buf.subrange(p, p + 16) =~= addrs_bytes(s).subrange(fl, fl + 16));
        assert(addrs_bytes(s).subrange(fl, fl + 16) =~= a.addr);
        assert(AddrModel { iface: a.iface, addr: buf.subrange(p, p + 16) } == a);
        assert forall|i: int| 0 <= i < t.len() implies fits_field(#[trigger] t[i].iface) by {
            assert(t[i] == s[i + 1]);
        }
        assert forall|i: int| 0 <= i < t.len() implies (#[trigger] t[i]).addr.len() == 16 by {
            assert(t[i] == s[i + 1]);
        }
        assert(buf.subrange(p + 16, p + 16 + addrs_bytes(t).len()) =~= addrs_bytes(s).subrange(
            fl + 16,
            addrs_bytes(s).len() as int,
        ));
        assert(addrs_bytes(s).subrange(fl + 16, addrs_bytes(s).len() as int) =~= addrs_bytes(t));
        lemma_take_addrs(buf, p + 16, t, acc.push(a));
        assert(acc.push(a) + t =~= acc + s);
    }
}

/// The encoding of a snapshot is laid out field by field: the version byte,
/// the hostname and OS fields, uptime and the address count; then each
/// address record is its length-prefixed interface name followed by its
/// octets. Pinned here for the first record, right after the count, and for
/// the last, which ends the encoding.
pub proof fn lemma_snapshot_layout(m: SnapshotModel)
    requires
        encodable(m),
    ensures
        ({
            let e = spec_encode_snapshot(m)->Ok_0;
            let hf = str_field(m.hostname);
            let of = str_field(m.os);
            let hl = hf.len() as int;
            let ol = of.len() as int;
            let p = 1 + hl + ol + 10;
            &&& spec_encode_snapshot(m) is Ok
            &&& e[0] == OBSERVER_VERSION
            &&& e.subrange(1, 1 + hl) == hf
            &&& e.subrange(1 + hl, 1 + hl + ol) == of
            &&& e.subrange(p - 10, p - 2) == spec_u64_to_le_bytes(m.uptime_secs)
            &&& e.subrange(p - 2, p) == spec_u16_to_le_bytes(m.ipv6.len() as u16)
            &&& m.ipv6.len() == 0 ==> e.len() == p
            &&& m.ipv6.len() > 0 ==> {
                let f0 = str_field(m.ipv6[0].iface);
                let a0 = m.ipv6[0].addr;
                let fl0 = f0.len() as int;
                &&& e.subrange(p, p + fl0) == f0
                &&& e.subrange(p + fl0, p + fl0 + a0.len()) == a0
            }
            &&& m.ipv6.len() > 0 ==> {
                let fl = str_field(m.ipv6.last().iface);
                let al = m.ipv6.last().addr;
                let el = e.len() as int;
                &&& el >= p + fl.len() + al.len()
                &&& e.subrange(el - al.len(), el) == al
                &&& e.subrange(el - al.len() - fl.len(), el - al.len()) == fl
            }
        }),
{
    lemma_auto_spec_u16_to_from_le_bytes();
    lemma_auto_spec_u64_to_from_le_bytes();
    let e = spec_encode_snapshot(m)->Ok_0;
    let hf = str_field(m.hostname);
    let of = str_field(m.os);
    let up = spec_u64_to_le_bytes(m.uptime_secs);
    let nb = spec_u16_to_le_bytes(m.ipv6.len() as u16);
    let ab = addrs_bytes(m.ipv6);
    let hl = hf.len() as int;
    let ol = of.len() as int;
    let p: int = 1 + hl + ol + 10;
    assert(e =~= seq![OBSERVER_VERSION] + hf + of + up + nb + ab);
    assert(e.subrange(1, 1 + hl) =~= hf);
    assert(e.subrange(1 + hl, 1 + hl + ol) =~= of);
    assert(e.subrange(p - 10, p - 2) =~= up);
    assert(e.subrange(p - 2, p) =~= nb);
    assert(e.subrange(p, e.len() as int) =~= ab);
    let n = m.ipv6.len();
    if n == 0 {
        assert(ab.len() == 0);
    } else {
        let a0 = m.ipv6[0];
        let f0 = str_field(a0.iface);
        assert(ab == addr_bytes(a0) + addrs_bytes(m.ipv6.drop_first()));
        let fl0 = f0.len() as int;
        assert(e.subrange(p, p + fl0) =~= ab.subrange(0, fl0));
        assert(e.subrange(p + fl0, p + fl0 + a0.addr.len()) =~= ab.subrange(
            fl0,
            fl0 + a0.addr.len(),
        ));
        let al = m.ipv6.last();
        let fl = str_field(al.iface);
        lemma_addrs_bytes_push(m.ipv6, n - 1);
        assert(m.ipv6.take(n as int) =~= m.ipv6);
        let front = addrs_bytes(m.ipv6.take(n - 1));
        assert(ab == front + (fl + al.addr));
        let el = e.len() as int;
        assert(e.subrange(el - al.addr.len(), el) =~= al.addr);
        assert(e.subrange(el - al.addr.len() - fl.len(), el - al.addr.len()) =~= fl);
    }
}

/// A snapshot whose fields fit is decoded to itself, even when more bytes
/// follow its encoding.
pub proof fn lemma_snapshot_round_trip(m: SnapshotModel, trailing: Seq<u8>)
    requires
        encodable(m),
        forall|i: int| 0 <= i < m.ipv6.len() ==> (#[trigger] m.ipv6[i]).addr.len() == 16,
    ensures
        spec_decode_snapshot(spec_encode_snapshot(m)->Ok_0 + trailing) == Ok::<
            SnapshotModel,
            ObserverError,
        >(m),
{
    lemma_auto_spec_u16_to_from_le_bytes();
    lemma_auto_spec_u64_to_from_le_bytes();
    let hf = str_field(m.hostname);
    let of = str_field(m.os);
    let up = spec_u64_to_le_bytes(m.uptime_secs);
    let nb = spec_u16_to_le_bytes(m.ipv6.len() as u16);
    let ab = addrs_bytes(m.ipv6);
    let buf = spec_encode_snapshot(m)->Ok_0 + trailing;
    assert(buf =~= seq![OBSERVER_VERSION] + hf + of + up + nb + ab + trailing);
    let p1: int = 1 + hf.len() as int;
    let p2: int = p1 + of.len() as int;
    assert(buf.subrange(1, p1) =~= hf);
    lemma_take_str_field(buf, 1, m.hostname);
    assert(buf.subrange(p1, p2) =~= of);
    lemma_take_str_field(buf, p1, m.os);
    assert(buf.subrange(p2, p2 + 8) =~= up);
    assert(buf.subrange(p2 + 8, p2 + 10) =~= nb);
    assert(buf.subrange(p2 + 10, p2 + 10 + ab.len()) =~= ab);
    lemma_take_addrs(buf, p2 + 10, m.ipv6, Seq::empty());
    assert(Seq::<AddrModel>::empty() + m.ipv6 =~= m.ipv6);
}

/// `"unknown"`: the hostname when none can be read.
pub open spec fn unknown_host() -> Seq<char> {
    "unknown"@
}

/// The hostname in the text of `/etc/hostname`: its first line, trimmed, or
/// `unknown` when that is empty.
pub open spec fn spec_hostname(text: Seq<u8>) -> Seq<char> {
    let ls = lines(text);
    if ls.len() == 0 || trim(ls[0]).len() == 0 {
        unknown_host()
    } else {
        decode_utf8(trim(ls[0]))
    }
}

/// One line of `/proc/net/if_inet6`: the address (32 hex digits, first word)
/// and the interface name (sixth word), if the line holds both.
pub open spec fn inet6_line(line: Seq<u8>) -> Option<AddrModel> {
    let w = words(line);
    if w.len() < 6 || w[0].len() != 32 {
        None
    } else {
        match unhex_pairs(w[0]) {
            None => None,
            Some(o) => Some(AddrModel { iface: decode_utf8(w[5]), addr: o }),
        }
    }
}

/// The addresses of every line that holds one, in order.
pub open spec fn inet6_addrs(ls: Seq<Seq<u8>>) -> Seq<AddrModel>
    decreases ls.len(),
{
    if ls.len() == 0 {
        Seq::empty()
    } else {
        match inet6_line(ls[0]) {
            Some(a) => seq![a] + inet6_addrs(ls.drop_first()),
            None => inet6_addrs(ls.drop_first()),
        }
    }
}

/// Whether reading the address of a line would slice inside a character.
pub open spec fn inet6_line_cut(line: Seq<u8>) -> bool {
    let w = words(line);
    w.len() >= 6 && w[0].len() == 32 && unhex_pairs_cut(w[0])
}

/// Whether some line's address would be sliced inside a character.
pub open spec fn inet6_panics(ls: Seq<Seq<u8>>) -> bool
    decreases ls.len(),
{
    ls.len() > 0 && (inet6_line_cut(ls[0]) || inet6_panics(ls.drop_first()))
}

/// Valid UTF-8 starts at a character boundary.
proof fn lemma_valid_start(s: Seq<u8>)
    requires
        valid_utf8(s),
    ensures
        at_boundary(s, 0),
{
    if s.len() > 0 {
        is_char_boundary_start_end_of_seq(s);
        is_char_boundary_iff_not_is_continuation_byte(s, 0);
    }
}

/// The `n`-th word of text, if there is one.
fn nth_word(s: &[u8], n: usize) -> (r: Option<(usize, usize)>)
    ensures
        r is None <==> words(s@).len() <= n,
        r matches Some((a, b)) ==> a <= b <= s@.len() && words(s@)[n as int] == s@.subrange(
            a as int,
            b as int,
        ),
{
    let mut pos: usize = 0;
    let mut k: usize = 0;
    assert(words(s@).subrange(0, words(s@).len() as int) =~= words(s@));
    loop
        invariant
            pos <= s@.len(),
            k <= n,
            k <= words(s@).len(),
            words(s@).subrange(k as int, words(s@).len() as int) == words_from(s@, pos as int),
        decreases n - k,
    {
        match next_word(s, pos) {
            None => {
                return None;
            },
            Some((a, b)) => {
                let ghost rest = words(s@).subrange(k as int, words(s@).len() as int);
                assert(rest[0] == words(s@)[k as int]);
                if k == n {
                    return Some((a, b));
                }
                assert(words(s@).subrange(k + 1, words(s@).len() as int) =~= rest.drop_first());
                assert(rest.drop_first() =~= words_from(s@, b as int));
                pos = b;
                k = k + 1;
            },
        }
    }
}

/// The hostname in the text of `/etc/hostname`.
pub fn hostname_from(text: &str) -> (h: String)
    ensures
        h@ == spec_hostname(text.spec_bytes()),
{
    let b = text.as_bytes();
    proof {
        lemma_valid_start(b@);
        lemma_lines_valid(b@, 0);
    }
    match next_line(b, 0) {
        None => "unknown".to_owned(),
        Some((a, e, _)) => {
            let line = &b[a..e];
            assert(line@ == lines(b@)[0]);
            let start = skip_space(line, 0);
            let end = rskip_space(line, line.len());
            if end <= start {
                return "unknown".to_owned();
            }
            let t = &line[start..end];
            proof {
                lemma_trim_valid(line@);
            }
            assert(t@ == trim(line@));
            match utf8_str(t) {
                Some(st) => st.to_owned(),
                None => "unknown".to_owned(),
            }
        },
    }
}

/// Whether `parse_if_inet6` would slice inside a character.
pub fn inet6_would_panic(text: &str) -> (r: bool)
    ensures
        r == inet6_panics(lines(text.spec_bytes())),
{
    let b = text.as_bytes();
    let mut pos: usize = 0;
    loop
        invariant
            pos <= b@.len(),
            b@ == text.spec_bytes(),
            inet6_panics(lines(b@)) == inet6_panics(lines_from(b@, pos as int)),
        decreases b@.len() - pos,
    {
        match next_line(b, pos) {
            None => {
                return false;
            },
            Some((a, e, next)) => {
                let line = &b[a..e];
                let ghost ls = lines_from(b@, pos as int);
                assert(ls[0] == line@);
                assert(ls.drop_first() =~= lines_from(b@, next as int));
                if let Some((ha, hb)) = nth_word(line, 0) {
                    if nth_word(line, 5).is_some() && hb - ha == 32 {
                        if crate::nitrokey::unhex_would_cut(&line[ha..hb]) {
                            return true;
                        }
                    }
                }
                pos = next;
            },
        }
    }
}

/// The IPv6 addresses listed in the text of `/proc/net/if_inet6`; lines
/// that do not hold one are skipped.
pub fn parse_if_inet6(text: &str) -> (out: Vec<Addr>)
    requires
        !inet6_panics(lines(text.spec_bytes())),
    ensures
        out@.map_values(|a: Addr| a@) == inet6_addrs(lines(text.spec_bytes())),
{
    let b = text.as_bytes();
    proof {
        lemma_valid_start(b@);
        lemma_lines_valid(b@, 0);
    }
    let mut out: Vec<Addr> = Vec::new();
    let mut pos: usize = 0;
    assert(out@.map_values(|a: Addr| a@) + inet6_addrs(lines(b@)) =~= inet6_addrs(lines(b@)));
    loop
        invariant
            pos <= b@.len(),
            b@ == text.spec_bytes(),
            forall|k: int|
                0 <= k < lines_from(b@, pos as int).len() ==> valid_utf8(
                    #[trigger] lines_from(b@, pos as int)[k],
                ),
            !inet6_panics(lines_from(b@, pos as int)),
            inet6_addrs(lines(b@)) == out@.map_values(|a: Addr| a@) + inet6_addrs(
                lines_from(b@, pos as int),
            ),
        decreases b@.len() - pos,
    {
        match next_line(b, pos) {
            None => {
                assert(out@.map_values(|a: Addr| a@) + inet6_addrs(lines_from(b@, pos as int))
                    =~= out@.map_values(|a: Addr| a@));
                return out;
            },
            Some((a, e, next)) => {
                let line = &b[a..e];
                let ghost ls = lines_from(b@, pos as int);
                assert(ls[0] == line@);
                assert(ls.drop_first() =~= lines_from(b@, next as int));
                assert forall|k: int| 0 <= k < lines_from(b@, next as int).len() implies valid_utf8(
                    #[trigger] lines_from(b@, next as int)[k],
                ) by {
                    assert(lines_from(b@, next as int)[k] == ls[k + 1]);
                }
                let ghost before = out@.map_values(|x: Addr| x@);
                let found = inet6_record(line);
                match found {
                    Some(rec) => {
                        out.push(rec);
                        assert(out@.map_values(|x: Addr| x@) =~= before.push(rec@));
                        assert(before.push(rec@) + inet6_addrs(lines_from(b@, next as int)) =~= before
                            + (seq![rec@] + inet6_addrs(lines_from(b@, next as int))));
                    },
                    None => {},
                }
                pos = next;
            },
        }
    }
}

/// The address record on one line of `/proc/net/if_inet6`, if it holds one.
fn inet6_record(line: &[u8]) -> (r: Option<Addr>)
    requires
        valid_utf8(line@),
        !inet6_line_cut(line@),
    ensures
        match inet6_line(line@) {
            None => r is None,
            Some(m) => r matches Some(rec) && rec@ == m,
        },
{
    let (ha, hb) = match nth_word(line, 0) {
        None => {
            return None;
        },
        Some(w) => w,
    };
    let (ia, ib) = match nth_word(line, 5) {
        None => {
            return None;
        },
        Some(w) => w,
    };
    if hb - ha != 32 {
        return None;
    }
    let hex = &line[ha..hb];
    if crate::nitrokey::unhex_would_cut(hex) {
        return None;
    }
    let octets = match crate::nitrokey::unhex_bytes(hex) {
        Err(_) => {
            return None;
        },
        Ok(v) => v,
    };
    proof {
        lemma_valid_start(line@);
        lemma_words_valid(line@, 0);
        assert(valid_utf8(words(line@)[5]));
    }
    let name = &line[ia..ib];
    let iface = match utf8_str(name) {
        None => {
            return None;
        },
        Some(st) => st.to_owned(),
    };
    assert(octets@.len() == 16) by {
        crate::nitrokey::lemma_unhex_pairs_len(hex@);
    }
    let addr = array16(octets.as_slice());
    Some(Addr { iface, addr })
}

impl Snapshot {
    pub fn encode(&self) -> (res: Result<Vec<u8>, ObserverError>)
        ensures
            match res {
                Ok(out) => spec_encode_snapshot(self@) == Ok::<Seq<u8>, ObserverError>(out@),
                Err(e) => spec_encode_snapshot(self@) == Err::<Seq<u8>, ObserverError>(e),
            },
    {
        let ghost m = self@;
        let mut out: Vec<u8> = Vec::new();
        out.push(OBSERVER_VERSION);
        push_str(&mut out, self.hostname.as_str())?;
        push_str(&mut out, self.os.as_str())?;
        let up_le = u64_to_le_bytes(self.uptime_secs);
        out.extend_from_slice(up_le.as_slice());
        let count = self.ipv6.len();
        if count > 0xffffusize {
            return Err(ObserverError::BadPayload);
        }
        let n_le = u16_to_le_bytes(count as u16);
        out.extend_from_slice(n_le.as_slice());
        let ghost head = out@;
        assert(head =~= seq![OBSERVER_VERSION] + str_field(m.hostname) + str_field(m.os)
            + spec_u64_to_le_bytes(m.uptime_secs) + spec_u16_to_le_bytes(m.ipv6.len() as u16));
        let mut i: usize = 0;
        assert(m.ipv6.take(0) =~= Seq::<AddrModel>::empty());
        while i < count
            invariant
                0 <= i <= count,
                count == self.ipv6@.len(),
                m == self@,
                out@ == head + addrs_bytes(m.ipv6.take(i as int)),
                forall|j: int| 0 <= j < i ==> fits_field(#[trigger] m.ipv6[j].iface),
            decreases count - i,
        {
            let a = &self.ipv6[i];
            assert(m.ipv6[i as int] == a@);
            let r = push_str(&mut out, a.iface.as_str());
            if r.is_err() {
                assert(!fits_field(m.ipv6[i as int].iface));
                assert(!encodable(m));
                return Err(ObserverError::BadPayload);
            }
            out.extend_from_slice(a.addr.as_slice());
            proof {
                lemma_addrs_bytes_push(m.ipv6, i as int);
                assert(out@ =~= head + addrs_bytes(m.ipv6.take(i + 1)));
            }
            i = i + 1;
        }
        assert(m.ipv6.take(count as int) =~= m.ipv6);
        Ok(out)
    }

    pub fn decode(buf: &[u8]) -> (res: Result<Snapshot, ObserverError>)
        ensures
            match res {
                Ok(s) => spec_decode_snapshot(buf@) == Ok::<SnapshotModel, ObserverError>(s@),
                Err(e) => spec_decode_snapshot(buf@) == Err::<SnapshotModel, ObserverError>(e),
            },
    {
        if buf.len() == 0 {
            return Err(ObserverError::BadPayload);
        }
        let version = buf[0];
        if version != OBSERVER_VERSION {
            return Err(ObserverError::BadVersion(version));
        }
        let (hostname, p1) = take_str(buf, 1)?;
        let (os, p2) = take_str(buf, p1)?;
        if buf.len() - p2 < 10 {
            return Err(ObserverError::BadPayload);
        }
        let uptime_secs = u64_from_le_bytes(&buf[p2..p2 + 8]);
        let n = u16_from_le_bytes(&buf[p2 + 8..p2 + 10]) as usize;
        let mut pos: usize = p2 + 10;
        let mut ipv6: Vec<Addr> = Vec::new();
        let mut i: usize = 0;
        let ghost outcome = match spec_take_addrs(buf@, (p2 + 10) as int, n as nat, Seq::empty()) {
            None => Err(ObserverError::BadPayload),
            Some((v, _)) => Ok(SnapshotModel { hostname: hostname@, os: os@, uptime_secs, ipv6: v }),
        };
        assert(spec_decode_snapshot(buf@) == outcome);
        assert(ipv6@.map_values(|a: Addr| a@) =~= Seq::<AddrModel>::empty());
        while i < n
            invariant
                0 <= i <= n,
                n <= u16::MAX,
                spec_decode_snapshot(buf@) == outcome,
                outcome == match spec_take_addrs(
                    buf@,
                    (p2 + 10) as int,
                    n as nat,
                    Seq::empty(),
                ) {
                    None => Err(ObserverError::BadPayload),
                    Some((v, _)) => Ok(
                        SnapshotModel { hostname: hostname@, os: os@, uptime_secs, ipv6: v },
                    ),
                },
                pos <= buf@.len(),
                spec_take_addrs(buf@, (p2 + 10) as int, n as nat, Seq::empty()) == spec_take_addrs(
                    buf@,
                    pos as int,
                    (n - i) as nat,
                    ipv6@.map_values(|a: Addr| a@),
                ),
            decreases n - i,
        {
            let (iface, p) = take_str(buf, pos)?;
            if buf.len() - p < 16 {
                return Err(ObserverError::BadPayload);
            }
            let addr = array16(&buf[p..p + 16]);
            let ghost before = ipv6@.map_values(|a: Addr| a@);
            let rec = Addr { iface, addr };
            ipv6.push(rec);
            assert(ipv6@.map_values(|a: Addr| a@) =~= before.push(rec@));
            pos = p + 16;
            i = i + 1;
        }
        let s = Snapshot { hostname, os, uptime_secs, ipv6 };
        Ok(s)
    }
}

} // verus!
