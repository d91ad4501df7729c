//! Reading GnuPG's answers for the hardware human identity (a Nitrokey
//! OpenPGP card): the Ed25519 public key in `gpg --list-packets --verbose`
//! output, and the signer fingerprint in `gpg --status-fd` output.
//!
//! Running `gpg` is not done here; its output is handed to these functions.

use vstd::prelude::*;
use vstd::utf8::is_continuation_byte;
use vstd::string::StringSliceAdditionalSpecFns;
use crate::crypto::{ed25519_key_decodes, ed25519_public_key, ed25519_signature};
use crate::identity::{Announce, IdentityError, Proof, KIND_HUMAN};
use crate::text::{
    contains, has_infix, has_prefix, lines, lines_from, next_line, next_word, skip_space,
    starts_with, trim_start, words,
};

verus! {

/// The GnuPG user id of the human key on the token.
pub const GPG_USER: &'static str = "major@local";

/// `:public key packet:`
pub open spec fn public_key_mark() -> Seq<u8> {
    seq![0x3au8, 0x70, 0x75, 0x62, 0x6c, 0x69, 0x63, 0x20, 0x6b, 0x65, 0x79, 0x20, 0x70, 0x61,
        0x63, 0x6b, 0x65, 0x74, 0x3a]
}

/// `pkey[1]:`
pub open spec fn pkey1_mark() -> Seq<u8> {
    seq![0x70u8, 0x6b, 0x65, 0x79, 0x5b, 0x31, 0x5d, 0x3a]
}

/// `VALIDSIG`
pub open spec fn validsig_mark() -> Seq<u8> {
    seq![0x56u8, 0x41, 0x4c, 0x49, 0x44, 0x53, 0x49, 0x47]
}

/// `[GNUPG:] VALIDSIG `
pub open spec fn validsig_prefix() -> Seq<u8> {
    seq![0x5bu8, 0x47, 0x4e, 0x55, 0x50, 0x47, 0x3a, 0x5d, 0x20, 0x56, 0x41, 0x4c, 0x49, 0x44,
        0x53, 0x49, 0x47, 0x20]
}

const PUBLIC_KEY_MARK: [u8; 19] = [
    0x3a, 0x70, 0x75, 0x62, 0x6c, 0x69, 0x63, 0x20, 0x6b, 0x65, 0x79, 0x20, 0x70, 0x61, 0x63, 0x6b,
    0x65, 0x74, 0x3a,
];

const PKEY1_MARK: [u8; 8] = [0x70, 0x6b, 0x65, 0x79, 0x5b, 0x31, 0x5d, 0x3a];

const VALIDSIG_MARK: [u8; 8] = [0x56, 0x41, 0x4c, 0x49, 0x44, 0x53, 0x49, 0x47];

const VALIDSIG_PREFIX: [u8; 18] = [
    0x5b, 0x47, 0x4e, 0x55, 0x50, 0x47, 0x3a, 0x5d, 0x20, 0x56, 0x41, 0x4c, 0x49, 0x44, 0x53, 0x49,
    0x47, 0x20,
];

/// The value of an ASCII hexadecimal digit.
pub open spec fn hex_digit(c: u8) -> Option<u8> {
    if 0x30 <= c <= 0x39 {
        Some((c - 0x30) as u8)
    } else if 0x61 <= c <= 0x66 {
        Some((c - 0x61 + 10) as u8)
    } else if 0x41 <= c <= 0x46 {
        Some((c - 0x41 + 10) as u8)
    } else {
        None
    }
}

/// How `u8::from_str_radix(_, 16)` reads two bytes: two hex digits, or a `+`
/// sign and one hex digit.
pub open spec fn hex_pair(a: u8, b: u8) -> Option<u8> {
    if a == 0x2b {
        hex_digit(b)
    } else {
        match (hex_digit(a), hex_digit(b)) {
            (Some(x), Some(y)) => Some((x * 16 + y) as u8),
            _ => None,
        }
    }
}

/// The bytes of consecutive pairs, or `None` at the first pair that is not hex.
pub open spec fn unhex_pairs(s: Seq<u8>) -> Option<Seq<u8>>
    decreases s.len(),
{
    if s.len() < 2 {
        Some(Seq::empty())
    } else {
        match hex_pair(s[0], s[1]) {
            None => None,
            Some(v) => match unhex_pairs(s.subrange(2, s.len() as int)) {
                None => None,
                Some(r) => Some(seq![v] + r),
            },
        }
    }
}

/// The hexadecimal digits in lower case, by value: `0123456789abcdef`.
pub open spec fn lower_hex_digits() -> Seq<u8> {
    seq![0x30u8, 0x31, 0x32, 0x33, 0x34, 0x35, 0x36, 0x37, 0x38, 0x39, 0x61, 0x62, 0x63, 0x64,
        0x65, 0x66]
}

/// The hexadecimal digits in upper case, by value: `0123456789ABCDEF`.
pub open spec fn upper_hex_digits() -> Seq<u8> {
    seq![0x30u8, 0x31, 0x32, 0x33, 0x34, 0x35, 0x36, 0x37, 0x38, 0x39, 0x41, 0x42, 0x43, 0x44,
        0x45, 0x46]
}

/// An ASCII letter in lower case; every other byte as it is.
pub open spec fn ascii_lower(c: u8) -> u8 {
    if 0x41 <= c <= 0x5a {
        (c + 0x20) as u8
    } else {
        c
    }
}

/// Each digit, in either case, stands for its value, and a byte is a digit
/// only if it is one of them; so case never changes how a byte reads.
pub proof fn lemma_hex_digit_values(c: u8)
    ensures
        forall|v: int|
            0 <= v < 16 ==> hex_digit(#[trigger] lower_hex_digits()[v]) == Some(v as u8)
                && hex_digit(upper_hex_digits()[v]) == Some(v as u8),
        hex_digit(c) matches Some(v) ==> v < 16 && (lower_hex_digits()[v as int] == c
            || upper_hex_digits()[v as int] == c),
        hex_digit(ascii_lower(c)) == hex_digit(c),
{
    assert forall|v: int| 0 <= v < 16 implies hex_digit(#[trigger] lower_hex_digits()[v]) == Some(
        v as u8,
    ) && hex_digit(upper_hex_digits()[v]) == Some(v as u8) by {
        if v < 10 {
            assert(lower_hex_digits()[v] == 0x30 + v);
            assert(upper_hex_digits()[v] == 0x30 + v);
        } else {
            assert(lower_hex_digits()[v] == 0x61 + v - 10);
            assert(upper_hex_digits()[v] == 0x41 + v - 10);
        }
    }
    if hex_digit(c) is Some {
        let v = hex_digit(c)->Some_0;
        if v < 10 {
            assert(lower_hex_digits()[v as int] == 0x30 + v);
        } else if 0x61 <= c {
            assert(lower_hex_digits()[v as int] == 0x61 + v - 10);
        } else {
            assert(upper_hex_digits()[v as int] == 0x41 + v - 10);
        }
    }
}

/// Hex text reads the same in upper and in lower case: `unhex` of a string
/// and of its lower-case form give the same bytes (or both fail).
pub proof fn lemma_unhex_ignores_case(s: Seq<u8>)
    ensures
        unhex_pairs(s.map_values(|c: u8| ascii_lower(c))) == unhex_pairs(s),
        spec_unhex(s.map_values(|c: u8| ascii_lower(c))) == spec_unhex(s),
    decreases s.len(),
{
    let l = s.map_values(|c: u8| ascii_lower(c));
    if s.len() >= 2 {
        lemma_hex_digit_values(s[0]);
        lemma_hex_digit_values(s[1]);
        assert(l[0] == ascii_lower(s[0]));
        assert(l[1] == ascii_lower(s[1]));
        assert(hex_pair(l[0], l[1]) == hex_pair(s[0], s[1]));
        let rest = s.subrange(2, s.len() as int);
        lemma_unhex_ignores_case(rest);
        assert(l.subrange(2, l.len() as int) =~= rest.map_values(|c: u8| ascii_lower(c)));
    }
}

/// Decoded pairs are half as many bytes as the input.
pub proof fn lemma_unhex_pairs_len(s: Seq<u8>)
    requires
        s.len() % 2 == 0,
        unhex_pairs(s) is Some,
    ensures
        unhex_pairs(s)->Some_0.len() * 2 == s.len(),
    decreases s.len(),
{
    if s.len() >= 2 {
        lemma_unhex_pairs_len(s.subrange(2, s.len() as int));
    }
}

/// What `unhex` returns: `None` for an odd length or a pair that is not hex.
pub open spec fn spec_unhex(s: Seq<u8>) -> Option<Seq<u8>> {
    if s.len() % 2 != 0 {
        None
    } else {
        unhex_pairs(s)
    }
}

/// Whether slicing the next two-byte window would cut a character, before a
/// pair that is not hex ends the scan.
pub open spec fn unhex_pairs_cut(s: Seq<u8>) -> bool
    decreases s.len(),
{
    if s.len() < 2 {
        false
    } else if is_continuation_byte(s[0]) || (s.len() > 2 && is_continuation_byte(s[2])) {
        true
    } else if hex_pair(s[0], s[1]) is None {
        false
    } else {
        unhex_pairs_cut(s.subrange(2, s.len() as int))
    }
}

/// The inputs on which `unhex` would slice inside a multi-byte character.
pub open spec fn unhex_panics(s: Seq<u8>) -> bool {
    s.len() % 2 == 0 && unhex_pairs_cut(s)
}

/// The Ed25519 key on a `pkey[1]:` line: its second word, hex, 33 bytes
/// starting with `0x40`; `None` when the line does not hold one.
pub open spec fn pkey_line_key(line: Seq<u8>) -> Option<Seq<u8>> {
    let w = words(line);
    if w.len() < 2 {
        None
    } else {
        match spec_unhex(w[1]) {
            None => None,
            Some(bytes) => if bytes.len() == 33 && bytes[0] == 0x40 {
                Some(bytes.subrange(1, 33))
            } else {
                None
            },
        }
    }
}

/// What the scan for the primary key's `pkey[1]` finds.
pub enum KeyScan {
    Key(Seq<u8>),
    BadKey,
    NoKey,
}

/// Scan `gpg --list-packets` lines: after a `:public key packet:` line, the
/// first `pkey[1]:` line decides; a packet header (a line starting with `:`)
/// first means there is no key.
pub open spec fn scan_packets(ls: Seq<Seq<u8>>, in_primary: bool) -> KeyScan
    decreases ls.len(),
{
    if ls.len() == 0 {
        KeyScan::NoKey
    } else {
        let line = ls[0];
        if contains(line, public_key_mark()) {
            scan_packets(ls.drop_first(), true)
        } else if in_primary && starts_with(trim_start(line), pkey1_mark()) {
            match pkey_line_key(line) {
                Some(k) => KeyScan::Key(k),
                None => KeyScan::BadKey,
            }
        } else if in_primary && starts_with(line, seq![0x3au8]) {
            KeyScan::NoKey
        } else {
            scan_packets(ls.drop_first(), in_primary)
        }
    }
}

/// Whether the scan reaches a `pkey[1]:` line on which `unhex` would slice
/// inside a character.
pub open spec fn scan_panics(ls: Seq<Seq<u8>>, in_primary: bool) -> bool
    decreases ls.len(),
{
    if ls.len() == 0 {
        false
    } else {
        let line = ls[0];
        if contains(line, public_key_mark()) {
            scan_panics(ls.drop_first(), true)
        } else if in_primary && starts_with(trim_start(line), pkey1_mark()) {
            words(line).len() >= 2 && unhex_panics(words(line)[1])
        } else if in_primary && starts_with(line, seq![0x3au8]) {
            false
        } else {
            scan_panics(ls.drop_first(), in_primary)
        }
    }
}

/// The value of an ASCII hexadecimal digit.
fn hex_digit_of(c: u8) -> (r: Option<u8>)
    ensures
        r == hex_digit(c),
{
    if 0x30 <= c && c <= 0x39 {
        Some(c - 0x30)
    } else if 0x61 <= c && c <= 0x66 {
        Some(c - 0x61 + 10)
    } else if 0x41 <= c && c <= 0x46 {
        Some(c - 0x41 + 10)
    } else {
        None
    }
}

fn hex_pair_of(a: u8, b: u8) -> (r: Option<u8>)
    ensures
        r == hex_pair(a, b),
{
    if a == 0x2b {
        return hex_digit_of(b);
    }
    match (hex_digit_of(a), hex_digit_of(b)) {
        (Some(x), Some(y)) => Some(x * 16 + y),
        _ => None,
    }
}

/// Decode hex bytes two by two.
pub(crate) fn unhex_bytes(s: &[u8]) -> (res: Result<Vec<u8>, ()>)
    requires
        !unhex_panics(s@),
    ensures
        match spec_unhex(s@) {
            None => res is Err,
            Some(v) => res matches Ok(out) && out@ == v,
        },
{
    if s.len() % 2 != 0 {
        return Err(());
    }
    let mut out: Vec<u8> = Vec::new();
    let mut i: usize = 0;
    assert(s@.subrange(0, s@.len() as int) =~= s@);
    proof {
        match unhex_pairs(s@) {
            None => {},
            Some(r) => {
                assert(out@ + r =~= r);
            },
        }
    }
    while i < s.len()
        invariant
            s@.len() % 2 == 0,
            0 <= i <= s@.len(),
            i % 2 == 0,
            unhex_pairs(s@) == match unhex_pairs(s@.subrange(i as int, s@.len() as int)) {
                None => None,
                Some(r) => Some(out@ + r),
            },
        decreases s@.len() - i,
    {
        let rest = Ghost(s@.subrange(i as int, s@.len() as int));
        let ghost before = out@;
        match hex_pair_of(s[i], s[i + 1]) {
            None => {
                return Err(());
            },
            Some(v) => {
                assert(rest@.subrange(2, rest@.len() as int) =~= s@.subrange(
                    i + 2,
                    s@.len() as int,
                ));
                out.push(v);
                proof {
                    match unhex_pairs(s@.subrange(i + 2, s@.len() as int)) {
                        None => {},
                        Some(r) => {
                            assert(out@ + r =~= before + (seq![v] + r));
                        },
                    }
                }
                i = i + 2;
            },
        }
    }
    assert(s@.subrange(s@.len() as int, s@.len() as int) =~= Seq::<u8>::empty());
    assert(out@ + Seq::<u8>::empty() =~= out@);
    Ok(out)
}

/// Decode a hexadecimal string two characters at a time.
pub fn unhex(s: &str) -> (res: Result<Vec<u8>, ()>)
    requires
        !unhex_panics(s.spec_bytes()),
    ensures
        match spec_unhex(s.spec_bytes()) {
            None => res is Err,
            Some(v) => res matches Ok(out) && out@ == v,
        },
{
    unhex_bytes(s.as_bytes())
}

/// The message of the refusal when no Ed25519 key packet is found.
pub open spec fn no_key_message() -> Seq<char> {
    "no Ed25519 public key packet"@
}

/// The key on a `pkey[1]:` line.
fn pkey_line(line: &[u8]) -> (res: Result<[u8; 32], IdentityError>)
    requires
        !(words(line@).len() >= 2 && unhex_panics(words(line@)[1])),
    ensures
        match pkey_line_key(line@) {
            Some(k) => res matches Ok(a) && a@ == k,
            None => res == Err::<[u8; 32], IdentityError>(IdentityError::BadPublicKey),
        },
{
    let first = next_word(line, 0);
    let b1 = match first {
        None => {
            return Err(IdentityError::BadPublicKey);
        },
        Some((_, b1)) => b1,
    };
    let second = next_word(line, b1);
    let (a2, b2) = match second {
        None => {
            return Err(IdentityError::BadPublicKey);
        },
        Some(r) => r,
    };
    assert(words(line@)[1] == line@.subrange(a2 as int, b2 as int));
    let hex = &line[a2..b2];
    let bytes = match unhex_bytes(hex) {
        Err(_) => {
            return Err(IdentityError::BadPublicKey);
        },
        Ok(v) => v,
    };
    if bytes.len() == 33 && bytes[0] == 0x40 {
        let tail = &bytes.as_slice()[1..33];
        assert(tail@ =~= bytes@.subrange(1, 33));
        Ok(crate::identity::array32(tail))
    } else {
        Err(IdentityError::BadPublicKey)
    }
}

/// What one line of `gpg --list-packets` does to the scan.
enum LineStep {
    EnterPrimary,
    PkeyLine,
    PacketHeader,
    Other,
}

fn classify_line(line: &[u8], in_primary: bool) -> (r: LineStep)
    ensures
        r is EnterPrimary <==> contains(line@, public_key_mark()),
        r is PkeyLine <==> !contains(line@, public_key_mark()) && in_primary && starts_with(
            trim_start(line@),
            pkey1_mark(),
        ),
        r is PacketHeader <==> !contains(line@, public_key_mark()) && in_primary && !starts_with(
            trim_start(line@),
            pkey1_mark(),
        ) && starts_with(line@, seq![0x3au8]),
{
    assert(PUBLIC_KEY_MARK@ =~= public_key_mark());
    assert(PKEY1_MARK@ =~= pkey1_mark());
    if has_infix(line, PUBLIC_KEY_MARK.as_slice()) {
        return LineStep::EnterPrimary;
    }
    if in_primary {
        let t = skip_space(line, 0);
        let trimmed = &line[t..line.len()];
        assert(trimmed@ =~= trim_start(line@));
        if has_prefix(trimmed, PKEY1_MARK.as_slice()) {
            return LineStep::PkeyLine;
        }
        let colon: [u8; 1] = [0x3a];
        assert(colon@ =~= seq![0x3au8]);
        if has_prefix(line, colon.as_slice()) {
            return LineStep::PacketHeader;
        }
    }
    LineStep::Other
}

/// Whether `first_ed25519_pk` would reach a `pkey[1]:` line whose hex word
/// it cannot slice.
pub fn scan_would_panic(list_packets: &str) -> (r: bool)
    ensures
        r == scan_panics(lines(list_packets.spec_bytes()), false),
{
    let b = list_packets.as_bytes();
    let mut pos: usize = 0;
    let mut in_primary = false;
    loop
        invariant
            pos <= b@.len(),
            b@ == list_packets.spec_bytes(),
            scan_panics(lines(b@), false) == scan_panics(lines_from(b@, pos as int), in_primary),
        decreases b@.len() - pos,
    {
        match next_line(b, pos) {
            None => {
                return false;
            },
            Some((a, e, next)) => {
                let line = &b[a..e];
                let ghost ls = lines_from(b@, pos as int);
                assert(ls[0] == line@);
                assert(ls.drop_first() =~= lines_from(b@, next as int));
                match classify_line(line, in_primary) {
                    LineStep::EnterPrimary => {
                        in_primary = true;
                    },
                    LineStep::PkeyLine => {
                        let first = next_word(line, 0);
                        match first {
                            None => {
                                return false;
                            },
                            Some((_, b1)) => {
                                match next_word(line, b1) {
                                    None => {
                                        return false;
                                    },
                                    Some((a2, b2)) => {
                                        assert(words(line@)[1] == line@.subrange(
                                            a2 as int,
                                            b2 as int,
                                        ));
                                        return unhex_would_cut(&line[a2..b2]);
                                    },
                                }
                            },
                        }
                    },
                    LineStep::PacketHeader => {
                        return false;
                    },
                    LineStep::Other => {},
                }
                pos = next;
            },
        }
    }
}

/// Whether `unhex` would slice inside a multi-byte character.
pub fn unhex_would_cut(s: &[u8]) -> (r: bool)
    ensures
        r == unhex_panics(s@),
{
    if s.len() % 2 != 0 {
        return false;
    }
    let mut i: usize = 0;
    assert(s@.subrange(0, s@.len() as int) =~= s@);
    while s.len() - i >= 2
        invariant
            s@.len() % 2 == 0,
            i <= s@.len(),
            i % 2 == 0,
            unhex_pairs_cut(s@) == unhex_pairs_cut(s@.subrange(i as int, s@.len() as int)),
        decreases s@.len() - i,
    {
        let ghost rest = s@.subrange(i as int, s@.len() as int);
        if (0x80 <= s[i] && s[i] <= 0xbf) || (s.len() - i > 2 && 0x80 <= s[i + 2] && s[i + 2]
            <= 0xbf) {
            return true;
        }
        if hex_pair_of(s[i], s[i + 1]).is_none() {
            return false;
        }
        assert(rest.subrange(2, rest.len() as int) =~= s@.subrange(i + 2, s@.len() as int));
        i = i + 2;
    }
    false
}

/// The Ed25519 public key of the primary key in `gpg --list-packets --verbose`
/// output: the `pkey[1]` of the first public key packet, which must be the
/// 33-byte `0x40`-prefixed native encoding.
pub fn first_ed25519_pk(list_packets: &str) -> (res: Result<[u8; 32], IdentityError>)
    requires
        !scan_panics(lines(list_packets.spec_bytes()), false),
    ensures
        match scan_packets(lines(list_packets.spec_bytes()), false) {
            KeyScan::Key(k) => res matches Ok(a) && a@ == k,
            KeyScan::BadKey => res == Err::<[u8; 32], IdentityError>(IdentityError::BadPublicKey),
            KeyScan::NoKey => res matches Err(IdentityError::HardwareUnavailable(m)) && m@
                == no_key_message(),
        },
{
    let b = list_packets.as_bytes();
    let mut pos: usize = 0;
    let mut in_primary = false;
    loop
        invariant
            pos <= b@.len(),
            b@ == list_packets.spec_bytes(),
            scan_packets(lines(b@), false) == scan_packets(lines_from(b@, pos as int), in_primary),
            !scan_panics(lines_from(b@, pos as int), in_primary),
        ensures
            scan_packets(lines(b@), false) == KeyScan::NoKey,
        decreases b@.len() - pos,
    {
        match next_line(b, pos) {
            None => {
                break ;
            },
            Some((a, e, next)) => {
                let line = &b[a..e];
                let ghost ls = lines_from(b@, pos as int);
                assert(ls[0] == line@);
                assert(ls.drop_first() =~= lines_from(b@, next as int));
                match classify_line(line, in_primary) {
                    LineStep::EnterPrimary => {
                        in_primary = true;
                    },
                    LineStep::PkeyLine => {
                        return pkey_line(line);
                    },
                    LineStep::PacketHeader => {
                        break ;
                    },
                    LineStep::Other => {},
                }
                pos = next;
            },
        }
    }
    Err(IdentityError::HardwareUnavailable("no Ed25519 public key packet".to_owned()))
}

/// The OpenPGP signer's key (from `gpg --list-packets` of the signer's exported
/// key) must be the pinned principal key.
pub fn check_signer_key(list_packets: &str, expected_pk: &[u8; 32]) -> (res: Result<
    (),
    IdentityError,
>)
    requires
        !scan_panics(lines(list_packets.spec_bytes()), false),
    ensures
        match scan_packets(lines(list_packets.spec_bytes()), false) {
            KeyScan::Key(k) => if k == expected_pk@ {
                res is Ok
            } else {
                res == Err::<(), IdentityError>(IdentityError::Untrusted)
            },
            KeyScan::BadKey => res == Err::<(), IdentityError>(IdentityError::BadPublicKey),
            KeyScan::NoKey => res matches Err(IdentityError::HardwareUnavailable(m)) && m@
                == no_key_message(),
        },
{
    let pk = first_ed25519_pk(list_packets)?;
    if !crate::identity::same_bytes32(&pk, expected_pk) {
        assert(pk@ != expected_pk@) by {
            if pk@ == expected_pk@ {
                assert(pk =~= *expected_pk);
            }
        }
        return Err(IdentityError::Untrusted);
    }
    Ok(())
}

/// The signer fingerprint on the first `[GNUPG:] VALIDSIG ` status line that
/// carries one.
pub open spec fn first_validsig(ls: Seq<Seq<u8>>) -> Option<Seq<u8>>
    decreases ls.len(),
{
    if ls.len() == 0 {
        None
    } else {
        let l = ls[0];
        let rest = l.subrange(validsig_prefix().len() as int, l.len() as int);
        if starts_with(l, validsig_prefix()) && words(rest).len() > 0 {
            Some(words(rest)[0])
        } else {
            first_validsig(ls.drop_first())
        }
    }
}

/// What `validsig_fingerprint` finds: nothing unless the status mentions
/// `VALIDSIG`, then the fingerprint of the first `VALIDSIG` line.
pub open spec fn spec_validsig(status: Seq<u8>) -> Option<Seq<u8>> {
    if !contains(status, validsig_mark()) {
        None
    } else {
        first_validsig(lines(status))
    }
}

/// The fingerprint of the key that made a good signature, from
/// `gpg --status-fd` output; no good signature is `BadSignature`.
pub fn validsig_fingerprint(status: &str) -> (res: Result<Vec<u8>, IdentityError>)
    ensures
        match spec_validsig(status.spec_bytes()) {
            None => res == Err::<Vec<u8>, IdentityError>(IdentityError::BadSignature),
            Some(f) => res matches Ok(v) && v@ == f,
        },
{
    let b = status.as_bytes();
    assert(VALIDSIG_MARK@ =~= validsig_mark());
    assert(VALIDSIG_PREFIX@ =~= validsig_prefix());
    if !has_infix(b, VALIDSIG_MARK.as_slice()) {
        return Err(IdentityError::BadSignature);
    }
    let mut pos: usize = 0;
    loop
        invariant
            pos <= b@.len(),
            b@ == status.spec_bytes(),
            contains(b@, validsig_mark()),
            spec_validsig(b@) == first_validsig(lines_from(b@, pos as int)),
        decreases b@.len() - pos,
    {
        match next_line(b, pos) {
            None => {
                return Err(IdentityError::BadSignature);
            },
            Some((a, e, next)) => {
                let line = &b[a..e];
                let ghost ls = lines_from(b@, pos as int);
                assert(ls[0] == line@);
                assert(ls.drop_first() =~= lines_from(b@, next as int));
                if has_prefix(line, VALIDSIG_PREFIX.as_slice()) {
                    let rest = &line[18..line.len()];
                    assert(rest@ =~= line@.subrange(
                        validsig_prefix().len() as int,
                        line@.len() as int,
                    ));
                    match next_word(rest, 0) {
                        Some((wa, wb)) => {
                            let w = &rest[wa..wb];
                            return Ok(vstd::slice::slice_to_vec(w));
                        },
                        None => {},
                    }
                }
                pos = next;
            },
        }
    }
}

/// The software half of a hardware human identity: the device secret, kept
/// on disk, and the human public key read from the token. The human private
/// key never leaves the token; its signatures come from `gpg`.
pub struct HardwareHuman {
    device: [u8; 32],
    human_pk: [u8; 32],
}

/// A stored device seed: exactly 32 bytes, else refused as a bad key.
pub fn device_secret_from_bytes(raw: &[u8]) -> (res: Result<[u8; 32], IdentityError>)
    ensures
        raw@.len() != 32 ==> res == Err::<[u8; 32], IdentityError>(IdentityError::BadPublicKey),
        raw@.len() == 32 ==> (res matches Ok(s) && s@ == raw@),
{
    if raw.len() != 32 {
        return Err(IdentityError::BadPublicKey);
    }
    let mut s = [0u8; 32];
    let mut i: usize = 0;
    while i < 32
        invariant
            raw@.len() == 32,
            0 <= i <= 32,
            forall|j: int| 0 <= j < i ==> s@[j] == raw@[j],
        decreases 32 - i,
    {
        s[i] = raw[i];
        i = i + 1;
    }
    assert(s@ =~= raw@);
    Ok(s)
}

/// A fresh random device seed, for a device that has none stored yet. Its
/// public key decodes.
pub fn fresh_device_secret() -> (s: [u8; 32])
    ensures
        ed25519_key_decodes(ed25519_public_key(s@)),
{
    crate::crypto::generate_secret_key()
}

impl HardwareHuman {
    /// The device secret.
    pub closed spec fn device_secret(&self) -> Seq<u8> {
        self.device@
    }

    /// The human public key read from the token.
    pub closed spec fn human_key(&self) -> [u8; 32] {
        self.human_pk
    }

    /// The device public key.
    pub closed spec fn device_public(&self) -> Seq<u8> {
        ed25519_public_key(self.device@)
    }

    /// The device signature of a message.
    pub closed spec fn spec_device_signature(&self, msg: Seq<u8>) -> Seq<u8> {
        ed25519_signature(self.device@, msg)
    }

    pub fn new(device: [u8; 32], human_pk: [u8; 32]) -> (h: HardwareHuman)
        ensures
            h.device_secret() == device@,
            h.human_key() == human_pk,
    {
        HardwareHuman { device, human_pk }
    }

    /// The human announce: the device public key beside the token's key.
    pub fn announce(&self) -> (a: Announce)
        ensures
            a.kind == KIND_HUMAN,
            a.device_pk@ == self.device_public(),
            a.principal_pk == self.human_key(),
    {
        Announce {
            kind: KIND_HUMAN,
            device_pk: crate::crypto::public_key_of(&self.device),
            principal_pk: self.human_pk,
        }
    }

    /// The device signature of a transcript.
    pub fn device_signature(&self, transcript: &[u8]) -> (sig: [u8; 64])
        ensures
            sig@ == self.spec_device_signature(transcript@),
    {
        crate::crypto::sign(&self.device, transcript)
    }

    /// The proof of a transcript: the device signature beside the token's
    /// OpenPGP signature.
    pub fn make_proof(&self, transcript: &[u8], principal_sig: Vec<u8>) -> (p: Proof)
        ensures
            p.device_sig@ == self.spec_device_signature(transcript@),
            p.principal_sig@ == principal_sig@,
    {
        Proof { device_sig: self.device_signature(transcript), principal_sig }
    }
}

} // verus!
