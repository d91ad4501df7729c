//! Line and whitespace scanning over the UTF-8 bytes of text, as `str::lines`,
//! `str::trim_start` and `str::split_whitespace` see it.
//!
//! Whitespace is Unicode `White_Space`, matched on its UTF-8 encodings. In
//! valid UTF-8 none of those encodings starts with a continuation byte, so
//! matching them byte by byte finds exactly the whitespace characters.

use vstd::prelude::*;
use vstd::utf8::*;

verus! {

/// The length of the UTF-8 encoding of a whitespace character at `i`, or 0.
pub open spec fn ws_len(s: Seq<u8>, i: int) -> int {
    if i < 0 || i >= s.len() {
        0
    } else {
        let b = s[i];
        if b == 0x09 || b == 0x0a || b == 0x0b || b == 0x0c || b == 0x0d || b == 0x20 {
            1
        } else if b == 0xc2 && i + 1 < s.len() && (s[i + 1] == 0x85 || s[i + 1] == 0xa0) {
            2
        } else if b == 0xe1 && i + 2 < s.len() && s[i + 1] == 0x9a && s[i + 2] == 0x80 {
            3
        } else if b == 0xe2 && i + 2 < s.len() && ((s[i + 1] == 0x80 && ((0x80 <= s[i + 2]
            <= 0x8a) || s[i + 2] == 0xa8 || s[i + 2] == 0xa9 || s[i + 2] == 0xaf)) || (s[i + 1]
            == 0x81 && s[i + 2] == 0x9f)) {
            3
        } else if b == 0xe3 && i + 2 < s.len() && s[i + 1] == 0x80 && s[i + 2] == 0x80 {
            3
        } else {
            0
        }
    }
}

/// The first index at or after `i` that is not the start of whitespace.
pub open spec fn skip_ws(s: Seq<u8>, i: int) -> int
    decreases s.len() - i,
{
    if 0 <= i < s.len() && ws_len(s, i) > 0 {
        skip_ws(s, i + ws_len(s, i))
    } else {
        i
    }
}

/// The first index at or after `i` that starts whitespace, or the end.
pub open spec fn word_end(s: Seq<u8>, i: int) -> int
    decreases s.len() - i,
{
    if 0 <= i < s.len() && ws_len(s, i) == 0 {
        word_end(s, i + 1)
    } else {
        i
    }
}

pub proof fn lemma_skip_ws_bounds(s: Seq<u8>, i: int)
    requires
        0 <= i <= s.len(),
    ensures
        i <= skip_ws(s, i) <= s.len(),
        skip_ws(s, i) < s.len() ==> ws_len(s, skip_ws(s, i)) == 0,
    decreases s.len() - i,
{
    if 0 <= i < s.len() && ws_len(s, i) > 0 {
        lemma_skip_ws_bounds(s, i + ws_len(s, i));
    }
}

pub proof fn lemma_word_end_bounds(s: Seq<u8>, i: int)
    requires
        0 <= i <= s.len(),
    ensures
        i <= word_end(s, i) <= s.len(),
        i < s.len() && ws_len(s, i) == 0 ==> i < word_end(s, i),
        forall|j: int| i <= j < word_end(s, i) ==> ws_len(s, j) == 0,
        word_end(s, i) == s.len() || ws_len(s, word_end(s, i)) > 0,
    decreases s.len() - i,
{
    if 0 <= i < s.len() && ws_len(s, i) == 0 {
        lemma_word_end_bounds(s, i + 1);
    }
}

/// The whitespace-separated words from `i` on, as `split_whitespace` gives them.
pub open spec fn words_from(s: Seq<u8>, i: int) -> Seq<Seq<u8>>
    decreases s.len() - i,
{
    if i < 0 || i > s.len() {
        Seq::empty()
    } else {
        let a = skip_ws(s, i);
        if a >= s.len() {
            Seq::empty()
        } else {
            let b = word_end(s, a);
            proof {
                lemma_skip_ws_bounds(s, i);
                lemma_word_end_bounds(s, a);
            }
            seq![s.subrange(a, b)] + words_from(s, b)
        }
    }
}

/// `split_whitespace` of text.
pub open spec fn words(s: Seq<u8>) -> Seq<Seq<u8>> {
    words_from(s, 0)
}

/// `trim_start` of text.
pub open spec fn trim_start(s: Seq<u8>) -> Seq<u8> {
    s.subrange(skip_ws(s, 0), s.len() as int)
}

/// The index of the first `\n` at or after `i`, or the end.
pub open spec fn newline_from(s: Seq<u8>, i: int) -> int
    decreases s.len() - i,
{
    if 0 <= i < s.len() && s[i] != 0x0a {
        newline_from(s, i + 1)
    } else {
        i
    }
}

pub proof fn lemma_newline_from_bounds(s: Seq<u8>, i: int)
    requires
        0 <= i <= s.len(),
    ensures
        i <= newline_from(s, i) <= s.len(),
        newline_from(s, i) < s.len() ==> s[newline_from(s, i)] == 0x0a,
    decreases s.len() - i,
{
    if 0 <= i < s.len() && s[i] != 0x0a {
        lemma_newline_from_bounds(s, i + 1);
    }
}

/// The lines of text from `i` on, as `str::lines` gives them: split at `\n`,
/// a `\r` right before the `\n` dropped, no empty line after a final `\n`.
pub open spec fn lines_from(s: Seq<u8>, i: int) -> Seq<Seq<u8>>
    decreases s.len() - i,
{
    if i < 0 || i >= s.len() {
        Seq::empty()
    } else {
        let k = newline_from(s, i);
        proof {
            lemma_newline_from_bounds(s, i);
        }
        if k >= s.len() {
            seq![s.subrange(i, s.len() as int)]
        } else {
            let end = if k > i && s[k - 1] == 0x0d {
                k - 1
            } else {
                k
            };
            seq![s.subrange(i, end)] + lines_from(s, k + 1)
        }
    }
}

/// `str::lines` of text.
pub open spec fn lines(s: Seq<u8>) -> Seq<Seq<u8>> {
    lines_from(s, 0)
}

/// `starts_with` on bytes.
pub open spec fn starts_with(s: Seq<u8>, p: Seq<u8>) -> bool {
    s.len() >= p.len() && s.subrange(0, p.len() as int) == p
}

/// `contains` on bytes.
pub open spec fn contains(s: Seq<u8>, p: Seq<u8>) -> bool {
    exists|i: int| 0 <= i <= s.len() - p.len() && #[trigger] s.subrange(i, i + p.len()) == p
}

/// The length of the UTF-8 encoding of a whitespace character ending right
/// before `j`, or 0.
pub open spec fn back_ws_len(s: Seq<u8>, j: int) -> int {
    if j < 1 || j > s.len() {
        0
    } else if s[j - 1] == 0x09 || s[j - 1] == 0x0a || s[j - 1] == 0x0b || s[j - 1] == 0x0c || s[j
        - 1] == 0x0d || s[j - 1] == 0x20 {
        1
    } else if j >= 2 && s[j - 2] == 0xc2 && (s[j - 1] == 0x85 || s[j - 1] == 0xa0) {
        2
    } else if j >= 3 && ws_len(s, j - 3) == 3 {
        3
    } else {
        0
    }
}

/// The end of the text before `j` once trailing whitespace is dropped.
pub open spec fn rskip_ws(s: Seq<u8>, j: int) -> int
    decreases j,
{
    if 0 < j <= s.len() && back_ws_len(s, j) > 0 {
        rskip_ws(s, j - back_ws_len(s, j))
    } else {
        j
    }
}

/// `str::trim` of text.
pub open spec fn trim(s: Seq<u8>) -> Seq<u8> {
    let a = skip_ws(s, 0);
    let b = rskip_ws(s, s.len() as int);
    if b <= a {
        Seq::empty()
    } else {
        s.subrange(a, b)
    }
}

pub proof fn lemma_rskip_ws_bounds(s: Seq<u8>, j: int)
    requires
        0 <= j <= s.len(),
    ensures
        0 <= rskip_ws(s, j) <= j,
        rskip_ws(s, j) == j || ws_len(s, rskip_ws(s, j)) > 0,
    decreases j,
{
    if 0 < j <= s.len() && back_ws_len(s, j) > 0 {
        let k = j - back_ws_len(s, j);
        assert(ws_len(s, k) > 0);
        lemma_rskip_ws_bounds(s, k);
    }
}

/// The first index where trailing whitespace starts, scanning back from `to`.
pub fn rskip_space(s: &[u8], to: usize) -> (r: usize)
    requires
        to <= s@.len(),
    ensures
        r == rskip_ws(s@, to as int),
        r <= to,
{
    proof {
        lemma_rskip_ws_bounds(s@, to as int);
    }
    let mut j = to;
    loop
        invariant
            j <= to <= s@.len(),
            rskip_ws(s@, to as int) == rskip_ws(s@, j as int),
        decreases j,
    {
        if j == 0 {
            return 0;
        }
        let c = s[j - 1];
        let n: usize = if c == 0x09 || c == 0x0a || c == 0x0b || c == 0x0c || c == 0x0d || c
            == 0x20 {
            1
        } else if j >= 2 && s[j - 2] == 0xc2 && (c == 0x85 || c == 0xa0) {
            2
        } else if j >= 3 && ws_at(s, j - 3) == 3 {
            3
        } else {
            0
        };
        if n == 0 {
            return j;
        }
        j = j - n;
    }
}

/// Whether `i` is where a character starts (or the end), in UTF-8.
pub open spec fn at_boundary(s: Seq<u8>, i: int) -> bool {
    i == s.len() || (0 <= i < s.len() && !is_continuation_byte(s[i]))
}

/// The length of the character a leading byte starts.
pub open spec fn utf8_width(b: u8) -> int {
    if b <= 0x7f {
        1
    } else if 0xc0 <= b <= 0xdf {
        2
    } else if 0xe0 <= b <= 0xef {
        3
    } else {
        4
    }
}

/// In valid UTF-8, a character starting at a boundary ends at a boundary.
pub proof fn lemma_char_step(s: Seq<u8>, i: int)
    requires
        valid_utf8(s),
        0 <= i < s.len(),
        !is_continuation_byte(s[i]),
    ensures
        i + utf8_width(s[i]) <= s.len(),
        at_boundary(s, i + utf8_width(s[i])),
{
    is_char_boundary_iff_not_is_continuation_byte(s, i);
    valid_utf8_split(s, i);
    let t = s.subrange(i, s.len() as int);
    assert(valid_utf8(t));
    assert(t[0] == s[i]);
    assert(valid_first_scalar(t));
    let w = length_of_first_scalar(t);
    assert(w == utf8_width(s[i]));
    let u = pop_first_scalar(t);
    assert(valid_utf8(u));
    if u.len() > 0 {
        is_char_boundary_start_end_of_seq(u);
        is_char_boundary_iff_not_is_continuation_byte(u, 0);
        assert(u[0] == s[i + w]);
    }
}

/// In valid UTF-8, the bytes between two boundaries are valid UTF-8.
pub proof fn lemma_subrange_valid(s: Seq<u8>, a: int, b: int)
    requires
        valid_utf8(s),
        0 <= a <= b <= s.len(),
        at_boundary(s, a),
        at_boundary(s, b),
    ensures
        valid_utf8(s.subrange(a, b)),
{
    is_char_boundary_start_end_of_seq(s);
    if a < s.len() {
        is_char_boundary_iff_not_is_continuation_byte(s, a);
    }
    valid_utf8_split(s, a);
    let t = s.subrange(a, s.len() as int);
    is_char_boundary_start_end_of_seq(t);
    if b < s.len() {
        is_char_boundary_iff_not_is_continuation_byte(t, b - a);
        assert(t[b - a] == s[b]);
    }
    valid_utf8_split(t, b - a);
    assert(t.subrange(0, b - a) =~= s.subrange(a, b));
}

/// A whitespace encoding starts with a leading byte of its own length.
pub proof fn lemma_ws_is_char(s: Seq<u8>, i: int)
    requires
        ws_len(s, i) > 0,
    ensures
        !is_continuation_byte(s[i]),
        utf8_width(s[i]) == ws_len(s, i),
{
}

/// Skipping whitespace from a boundary stops at a boundary.
pub proof fn lemma_skip_ws_boundary(s: Seq<u8>, i: int)
    requires
        valid_utf8(s),
        0 <= i <= s.len(),
        at_boundary(s, i),
    ensures
        at_boundary(s, skip_ws(s, i)),
    decreases s.len() - i,
{
    if 0 <= i < s.len() && ws_len(s, i) > 0 {
        lemma_ws_is_char(s, i);
        lemma_char_step(s, i);
        lemma_skip_ws_boundary(s, i + ws_len(s, i));
    }
}

/// The words from a boundary are valid UTF-8.
pub proof fn lemma_words_valid(s: Seq<u8>, i: int)
    requires
        valid_utf8(s),
        0 <= i <= s.len(),
        at_boundary(s, i),
    ensures
        forall|k: int| 0 <= k < words_from(s, i).len() ==> valid_utf8(#[trigger] words_from(s, i)[k]),
    decreases s.len() - i,
{
    let a = skip_ws(s, i);
    lemma_skip_ws_bounds(s, i);
    lemma_skip_ws_boundary(s, i);
    if a < s.len() {
        let b = word_end(s, a);
        lemma_word_end_bounds(s, a);
        if b < s.len() {
            lemma_ws_is_char(s, b);
        }
        lemma_subrange_valid(s, a, b);
        lemma_words_valid(s, b);
        let ws = words_from(s, i);
        assert(ws == seq![s.subrange(a, b)] + words_from(s, b));
        assert forall|k: int| 0 <= k < ws.len() implies valid_utf8(#[trigger] ws[k]) by {
            if k > 0 {
                assert(ws[k] == words_from(s, b)[k - 1]);
            }
        }
    }
}

/// The lines from a boundary are valid UTF-8.
pub proof fn lemma_lines_valid(s: Seq<u8>, i: int)
    requires
        valid_utf8(s),
        0 <= i <= s.len(),
        at_boundary(s, i),
    ensures
        forall|k: int| 0 <= k < lines_from(s, i).len() ==> valid_utf8(#[trigger] lines_from(s, i)[k]),
    decreases s.len() - i,
{
    if i < s.len() {
        let k = newline_from(s, i);
        lemma_newline_from_bounds(s, i);
        let ls = lines_from(s, i);
        if k >= s.len() {
            lemma_subrange_valid(s, i, s.len() as int);
        } else {
            let end = if k > i && s[k - 1] == 0x0d {
                k - 1
            } else {
                k
            };
            lemma_subrange_valid(s, i, end);
            lemma_char_step(s, k);
            lemma_lines_valid(s, k + 1);
            assert(ls == seq![s.subrange(i, end)] + lines_from(s, k + 1));
            assert forall|j: int| 0 <= j < ls.len() implies valid_utf8(#[trigger] ls[j]) by {
                if j > 0 {
                    assert(ls[j] == lines_from(s, k + 1)[j - 1]);
                }
            }
        }
    }
}

/// Trimmed valid UTF-8 is valid UTF-8.
pub proof fn lemma_trim_valid(s: Seq<u8>)
    requires
        valid_utf8(s),
    ensures
        valid_utf8(trim(s)),
{
    let a = skip_ws(s, 0);
    let b = rskip_ws(s, s.len() as int);
    lemma_skip_ws_bounds(s, 0);
    lemma_skip_ws_boundary(s, 0);
    lemma_rskip_ws_bounds(s, s.len() as int);
    if a < b {
        if b < s.len() {
            lemma_ws_is_char(s, b);
        }
        lemma_subrange_valid(s, a, b);
    } else {
        assert(valid_utf8(Seq::<u8>::empty()));
    }
}

/// The length of the whitespace encoding at `i`, or 0.
pub fn ws_at(s: &[u8], i: usize) -> (n: usize)
    requires
        i <= s@.len(),
    ensures
        n == ws_len(s@, i as int),
{
    if i >= s.len() {
        return 0;
    }
    let b = s[i];
    if b == 0x09 || b == 0x0a || b == 0x0b || b == 0x0c || b == 0x0d || b == 0x20 {
        1
    } else if b == 0xc2 && i + 1 < s.len() && (s[i + 1] == 0x85 || s[i + 1] == 0xa0) {
        2
    } else if b == 0xe1 && s.len() - i > 2 && s[i + 1] == 0x9a && s[i + 2] == 0x80 {
        3
    } else if b == 0xe2 && s.len() - i > 2 && ((s[i + 1] == 0x80 && ((0x80 <= s[i + 2] && s[i
        + 2] <= 0x8a) || s[i + 2] == 0xa8 || s[i + 2] == 0xa9 || s[i + 2] == 0xaf)) || (s[i + 1]
        == 0x81 && s[i + 2] == 0x9f)) {
        3
    } else if b == 0xe3 && s.len() - i > 2 && s[i + 1] == 0x80 && s[i + 2] == 0x80 {
        3
    } else {
        0
    }
}

/// The first index at or after `from` that does not start whitespace.
pub fn skip_space(s: &[u8], from: usize) -> (r: usize)
    requires
        from <= s@.len(),
    ensures
        r == skip_ws(s@, from as int),
        from <= r <= s@.len(),
{
    let mut a = from;
    while a < s.len() && ws_at(s, a) > 0
        invariant
            from <= a <= s@.len(),
            skip_ws(s@, from as int) == skip_ws(s@, a as int),
        decreases s@.len() - a,
    {
        a = a + ws_at(s, a);
    }
    a
}

/// The next word at or after `from`: its start and end.
pub fn next_word(s: &[u8], from: usize) -> (r: Option<(usize, usize)>)
    requires
        from <= s@.len(),
    ensures
        r is None <==> words_from(s@, from as int).len() == 0,
        r matches Some((a, b)) ==> from <= a < b <= s@.len() && words_from(s@, from as int)
            == seq![s@.subrange(a as int, b as int)] + words_from(s@, b as int),
{
    let a = skip_space(s, from);
    proof {
        lemma_skip_ws_bounds(s@, from as int);
    }
    if a >= s.len() {
        return None;
    }
    let mut b = a;
    while b < s.len() && ws_at(s, b) == 0
        invariant
            a <= b <= s@.len(),
            word_end(s@, a as int) == word_end(s@, b as int),
        decreases s@.len() - b,
    {
        b = b + 1;
    }
    proof {
        lemma_word_end_bounds(s@, a as int);
    }
    Some((a, b))
}

/// The next line at or after `from`: its start, its end (before `\r\n` or
/// `\n`), and where the line after it starts.
pub fn next_line(s: &[u8], from: usize) -> (r: Option<(usize, usize, usize)>)
    requires
        from <= s@.len(),
    ensures
        r is None <==> lines_from(s@, from as int).len() == 0,
        r matches Some((a, b, next)) ==> from == a <= b <= s@.len() && from < next <= s@.len()
            && lines_from(s@, from as int) == seq![s@.subrange(a as int, b as int)] + lines_from(
            s@,
            next as int,
        ),
{
    if from >= s.len() {
        return None;
    }
    let mut k = from;
    while k < s.len() && s[k] != 0x0a
        invariant
            from <= k <= s@.len(),
            newline_from(s@, from as int) == newline_from(s@, k as int),
        decreases s@.len() - k,
    {
        k = k + 1;
    }
    proof {
        lemma_newline_from_bounds(s@, from as int);
    }
    if k >= s.len() {
        assert(lines_from(s@, s@.len() as int) == Seq::<Seq<u8>>::empty());
        assert(lines_from(s@, from as int) =~= seq![s@.subrange(from as int, s@.len() as int)]
            + lines_from(s@, s@.len() as int));
        return Some((from, s.len(), s.len()));
    }
    let end = if k > from && s[k - 1] == 0x0d {
        k - 1
    } else {
        k
    };
    Some((from, end, k + 1))
}

/// Whether `s` starts with `p`.
pub fn has_prefix(s: &[u8], p: &[u8]) -> (r: bool)
    ensures
        r == starts_with(s@, p@),
{
    if s.len() < p.len() {
        return false;
    }
    let mut i: usize = 0;
    while i < p.len()
        invariant
            p@.len() <= s@.len(),
            0 <= i <= p@.len(),
            forall|j: int| 0 <= j < i ==> s@[j] == p@[j],
        decreases p@.len() - i,
    {
        if s[i] != p[i] {
            assert(s@.subrange(0, p@.len() as int)[i as int] != p@[i as int]);
            return false;
        }
        i = i + 1;
    }
    assert(s@.subrange(0, p@.len() as int) =~= p@);
    true
}

/// Whether `p` occurs in `s`.
pub fn has_infix(s: &[u8], p: &[u8]) -> (r: bool)
    ensures
        r == contains(s@, p@),
{
    if s.len() < p.len() {
        assert(!contains(s@, p@));
        return false;
    }
    let last = s.len() - p.len();
    let mut i: usize = 0;
    loop
        invariant
            last == s@.len() - p@.len(),
            0 <= i <= last,
            forall|j: int| 0 <= j < i ==> #[trigger] s@.subrange(j, j + p@.len()) != p@,
        decreases last - i,
    {
        let window = &s[i..s.len() - (last - i)];
        assert(window@.subrange(0, p@.len() as int) =~= s@.subrange(i as int, i + p@.len()));
        if has_prefix(window, p) {
            return true;
        }
        if i == last {
            return false;
        }
        i = i + 1;
    }
}

} // verus!
