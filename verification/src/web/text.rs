//! Byte-string helpers for the rendering engine: trimming, splitting and
//! case folding as `str` has them, on UTF-8 text split at ASCII delimiters.
use vstd::prelude::*;
use crate::browser::{lemma_scan_bounds, scan};
use crate::bytes::{ascii_lower, lower_spec};

verus! {

/// Whitespace as `str::trim` has it on ASCII: tab, LF, VT, FF, CR and space.
pub open spec fn is_trim_ws(c: u8) -> bool {
    (0x09 <= c <= 0x0D) || c == 0x20
}

/// ASCII whitespace as `u8::is_ascii_whitespace` has it (no VT).
pub open spec fn is_ascii_ws(c: u8) -> bool {
    c == 0x20 || c == 0x09 || c == 0x0A || c == 0x0C || c == 0x0D
}

pub open spec fn ascii_ws_fn() -> spec_fn(u8) -> bool {
    |c: u8| is_ascii_ws(c)
}

pub open spec fn negate(p: spec_fn(u8) -> bool) -> spec_fn(u8) -> bool {
    |c: u8| !p(c)
}

/// A three-byte UTF-8 whitespace character: U+1680, U+2000 to U+200A,
/// U+2028, U+2029, U+202F, U+205F or U+3000.
pub open spec fn is_ws3(a: u8, b: u8, c: u8) -> bool {
    ||| (a == 0xE1 && b == 0x9A && c == 0x80)
    ||| (a == 0xE2 && b == 0x80 && ((0x80 <= c <= 0x8A) || c == 0xA8 || c == 0xA9 || c == 0xAF))
    ||| (a == 0xE2 && b == 0x81 && c == 0x9F)
    ||| (a == 0xE3 && b == 0x80 && c == 0x80)
}

/// Length in bytes of the whitespace character (as `char::is_whitespace`
/// has it) that starts at `i` in the UTF-8 text `s`; 0 when none does. The
/// two-byte ones are U+0085 and U+00A0.
pub open spec fn ws_at(s: Seq<u8>, i: int) -> int {
    if 0 <= i < s.len() && is_trim_ws(s[i]) {
        1
    } else if 0 <= i && i + 1 < s.len() && s[i] == 0xC2 && (s[i + 1] == 0x85 || s[i + 1] == 0xA0) {
        2
    } else if 0 <= i && i + 2 < s.len() && is_ws3(s[i], s[i + 1], s[i + 2]) {
        3
    } else {
        0
    }
}

/// Length in bytes of the whitespace character that ends just before `j`;
/// 0 when none does.
pub open spec fn ws_before(s: Seq<u8>, j: int) -> int {
    if 1 <= j <= s.len() && is_trim_ws(s[j - 1]) {
        1
    } else if 2 <= j <= s.len() && s[j - 2] == 0xC2 && (s[j - 1] == 0x85 || s[j - 1] == 0xA0) {
        2
    } else if 3 <= j <= s.len() && is_ws3(s[j - 3], s[j - 2], s[j - 1]) {
        3
    } else {
        0
    }
}

/// The first position at or after `i` where no whitespace character starts,
/// skipping whole whitespace characters.
pub open spec fn skip_ws(s: Seq<u8>, i: int) -> int
    decreases s.len() - i,
{
    if 0 <= i < s.len() && ws_at(s, i) > 0 {
        skip_ws(s, i + ws_at(s, i))
    } else {
        i
    }
}

/// The end of `s[lo..j]` once trailing whitespace characters are dropped.
pub open spec fn drop_ws_back(s: Seq<u8>, lo: int, j: int) -> int
    decreases j - lo,
{
    if j > lo && ws_before(s, j) > 0 && j - ws_before(s, j) >= lo {
        drop_ws_back(s, lo, j - ws_before(s, j))
    } else {
        j
    }
}

/// `str::trim`: `s` without leading and trailing whitespace characters.
pub open spec fn trim_str(s: Seq<u8>) -> Seq<u8> {
    let a = skip_ws(s, 0);
    s.subrange(a, drop_ws_back(s, a, s.len() as int))
}

/// The first position at or after `i` where a whitespace character starts,
/// or the end.
pub open spec fn next_ws(s: Seq<u8>, i: int) -> int
    decreases s.len() - i,
{
    if i < 0 || i >= s.len() {
        s.len() as int
    } else if ws_at(s, i) > 0 {
        i
    } else {
        next_ws(s, i + 1)
    }
}

/// Length of the whitespace character at `i`, or 0.
pub fn ws_len_at(s: &[u8], i: usize) -> (w: usize)
    requires
        i <= s@.len(),
    ensures
        w == ws_at(s@, i as int),
{
    let n = s.len();
    if i < n && ((0x09 <= s[i] && s[i] <= 0x0D) || s[i] == 0x20) {
        1
    } else if i < n && n - i >= 2 && s[i] == 0xC2 && (s[i + 1] == 0x85 || s[i + 1] == 0xA0) {
        2
    } else if i < n && n - i >= 3 && is_ws3_exec(s[i], s[i + 1], s[i + 2]) {
        3
    } else {
        0
    }
}

/// Length of the whitespace character ending just before `j`, or 0.
fn ws_len_before(s: &[u8], j: usize) -> (w: usize)
    requires
        j <= s@.len(),
    ensures
        w == ws_before(s@, j as int),
{
    if j >= 1 && ((0x09 <= s[j - 1] && s[j - 1] <= 0x0D) || s[j - 1] == 0x20) {
        1
    } else if j >= 2 && s[j - 2] == 0xC2 && (s[j - 1] == 0x85 || s[j - 1] == 0xA0) {
        2
    } else if j >= 3 && is_ws3_exec(s[j - 3], s[j - 2], s[j - 1]) {
        3
    } else {
        0
    }
}

fn is_ws3_exec(a: u8, b: u8, c: u8) -> (r: bool)
    ensures
        r == is_ws3(a, b, c),
{
    (a == 0xE1 && b == 0x9A && c == 0x80) || (a == 0xE2 && b == 0x80 && ((0x80 <= c && c <= 0x8A) || c == 0xA8
        || c == 0xA9 || c == 0xAF)) || (a == 0xE2 && b == 0x81 && c == 0x9F) || (a == 0xE3 && b == 0x80 && c
        == 0x80)
}

/// `s` with leading and trailing whitespace (as `str::trim` has it) removed.
pub fn trim(s: &[u8]) -> (t: &[u8])
    ensures
        t@ == trim_str(s@),
{
    let n = s.len();
    let mut a: usize = 0;
    loop
        invariant
            n == s@.len(),
            a <= n,
            skip_ws(s@, 0) == skip_ws(s@, a as int),
        ensures
            a <= n,
            a == skip_ws(s@, 0),
        decreases n - a,
    {
        let w = ws_len_at(s, a);
        if w == 0 {
            break;
        }
        a += w;
    }
    let mut b: usize = n;
    loop
        invariant
            n == s@.len(),
            a <= b <= n,
            a == skip_ws(s@, 0),
            drop_ws_back(s@, a as int, n as int) == drop_ws_back(s@, a as int, b as int),
        ensures
            a <= b <= n,
            b == drop_ws_back(s@, a as int, n as int),
        decreases b,
    {
        if b == a {
            break;
        }
        let w = ws_len_before(s, b);
        if w == 0 || b - w < a {
            break;
        }
        b -= w;
    }
    &s[a..b]
}

/// The first word of `s`: up to its first whitespace character.
pub fn first_word_len(s: &[u8]) -> (e: usize)
    ensures
        e == next_ws(s@, 0),
        e <= s@.len(),
{
    let n = s.len();
    let mut e: usize = 0;
    while e < n && ws_len_at(s, e) == 0
        invariant
            n == s@.len(),
            e <= n,
            next_ws(s@, 0) == next_ws(s@, e as int),
        decreases n - e,
    {
        e += 1;
    }
    e
}

/// Characters in UTF-8 text (`str::chars().count()`): the bytes that are
/// not continuation bytes.
pub open spec fn char_count(s: Seq<u8>) -> nat
    decreases s.len(),
{
    if s.len() == 0 {
        0
    } else {
        char_count(s.drop_last()) + if 0x80 <= s.last() <= 0xBF {
            0nat
        } else {
            1nat
        }
    }
}

pub fn utf8_chars(s: &[u8]) -> (n: usize)
    ensures
        n == char_count(s@),
{
    let mut n: usize = 0;
    let mut i: usize = 0;
    while i < s.len()
        invariant
            i <= s@.len(),
            n <= i,
            n == char_count(s@.subrange(0, i as int)),
        decreases s@.len() - i,
    {
        assert(s@.subrange(0, i + 1).drop_last() =~= s@.subrange(0, i as int));
        if !(0x80 <= s[i] && s[i] <= 0xBF) {
            n += 1;
        }
        i += 1;
    }
    assert(s@.subrange(0, s@.len() as int) =~= s@);
    n
}

/// ASCII lower case of every byte.
pub open spec fn lower_seq(s: Seq<u8>) -> Seq<u8> {
    Seq::new(s.len(), |i: int| lower_spec(s[i]))
}

pub fn to_lower(s: &[u8]) -> (v: Vec<u8>)
    ensures
        v@ == lower_seq(s@),
{
    let mut v: Vec<u8> = Vec::new();
    let mut i: usize = 0;
    while i < s.len()
        invariant
            i <= s@.len(),
            v@ == Seq::new(i as nat, |k: int| lower_spec(s@[k])),
        decreases s@.len() - i,
    {
        v.push(ascii_lower(s[i]));
        i += 1;
        assert(v@ =~= Seq::new(i as nat, |k: int| lower_spec(s@[k])));
    }
    assert(v@ =~= lower_seq(s@));
    v
}

pub open spec fn byte_is(sep: u8) -> spec_fn(u8) -> bool {
    |c: u8| c == sep
}

/// The pieces of `s[from..]` between occurrences of `sep`, as `str::split`
/// gives them (an empty text gives one empty piece).
pub open spec fn split_from(s: Seq<u8>, from: int, sep: u8) -> Seq<Seq<u8>>
    decreases s.len() - from,
{
    if from < 0 || from > s.len() {
        Seq::empty()
    } else {
        let e = scan(s, from, byte_is(sep));
        proof {
            lemma_scan_bounds(s, from, byte_is(sep));
        }
        if e >= s.len() {
            seq![s.subrange(from, s.len() as int)]
        } else {
            seq![s.subrange(from, e)] + split_from(s, e + 1, sep)
        }
    }
}

pub open spec fn split_spec(s: Seq<u8>, sep: u8) -> Seq<Seq<u8>> {
    split_from(s, 0, sep)
}

/// The pieces of `s` between occurrences of `sep`.
pub fn split(s: &[u8], sep: u8) -> (parts: Vec<Vec<u8>>)
    ensures
        parts.deep_view() == split_spec(s@, sep),
{
    let n = s.len();
    let mut parts: Vec<Vec<u8>> = Vec::new();
    let mut start: usize = 0;
    loop
        invariant
            n == s@.len(),
            start <= n,
            parts.deep_view() + split_from(s@, start as int, sep) == split_spec(s@, sep),
        decreases n - start,
    {
        let mut e = start;
        while e < n && s[e] != sep
            invariant
                n == s@.len(),
                start <= e <= n,
                scan(s@, start as int, byte_is(sep)) == scan(s@, e as int, byte_is(sep)),
            decreases n - e,
        {
            e += 1;
        }
        let piece = crate::bytes::to_vec(&s[start..e]);
        assert(piece.deep_view() =~= piece@);
        let ghost before = parts.deep_view();
        let ghost old_parts = parts@;
        parts.push(piece);
        assert(forall|k: int| 0 <= k < old_parts.len() ==> parts@[k] == old_parts[k]);
        assert(parts.deep_view() =~= before.push(s@.subrange(start as int, e as int)));
        if e >= n {
            assert(parts.deep_view() =~= split_spec(s@, sep)) by {
                assert(split_from(s@, start as int, sep) == seq![s@.subrange(start as int, n as int)]);
                assert(before + seq![s@.subrange(start as int, n as int)] =~= before.push(
                    s@.subrange(start as int, e as int),
                ));
            }
            return parts;
        }
        assert(split_from(s@, start as int, sep) == seq![s@.subrange(start as int, e as int)] + split_from(
            s@,
            e + 1,
            sep,
        ));
        assert(before + (seq![s@.subrange(start as int, e as int)] + split_from(s@, e + 1, sep)) =~= before.push(
            s@.subrange(start as int, e as int),
        ) + split_from(s@, e + 1, sep));
        start = e + 1;
    }
}

} // verus!
