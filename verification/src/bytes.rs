//! Byte-string helpers shared by the shell and the browser: trimming,
//! word splitting, case folding and comparison.
use vstd::prelude::*;

verus! {

pub const SPACE: u8 = 0x20;

/// `n` is the number of leading bytes of `s` that are not spaces.
pub open spec fn is_word_end(s: Seq<u8>, n: int) -> bool {
    &&& 0 <= n <= s.len()
    &&& forall|j: int| 0 <= j < n ==> s[j] != SPACE
    &&& (n == s.len() || s[n] == SPACE)
}

/// Length of the first space-delimited word of `s`.
pub open spec fn word_end(s: Seq<u8>) -> int {
    choose|n: int| is_word_end(s, n)
}

/// `n` is the first index at or after `from` that holds a non-space (or the length).
pub open spec fn is_skip_end(s: Seq<u8>, from: int, n: int) -> bool {
    &&& from <= n <= s.len()
    &&& forall|j: int| from <= j < n ==> s[j] == SPACE
    &&& (n == s.len() || s[n] != SPACE)
}

/// First index at or after `from` that is not a space.
pub open spec fn skip_spaces(s: Seq<u8>, from: int) -> int {
    choose|n: int| is_skip_end(s, from, n)
}

/// `b` is the end of `s` once trailing spaces after `a` are dropped.
pub open spec fn is_trim_end(s: Seq<u8>, a: int, b: int) -> bool {
    &&& a <= b <= s.len()
    &&& forall|j: int| b <= j < s.len() ==> s[j] == SPACE
    &&& (b == a || s[b - 1] != SPACE)
}

pub open spec fn trim_end_from(s: Seq<u8>, a: int) -> int {
    choose|b: int| is_trim_end(s, a, b)
}

/// `s` without leading and trailing spaces.
pub open spec fn trim_spec(s: Seq<u8>) -> Seq<u8> {
    let a = skip_spaces(s, 0);
    s.subrange(a, trim_end_from(s, a))
}

pub proof fn lemma_word_end(s: Seq<u8>, n: int)
    requires
        is_word_end(s, n),
    ensures
        word_end(s) == n,
{
    let m = word_end(s);
    assert(is_word_end(s, m));
    if m < n {
        assert(s[m] != SPACE);
    } else if n < m {
        assert(s[n] != SPACE);
    }
}

pub proof fn lemma_skip_spaces(s: Seq<u8>, from: int, n: int)
    requires
        is_skip_end(s, from, n),
    ensures
        skip_spaces(s, from) == n,
{
    let m = skip_spaces(s, from);
    assert(is_skip_end(s, from, m));
    if m < n {
        assert(s[m] == SPACE);
    } else if n < m {
        assert(s[n] == SPACE);
    }
}

pub proof fn lemma_trim_end(s: Seq<u8>, a: int, b: int)
    requires
        is_trim_end(s, a, b),
    ensures
        trim_end_from(s, a) == b,
{
    let m = trim_end_from(s, a);
    assert(is_trim_end(s, a, m));
    if m < b {
        assert(s[b - 1] == SPACE);
    } else if b < m {
        assert(s[m - 1] == SPACE);
    }
}

/// Index of the first space in `s` (its length when there is none).
pub fn word_len(s: &[u8]) -> (n: usize)
    ensures
        n == word_end(s@),
        is_word_end(s@, n as int),
{
    let mut i: usize = 0;
    while i < s.len() && s[i] != SPACE
        invariant
            i <= s@.len(),
            forall|j: int| 0 <= j < i ==> s@[j] != SPACE,
        decreases s@.len() - i,
    {
        i += 1;
    }
    proof {
        lemma_word_end(s@, i as int);
    }
    i
}

/// First index at or after `from` that does not hold a space.
pub fn skip_space(s: &[u8], from: usize) -> (n: usize)
    requires
        from <= s@.len(),
    ensures
        n == skip_spaces(s@, from as int),
        is_skip_end(s@, from as int, n as int),
{
    let mut i: usize = from;
    while i < s.len() && s[i] == SPACE
        invariant
            from <= i <= s@.len(),
            forall|j: int| from <= j < i ==> s@[j] == SPACE,
        decreases s@.len() - i,
    {
        i += 1;
    }
    proof {
        lemma_skip_spaces(s@, from as int, i as int);
    }
    i
}

/// Trim leading and trailing spaces.
pub fn trim(s: &[u8]) -> (t: &[u8])
    ensures
        t@ == trim_spec(s@),
{
    let a = skip_space(s, 0);
    let mut b: usize = s.len();
    while b > a && s[b - 1] == SPACE
        invariant
            a <= b <= s@.len(),
            forall|j: int| b <= j < s@.len() ==> s@[j] == SPACE,
        decreases b,
    {
        b -= 1;
    }
    proof {
        lemma_trim_end(s@, a as int, b as int);
    }
    &s[a..b]
}

/// Byte-wise equality of two slices.
pub fn bytes_eq(a: &[u8], b: &[u8]) -> (r: bool)
    ensures
        r == (a@ == b@),
{
    if a.len() != b.len() {
        return false;
    }
    let mut i: usize = 0;
    while i < a.len()
        invariant
            a@.len() == b@.len(),
            i <= a@.len(),
            forall|j: int| 0 <= j < i ==> a@[j] == b@[j],
        decreases a@.len() - i,
    {
        if a[i] != b[i] {
            return false;
        }
        i += 1;
    }
    assert(a@ =~= b@);
    true
}

/// ASCII upper case of one byte.
pub open spec fn upper_spec(c: u8) -> u8 {
    if 0x61 <= c <= 0x7a { (c - 32) as u8 } else { c }
}

/// ASCII lower case of one byte.
pub open spec fn lower_spec(c: u8) -> u8 {
    if 0x41 <= c <= 0x5a { (c + 32) as u8 } else { c }
}

pub fn ascii_upper(c: u8) -> (r: u8)
    ensures
        r == upper_spec(c),
{
    if 0x61 <= c && c <= 0x7a { c - 32 } else { c }
}

pub fn ascii_lower(c: u8) -> (r: u8)
    ensures
        r == lower_spec(c),
{
    if 0x41 <= c && c <= 0x5a { c + 32 } else { c }
}

/// Copy of `s` as a vector.
pub fn to_vec(s: &[u8]) -> (v: Vec<u8>)
    ensures
        v@ == s@,
{
    let mut v: Vec<u8> = Vec::new();
    let mut i: usize = 0;
    while i < s.len()
        invariant
            i <= s@.len(),
            v@ == s@.subrange(0, i as int),
        decreases s@.len() - i,
    {
        v.push(s[i]);
        i += 1;
    }
    assert(s@.subrange(0, s@.len() as int) == s@);
    v
}

/// Append all of `s` to `v`.
pub fn push_all(v: &mut Vec<u8>, s: &[u8])
    ensures
        final(v)@ == old(v)@ + s@,
{
    let mut i: usize = 0;
    while i < s.len()
        invariant
            i <= s@.len(),
            v@ == old(v)@ + s@.subrange(0, i as int),
        decreases s@.len() - i,
    {
        v.push(s[i]);
        i += 1;
    }
    assert(s@.subrange(0, s@.len() as int) == s@);
}

/// `s` with the bytes at `at..at + t.len()` replaced by `t`.
pub open spec fn splice(s: Seq<u8>, at: int, t: Seq<u8>) -> Seq<u8> {
    s.subrange(0, at) + t + s.subrange(at + t.len(), s.len() as int)
}

/// Copy `src` into `img` starting at byte `at`.
pub fn copy_into(img: &mut [u8], at: usize, src: &[u8])
    requires
        at + src@.len() <= old(img)@.len(),
    ensures
        final(img)@ == splice(old(img)@, at as int, src@),
{
    let total = img.len();
    let mut j: usize = 0;
    while j < src.len()
        invariant
            total == old(img)@.len(),
            at + src@.len() <= old(img)@.len(),
            img@.len() == old(img)@.len(),
            j <= src@.len(),
            img@ == old(img)@.subrange(0, at as int) + src@.subrange(0, j as int) + old(img)@.subrange(
                at + j,
                old(img)@.len() as int,
            ),
        decreases src@.len() - j,
    {
        img[at + j] = src[j];
        j += 1;
        assert(img@ =~= old(img)@.subrange(0, at as int) + src@.subrange(0, j as int) + old(img)@.subrange(
            at + j,
            old(img)@.len() as int,
        ));
    }
    assert(src@.subrange(0, src@.len() as int) =~= src@);
}

} // verus!
