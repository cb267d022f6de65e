//! Native browser logic: URL parsing, search-URL building, HTML-to-text
//! extraction, and the address-bar + content model.
//!
//! The kernel supplies only the networking: it pulls a pending request out
//! with [`Browser::take_request`], fetches the bytes, and feeds the raw HTTP
//! response back via [`Browser::load_response`].
use vstd::prelude::*;
use vstd::string::StringSliceAdditionalSpecFns;
use crate::bytes::{ascii_lower, bytes_eq, lower_spec};
use crate::keymap::Key;

verus! {

/// Max bytes of a URL (address bar + resolved navigation target).
pub const URL_CAP: usize = 220;
/// Max host length.
pub const HOST_CAP: usize = 80;
/// Extracted, word-wrapped page text capacity.
pub const CONTENT_CAP: usize = 28672;
/// Wrap width in characters for the rendered text.
pub const COLS: usize = 70;

/// Where a fetch stands, surfaced in the UI.
#[derive(Clone, Copy, PartialEq, Eq, Debug, Structural)]
pub enum Status {
    Idle,
    Loading,
    Done,
    Error,
}

// ---- scanning ----

/// First index at or after `from` whose byte satisfies `stop` (the length if none does).
pub open spec fn scan(s: Seq<u8>, from: int, stop: spec_fn(u8) -> bool) -> int
    decreases s.len() - from,
{
    if from >= s.len() {
        s.len() as int
    } else if stop(s[from]) {
        from
    } else {
        scan(s, from + 1, stop)
    }
}

pub proof fn lemma_scan_bounds(s: Seq<u8>, from: int, stop: spec_fn(u8) -> bool)
    requires
        0 <= from <= s.len(),
    ensures
        from <= scan(s, from, stop) <= s.len(),
        forall|k: int| from <= k < scan(s, from, stop) ==> !stop(#[trigger] s[k]),
        scan(s, from, stop) < s.len() ==> stop(s[scan(s, from, stop)]),
    decreases s.len() - from,
{
    if from < s.len() && !stop(s[from]) {
        lemma_scan_bounds(s, from + 1, stop);
    }
}

/// A space or a tab.
pub open spec fn is_blank(c: u8) -> bool {
    c == 0x20 || c == 0x09
}

pub open spec fn not_blank() -> spec_fn(u8) -> bool {
    |c: u8| !is_blank(c)
}

/// Bytes that end the host part of a URL: `/`, `:`, `?` and space.
pub open spec fn host_delim() -> spec_fn(u8) -> bool {
    |c: u8| c == 0x2F || c == 0x3A || c == 0x3F || c == 0x20
}

pub open spec fn non_digit() -> spec_fn(u8) -> bool {
    |c: u8| !(0x30 <= c <= 0x39)
}

pub open spec fn space_byte() -> spec_fn(u8) -> bool {
    |c: u8| c == 0x20
}

/// `s` begins with `prefix`, ignoring ASCII case.
pub open spec fn starts_ci(s: Seq<u8>, prefix: Seq<u8>) -> bool {
    &&& s.len() >= prefix.len()
    &&& forall|i: int| 0 <= i < prefix.len() ==> lower_spec(#[trigger] s[i]) == lower_spec(prefix[i])
}

pub(crate) fn starts_with_ci(s: &[u8], prefix: &[u8]) -> (r: bool)
    ensures
        r == starts_ci(s@, prefix@),
{
    if s.len() < prefix.len() {
        return false;
    }
    let mut i: usize = 0;
    while i < prefix.len()
        invariant
            s@.len() >= prefix@.len(),
            i <= prefix@.len(),
            forall|k: int| 0 <= k < i ==> lower_spec(#[trigger] s@[k]) == lower_spec(prefix@[k]),
        decreases prefix@.len() - i,
    {
        if ascii_lower(s[i]) != ascii_lower(prefix[i]) {
            return false;
        }
        i += 1;
    }
    true
}

// ---- URL parsing ----

/// Decimal value of a run of ASCII digits.
pub open spec fn digits_value(d: Seq<u8>) -> nat
    decreases d.len(),
{
    if d.len() == 0 {
        0
    } else {
        digits_value(d.drop_last()) * 10 + (d.last() - 0x30) as nat
    }
}

pub proof fn lemma_digits_step(s: Seq<u8>, a: int, e: int)
    requires
        0 <= a <= e < s.len(),
        0x30 <= s[e] <= 0x39,
    ensures
        digits_value(s.subrange(a, e + 1)) == digits_value(s.subrange(a, e)) * 10 + (s[e] - 0x30),
{
    assert(s.subrange(a, e + 1).drop_last() =~= s.subrange(a, e));
}

/// The prefix of `s` of at most `n` bytes.
pub open spec fn take_at_most(s: Seq<u8>, n: int) -> Seq<u8> {
    if s.len() <= n { s } else { s.subrange(0, n) }
}

/// `(https, port, host, path)` of a parsed absolute URL.
pub type UrlParts = (bool, u16, Seq<u8>, Seq<u8>);

/// Scheme of `s` and the length of its `scheme://` prefix; HTTPS when absent.
pub open spec fn scheme_of(s: Seq<u8>) -> (bool, int) {
    if starts_ci(s, "https://".spec_bytes()) {
        (true, "https://".spec_bytes().len() as int)
    } else if starts_ci(s, "http://".spec_bytes()) {
        (false, "http://".spec_bytes().len() as int)
    } else {
        (true, 0)
    }
}

/// The port given after the host (`rest[h]` is `:`): its digits' decimal
/// value when that is in `1..=65535`; the scheme's default otherwise. Also
/// the index where the digits end.
pub open spec fn port_of(rest: Seq<u8>, h: int, default_port: u16) -> (u16, int) {
    let e = scan(rest, h + 1, non_digit());
    let v = digits_value(rest.subrange(h + 1, e));
    (if 0 < v <= 65535 { v as u16 } else { default_port }, e)
}

/// `v` capped at 65536: enough to tell every port apart from every value
/// past the last one.
pub open spec fn port_cap(v: nat) -> nat {
    if v > 65536 { 65536 } else { v }
}

/// What [`parse_url`] gives for `input`: leading blanks are skipped, a
/// missing scheme means HTTPS, the host runs to the first `/`, `:`, `?` or
/// space (kept to [`HOST_CAP`] bytes), an optional `:port` follows, and the
/// path is what starts with `/` or `?` up to a space (kept to [`URL_CAP`]
/// bytes), `/` when there is none. No host, no URL.
pub open spec fn parse_url_spec(input: Seq<u8>) -> Option<UrlParts> {
    let s = input.subrange(scan(input, 0, not_blank()), input.len() as int);
    let https = scheme_of(s).0;
    let rest = s.subrange(scheme_of(s).1, s.len() as int);
    let h = scan(rest, 0, host_delim());
    if h == 0 {
        None
    } else {
        let default_port: u16 = if https { 443 } else { 80 };
        let has_port = h < rest.len() && rest[h] == 0x3A;
        let port = if has_port { port_of(rest, h, default_port).0 } else { default_port };
        let after = if has_port { port_of(rest, h, default_port).1 } else { h };
        let tail = rest.subrange(after, rest.len() as int);
        let p = if tail.len() > 0 && (tail[0] == 0x2F || tail[0] == 0x3F) {
            take_at_most(tail.subrange(0, scan(tail, 0, space_byte())), URL_CAP as int)
        } else {
            Seq::empty()
        };
        Some((https, port, take_at_most(rest.subrange(0, h), HOST_CAP as int), if p.len() == 0 { seq![0x2Fu8] } else { p }))
    }
}

/// A parsed absolute URL.
pub struct Url {
    pub https: bool,
    pub port: u16,
    pub host: Vec<u8>,
    pub path: Vec<u8>,
}

impl View for Url {
    type V = UrlParts;

    open spec fn view(&self) -> UrlParts {
        (self.https, self.port, self.host@, self.path@)
    }
}

impl Url {
    pub fn host(&self) -> (h: &[u8])
        ensures
            h@ == self@.2,
    {
        self.host.as_slice()
    }

    pub fn path(&self) -> (p: &[u8])
        ensures
            p@ == self@.3,
    {
        self.path.as_slice()
    }
}

/// Copy of `s[from..to]`, cut to at most `cap` bytes.
fn copy_capped(s: &[u8], from: usize, to: usize, cap: usize) -> (v: Vec<u8>)
    requires
        from <= to <= s@.len(),
    ensures
        v@ == take_at_most(s@.subrange(from as int, to as int), cap as int),
{
    let mut v: Vec<u8> = Vec::new();
    let mut i = from;
    while i < to && v.len() < cap
        invariant
            from <= i <= to <= s@.len(),
            v@ == s@.subrange(from as int, i as int),
            v@.len() <= cap,
        decreases to - i,
    {
        v.push(s[i]);
        i += 1;
    }
    assert(v@ =~= take_at_most(s@.subrange(from as int, to as int), cap as int));
    v
}

/// Parse an absolute URL. A missing scheme defaults to HTTPS. Returns `None`
/// only when there is no host at all.
pub fn parse_url(input: &[u8]) -> (r: Option<Url>)
    ensures
        match r {
            Some(u) => parse_url_spec(input@) == Some(u@),
            None => parse_url_spec(input@) is None,
        },
{
    let mut a: usize = 0;
    while a < input.len() && (input[a] == 0x20 || input[a] == 0x09)
        invariant
            a <= input@.len(),
            scan(input@, 0, not_blank()) == scan(input@, a as int, not_blank()),
        decreases input@.len() - a,
    {
        a += 1;
    }
    let s = &input[a..input.len()];
    let https_pre = "https://".as_bytes();
    let http_pre = "http://".as_bytes();
    let (https, k) = if starts_with_ci(s, https_pre) {
        (true, https_pre.len())
    } else if starts_with_ci(s, http_pre) {
        (false, http_pre.len())
    } else {
        (true, 0)
    };
    assert(scheme_of(s@) == (https, k as int));
    let rest = &s[k..s.len()];
    let n = rest.len();
    let mut h: usize = 0;
    while h < n && !(rest[h] == 0x2F || rest[h] == 0x3A || rest[h] == 0x3F || rest[h] == 0x20)
        invariant
            n == rest@.len(),
            h <= n,
            scan(rest@, 0, host_delim()) == scan(rest@, h as int, host_delim()),
        decreases n - h,
    {
        h += 1;
    }
    if h == 0 {
        return None;
    }
    let host = copy_capped(rest, 0, h, HOST_CAP);
    let default_port: u16 = if https { 443 } else { 80 };
    let mut port = default_port;
    let mut after = h;
    if h < n && rest[h] == 0x3A {
        let mut e = h + 1;
        let mut p: u32 = 0;
        assert(rest@.subrange(h + 1, h + 1) =~= Seq::<u8>::empty());
        while e < n && 0x30 <= rest[e] && rest[e] <= 0x39
            invariant
                n == rest@.len(),
                h + 1 <= e <= n,
                scan(rest@, h + 1, non_digit()) == scan(rest@, e as int, non_digit()),
                p == port_cap(digits_value(rest@.subrange(h + 1, e as int))),
            decreases n - e,
        {
            let d = (rest[e] - 0x30) as u32;
            proof {
                lemma_digits_step(rest@, h + 1, e as int);
            }
            let q: u32 = if p > 65535 {
                65536
            } else if p * 10 + d > 65536 {
                65536
            } else {
                p * 10 + d
            };
            p = q;
            e += 1;
        }
        if p > 0 && p <= 65535 {
            port = p as u16;
        }
        after = e;
    }
    let tail = &rest[after..n];
    let mut path: Vec<u8> = Vec::new();
    if tail.len() > 0 && (tail[0] == 0x2F || tail[0] == 0x3F) {
        let tn = tail.len();
        let mut e: usize = 0;
        while e < tn && tail[e] != 0x20
            invariant
                tn == tail@.len(),
                e <= tn,
                scan(tail@, 0, space_byte()) == scan(tail@, e as int, space_byte()),
            decreases tn - e,
        {
            e += 1;
        }
        path = copy_capped(tail, 0, e, URL_CAP);
    }
    if path.len() == 0 {
        path.push(0x2F);
    }
    let u = Url { https, port, host, path };
    assert(u@ == parse_url_spec(input@)->0);
    Some(u)
}

/// ASCII whitespace as `u8::is_ascii_whitespace` has it: space, tab, LF, FF, CR.
pub open spec fn is_ws(c: u8) -> bool {
    c == 0x20 || c == 0x09 || c == 0x0A || c == 0x0C || c == 0x0D
}

pub open spec fn not_ws() -> spec_fn(u8) -> bool {
    |c: u8| !is_ws(c)
}

/// The end of `s[..to]` once trailing ASCII whitespace is dropped.
pub open spec fn trim_back(s: Seq<u8>, to: int) -> int
    decreases to,
{
    if to <= 0 || to > s.len() {
        if to <= 0 { 0 } else { s.len() as int }
    } else if !is_ws(s[to - 1]) {
        to
    } else {
        trim_back(s, to - 1)
    }
}

/// `s` without leading and trailing ASCII whitespace.
pub open spec fn trim_ws(s: Seq<u8>) -> Seq<u8> {
    let a = scan(s, 0, not_ws());
    if a >= s.len() { Seq::empty() } else { s.subrange(a, trim_back(s, s.len() as int)) }
}

proof fn lemma_trim_back(s: Seq<u8>, a: int, to: int)
    requires
        0 <= a < to <= s.len(),
        !is_ws(s[a]),
    ensures
        a < trim_back(s, to) <= to,
    decreases to,
{
    if is_ws(s[to - 1]) {
        lemma_trim_back(s, a, to - 1);
    }
}

fn trimmed(s: &[u8]) -> (t: &[u8])
    ensures
        t@ == trim_ws(s@),
{
    let n = s.len();
    let mut a: usize = 0;
    while a < n && (s[a] == 0x20 || s[a] == 0x09 || s[a] == 0x0A || s[a] == 0x0C || s[a] == 0x0D)
        invariant
            n == s@.len(),
            a <= n,
            scan(s@, 0, not_ws()) == scan(s@, a as int, not_ws()),
        decreases n - a,
    {
        a += 1;
    }
    if a >= n {
        return &s[0..0];
    }
    proof {
        lemma_trim_back(s@, a as int, n as int);
    }
    let mut b: usize = n;
    while b > a && (s[b - 1] == 0x20 || s[b - 1] == 0x09 || s[b - 1] == 0x0A || s[b - 1] == 0x0C || s[b - 1] == 0x0D)
        invariant
            n == s@.len(),
            a < n,
            !is_ws(s@[a as int]),
            a < b <= n,
            trim_back(s@, n as int) == trim_back(s@, b as int),
        decreases b,
    {
        b -= 1;
    }
    &s[a..b]
}

fn contains_byte(s: &[u8], b: u8) -> (r: bool)
    ensures
        r == s@.contains(b),
{
    let mut i: usize = 0;
    while i < s.len()
        invariant
            i <= s@.len(),
            forall|k: int| 0 <= k < i ==> s@[k] != b,
        decreases s@.len() - i,
    {
        if s[i] == b {
            assert(s@[i as int] == b);
            return true;
        }
        i += 1;
    }
    false
}

pub open spec fn slash_byte() -> spec_fn(u8) -> bool {
    |c: u8| c == 0x2F
}

/// Whether `input` reads as an address rather than a search: after trimming
/// it is non-empty and either starts with an `http://` or `https://` scheme,
/// or has no spaces and a dot before its first slash.
pub open spec fn looks_like_url_spec(input: Seq<u8>) -> bool {
    let t = trim_ws(input);
    if t.len() == 0 {
        false
    } else if starts_ci(t, "http://".spec_bytes()) || starts_ci(t, "https://".spec_bytes()) {
        true
    } else {
        !t.contains(0x20u8) && t.subrange(0, scan(t, 0, slash_byte())).contains(0x2Eu8)
    }
}

/// True when `input` looks like a navigable address (has a dot in the host part
/// and no spaces) rather than a free-text search query.
pub fn looks_like_url(input: &[u8]) -> (r: bool)
    ensures
        r == looks_like_url_spec(input@),
{
    let s = trimmed(input);
    if s.len() == 0 {
        return false;
    }
    if starts_with_ci(s, "http://".as_bytes()) || starts_with_ci(s, "https://".as_bytes()) {
        return true;
    }
    let n = s.len();
    let mut e: usize = 0;
    while e < n && s[e] != 0x2F
        invariant
            n == s@.len(),
            e <= n,
            scan(s@, 0, slash_byte()) == scan(s@, e as int, slash_byte()),
        decreases n - e,
    {
        e += 1;
    }
    !contains_byte(s, 0x20) && contains_byte(&s[0..e], 0x2E)
}

// ---- query encoding ----

/// An unreserved URL byte: ASCII letters and digits and `-`, `_`, `.`, `~`.
pub open spec fn is_unreserved(c: u8) -> bool {
    (0x41 <= c <= 0x5A) || (0x61 <= c <= 0x7A) || (0x30 <= c <= 0x39) || c == 0x2D || c == 0x5F || c == 0x2E
        || c == 0x7E
}

/// Upper-case hexadecimal digit for `d < 16`.
pub open spec fn hex_digit(d: u8) -> u8 {
    if d < 10 { (0x30 + d) as u8 } else { (0x37 + d) as u8 }
}

/// Form encoding of one byte: unreserved bytes stay, a space becomes `+`,
/// anything else becomes `%XY`.
pub open spec fn enc_byte(c: u8) -> Seq<u8> {
    if is_unreserved(c) {
        seq![c]
    } else if c == 0x20 {
        seq![0x2Bu8]
    } else {
        seq![0x25u8, hex_digit(c / 16), hex_digit(c % 16)]
    }
}

/// `application/x-www-form-urlencoded` encoding of `q`.
pub open spec fn encoded(q: Seq<u8>) -> Seq<u8>
    decreases q.len(),
{
    if q.len() == 0 {
        Seq::empty()
    } else {
        encoded(q.drop_last()) + enc_byte(q.last())
    }
}

/// A byte a query may carry unescaped in a URL: RFC 3986's unreserved
/// set, ASCII letters and digits and `-`, `.`, `_`, `~`.
pub open spec fn url_plain(c: u8) -> bool {
    (0x30 <= c <= 0x39) || (0x41 <= c <= 0x5A) || (0x61 <= c <= 0x7A) || c == 0x2D || c == 0x2E || c == 0x5F
        || c == 0x7E
}

/// The value of a hexadecimal digit.
pub open spec fn hex_value(h: u8) -> int {
    if 0x30 <= h <= 0x39 {
        h - 0x30
    } else if 0x41 <= h <= 0x46 {
        h - 0x37
    } else if 0x61 <= h <= 0x66 {
        h - 0x57
    } else {
        0
    }
}

/// Form decoding, as a server reads a query value: `+` is a space, `%XY`
/// the byte with hexadecimal value `XY`, any other byte itself.
pub open spec fn form_decode(s: Seq<u8>) -> Seq<u8>
    decreases s.len(),
{
    if s.len() == 0 {
        Seq::empty()
    } else if s[0] == 0x2B {
        seq![0x20u8] + form_decode(s.subrange(1, s.len() as int))
    } else if s[0] == 0x25 && s.len() >= 3 {
        seq![(hex_value(s[1]) * 16 + hex_value(s[2])) as u8] + form_decode(s.subrange(3, s.len() as int))
    } else {
        seq![s[0]] + form_decode(s.subrange(1, s.len() as int))
    }
}

proof fn lemma_decode_after_encoded(q: Seq<u8>, t: Seq<u8>)
    ensures
        form_decode(encoded(q) + t) == q + form_decode(t),
    decreases q.len(),
{
    if q.len() > 0 {
        let c = q.last();
        let e = enc_byte(c);
        lemma_decode_after_encoded(q.drop_last(), e + t);
        assert(encoded(q) + t =~= encoded(q.drop_last()) + (e + t));
        let et = e + t;
        if is_unreserved(c) {
            assert(et.subrange(1, et.len() as int) =~= t);
        } else if c == 0x20 {
            assert(et.subrange(1, et.len() as int) =~= t);
        } else {
            assert(et.subrange(3, et.len() as int) =~= t);
            assert(hex_value(hex_digit(c / 16)) == c / 16);
            assert(hex_value(hex_digit(c % 16)) == c % 16);
        }
        assert(q.drop_last() + (seq![c] + form_decode(t)) =~= q + form_decode(t));
    } else {
        assert(encoded(q) + t =~= t);
        assert(q + form_decode(t) =~= form_decode(t));
    }
}

/// A query's encoding decodes back to the query, and carries no byte that
/// would end or split the query in a URL: each is an unreserved byte, `+`
/// (for a space) or the `%` of an escape.
pub proof fn lemma_query_encoding(q: Seq<u8>)
    ensures
        form_decode(encoded(q)) == q,
        forall|i: int| 0 <= i < encoded(q).len() ==> url_plain(#[trigger] encoded(q)[i]) || encoded(q)[i] == 0x2B
            || encoded(q)[i] == 0x25,
    decreases q.len(),
{
    lemma_decode_after_encoded(q, Seq::empty());
    assert(encoded(q) + Seq::<u8>::empty() =~= encoded(q));
    assert(q + Seq::<u8>::empty() =~= q);
    if q.len() > 0 {
        lemma_query_encoding(q.drop_last());
        let a = encoded(q.drop_last());
        let c = q.last();
        assert forall|i: int| 0 <= i < encoded(q).len() implies url_plain(#[trigger] encoded(q)[i]) || encoded(q)[i]
            == 0x2B || encoded(q)[i] == 0x25 by {
            if i < a.len() {
                assert(encoded(q)[i] == a[i]);
            } else {
                let d1 = c / 16;
                let d2 = c % 16;
                assert(url_plain(hex_digit(d1)) && url_plain(hex_digit(d2)));
            }
        }
    }
}

/// Push `b` unless `v` already holds `cap` bytes: `v` stays the prefix of
/// what would have been written, cut to `cap`.
fn push_capped(v: &mut Vec<u8>, b: u8, cap: usize, Ghost(full): Ghost<Seq<u8>>)
    requires
        old(v)@ == take_at_most(full, cap as int),
    ensures
        final(v)@ == take_at_most(full.push(b), cap as int),
{
    if v.len() < cap {
        v.push(b);
        assert(final(v)@ =~= take_at_most(full.push(b), cap as int));
    } else {
        assert(take_at_most(full.push(b), cap as int) =~= take_at_most(full, cap as int));
    }
}

fn hex(d: u8) -> (h: u8)
    requires
        d < 16,
    ensures
        h == hex_digit(d),
{
    if d < 10 { 0x30 + d } else { 0x37 + d }
}

/// Append the encoding of `query`, cut so that `v` holds at most `cap` bytes.
fn push_encoded(v: &mut Vec<u8>, query: &[u8], cap: usize, Ghost(before): Ghost<Seq<u8>>)
    requires
        old(v)@ == take_at_most(before, cap as int),
    ensures
        final(v)@ == take_at_most(before + encoded(query@), cap as int),
{
    let mut i: usize = 0;
    assert(before + encoded(query@.subrange(0, 0)) =~= before);
    while i < query.len()
        invariant
            i <= query@.len(),
            v@ == take_at_most(before + encoded(query@.subrange(0, i as int)), cap as int),
        decreases query@.len() - i,
    {
        let c = query[i];
        let ghost done = before + encoded(query@.subrange(0, i as int));
        assert(query@.subrange(0, i + 1).drop_last() =~= query@.subrange(0, i as int));
        if (0x41 <= c && c <= 0x5A) || (0x61 <= c && c <= 0x7A) || (0x30 <= c && c <= 0x39) || c == 0x2D || c == 0x5F
            || c == 0x2E || c == 0x7E {
            push_capped(v, c, cap, Ghost(done));
            assert(done.push(c) =~= before + encoded(query@.subrange(0, i + 1)));
        } else if c == 0x20 {
            push_capped(v, 0x2B, cap, Ghost(done));
            assert(done.push(0x2B) =~= before + encoded(query@.subrange(0, i + 1)));
        } else {
            push_capped(v, 0x25, cap, Ghost(done));
            push_capped(v, hex(c / 16), cap, Ghost(done.push(0x25)));
            push_capped(v, hex(c % 16), cap, Ghost(done.push(0x25).push(hex_digit(c / 16))));
            assert(done.push(0x25).push(hex_digit(c / 16)).push(hex_digit(c % 16)) =~= before + encoded(
                query@.subrange(0, i + 1),
            ));
        }
        i += 1;
    }
    assert(query@.subrange(0, query@.len() as int) =~= query@);
}

/// Percent-encode `query` into `out` as an `application/x-www-form-urlencoded`
/// value (spaces become `+`). Returns the number of bytes written; what does
/// not fit in `out` is dropped.
pub fn encode_query(query: &[u8], out: &mut [u8]) -> (n: usize)
    ensures
        n == take_at_most(encoded(query@), old(out)@.len() as int).len(),
        final(out)@ == crate::bytes::splice(old(out)@, 0, take_at_most(encoded(query@), old(out)@.len() as int)),
{
    let mut v: Vec<u8> = Vec::new();
    assert(take_at_most(Seq::<u8>::empty(), out.len() as int) =~= Seq::<u8>::empty());
    push_encoded(&mut v, query, out.len(), Ghost(Seq::empty()));
    assert(Seq::<u8>::empty() + encoded(query@) =~= encoded(query@));
    crate::bytes::copy_into(out, 0, v.as_slice());
    v.len()
}

pub open spec fn search_prefix() -> Seq<u8> {
    "https://www.bing.com/search?q=".spec_bytes()
}

/// Build the Bing search URL for `query` into `out`. Returns the URL length;
/// what does not fit in `out` is dropped.
pub fn build_search_url(query: &[u8], out: &mut [u8]) -> (n: usize)
    ensures
        n == take_at_most(search_prefix() + encoded(query@), old(out)@.len() as int).len(),
        final(out)@ == crate::bytes::splice(
            old(out)@,
            0,
            take_at_most(search_prefix() + encoded(query@), old(out)@.len() as int),
        ),
{
    let v = search_url(query, out.len());
    crate::bytes::copy_into(out, 0, v.as_slice());
    v.len()
}

/// The search URL for `query`, cut to `cap` bytes.
fn search_url(query: &[u8], cap: usize) -> (v: Vec<u8>)
    ensures
        v@ == take_at_most(search_prefix() + encoded(query@), cap as int),
{
    let prefix = "https://www.bing.com/search?q=".as_bytes();
    let mut v: Vec<u8> = Vec::new();
    let mut i: usize = 0;
    assert(take_at_most(Seq::<u8>::empty(), cap as int) =~= Seq::<u8>::empty());
    while i < prefix.len()
        invariant
            prefix@ == search_prefix(),
            i <= prefix@.len(),
            v@ == take_at_most(prefix@.subrange(0, i as int), cap as int),
        decreases prefix@.len() - i,
    {
        push_capped(&mut v, prefix[i], cap, Ghost(prefix@.subrange(0, i as int)));
        assert(prefix@.subrange(0, i as int).push(prefix@[i as int]) =~= prefix@.subrange(0, i + 1));
        i += 1;
    }
    assert(prefix@.subrange(0, prefix@.len() as int) =~= prefix@);
    push_encoded(&mut v, query, cap, Ghost(prefix@));
    v
}

// ---- HTTP / HTML ----

/// First index at or after `i` where `needle` occurs in `hay`.
pub open spec fn find_from(hay: Seq<u8>, needle: Seq<u8>, i: int) -> Option<int>
    decreases hay.len() + 1 - i,
{
    if i < 0 || i + needle.len() > hay.len() {
        None
    } else if hay.subrange(i, i + needle.len()) == needle {
        Some(i)
    } else {
        find_from(hay, needle, i + 1)
    }
}

/// First occurrence of a non-empty `needle` in `hay`.
pub open spec fn find_spec(hay: Seq<u8>, needle: Seq<u8>) -> Option<int> {
    if needle.len() == 0 { None } else { find_from(hay, needle, 0) }
}

pub proof fn lemma_find_from_bounds(hay: Seq<u8>, needle: Seq<u8>, i: int)
    requires
        0 <= i,
    ensures
        find_from(hay, needle, i) matches Some(k) ==> i <= k && k + needle.len() <= hay.len(),
    decreases hay.len() + 1 - i,
{
    if i + needle.len() <= hay.len() && hay.subrange(i, i + needle.len()) != needle {
        lemma_find_from_bounds(hay, needle, i + 1);
    }
}

fn find(hay: &[u8], needle: &[u8]) -> (r: Option<usize>)
    ensures
        match r {
            Some(i) => find_spec(hay@, needle@) == Some(i as int) && i + needle@.len() <= hay@.len(),
            None => find_spec(hay@, needle@) is None,
        },
{
    if needle.len() == 0 || hay.len() < needle.len() {
        return None;
    }
    let k = needle.len();
    let n = hay.len();
    let last = n - k;
    let mut i: usize = 0;
    while i <= last
        invariant
            n == hay@.len(),
            k == needle@.len(),
            k > 0,
            last + k == hay@.len(),
            i <= last + 1,
            find_spec(hay@, needle@) == find_from(hay@, needle@, i as int),
        decreases last + 1 - i,
    {
        assert(i + k <= hay@.len());
        if crate::bytes::bytes_eq(&hay[i..i + k], needle) {
            return Some(i);
        }
        i += 1;
    }
    None
}

/// What [`http_body`] gives: what follows the first blank line (CRLF or LF
/// style), or all of `resp` when there is none.
pub open spec fn http_body_spec(resp: Seq<u8>) -> Seq<u8> {
    match find_spec(resp, "\r\n\r\n".spec_bytes()) {
        Some(i) => resp.subrange(i + "\r\n\r\n".spec_bytes().len(), resp.len() as int),
        None => match find_spec(resp, "\n\n".spec_bytes()) {
            Some(i) => resp.subrange(i + "\n\n".spec_bytes().len(), resp.len() as int),
            None => resp,
        },
    }
}

/// Return the body slice of a raw HTTP response (everything past the blank line
/// that ends the headers). If no header terminator is found, the whole input is
/// treated as the body.
pub fn http_body(resp: &[u8]) -> (b: &[u8])
    ensures
        b@ == http_body_spec(resp@),
{
    let crlf = "\r\n\r\n".as_bytes();
    let lf = "\n\n".as_bytes();
    let n = resp.len();
    if let Some(i) = find(resp, crlf) {
        &resp[i + crlf.len()..n]
    } else if let Some(i) = find(resp, lf) {
        &resp[i + lf.len()..n]
    } else {
        resp
    }
}

/// Bytes that end an element name: space, tab, LF and `>`.
pub open spec fn tag_delim() -> spec_fn(u8) -> bool {
    |c: u8| c == 0x20 || c == 0x09 || c == 0x0A || c == 0x3E
}

/// Lowercase element name of a tag body (the bytes between `<` and `>`):
/// its first word, at most 12 bytes of it.
pub open spec fn tag_name_spec(inner: Seq<u8>) -> Seq<u8> {
    let e = scan(inner, 0, tag_delim());
    Seq::new(if e < 12 { e as nat } else { 12 }, |k: int| lower_spec(inner[k]))
}

fn tag_name(inner: &[u8]) -> (name: Vec<u8>)
    ensures
        name@ == tag_name_spec(inner@),
{
    let n = inner.len();
    let mut v: Vec<u8> = Vec::new();
    let mut k: usize = 0;
    while k < n && v.len() < 12 && !(inner[k] == 0x20 || inner[k] == 0x09 || inner[k] == 0x0A || inner[k] == 0x3E)
        invariant
            n == inner@.len(),
            k <= n,
            k <= 12,
            v@ == Seq::new(k as nat, |x: int| lower_spec(inner@[x])),
            scan(inner@, 0, tag_delim()) == scan(inner@, k as int, tag_delim()),
        decreases n - k,
    {
        v.push(ascii_lower(inner[k]));
        k += 1;
        assert(v@ =~= Seq::new(k as nat, |x: int| lower_spec(inner@[x])));
    }
    proof {
        lemma_scan_bounds(inner@, k as int, tag_delim());
    }
    assert(v@ =~= tag_name_spec(inner@));
    v
}

/// Element names whose tag becomes a line break in the extracted text.
pub open spec fn is_break_tag_spec(tag: Seq<u8>) -> bool {
    ||| tag == "br".spec_bytes()
    ||| tag == "/p".spec_bytes()
    ||| tag == "/div".spec_bytes()
    ||| tag == "/h1".spec_bytes()
    ||| tag == "/h2".spec_bytes()
    ||| tag == "/h3".spec_bytes()
    ||| tag == "/h4".spec_bytes()
    ||| tag == "/li".spec_bytes()
    ||| tag == "/tr".spec_bytes()
    ||| tag == "/ul".spec_bytes()
    ||| tag == "/ol".spec_bytes()
    ||| tag == "/table".spec_bytes()
    ||| tag == "/article".spec_bytes()
    ||| tag == "hr".spec_bytes()
}

/// True if `tag` (lowercased element name) introduces or ends a block whose
/// boundary should become a line break in the extracted text.
fn is_break_tag(tag: &[u8]) -> (r: bool)
    ensures
        r == is_break_tag_spec(tag@),
{
    bytes_eq(tag, "br".as_bytes()) || bytes_eq(tag, "/p".as_bytes()) || bytes_eq(tag, "/div".as_bytes())
        || bytes_eq(tag, "/h1".as_bytes()) || bytes_eq(tag, "/h2".as_bytes()) || bytes_eq(tag, "/h3".as_bytes())
        || bytes_eq(tag, "/h4".as_bytes()) || bytes_eq(tag, "/li".as_bytes()) || bytes_eq(tag, "/tr".as_bytes())
        || bytes_eq(tag, "/ul".as_bytes()) || bytes_eq(tag, "/ol".as_bytes()) || bytes_eq(tag, "/table".as_bytes())
        || bytes_eq(tag, "/article".as_bytes()) || bytes_eq(tag, "hr".as_bytes())
}

/// Every byte of `s` is an ASCII digit.
pub open spec fn all_digits(s: Seq<u8>) -> bool {
    forall|k: int| 0 <= k < s.len() ==> 0x30 <= #[trigger] s[k] <= 0x39
}

/// The byte an HTML entity named `name` (the text between `&` and `;`)
/// stands for, among a small set of common ones and `&#NN;` in the printable
/// ASCII range; `None` keeps the literal text.
pub open spec fn decode_entity_spec(name: Seq<u8>) -> Option<u8> {
    if name == "amp".spec_bytes() {
        Some(0x26u8)
    } else if name == "lt".spec_bytes() {
        Some(0x3Cu8)
    } else if name == "gt".spec_bytes() {
        Some(0x3Eu8)
    } else if name == "quot".spec_bytes() {
        Some(0x22u8)
    } else if name == "apos".spec_bytes() || name == "#39".spec_bytes() {
        Some(0x27u8)
    } else if name == "nbsp".spec_bytes() || name == "#160".spec_bytes() {
        Some(0x20u8)
    } else if name == "copy".spec_bytes() {
        Some(0x63u8)
    } else if name == "hellip".spec_bytes() {
        Some(0x2Eu8)
    } else if name == "mdash".spec_bytes() || name == "ndash".spec_bytes() || name == "#8211".spec_bytes()
        || name == "#8212".spec_bytes() {
        Some(0x2Du8)
    } else if name.len() >= 2 && name[0] == 0x23 && all_digits(name.subrange(1, name.len() as int))
        && 0x20 <= digits_value(name.subrange(1, name.len() as int)) < 0x7F {
        Some(digits_value(name.subrange(1, name.len() as int)) as u8)
    } else {
        None
    }
}

/// The named HTML escape of a character that markup reserves: `&amp;`,
/// `&lt;`, `&gt;`, `&quot;`, `&apos;` (the name between `&` and `;`).
pub open spec fn html_escape_name(c: u8) -> Option<Seq<u8>> {
    if c == 0x26 {
        Some(seq![0x61u8, 0x6Du8, 0x70u8])
    } else if c == 0x3C {
        Some(seq![0x6Cu8, 0x74u8])
    } else if c == 0x3E {
        Some(seq![0x67u8, 0x74u8])
    } else if c == 0x22 {
        Some(seq![0x71u8, 0x75u8, 0x6Fu8, 0x74u8])
    } else if c == 0x27 {
        Some(seq![0x61u8, 0x70u8, 0x6Fu8, 0x73u8])
    } else {
        None
    }
}

/// Decoding the named escape of a reserved character gives that character
/// back.
pub proof fn lemma_entity_round_trip(c: u8)
    ensures
        html_escape_name(c) matches Some(n) ==> decode_entity_spec(n) == Some(c),
{
    reveal_strlit("amp");
    reveal_strlit("lt");
    reveal_strlit("gt");
    reveal_strlit("quot");
    reveal_strlit("apos");
    assert(vstd::string::is_ascii("amp"));
    assert(vstd::string::is_ascii("lt"));
    assert(vstd::string::is_ascii("gt"));
    assert(vstd::string::is_ascii("quot"));
    assert(vstd::string::is_ascii("apos"));
    broadcast use vstd::string::is_ascii_spec_bytes;
    assert("amp".spec_bytes() =~= seq![0x61u8, 0x6Du8, 0x70u8]);
    assert("lt".spec_bytes() =~= seq![0x6Cu8, 0x74u8]);
    assert("gt".spec_bytes() =~= seq![0x67u8, 0x74u8]);
    assert("quot".spec_bytes() =~= seq![0x71u8, 0x75u8, 0x6Fu8, 0x74u8]);
    assert("apos".spec_bytes() =~= seq![0x61u8, 0x70u8, 0x6Fu8, 0x73u8]);
}

/// Decimal digits of `v`, most significant first.
pub open spec fn decimal(v: nat) -> Seq<u8>
    decreases v,
{
    if v < 10 {
        seq![(0x30 + v) as u8]
    } else {
        decimal(v / 10).push((0x30 + v % 10) as u8)
    }
}

proof fn lemma_decimal_value(v: nat)
    ensures
        all_digits(decimal(v)),
        digits_value(decimal(v)) == v,
        1 <= decimal(v).len(),
    decreases v,
{
    if v >= 10 {
        lemma_decimal_value(v / 10);
        assert(decimal(v).drop_last() =~= decimal(v / 10));
        assert(decimal(v).last() == (0x30 + v % 10) as u8);
        assert(v == (v / 10) * 10 + v % 10);
        assert(digits_value(decimal(v)) == digits_value(decimal(v / 10)) * 10 + (v % 10));
        assert(digits_value(decimal(v)) == v);
    } else {
        assert(decimal(v).drop_last() =~= Seq::<u8>::empty());
        assert(digits_value(decimal(v).drop_last()) == 0);
        assert(decimal(v).last() == (0x30 + v) as u8);
        assert(digits_value(decimal(v)) == v);
    }
}

/// A printable ASCII byte written as a decimal character reference
/// (`&#NN;`) decodes to that byte.
pub proof fn lemma_numeric_entity(c: u8)
    requires
        0x20 <= c < 0x7F,
    ensures
        decode_entity_spec(seq![0x23u8] + decimal(c as nat)) == Some(c),
{
    let n = seq![0x23u8] + decimal(c as nat);
    lemma_decimal_value(c as nat);
    assert(n.subrange(1, n.len() as int) =~= decimal(c as nat));
    assert(n[0] == 0x23);
    reveal_strlit("amp");
    reveal_strlit("lt");
    reveal_strlit("gt");
    reveal_strlit("quot");
    reveal_strlit("apos");
    reveal_strlit("#39");
    reveal_strlit("nbsp");
    reveal_strlit("#160");
    reveal_strlit("copy");
    reveal_strlit("hellip");
    reveal_strlit("mdash");
    reveal_strlit("ndash");
    reveal_strlit("#8211");
    reveal_strlit("#8212");
    broadcast use vstd::string::is_ascii_spec_bytes;
    assert(vstd::string::is_ascii("amp"));
    assert(vstd::string::is_ascii("lt"));
    assert(vstd::string::is_ascii("gt"));
    assert(vstd::string::is_ascii("quot"));
    assert(vstd::string::is_ascii("apos"));
    assert(vstd::string::is_ascii("#39"));
    assert(vstd::string::is_ascii("nbsp"));
    assert(vstd::string::is_ascii("#160"));
    assert(vstd::string::is_ascii("copy"));
    assert(vstd::string::is_ascii("hellip"));
    assert(vstd::string::is_ascii("mdash"));
    assert(vstd::string::is_ascii("ndash"));
    assert(vstd::string::is_ascii("#8211"));
    assert(vstd::string::is_ascii("#8212"));
    assert(n != "amp".spec_bytes() && n != "lt".spec_bytes() && n != "gt".spec_bytes() && n != "quot".spec_bytes()
        && n != "apos".spec_bytes() && n != "nbsp".spec_bytes() && n != "copy".spec_bytes() && n != "hellip".spec_bytes()
        && n != "mdash".spec_bytes() && n != "ndash".spec_bytes()) by {
        assert("amp".spec_bytes()[0] != 0x23);
        assert("lt".spec_bytes()[0] != 0x23);
        assert("gt".spec_bytes()[0] != 0x23);
        assert("quot".spec_bytes()[0] != 0x23);
        assert("apos".spec_bytes()[0] != 0x23);
        assert("nbsp".spec_bytes()[0] != 0x23);
        assert("copy".spec_bytes()[0] != 0x23);
        assert("hellip".spec_bytes()[0] != 0x23);
        assert("mdash".spec_bytes()[0] != 0x23);
        assert("ndash".spec_bytes()[0] != 0x23);
    }
    reveal_with_fuel(digits_value, 5);
    let lit39 = "#39".spec_bytes();
    let lit160 = "#160".spec_bytes();
    let lit8211 = "#8211".spec_bytes();
    let lit8212 = "#8212".spec_bytes();
    assert(lit39.subrange(1, 3) =~= seq![0x33u8, 0x39u8]);
    assert(lit160.subrange(1, 4) =~= seq![0x31u8, 0x36u8, 0x30u8]);
    assert(lit8211.subrange(1, 5) =~= seq![0x38u8, 0x32u8, 0x31u8, 0x31u8]);
    assert(lit8212.subrange(1, 5) =~= seq![0x38u8, 0x32u8, 0x31u8, 0x32u8]);
    assert(digits_value(seq![0x33u8, 0x39u8]) == 39) by {
        assert(seq![0x33u8, 0x39u8].drop_last() =~= seq![0x33u8]);
        assert(seq![0x33u8].drop_last() =~= Seq::<u8>::empty());
    }
    assert(digits_value(seq![0x31u8, 0x36u8, 0x30u8]) == 160) by {
        assert(seq![0x31u8, 0x36u8, 0x30u8].drop_last() =~= seq![0x31u8, 0x36u8]);
        assert(seq![0x31u8, 0x36u8].drop_last() =~= seq![0x31u8]);
        assert(seq![0x31u8].drop_last() =~= Seq::<u8>::empty());
    }
    assert(digits_value(seq![0x38u8, 0x32u8, 0x31u8, 0x31u8]) == 8211) by {
        assert(seq![0x38u8, 0x32u8, 0x31u8, 0x31u8].drop_last() =~= seq![0x38u8, 0x32u8, 0x31u8]);
        assert(seq![0x38u8, 0x32u8, 0x31u8].drop_last() =~= seq![0x38u8, 0x32u8]);
        assert(seq![0x38u8, 0x32u8].drop_last() =~= seq![0x38u8]);
        assert(seq![0x38u8].drop_last() =~= Seq::<u8>::empty());
    }
    assert(digits_value(seq![0x38u8, 0x32u8, 0x31u8, 0x32u8]) == 8212) by {
        assert(seq![0x38u8, 0x32u8, 0x31u8, 0x32u8].drop_last() =~= seq![0x38u8, 0x32u8, 0x31u8]);
        assert(seq![0x38u8, 0x32u8, 0x31u8].drop_last() =~= seq![0x38u8, 0x32u8]);
        assert(seq![0x38u8, 0x32u8].drop_last() =~= seq![0x38u8]);
        assert(seq![0x38u8].drop_last() =~= Seq::<u8>::empty());
    }
    if n == lit160 {
        assert(decimal(c as nat) == lit160.subrange(1, 4));
    }
    if n == lit8211 {
        assert(decimal(c as nat) == lit8211.subrange(1, 5));
    }
    if n == lit8212 {
        assert(decimal(c as nat) == lit8212.subrange(1, 5));
    }
    if n == lit39 {
        assert(decimal(c as nat) == lit39.subrange(1, 3));
    }
}

/// Decode a small set of common HTML entities. `name` is the text between `&`
/// and `;`. Returns the decoded byte, or `None` to keep the literal text.
pub(crate) fn decode_entity(name: &[u8]) -> (r: Option<u8>)
    ensures
        r == decode_entity_spec(name@),
{
    if bytes_eq(name, "amp".as_bytes()) {
        Some(0x26)
    } else if bytes_eq(name, "lt".as_bytes()) {
        Some(0x3C)
    } else if bytes_eq(name, "gt".as_bytes()) {
        Some(0x3E)
    } else if bytes_eq(name, "quot".as_bytes()) {
        Some(0x22)
    } else if bytes_eq(name, "apos".as_bytes()) || bytes_eq(name, "#39".as_bytes()) {
        Some(0x27)
    } else if bytes_eq(name, "nbsp".as_bytes()) || bytes_eq(name, "#160".as_bytes()) {
        Some(0x20)
    } else if bytes_eq(name, "copy".as_bytes()) {
        Some(0x63)
    } else if bytes_eq(name, "hellip".as_bytes()) {
        Some(0x2E)
    } else if bytes_eq(name, "mdash".as_bytes()) || bytes_eq(name, "ndash".as_bytes()) || bytes_eq(
        name,
        "#8211".as_bytes(),
    ) || bytes_eq(name, "#8212".as_bytes()) {
        Some(0x2D)
    } else if name.len() >= 2 && name[0] == 0x23 {
        let n = name.len();
        let mut v: u32 = 0;
        let mut k: usize = 1;
        let mut digits = true;
        assert(name@.subrange(1, 1) =~= Seq::<u8>::empty());
        while k < n && digits
            invariant
                n == name@.len(),
                1 <= k <= n,
                digits ==> all_digits(name@.subrange(1, k as int)),
                !digits ==> !all_digits(name@.subrange(1, n as int)),
                v <= 0x7F * 10 + 9,
                v < 0x7F ==> v == digits_value(name@.subrange(1, k as int)),
                v >= 0x7F ==> digits_value(name@.subrange(1, k as int)) >= 0x7F,
            decreases n - k + (if digits { 1int } else { 0int }),
        {
            let d = name[k];
            if d < 0x30 || d > 0x39 {
                assert(name@.subrange(1, n as int)[k - 1] == d);
                digits = false;
            } else {
                proof {
                    lemma_digits_step(name@, 1, k as int);
                    assert(name@.subrange(1, k + 1) =~= name@.subrange(1, k as int).push(d));
                }
                if v < 0x7F {
                    v = v * 10 + (d - 0x30) as u32;
                }
                k += 1;
            }
        }
        if digits && 0x20 <= v && v < 0x7F {
            Some(v as u8)
        } else {
            None
        }
    } else {
        None
    }
}

// ---- word wrapping ----

/// The state of the word-wrapper: the text emitted so far, the column the
/// next byte lands in, and the word buffered but not yet emitted.
pub struct WrapState {
    pub text: Seq<u8>,
    pub col: nat,
    pub word: Seq<u8>,
}

pub open spec fn wrap_init() -> WrapState {
    WrapState { text: Seq::empty(), col: 0, word: Seq::empty() }
}

/// Emit the buffered word: after a space when it fits on the current line,
/// on a new line when it does not.
pub open spec fn wrap_flush(st: WrapState) -> WrapState {
    if st.word.len() == 0 {
        st
    } else if st.col > 0 && st.col + st.word.len() + 1 > COLS {
        WrapState { text: st.text.push(0x0Au8) + st.word, col: st.word.len(), word: Seq::empty() }
    } else if st.col > 0 {
        WrapState { text: st.text.push(0x20u8) + st.word, col: st.col + 1 + st.word.len(), word: Seq::empty() }
    } else {
        WrapState { text: st.text + st.word, col: st.word.len(), word: Seq::empty() }
    }
}

/// End the current line.
pub open spec fn wrap_newline(st: WrapState) -> WrapState {
    let f = wrap_flush(st);
    WrapState { text: f.text.push(0x0Au8), col: 0, word: f.word }
}

/// Add one byte: a space ends the word; a word that already fills a line is
/// broken onto a line of its own first.
pub open spec fn wrap_push(st: WrapState, b: u8) -> WrapState {
    if b == 0x20 {
        wrap_flush(st)
    } else {
        let s1 = if st.word.len() == COLS { wrap_newline(st) } else { st };
        WrapState { text: s1.text, col: s1.col, word: s1.word.push(b) }
    }
}

pub open spec fn gt_byte() -> spec_fn(u8) -> bool {
    |c: u8| c == 0x3E
}

pub open spec fn semi_byte() -> spec_fn(u8) -> bool {
    |c: u8| c == 0x3B
}

/// `k`, or the length of `s` when `k` is past it.
pub open spec fn clamp_to(s: Seq<u8>, k: int) -> int {
    if k > s.len() { s.len() as int } else { k }
}

/// The closing tag that ends a `<script>` or `<style>` body.
pub open spec fn raw_close(name: Seq<u8>) -> Seq<u8> {
    if name == "script".spec_bytes() { "</script".spec_bytes() } else { "</style".spec_bytes() }
}

/// The wrapper state after feeding `html[i..]` to state `st`: tags become a
/// space or (block boundaries) a line break, `<script>`/`<style>` bodies are
/// skipped (an unclosed one ends the text), entities are decoded, CR/LF/tab
/// count as spaces, and other bytes are text.
pub open spec fn extract(html: Seq<u8>, i: int, st: WrapState) -> WrapState
    decreases html.len() - i,
{
    if i < 0 || i >= html.len() {
        st
    } else {
        let c = html[i];
        if c == 0x3C {
            let j = scan(html, i + 1, gt_byte());
            proof {
                lemma_scan_bounds(html, i + 1, gt_byte());
            }
            let name = tag_name_spec(html.subrange(i + 1, j));
            if name == "script".spec_bytes() || name == "style".spec_bytes() {
                match find_spec(html.subrange(j, html.len() as int), raw_close(name)) {
                    Some(rel) => {
                        proof {
                            lemma_find_from_bounds(html.subrange(j, html.len() as int), raw_close(name), 0);
                            lemma_scan_bounds(html, j + rel, gt_byte());
                        }
                        extract(html, clamp_to(html, scan(html, j + rel, gt_byte()) + 1), st)
                    },
                    None => st,
                }
            } else if is_break_tag_spec(name) {
                extract(html, clamp_to(html, j + 1), wrap_newline(st))
            } else {
                extract(html, clamp_to(html, j + 1), wrap_flush(st))
            }
        } else if c == 0x26 {
            let lim = if html.len() < i + 12 { html.len() as int } else { i + 12 };
            let j = scan(html.subrange(0, lim), i + 1, semi_byte());
            proof {
                lemma_scan_bounds(html.subrange(0, lim), i + 1, semi_byte());
            }
            if j < html.len() && html[j] == 0x3B && decode_entity_spec(html.subrange(i + 1, j)) is Some {
                extract(html, j + 1, wrap_push(st, decode_entity_spec(html.subrange(i + 1, j))->0))
            } else {
                extract(html, i + 1, wrap_push(st, 0x26))
            }
        } else if c == 0x0A || c == 0x0D || c == 0x09 {
            extract(html, i + 1, wrap_flush(st))
        } else {
            extract(html, i + 1, wrap_push(st, c))
        }
    }
}

/// The readable, word-wrapped text of an HTML document.
pub open spec fn html_text_spec(html: Seq<u8>) -> Seq<u8> {
    wrap_flush(extract(html, 0, wrap_init())).text
}

/// Greedy word-wrapper writing into a buffer of at most `cap` bytes: it
/// keeps the prefix of the full text that fits.
struct Wrapper {
    out: Vec<u8>,
    cap: usize,
    col: usize,
    word: Vec<u8>,
    full: Ghost<Seq<u8>>,
}

impl Wrapper {
    spec fn state(&self) -> WrapState {
        WrapState { text: self.full@, col: self.col as nat, word: self.word@ }
    }

    spec fn wf(&self) -> bool {
        &&& self.out@ == take_at_most(self.full@, self.cap as int)
        &&& self.col <= COLS
        &&& self.word@.len() <= COLS
    }

    fn new(cap: usize) -> (w: Self)
        ensures
            w.wf(),
            w.cap == cap,
            w.state() == wrap_init(),
    {
        let w = Wrapper { out: Vec::new(), cap, col: 0, word: Vec::new(), full: Ghost(Seq::empty()) };
        assert(take_at_most(Seq::<u8>::empty(), cap as int) =~= Seq::<u8>::empty());
        assert(w.state().word =~= wrap_init().word);
        w
    }

    fn raw(&mut self, b: u8)
        requires
            old(self).wf(),
        ensures
            final(self).wf(),
            final(self).cap == old(self).cap,
            final(self).col == old(self).col,
            final(self).word@ == old(self).word@,
            final(self).full@ == old(self).full@.push(b),
    {
        let ghost before = self.full@;
        push_capped(&mut self.out, b, self.cap, Ghost(before));
        self.full = Ghost(before.push(b));
    }

    /// Emit the buffered word, wrapping to a new line first if it would not fit.
    fn flush_word(&mut self)
        requires
            old(self).wf(),
        ensures
            final(self).wf(),
            final(self).cap == old(self).cap,
            final(self).state() == wrap_flush(old(self).state()),
    {
        let wlen = self.word.len();
        if wlen == 0 {
            return;
        }
        let ghost start = self.full@;
        if self.col > 0 && self.col + wlen + 1 > COLS {
            self.raw(0x0A);
            self.col = 0;
        } else if self.col > 0 {
            self.raw(0x20);
            self.col = self.col + 1;
        }
        let ghost mid = self.full@;
        let ghost c0 = self.col;
        let ghost w0 = self.word@;
        let mut i: usize = 0;
        while i < wlen
            invariant
                self.wf(),
                self.cap == old(self).cap,
                self.col == c0,
                self.word@ == w0,
                w0 == old(self).word@,
                c0 + wlen <= COLS,
                wlen == self.word@.len(),
                i <= wlen,
                self.full@ == mid + self.word@.subrange(0, i as int),
            decreases wlen - i,
        {
            let b = self.word[i];
            self.raw(b);
            i += 1;
            assert(self.full@ =~= mid + self.word@.subrange(0, i as int));
        }
        assert(self.word@.subrange(0, wlen as int) =~= self.word@);
        self.col = self.col + wlen;
        self.word = Vec::new();
        assert(self.state().word =~= wrap_flush(old(self).state()).word);
    }

    fn newline(&mut self)
        requires
            old(self).wf(),
        ensures
            final(self).wf(),
            final(self).cap == old(self).cap,
            final(self).state() == wrap_newline(old(self).state()),
    {
        self.flush_word();
        self.raw(0x0A);
        self.col = 0;
    }

    fn push(&mut self, b: u8)
        requires
            old(self).wf(),
        ensures
            final(self).wf(),
            final(self).cap == old(self).cap,
            final(self).state() == wrap_push(old(self).state(), b),
    {
        if b == 0x20 {
            self.flush_word();
            return;
        }
        if self.word.len() == COLS {
            self.newline();
        }
        self.word.push(b);
    }
}

/// The page text of `html`, cut to `cap` bytes.
fn html_text(html: &[u8], cap: usize) -> (v: Vec<u8>)
    ensures
        v@ == take_at_most(html_text_spec(html@), cap as int),
{
    let mut w = Wrapper::new(cap);
    let n = html.len();
    let mut i: usize = 0;
    let mut stop = false;
    while i < n && !stop
        invariant
            n == html@.len(),
            i <= n,
            w.wf(),
            w.cap == cap,
            stop ==> extract(html@, 0, wrap_init()) == w.state(),
            !stop ==> extract(html@, i as int, w.state()) == extract(html@, 0, wrap_init()),
        decreases n - i + (if stop { 0int } else { 1int }),
    {
        let ghost st = w.state();
        let c = html[i];
        if c == 0x3C {
            let start = i + 1;
            let mut j = start;
            while j < n && html[j] != 0x3E
                invariant
                    n == html@.len(),
                    start <= j <= n,
                    scan(html@, start as int, gt_byte()) == scan(html@, j as int, gt_byte()),
                decreases n - j,
            {
                j += 1;
            }
            let name = tag_name(&html[start..j]);
            let script = bytes_eq(name.as_slice(), "script".as_bytes());
            if script || bytes_eq(name.as_slice(), "style".as_bytes()) {
                let close = if script { "</script".as_bytes() } else { "</style".as_bytes() };
                assert(close@ == raw_close(name@));
                match find(&html[j..n], close) {
                    Some(rel) => {
                        let mut k = j + rel;
                        while k < n && html[k] != 0x3E
                            invariant
                                n == html@.len(),
                                j + rel <= k <= n,
                                scan(html@, j + rel, gt_byte()) == scan(html@, k as int, gt_byte()),
                            decreases n - k,
                        {
                            k += 1;
                        }
                        i = if k < n { k + 1 } else { n };
                    },
                    None => {
                        stop = true;
                    },
                }
            } else {
                if is_break_tag(name.as_slice()) {
                    w.newline();
                } else {
                    w.flush_word();
                }
                i = if j < n { j + 1 } else { n };
            }
        } else if c == 0x26 {
            let lim = if n - i < 12 { n } else { i + 12 };
            let ghost head = html@.subrange(0, lim as int);
            let mut j = i + 1;
            while j < lim && html[j] != 0x3B
                invariant
                    n == html@.len(),
                    lim <= n,
                    head == html@.subrange(0, lim as int),
                    i + 1 <= j <= lim || (j == i + 1 && lim == i + 1),
                    scan(head, i + 1, semi_byte()) == scan(head, j as int, semi_byte()),
                decreases lim - j,
            {
                j += 1;
            }
            let mut done = false;
            if j < n && html[j] == 0x3B {
                if let Some(b) = decode_entity(&html[i + 1..j]) {
                    w.push(b);
                    i = j + 1;
                    done = true;
                }
            }
            if !done {
                w.push(0x26);
                i += 1;
            }
        } else if c == 0x0A || c == 0x0D || c == 0x09 {
            w.flush_word();
            i += 1;
        } else {
            w.push(c);
            i += 1;
        }
    }
    w.flush_word();
    w.out
}

/// Extract readable, word-wrapped text from an HTML document into `out`.
/// Strips tags and `<script>`/`<style>` bodies, decodes common entities,
/// collapses runs of whitespace, and inserts line breaks at block boundaries.
/// Returns the number of bytes written; text that does not fit is dropped.
pub fn html_to_text(html: &[u8], out: &mut [u8]) -> (n: usize)
    ensures
        n == take_at_most(html_text_spec(html@), old(out)@.len() as int).len(),
        final(out)@ == crate::bytes::splice(old(out)@, 0, take_at_most(html_text_spec(html@), old(out)@.len() as int)),
{
    let v = html_text(html, out.len());
    crate::bytes::copy_into(out, 0, v.as_slice());
    v.len()
}

/// Length of the run of bytes other than line feeds in `t` that ends just
/// before index `k`.
pub open spec fn run_before(t: Seq<u8>, k: int) -> nat
    decreases k,
{
    if k <= 0 || k > t.len() || t[k - 1] == 0x0A {
        0
    } else {
        1 + run_before(t, k - 1)
    }
}

/// No line of `t` is longer than `w` bytes.
pub open spec fn lines_fit(t: Seq<u8>, w: nat) -> bool {
    forall|k: int| 0 <= k <= t.len() ==> #[trigger] run_before(t, k) <= w
}

proof fn lemma_run_prefix(t: Seq<u8>, u: Seq<u8>, k: int)
    requires
        0 <= k <= t.len(),
    ensures
        run_before(t + u, k) == run_before(t, k),
    decreases k,
{
    if k > 0 && t[k - 1] != 0x0A {
        lemma_run_prefix(t, u, k - 1);
    }
}

proof fn lemma_run_append(t: Seq<u8>, u: Seq<u8>, m: int)
    requires
        0 <= m <= u.len(),
        !u.contains(0x0Au8),
    ensures
        run_before(t + u, t.len() + m) == run_before(t, t.len() as int) + m,
    decreases m,
{
    if m > 0 {
        assert((t + u)[t.len() + m - 1] == u[m - 1]);
        lemma_run_append(t, u, m - 1);
    } else {
        lemma_run_prefix(t, u, t.len() as int);
    }
}

/// Appending `u`, which holds no line feed, to `t` whose last line has
/// `col` bytes keeps every line within `w` when `col + u.len() <= w`.
proof fn lemma_fit_append(t: Seq<u8>, u: Seq<u8>, w: nat)
    requires
        lines_fit(t, w),
        !u.contains(0x0Au8),
        run_before(t, t.len() as int) + u.len() <= w,
    ensures
        lines_fit(t + u, w),
        run_before(t + u, (t + u).len() as int) == run_before(t, t.len() as int) + u.len(),
{
    assert forall|k: int| 0 <= k <= (t + u).len() implies #[trigger] run_before(t + u, k) <= w by {
        if k <= t.len() {
            lemma_run_prefix(t, u, k);
        } else {
            lemma_run_append(t, u, k - t.len());
        }
    }
    lemma_run_append(t, u, u.len() as int);
}

proof fn lemma_fit_newline(t: Seq<u8>, w: nat)
    requires
        lines_fit(t, w),
    ensures
        lines_fit(t.push(0x0Au8), w),
        run_before(t.push(0x0Au8), t.len() + 1int) == 0,
{
    assert forall|k: int| 0 <= k <= t.len() + 1 implies #[trigger] run_before(t.push(0x0Au8), k) <= w by {
        if k <= t.len() {
            assert(t.push(0x0Au8) == t + seq![0x0Au8]);
            lemma_run_prefix(t, seq![0x0Au8], k);
        }
    }
}

/// The wrapper's invariant: lines fit, `col` is the length of the last line,
/// and the buffered word fits on a line and holds no line feed.
pub open spec fn wrap_ok(st: WrapState) -> bool {
    &&& lines_fit(st.text, COLS as nat)
    &&& run_before(st.text, st.text.len() as int) == st.col
    &&& st.col <= COLS
    &&& st.word.len() <= COLS
    &&& !st.word.contains(0x0Au8)
}

proof fn lemma_flush_ok(st: WrapState)
    requires
        wrap_ok(st),
    ensures
        wrap_ok(wrap_flush(st)),
{
    if st.word.len() > 0 {
        if st.col > 0 && st.col + st.word.len() + 1 > COLS {
            lemma_fit_newline(st.text, COLS as nat);
            lemma_fit_append(st.text.push(0x0Au8), st.word, COLS as nat);
        } else if st.col > 0 {
            assert(st.text.push(0x20u8) == st.text + seq![0x20u8]);
            assert(!seq![0x20u8].contains(0x0Au8)) by {
                if seq![0x20u8].contains(0x0Au8) {
                    let k = choose|k: int| 0 <= k < 1 && seq![0x20u8][k] == 0x0Au8;
                }
            }
            lemma_fit_append(st.text, seq![0x20u8], COLS as nat);
            lemma_fit_append(st.text.push(0x20u8), st.word, COLS as nat);
        } else {
            lemma_fit_append(st.text, st.word, COLS as nat);
        }
    }
    assert(!wrap_flush(st).word.contains(0x0Au8)) by {
        if st.word.len() > 0 {
            assert(wrap_flush(st).word =~= Seq::<u8>::empty());
        }
    }
}

proof fn lemma_newline_ok(st: WrapState)
    requires
        wrap_ok(st),
    ensures
        wrap_ok(wrap_newline(st)),
{
    lemma_flush_ok(st);
    lemma_fit_newline(wrap_flush(st).text, COLS as nat);
}

proof fn lemma_push_ok(st: WrapState, b: u8)
    requires
        wrap_ok(st),
        b != 0x0A,
    ensures
        wrap_ok(wrap_push(st, b)),
{
    if b == 0x20 {
        lemma_flush_ok(st);
    } else {
        let s1 = if st.word.len() == COLS { wrap_newline(st) } else { st };
        if st.word.len() == COLS {
            lemma_newline_ok(st);
            assert(s1.word =~= Seq::<u8>::empty());
        }
        assert(!s1.word.push(b).contains(0x0Au8)) by {
            if s1.word.push(b).contains(0x0Au8) {
                let k = choose|k: int| 0 <= k < s1.word.len() + 1 && s1.word.push(b)[k] == 0x0Au8;
                if k < s1.word.len() {
                    assert(s1.word[k] == 0x0Au8);
                }
            }
        }
    }
}

proof fn lemma_decoded_not_newline(name: Seq<u8>)
    ensures
        decode_entity_spec(name) matches Some(b) ==> b != 0x0A,
{
}

proof fn lemma_extract_ok(html: Seq<u8>, i: int, st: WrapState)
    requires
        wrap_ok(st),
    ensures
        wrap_ok(extract(html, i, st)),
    decreases html.len() - i,
{
    if 0 <= i < html.len() {
        let c = html[i];
        if c == 0x3C {
            let j = scan(html, i + 1, gt_byte());
            lemma_scan_bounds(html, i + 1, gt_byte());
            let name = tag_name_spec(html.subrange(i + 1, j));
            if name == "script".spec_bytes() || name == "style".spec_bytes() {
                match find_spec(html.subrange(j, html.len() as int), raw_close(name)) {
                    Some(rel) => {
                        lemma_find_from_bounds(html.subrange(j, html.len() as int), raw_close(name), 0);
                        lemma_scan_bounds(html, j + rel, gt_byte());
                        lemma_extract_ok(html, clamp_to(html, scan(html, j + rel, gt_byte()) + 1), st);
                    },
                    None => {},
                }
            } else if is_break_tag_spec(name) {
                lemma_newline_ok(st);
                lemma_extract_ok(html, clamp_to(html, j + 1), wrap_newline(st));
            } else {
                lemma_flush_ok(st);
                lemma_extract_ok(html, clamp_to(html, j + 1), wrap_flush(st));
            }
        } else if c == 0x26 {
            let lim = if html.len() < i + 12 { html.len() as int } else { i + 12 };
            let j = scan(html.subrange(0, lim), i + 1, semi_byte());
            lemma_scan_bounds(html.subrange(0, lim), i + 1, semi_byte());
            if j < html.len() && html[j] == 0x3B && decode_entity_spec(html.subrange(i + 1, j)) is Some {
                lemma_decoded_not_newline(html.subrange(i + 1, j));
                let b = decode_entity_spec(html.subrange(i + 1, j))->0;
                lemma_push_ok(st, b);
                lemma_extract_ok(html, j + 1, wrap_push(st, b));
            } else {
                lemma_push_ok(st, 0x26);
                lemma_extract_ok(html, i + 1, wrap_push(st, 0x26));
            }
        } else if c == 0x0A || c == 0x0D || c == 0x09 {
            lemma_flush_ok(st);
            lemma_extract_ok(html, i + 1, wrap_flush(st));
        } else {
            lemma_push_ok(st, c);
            lemma_extract_ok(html, i + 1, wrap_push(st, c));
        }
    }
}

/// No line of the text extracted from any HTML document is wider than
/// [`COLS`], whatever part of it fits in the output buffer.
pub proof fn lemma_html_text_lines_fit(html: Seq<u8>, cap: nat)
    ensures
        lines_fit(take_at_most(html_text_spec(html), cap as int), COLS as nat),
{
    let init = wrap_init();
    assert(!init.word.contains(0x0Au8));
    assert forall|k: int| 0 <= k <= init.text.len() implies #[trigger] run_before(init.text, k) <= COLS by {}
    lemma_extract_ok(html, 0, init);
    lemma_flush_ok(extract(html, 0, init));
    let t = html_text_spec(html);
    if cap < t.len() {
        let p = t.subrange(0, cap as int);
        assert(t == p + t.subrange(cap as int, t.len() as int));
        assert forall|k: int| 0 <= k <= p.len() implies #[trigger] run_before(p, k) <= COLS by {
            lemma_run_prefix(p, t.subrange(cap as int, t.len() as int), k);
        }
    }
}

// ---- the address-bar + content model ----

pub open spec fn nl_byte() -> spec_fn(u8) -> bool {
    |c: u8| c == 0x0A
}

/// Number of line feeds in `s`.
pub open spec fn count_nl(s: Seq<u8>) -> nat
    decreases s.len(),
{
    if s.len() == 0 {
        0
    } else {
        count_nl(s.drop_last()) + if s.last() == 0x0A { 1nat } else { 0nat }
    }
}

/// Number of lines of the text `s` (none when it is empty).
pub open spec fn line_count_spec(s: Seq<u8>) -> nat {
    if s.len() == 0 { 0 } else { 1 + count_nl(s) }
}

/// The `idx`-th line of `s[start..]` (lines are split at line feeds).
pub open spec fn line_from(s: Seq<u8>, start: int, idx: nat) -> Option<Seq<u8>>
    decreases s.len() - start,
{
    if start < 0 || start > s.len() {
        None
    } else {
        let e = scan(s, start, nl_byte());
        proof {
            lemma_scan_bounds(s, start, nl_byte());
        }
        if idx == 0 {
            Some(s.subrange(start, e))
        } else if e >= s.len() {
            None
        } else {
            line_from(s, e + 1, (idx - 1) as nat)
        }
    }
}

/// What the browser shows and holds, as plain values.
pub struct BrowserView {
    pub url: Seq<u8>,
    pub caret: nat,
    pub content: Seq<u8>,
    pub status: Status,
    pub pending: bool,
    pub nav: Seq<u8>,
    pub scroll: nat,
}

/// Where ENTER in the address bar navigates: the address itself (with
/// `https://` added when it has no scheme) when it looks like one, else a
/// search for it; cut to [`URL_CAP`] bytes.
pub open spec fn nav_target(url: Seq<u8>) -> Seq<u8> {
    if looks_like_url_spec(url) {
        if starts_ci(url, "http://".spec_bytes()) || starts_ci(url, "https://".spec_bytes()) {
            take_at_most(url, URL_CAP as int)
        } else {
            "https://".spec_bytes() + take_at_most(url, URL_CAP - "https://".spec_bytes().len())
        }
    } else {
        take_at_most(search_prefix() + encoded(url), URL_CAP as int)
    }
}

/// ENTER: a blank address bar does nothing; otherwise a fetch of the
/// navigation target becomes pending and the view scrolls to the top.
pub open spec fn submit_spec(v: BrowserView) -> BrowserView {
    if trim_ws(v.url).len() == 0 {
        v
    } else {
        BrowserView { nav: nav_target(v.url), status: Status::Loading, pending: true, scroll: 0, ..v }
    }
}

/// The effect of a key on the address bar and scroll position, and whether
/// the key was handled.
pub open spec fn key_spec(v: BrowserView, key: Key) -> (BrowserView, bool) {
    match key {
        Key::Char(c) => (
            if v.url.len() < URL_CAP {
                BrowserView { url: v.url.insert(v.caret as int, c), caret: v.caret + 1, ..v }
            } else {
                v
            },
            true,
        ),
        Key::Backspace => (
            if v.caret > 0 {
                BrowserView { url: v.url.remove(v.caret - 1), caret: (v.caret - 1) as nat, ..v }
            } else {
                v
            },
            true,
        ),
        Key::Delete => (if v.caret < v.url.len() { BrowserView { url: v.url.remove(v.caret as int), ..v } } else { v }, true),
        Key::Left => (BrowserView { caret: if v.caret > 0 { (v.caret - 1) as nat } else { 0 }, ..v }, true),
        Key::Right => (BrowserView { caret: if v.caret < v.url.len() { v.caret + 1 } else { v.caret }, ..v }, true),
        Key::Home => (BrowserView { caret: 0, ..v }, true),
        Key::End => (BrowserView { caret: v.url.len(), ..v }, true),
        Key::Up => (BrowserView { scroll: if v.scroll > 0 { (v.scroll - 1) as nat } else { 0 }, ..v }, true),
        Key::Down => (
            BrowserView { scroll: if v.scroll + 1 < line_count_spec(v.content) { v.scroll + 1 } else { v.scroll }, ..v },
            true,
        ),
        Key::Enter => (submit_spec(v), true),
        _ => (v, false),
    }
}

/// Handing out the pending request: it is given once, then cleared.
pub open spec fn take_spec(v: BrowserView) -> (BrowserView, Option<Seq<u8>>) {
    if v.pending {
        (BrowserView { pending: false, ..v }, Some(v.nav))
    } else {
        (v, None)
    }
}

/// The page shown for an HTTP response: its body's text, or a notice when
/// that is empty.
pub open spec fn page_of(resp: Seq<u8>) -> Seq<u8> {
    let t = take_at_most(html_text_spec(http_body_spec(resp)), CONTENT_CAP as int);
    if t.len() == 0 { "(pagina vazia)".spec_bytes() } else { t }
}

pub open spec fn welcome_text() -> Seq<u8> {
    "Bem-vindo ao navegador OSjeff.\nDigite uma URL ou uma busca na barra acima e tecle ENTER.\nUse as setas para rolar a pagina.".spec_bytes()
}

pub open spec fn fail_text() -> Seq<u8> {
    "Falha ao carregar a pagina (sem rede, DNS ou TLS).".spec_bytes()
}

/// The browser app's editable address bar plus the rendered page text and
/// scroll position. The kernel drives networking via
/// [`Browser::take_request`] / [`Browser::load_response`].
pub struct Browser {
    url: Vec<u8>,
    caret: usize,
    content: Vec<u8>,
    status: Status,
    pending: bool,
    nav: Vec<u8>,
    /// First visible text line.
    pub scroll: usize,
}

impl View for Browser {
    type V = BrowserView;

    closed spec fn view(&self) -> BrowserView {
        BrowserView {
            url: self.url@,
            caret: self.caret as nat,
            content: self.content@,
            status: self.status,
            pending: self.pending,
            nav: self.nav@,
            scroll: self.scroll as nat,
        }
    }
}

impl Browser {
    /// The first visible text line.
    pub fn scroll(&self) -> (n: usize)
        ensures
            n == self@.scroll,
    {
        self.scroll
    }

    /// Move the view to text line `n` (no clamping: see `clamp_scroll`).
    pub fn set_scroll(&mut self, n: usize)
        requires
            old(self).wf(),
        ensures
            final(self).wf(),
            final(self)@ == (BrowserView { scroll: n as nat, ..old(self)@ }),
    {
        self.scroll = n;
    }

    /// Buffers within their capacities and the caret inside the address.
    pub closed spec fn wf(&self) -> bool {
        &&& self.url@.len() <= URL_CAP
        &&& self.caret <= self.url@.len()
        &&& self.content@.len() <= CONTENT_CAP
        &&& self.nav@.len() <= URL_CAP
    }

    pub open spec fn wf_view(v: BrowserView) -> bool {
        &&& v.url.len() <= URL_CAP
        &&& v.caret <= v.url.len()
        &&& v.content.len() <= CONTENT_CAP
        &&& v.nav.len() <= URL_CAP
    }

    pub proof fn lemma_wf(&self)
        requires
            self.wf(),
        ensures
            Self::wf_view(self@),
    {
    }

    pub fn new() -> (b: Self)
        ensures
            b.wf(),
            b@.url == "www.bing.com".spec_bytes(),
            b@.caret == b@.url.len(),
            b@.content == welcome_text(),
            b@.status == Status::Idle,
            !b@.pending,
            b@.nav.len() == 0,
            b@.scroll == 0,
    {
        let mut b = Browser {
            url: Vec::new(),
            caret: 0,
            content: crate::bytes::to_vec(
                "Bem-vindo ao navegador OSjeff.\nDigite uma URL ou uma busca na barra acima e tecle ENTER.\nUse as setas para rolar a pagina.".as_bytes(),
            ),
            status: Status::Idle,
            pending: false,
            nav: Vec::new(),
            scroll: 0,
        };
        proof {
            reveal_strlit("Bem-vindo ao navegador OSjeff.\nDigite uma URL ou uma busca na barra acima e tecle ENTER.\nUse as setas para rolar a pagina.");
            assert(vstd::string::is_ascii("Bem-vindo ao navegador OSjeff.\nDigite uma URL ou uma busca na barra acima e tecle ENTER.\nUse as setas para rolar a pagina."));
            reveal_strlit("www.bing.com");
            assert(vstd::string::is_ascii("www.bing.com"));
        }
        b.set_url("www.bing.com".as_bytes());
        b
    }

    fn set_url(&mut self, s: &[u8])
        requires
            old(self).content@.len() <= CONTENT_CAP,
            old(self).nav@.len() <= URL_CAP,
        ensures
            final(self).wf(),
            final(self)@ == (BrowserView { url: take_at_most(s@, URL_CAP as int), caret: take_at_most(s@, URL_CAP as int).len(), ..old(self)@ }),
    {
        self.url = copy_capped(s, 0, s.len(), URL_CAP);
        assert(s@.subrange(0, s@.len() as int) =~= s@);
        self.caret = self.url.len();
    }

    pub fn url(&self) -> (u: &[u8])
        ensures
            u@ == self@.url,
    {
        self.url.as_slice()
    }

    pub fn caret(&self) -> (c: usize)
        ensures
            c == self@.caret,
    {
        self.caret
    }

    pub fn status(&self) -> (s: Status)
        ensures
            s == self@.status,
    {
        self.status
    }

    pub fn content(&self) -> (c: &[u8])
        ensures
            c@ == self@.content,
    {
        self.content.as_slice()
    }

    /// Number of wrapped text lines in the current content.
    pub fn line_count(&self) -> (n: usize)
        requires
            self.wf(),
        ensures
            n == line_count_spec(self@.content),
    {
        let len = self.content.len();
        if len == 0 {
            return 0;
        }
        let mut cnt: usize = 0;
        let mut i: usize = 0;
        assert(self.content@.subrange(0, 0) =~= Seq::<u8>::empty());
        while i < len
            invariant
                len == self.content@.len(),
                len <= CONTENT_CAP,
                i <= len,
                cnt == count_nl(self.content@.subrange(0, i as int)),
                cnt <= i,
            decreases len - i,
        {
            assert(self.content@.subrange(0, i + 1).drop_last() =~= self.content@.subrange(0, i as int));
            if self.content[i] == 0x0A {
                cnt += 1;
            }
            i += 1;
        }
        assert(self.content@.subrange(0, len as int) =~= self.content@);
        1 + cnt
    }

    /// The `idx`-th wrapped line (without the trailing newline), or `None`.
    pub fn line(&self, idx: usize) -> (l: Option<&[u8]>)
        ensures
            match l {
                Some(t) => line_from(self@.content, 0, idx as nat) == Some(t@),
                None => line_from(self@.content, 0, idx as nat) is None,
            },
    {
        let n = self.content.len();
        let mut start: usize = 0;
        let mut k: usize = 0;
        while k <= idx
            invariant
                n == self.content@.len(),
                start <= n,
                k <= idx,
                line_from(self.content@, 0, idx as nat) == line_from(self.content@, start as int, (idx - k) as nat),
            decreases n - start,
        {
            let mut e = start;
            while e < n && self.content[e] != 0x0A
                invariant
                    n == self.content@.len(),
                    start <= e <= n,
                    scan(self.content@, start as int, nl_byte()) == scan(self.content@, e as int, nl_byte()),
                decreases n - e,
            {
                e += 1;
            }
            if k == idx {
                return Some(&self.content[start..e]);
            }
            if e >= n {
                return None;
            }
            start = e + 1;
            k += 1;
        }
        None
    }

    /// Handle a key while the address bar has focus. Returns `true` if anything
    /// changed (so the caller repaints). ENTER submits a navigation/search.
    pub fn on_key(&mut self, key: Key) -> (changed: bool)
        requires
            old(self).wf(),
        ensures
            final(self).wf(),
            (final(self)@, changed) == key_spec(old(self)@, key),
    {
        match key {
            Key::Char(c) => {
                if self.url.len() < URL_CAP {
                    self.url.insert(self.caret, c);
                    self.caret += 1;
                }
                true
            },
            Key::Backspace => {
                if self.caret > 0 {
                    self.url.remove(self.caret - 1);
                    self.caret -= 1;
                }
                true
            },
            Key::Delete => {
                if self.caret < self.url.len() {
                    self.url.remove(self.caret);
                }
                true
            },
            Key::Left => {
                if self.caret > 0 {
                    self.caret -= 1;
                }
                true
            },
            Key::Right => {
                if self.caret < self.url.len() {
                    self.caret += 1;
                }
                true
            },
            Key::Home => {
                self.caret = 0;
                true
            },
            Key::End => {
                self.caret = self.url.len();
                true
            },
            Key::Up => {
                if self.scroll > 0 {
                    self.scroll -= 1;
                }
                true
            },
            Key::Down => {
                let lines = self.line_count();
                if lines > 0 && self.scroll < lines - 1 {
                    self.scroll += 1;
                }
                true
            },
            Key::Enter => {
                self.submit();
                true
            },
            _ => false,
        }
    }

    /// Resolve the address bar into a navigation target and mark a fetch pending.
    pub fn submit(&mut self)
        requires
            old(self).wf(),
        ensures
            final(self).wf(),
            final(self)@ == submit_spec(old(self)@),
    {
        let input = self.url.as_slice();
        if trimmed(input).len() == 0 {
            return;
        }
        let https_pre = "https://".as_bytes();
        proof {
            reveal_strlit("https://");
            assert(vstd::string::is_ascii("https://"));
        }
        let nav = if looks_like_url(input) {
            if starts_with_ci(input, "http://".as_bytes()) || starts_with_ci(input, https_pre) {
                copy_capped(input, 0, input.len(), URL_CAP)
            } else {
                let mut v = crate::bytes::to_vec(https_pre);
                let tail = copy_capped(input, 0, input.len(), URL_CAP - https_pre.len());
                crate::bytes::push_all(&mut v, tail.as_slice());
                v
            }
        } else {
            search_url(input, URL_CAP)
        };
        assert(input@.subrange(0, input@.len() as int) =~= input@);
        self.nav = nav;
        self.status = Status::Loading;
        self.pending = true;
        self.scroll = 0;
    }

    /// Pull a pending navigation target (clears the pending flag). The kernel
    /// fetches it and reports back with [`Browser::load_response`] / [`Browser::fail`].
    pub fn take_request(&mut self) -> (r: Option<&[u8]>)
        requires
            old(self).wf(),
        ensures
            final(self).wf(),
            final(self)@ == take_spec(old(self)@).0,
            match r {
                Some(n) => take_spec(old(self)@).1 == Some(n@),
                None => take_spec(old(self)@).1 is None,
            },
    {
        if self.pending {
            self.pending = false;
            Some(self.nav.as_slice())
        } else {
            None
        }
    }

    /// Replace the page with text extracted from a raw HTTP response.
    pub fn load_response(&mut self, resp: &[u8])
        requires
            old(self).wf(),
        ensures
            final(self).wf(),
            final(self)@ == (BrowserView { content: page_of(resp@), status: Status::Done, scroll: 0, ..old(self)@ }),
    {
        let body = http_body(resp);
        let text = html_text(body, CONTENT_CAP);
        if text.len() == 0 {
            let msg = "(pagina vazia)".as_bytes();
            proof {
                reveal_strlit("(pagina vazia)");
                assert(vstd::string::is_ascii("(pagina vazia)"));
            }
            self.content = crate::bytes::to_vec(msg);
        } else {
            self.content = text;
        }
        self.status = Status::Done;
        self.scroll = 0;
    }

    /// Mark the current fetch as failed and show a message.
    pub fn fail(&mut self)
        requires
            old(self).wf(),
        ensures
            final(self).wf(),
            final(self)@ == (BrowserView { content: fail_text(), status: Status::Error, scroll: 0, ..old(self)@ }),
    {
        let msg = "Falha ao carregar a pagina (sem rede, DNS ou TLS).".as_bytes();
        proof {
            reveal_strlit("Falha ao carregar a pagina (sem rede, DNS ou TLS).");
            assert(vstd::string::is_ascii("Falha ao carregar a pagina (sem rede, DNS ou TLS)."));
        }
        self.content = crate::bytes::to_vec(msg);
        self.status = Status::Error;
        self.scroll = 0;
    }

    /// Clamp scroll so at least one line stays on screen for a viewport of
    /// `visible` lines.
    pub fn clamp_scroll(&mut self, visible: usize)
        requires
            old(self).wf(),
        ensures
            final(self).wf(),
            ({
                let lines = line_count_spec(old(self)@.content);
                let max = if lines > (if visible > 1 { visible as nat } else { 1 }) {
                    lines - (if visible > 1 { visible as nat } else { 1 })
                } else {
                    0
                };
                final(self)@ == (BrowserView {
                    scroll: if old(self)@.scroll > max { max as nat } else { old(self)@.scroll },
                    ..old(self)@
                })
            }),
    {
        let lines = self.line_count();
        let v = if visible > 1 { visible } else { 1 };
        let max = if lines > v { lines - v } else { 0 };
        if self.scroll > max {
            self.scroll = max;
        }
    }
}

impl Default for Browser {
    fn default() -> (b: Self)
        ensures
            b.wf(),
            b@.url == "www.bing.com".spec_bytes(),
            b@.caret == b@.url.len(),
            b@.content == welcome_text(),
            b@.status == Status::Idle,
            !b@.pending,
            b@.nav.len() == 0,
            b@.scroll == 0,
    {
        Self::new()
    }
}

/// Typing a byte into a non-full address bar and then pressing BACKSPACE
/// gives back the address and caret as they were.
pub proof fn lemma_backspace_undoes_char(v: BrowserView, c: u8)
    requires
        Browser::wf_view(v),
        v.url.len() < URL_CAP,
    ensures
        key_spec(key_spec(v, Key::Char(c)).0, Key::Backspace).0 == v,
{
    let t = key_spec(v, Key::Char(c)).0;
    assert(t.url.remove(v.caret as int) =~= v.url);
}

/// A pending request is handed out once: taking again gives nothing.
pub proof fn lemma_take_once(v: BrowserView)
    ensures
        take_spec(take_spec(v).0).1 is None,
{
}

proof fn lemma_count_nl_concat(a: Seq<u8>, b: Seq<u8>)
    ensures
        count_nl(a + b) == count_nl(a) + count_nl(b),
    decreases b.len(),
{
    if b.len() > 0 {
        assert((a + b).drop_last() =~= a + b.drop_last());
        lemma_count_nl_concat(a, b.drop_last());
    } else {
        assert(a + b =~= a);
    }
}

proof fn lemma_count_nl_none(s: Seq<u8>)
    requires
        forall|k: int| 0 <= k < s.len() ==> s[k] != 0x0A,
    ensures
        count_nl(s) == 0,
    decreases s.len(),
{
    if s.len() > 0 {
        lemma_count_nl_none(s.drop_last());
    }
}

proof fn lemma_line_from_some(s: Seq<u8>, start: int, idx: nat)
    requires
        0 <= start <= s.len(),
    ensures
        line_from(s, start, idx) is Some <==> idx <= count_nl(s.subrange(start, s.len() as int)),
    decreases s.len() - start,
{
    let e = scan(s, start, nl_byte());
    lemma_scan_bounds(s, start, nl_byte());
    let head = s.subrange(start, e);
    assert forall|k: int| 0 <= k < head.len() implies head[k] != 0x0A by {
        assert(head[k] == s[start + k]);
        assert(!nl_byte()(s[start + k]));
    }
    lemma_count_nl_none(head);
    if e >= s.len() {
        assert(head =~= s.subrange(start, s.len() as int));
    } else {
        let tail = s.subrange(e + 1, s.len() as int);
        assert(s.subrange(start, s.len() as int) =~= head + seq![0x0Au8] + tail);
        lemma_count_nl_concat(head + seq![0x0Au8], tail);
        lemma_count_nl_concat(head, seq![0x0Au8]);
        assert(seq![0x0Au8].drop_last() =~= Seq::<u8>::empty());
        assert(count_nl(seq![0x0Au8]) == 1) by {
            reveal_with_fuel(count_nl, 2);
        }
        assert(count_nl(s.subrange(start, s.len() as int)) == 1 + count_nl(tail));
        if idx > 0 {
            lemma_line_from_some(s, e + 1, (idx - 1) as nat);
            assert(line_from(s, start, idx) == line_from(s, e + 1, (idx - 1) as nat));
        }
    }
}

/// Lines of a non-empty page are numbered `0..line_count`: asking for line
/// `idx` gives one exactly when `idx` is below the line count.
pub proof fn lemma_lines_numbered(s: Seq<u8>, idx: nat)
    requires
        s.len() > 0,
    ensures
        line_from(s, 0, idx) is Some <==> idx < line_count_spec(s),
{
    lemma_line_from_some(s, 0, idx);
    assert(s.subrange(0, s.len() as int) =~= s);
}

} // verus!
