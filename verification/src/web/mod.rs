//! A minimal HTML + CSS rendering engine (box model). Pipeline: HTML bytes
//! -> DOM tree -> (user-agent + page CSS) -> styled tree -> block layout
//! with inline text flow -> a flat display list of rectangles and text runs.
//! The kernel rasterizes that display list to the framebuffer.

pub mod css;
pub mod dom;
pub mod layout;
pub mod style;
pub mod text;



use vstd::prelude::*;
use vstd::string::StringSliceAdditionalSpecFns;
use crate::browser::{all_digits, digits_value, lemma_digits_step};
use crate::bytes::bytes_eq;
use self::text::{lower_seq, split, split_spec, to_lower, trim, trim_str};

verus! {

/// An 8-bit RGB color.
#[derive(Clone, Copy, PartialEq, Eq, Debug, Structural)]
pub struct Rgb(pub u8, pub u8, pub u8);

impl Rgb {
    pub fn new(r: u8, g: u8, b: u8) -> (c: Self)
        ensures
            c == Rgb(r, g, b),
    {
        Rgb(r, g, b)
    }
}

/// Value of one hexadecimal digit.
pub open spec fn hex_val(c: u8) -> Option<u8> {
    if 0x30 <= c <= 0x39 {
        Some((c - 0x30) as u8)
    } else if 0x61 <= c <= 0x66 {
        Some((c - 0x57) as u8)
    } else if 0x41 <= c <= 0x46 {
        Some((c - 0x37) as u8)
    } else {
        None
    }
}

/// `u8::from_str_radix(s, 16)` for one or two bytes (a leading `+` is allowed).
pub open spec fn radix16(s: Seq<u8>) -> Option<u8> {
    if s.len() == 1 {
        hex_val(s[0])
    } else if s.len() == 2 {
        if s[0] == 0x2B {
            hex_val(s[1])
        } else {
            match (hex_val(s[0]), hex_val(s[1])) {
                (Some(a), Some(b)) => Some((a * 16 + b) as u8),
                _ => None,
            }
        }
    } else {
        None
    }
}

/// `str::parse::<u8>`: an optional `+`, then decimal digits worth at most 255.
pub open spec fn parse_u8_spec(s: Seq<u8>) -> Option<u8> {
    let d = if s.len() > 0 && s[0] == 0x2B { s.subrange(1, s.len() as int) } else { s };
    if d.len() == 0 || !all_digits(d) || digits_value(d) > 255 {
        None
    } else {
        Some(digits_value(d) as u8)
    }
}

/// The named colors the engine knows, by lower-case name.
pub open spec fn named_color(n: Seq<u8>) -> Option<Rgb> {
    if n == "black".spec_bytes() {
        Some(Rgb(0, 0, 0))
    } else if n == "white".spec_bytes() {
        Some(Rgb(255, 255, 255))
    } else if n == "red".spec_bytes() {
        Some(Rgb(0xD3, 0x2F, 0x2F))
    } else if n == "green".spec_bytes() {
        Some(Rgb(0x2E, 0x7D, 0x32))
    } else if n == "blue".spec_bytes() {
        Some(Rgb(0x15, 0x65, 0xC0))
    } else if n == "navy".spec_bytes() {
        Some(Rgb(0x0D, 0x47, 0xA1))
    } else if n == "gray".spec_bytes() || n == "grey".spec_bytes() {
        Some(Rgb(0x75, 0x75, 0x75))
    } else if n == "silver".spec_bytes() {
        Some(Rgb(0xC0, 0xC0, 0xC0))
    } else if n == "orange".spec_bytes() {
        Some(Rgb(0xF5, 0x7C, 0x00))
    } else if n == "teal".spec_bytes() {
        Some(Rgb(0x00, 0x80, 0x80))
    } else {
        None
    }
}

/// What [`parse_color`] gives for the bytes of `s`: `#rgb` (each digit
/// doubled), `#rrggbb`, `rgb(r,g,b)` with decimal parts, or a named color.
pub open spec fn parse_color_spec(s: Seq<u8>) -> Option<Rgb> {
    let t = trim_str(s);
    if t.len() >= 1 && t[0] == 0x23 {
        let hex = t.subrange(1, t.len() as int);
        if hex.len() == 3 {
            match (radix16(hex.subrange(0, 1)), radix16(hex.subrange(1, 2)), radix16(hex.subrange(2, 3))) {
                (Some(r), Some(g), Some(b)) => Some(Rgb((r * 17) as u8, (g * 17) as u8, (b * 17) as u8)),
                _ => None,
            }
        } else if hex.len() == 6 {
            match (radix16(hex.subrange(0, 2)), radix16(hex.subrange(2, 4)), radix16(hex.subrange(4, 6))) {
                (Some(r), Some(g), Some(b)) => Some(Rgb(r, g, b)),
                _ => None,
            }
        } else {
            None
        }
    } else if t.len() >= 5 && t.subrange(0, 4) == "rgb(".spec_bytes() && t[t.len() - 1] == 0x29 {
        let parts = split_spec(t.subrange(4, t.len() - 1), 0x2C);
        if parts.len() >= 3 {
            match (
                parse_u8_spec(trim_str(parts[0])),
                parse_u8_spec(trim_str(parts[1])),
                parse_u8_spec(trim_str(parts[2])),
            ) {
                (Some(r), Some(g), Some(b)) => Some(Rgb(r, g, b)),
                _ => None,
            }
        } else {
            None
        }
    } else {
        named_color(lower_seq(t))
    }
}

fn hex_digit_value(c: u8) -> (r: Option<u8>)
    ensures
        r == hex_val(c),
{
    if 0x30 <= c && c <= 0x39 {
        Some(c - 0x30)
    } else if 0x61 <= c && c <= 0x66 {
        Some(c - 0x57)
    } else if 0x41 <= c && c <= 0x46 {
        Some(c - 0x37)
    } else {
        None
    }
}

fn from_radix16(s: &[u8]) -> (r: Option<u8>)
    ensures
        r == radix16(s@),
{
    if s.len() == 1 {
        hex_digit_value(s[0])
    } else if s.len() == 2 {
        if s[0] == 0x2B {
            hex_digit_value(s[1])
        } else {
            match (hex_digit_value(s[0]), hex_digit_value(s[1])) {
                (Some(a), Some(b)) => Some(a * 16 + b),
                _ => None,
            }
        }
    } else {
        None
    }
}

/// `str::parse::<u8>` on ASCII text.
pub fn parse_u8(s: &[u8]) -> (r: Option<u8>)
    ensures
        r == parse_u8_spec(s@),
{
    let d = if s.len() > 0 && s[0] == 0x2B { &s[1..s.len()] } else { s };
    let n = d.len();
    if n == 0 {
        return None;
    }
    let mut v: u32 = 0;
    let mut k: usize = 0;
    let mut digits = true;
    assert(d@.subrange(0, 0) =~= Seq::<u8>::empty());
    while k < n && digits
        invariant
            n == d@.len(),
            k <= n,
            digits ==> all_digits(d@.subrange(0, k as int)),
            !digits ==> !all_digits(d@),
            v <= 2569,
            v <= 255 ==> v == digits_value(d@.subrange(0, k as int)),
            v > 255 ==> digits_value(d@.subrange(0, k as int)) > 255,
        decreases n - k + (if digits { 1int } else { 0int }),
    {
        let c = d[k];
        if c < 0x30 || c > 0x39 {
            assert(d@[k as int] == c);
            digits = false;
        } else {
            proof {
                lemma_digits_step(d@, 0, k as int);
                assert(d@.subrange(0, k + 1) =~= d@.subrange(0, k as int).push(c));
            }
            if v <= 255 {
                v = v * 10 + (c - 0x30) as u32;
            }
            k += 1;
        }
    }
    if !digits {
        return None;
    }
    assert(d@.subrange(0, n as int) =~= d@);
    if v > 255 {
        None
    } else {
        Some(v as u8)
    }
}

fn named(n: &[u8]) -> (r: Option<Rgb>)
    ensures
        r == named_color(n@),
{
    if bytes_eq(n, "black".as_bytes()) {
        Some(Rgb(0, 0, 0))
    } else if bytes_eq(n, "white".as_bytes()) {
        Some(Rgb(255, 255, 255))
    } else if bytes_eq(n, "red".as_bytes()) {
        Some(Rgb(0xD3, 0x2F, 0x2F))
    } else if bytes_eq(n, "green".as_bytes()) {
        Some(Rgb(0x2E, 0x7D, 0x32))
    } else if bytes_eq(n, "blue".as_bytes()) {
        Some(Rgb(0x15, 0x65, 0xC0))
    } else if bytes_eq(n, "navy".as_bytes()) {
        Some(Rgb(0x0D, 0x47, 0xA1))
    } else if bytes_eq(n, "gray".as_bytes()) || bytes_eq(n, "grey".as_bytes()) {
        Some(Rgb(0x75, 0x75, 0x75))
    } else if bytes_eq(n, "silver".as_bytes()) {
        Some(Rgb(0xC0, 0xC0, 0xC0))
    } else if bytes_eq(n, "orange".as_bytes()) {
        Some(Rgb(0xF5, 0x7C, 0x00))
    } else if bytes_eq(n, "teal".as_bytes()) {
        Some(Rgb(0x00, 0x80, 0x80))
    } else {
        None
    }
}

/// Parse a CSS color held in bytes.
pub fn parse_color_bytes(s: &[u8]) -> (r: Option<Rgb>)
    ensures
        r == parse_color_spec(s@),
{
    let t = trim(s);
    let n = t.len();
    if n >= 1 && t[0] == 0x23 {
        let hex = &t[1..n];
        assert(hex@ == t@.subrange(1, n as int));
        if hex.len() == 3 {
            match (from_radix16(&hex[0..1]), from_radix16(&hex[1..2]), from_radix16(&hex[2..3])) {
                (Some(r), Some(g), Some(b)) => Some(Rgb(r * 17, g * 17, b * 17)),
                _ => None,
            }
        } else if hex.len() == 6 {
            match (from_radix16(&hex[0..2]), from_radix16(&hex[2..4]), from_radix16(&hex[4..6])) {
                (Some(r), Some(g), Some(b)) => Some(Rgb(r, g, b)),
                _ => None,
            }
        } else {
            None
        }
    } else if n >= 5 && bytes_eq(&t[0..4], "rgb(".as_bytes()) && t[n - 1] == 0x29 {
        let parts = split(&t[4..n - 1], 0x2C);
        if parts.len() >= 3 {
            assert(parts[0]@ == parts.deep_view()[0]);
            assert(parts[1]@ == parts.deep_view()[1]);
            assert(parts[2]@ == parts.deep_view()[2]);
            match (
                parse_u8(trim(parts[0].as_slice())),
                parse_u8(trim(parts[1].as_slice())),
                parse_u8(trim(parts[2].as_slice())),
            ) {
                (Some(r), Some(g), Some(b)) => Some(Rgb(r, g, b)),
                _ => None,
            }
        } else {
            None
        }
    } else {
        let lower = to_lower(t);
        named(lower.as_slice())
    }
}

/// Parse a CSS color: `#rgb`, `#rrggbb`, `rgb(r,g,b)`, or a small set of named
/// colors. Returns `None` on anything unrecognized.
pub fn parse_color(s: &str) -> (r: Option<Rgb>)
    ensures
        r == parse_color_spec(s.spec_bytes()),
{
    parse_color_bytes(s.as_bytes())
}

} // verus!
