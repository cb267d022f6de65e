//! Wall-clock time from the CMOS RTC registers: BCD and 12-hour decoding.
use vstd::prelude::*;

verus! {

/// A time of day, UTC.
#[derive(Clone, Copy, PartialEq, Eq, Debug, Structural)]
pub struct Time {
    pub h: u8,
    pub m: u8,
    pub s: u8,
}

/// The binary value of a two-digit BCD byte.
pub open spec fn bcd(v: u8) -> int {
    v % 16 + (v / 16) * 10
}

/// The hour register in BCD: the PM flag (bit 7) is kept, the two digits
/// below it are decoded.
pub open spec fn bcd_hour(h: u8) -> int {
    h % 16 + ((h / 16) % 8) * 10 + if h >= 0x80 { 0x80int } else { 0 }
}

/// A 12-hour register value (PM in bit 7) as a 24-hour hour.
pub open spec fn hour_24(h: int) -> int {
    let pm = h >= 0x80;
    let v = h % 128;
    if pm && v != 12 {
        v + 12
    } else if !pm && v == 12 {
        0
    } else {
        v
    }
}

/// The time the RTC registers give: BCD unless register B bit 2 says binary,
/// 12-hour unless register B bit 1 says 24-hour.
pub open spec fn rtc_time(s: u8, m: u8, h: u8, regb: u8) -> (int, int, int) {
    let binary = (regb / 4) % 2 == 1;
    let h24 = (regb / 2) % 2 == 1;
    let (s1, m1, h1) = if binary { (s as int, m as int, h as int) } else { (bcd(s), bcd(m), bcd_hour(h)) };
    (s1, m1, if h24 { h1 } else { hour_24(h1) })
}

proof fn lemma_bits(v: u8)
    ensures
        (v & 0x0F) as int == v % 16,
        (v >> 4u8) as int == v / 16,
        ((v & 0x70) >> 4u8) as int == (v / 16) % 8,
        ((v & 0x80) != 0) == (v >= 0x80),
        (v & 0x7F) as int == v % 128,
        ((v & 0x04) == 0) == ((v / 4) % 2 == 0),
        ((v & 0x02) == 0) == ((v / 2) % 2 == 0),
{
    assert((v & 0x0F) == v % 16) by (bit_vector);
    assert((v >> 4u8) == v / 16) by (bit_vector);
    assert(((v & 0x70) >> 4u8) == (v / 16) % 8) by (bit_vector);
    assert(((v & 0x80) != 0) == (v >= 0x80)) by (bit_vector);
    assert((v & 0x7F) == v % 128) by (bit_vector);
    assert(((v & 0x04) == 0) == ((v / 4) % 2 == 0)) by (bit_vector);
    assert(((v & 0x02) == 0) == ((v / 2) % 2 == 0)) by (bit_vector);
}

proof fn lemma_or_pm(v: u8)
    requires
        v < 0x80,
    ensures
        (v | 0x80) as int == v + 0x80,
        (v | 0) == v,
{
    assert((v | 0x80) == v + 0x80) by (bit_vector)
        requires
            v < 0x80,
    ;
    assert((v | 0) == v) by (bit_vector);
}

/// Decode raw RTC registers (seconds, minutes, hours, status register B)
/// into a time of day. Handles BCD and 12h formats per register B.
pub fn convert(s: u8, m: u8, h: u8, regb: u8) -> (t: Time)
    ensures
        (t.s as int, t.m as int, t.h as int) == rtc_time(s, m, h, regb),
{
    proof {
        lemma_bits(s);
        lemma_bits(m);
        lemma_bits(h);
        lemma_bits(regb);
    }
    let mut s = s;
    let mut m = m;
    let mut h = h;
    if regb & 0x04 == 0 {
        s = (s & 0x0F) + (s >> 4) * 10;
        m = (m & 0x0F) + (m >> 4) * 10;
        let pm = h & 0x80 != 0;
        let v = (h & 0x0F) + ((h & 0x70) >> 4) * 10;
        proof {
            lemma_or_pm(v);
        }
        h = v | (if pm { 0x80 } else { 0 });
    }
    if regb & 0x02 == 0 {
        proof {
            lemma_bits(h);
        }
        let pm = h & 0x80 != 0;
        h = h & 0x7F;
        if pm && h != 12 {
            h = h + 12;
        } else if !pm && h == 12 {
            h = 0;
        }
    }
    Time { h, m, s }
}

} // verus!
