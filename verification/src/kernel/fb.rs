//! Colour arithmetic for the framebuffer.
use vstd::prelude::*;

verus! {

#[derive(Clone, Copy, PartialEq, Eq, Debug, Structural)]
pub struct Color {
    pub r: u8,
    pub g: u8,
    pub b: u8,
}

/// One channel of a blend: `t` parts in 255 of `b`, the rest of `a`, rounded down.
pub open spec fn mix_spec(a: u8, b: u8, t: u16) -> u8 {
    ((a * (255 - t) + b * t) / 255) as u8
}

fn mix(a: u8, b: u8, t: u16) -> (m: u8)
    requires
        t <= 255,
    ensures
        m == mix_spec(a, b, t),
{
    let a = a as u16;
    let b = b as u16;
    assert(a * (255 - t) + b * t <= 255 * 255) by (nonlinear_arith)
        requires
            a <= 255,
            b <= 255,
            t <= 255,
    ;
    assert((a * (255 - t) + b * t) / 255 <= 255) by (nonlinear_arith)
        requires
            a * (255 - t) + b * t <= 255 * 255,
    ;
    ((a * (255 - t) + b * t) / 255) as u8
}

impl Color {
    pub fn rgb(r: u8, g: u8, b: u8) -> (c: Self)
        ensures
            c == (Color { r, g, b }),
    {
        Color { r, g, b }
    }

    /// Linear blend between `self` and `other`. `t` in 0..=255 (0 = self).
    pub fn lerp(self, other: Color, t: u16) -> (c: Color)
        requires
            t <= 255,
        ensures
            c == (Color { r: mix_spec(self.r, other.r, t), g: mix_spec(self.g, other.g, t), b: mix_spec(self.b, other.b, t) }),
    {
        Color::rgb(mix(self.r, other.r, t), mix(self.g, other.g, t), mix(self.b, other.b, t))
    }
}

/// A blend at either end is that end's colour.
pub proof fn lemma_lerp_ends(a: u8, b: u8)
    ensures
        mix_spec(a, b, 0) == a,
        mix_spec(a, b, 255) == b,
{
    assert((a * 255) / 255 == a as int) by (nonlinear_arith);
    assert((b * 255) / 255 == b as int) by (nonlinear_arith);
}

/// Integer square root, rounded down. Used to inset rounded-rectangle rows.
pub fn isqrt(n: usize) -> (r: usize)
    ensures
        r * r <= n,
        n < (r + 1) * (r + 1),
{
    if n == 0 {
        return 0;
    }
    let n64 = n as u64;
    // Bisection on [lo, hi): lo * lo <= n < hi * hi.
    let mut lo: u64 = 1;
    let mut hi: u64 = if n64 < 0xFFFF_FFFF { n64 + 1 } else { 0x1_0000_0000 };
    assert(n < hi as int * hi as int) by (nonlinear_arith)
        requires
            n >= 1,
            n == n64,
            hi == (if n64 < 0xFFFF_FFFF { n64 + 1 } else { 0x1_0000_0000 }),
            n64 <= 0xFFFF_FFFF_FFFF_FFFF,
    ;
    while hi - lo > 1
        invariant
            1 <= lo < hi <= 0x1_0000_0000,
            n == n64,
            lo * lo <= n,
            n < hi * hi,
        decreases hi - lo,
    {
        let mid = lo + (hi - lo) / 2;
        assert(mid as int * mid as int <= 0x1_0000_0000 * 0x1_0000_0000) by (nonlinear_arith)
            requires
                mid <= 0x1_0000_0000,
        ;
        let sq = (mid as u128) * (mid as u128);
        if sq <= n64 as u128 {
            lo = mid;
        } else {
            hi = mid;
        }
    }
    assert(hi == lo + 1);
    assert(lo <= n) by (nonlinear_arith)
        requires
            lo >= 1,
            lo * lo <= n,
    ;
    lo as usize
}

} // verus!
