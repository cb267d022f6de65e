//! `plasma`: an animated interference pattern computed into the app's own
//! RGBA image each frame. Space shifts the palette, Enter cycles the speed,
//! and a click shifts the palette by the click's column.
use crate::kernel::canvas::{byte_at, lemma_earlier_pixel, FbInfo, PixelFormat};
use vstd::prelude::*;

verus! {

/// Image width in pixels.
pub const W: usize = 320;
/// Image height in pixels.
pub const H: usize = 180;

/// The palette offset and the animation's time divisor.
#[derive(Clone, Copy, PartialEq, Eq, Debug, Structural)]
pub struct Plasma {
    pub shift: u32,
    pub speed: u32,
}

/// The RGBA bytes of pixel `(x, y)` at animation phase `phase`.
pub open spec fn plasma_px(x: u32, y: u32, phase: u32, shift: u32) -> Seq<u8> {
    let a = x.wrapping_mul(x).wrapping_add(y.wrapping_mul(y));
    let b = x.wrapping_add(y).wrapping_add(phase);
    let v = a.wrapping_add(phase).wrapping_add(shift);
    seq![v as u8, b as u8, (v.wrapping_add(b) >> 1u32) as u8, 255u8]
}

/// The animation phase at time `t` (milliseconds).
pub open spec fn phase_spec(t: u32, speed: u32) -> u32 {
    (t / (if speed > 1 { speed } else { 1 })) as u32
}

/// The layout of the image: `W` pixels a row, four bytes each.
pub open spec fn image_info() -> FbInfo {
    FbInfo { width: W, height: H, stride: W, bytes_per_pixel: 4, pixel_format: PixelFormat::Unknown }
}

impl Plasma {
    pub fn new() -> (p: Self)
        ensures
            p == (Plasma { shift: 0, speed: 16 }),
    {
        Plasma { shift: 0, speed: 16 }
    }

    /// Space moves the palette on by 48; Enter steps the speed divisor
    /// 4, 12, ... up past 40 and back to 4; other keys do nothing.
    pub fn on_key(&mut self, code: i32)
        ensures
            *final(self) == (if code == 32 {
                Plasma { shift: old(self).shift.wrapping_add(48), ..*old(self) }
            } else if code == 10 {
                Plasma { speed: if old(self).speed >= 40 { 4 } else { (old(self).speed + 8) as u32 }, ..*old(self) }
            } else {
                *old(self)
            }),
    {
        if code == 32 {
            self.shift = self.shift.wrapping_add(48);
        } else if code == 10 {
            self.speed = if self.speed >= 40 { 4 } else { self.speed + 8 };
        }
    }

    /// A click (any button) moves the palette on by twice its column.
    pub fn on_pointer(&mut self, x: i32, y: i32, buttons: i32)
        ensures
            *final(self) == (if buttons != 0 {
                Plasma {
                    shift: old(self).shift.wrapping_add((if x > 0 { x as u32 } else { 0u32 }).wrapping_mul(2)),
                    ..*old(self)
                }
            } else {
                *old(self)
            }),
    {
        if buttons != 0 {
            let cx: u32 = if x > 0 { x as u32 } else { 0 };
            self.shift = self.shift.wrapping_add(cx.wrapping_mul(2));
        }
    }

    /// The image at time `t`: pixel `(x, y)`'s four bytes at
    /// `(y * W + x) * 4`.
    pub fn frame(&self, t: u32) -> (img: Vec<u8>)
        ensures
            img@.len() == W * H * 4,
            forall|x: int, y: int, j: int|
                0 <= x < W && 0 <= y < H && 0 <= j < 4 ==> #[trigger] img@[byte_at(image_info(), x, y, j)]
                    == plasma_px(x as u32, y as u32, phase_spec(t, self.speed), self.shift)[j],
    {
        let speed = if self.speed > 1 { self.speed } else { 1 };
        let phase = t / speed;
        let shift = self.shift;
        let mut img: Vec<u8> = Vec::new();
        let ghost info = image_info();
        let mut y: u32 = 0;
        while (y as usize) < H
            invariant
                y as usize <= H,
                phase == phase_spec(t, self.speed),
                shift == self.shift,
                info == image_info(),
                img@.len() == (y * W) * 4,
                forall|xx: int, yy: int, j: int|
                    0 <= xx < W && 0 <= yy < y && 0 <= j < 4 ==> #[trigger] img@[byte_at(info, xx, yy, j)]
                        == plasma_px(xx as u32, yy as u32, phase, shift)[j],
            decreases H - y,
        {
            let mut x: u32 = 0;
            while (x as usize) < W
                invariant
                    x as usize <= W,
                    (y as usize) < H,
                    phase == phase_spec(t, self.speed),
                    shift == self.shift,
                    info == image_info(),
                    img@.len() == (y * W + x) * 4,
                    forall|xx: int, yy: int, j: int|
                        0 <= xx < W && 0 <= yy && 0 <= j < 4 && (yy < y || (yy == y && xx < x))
                            ==> #[trigger] img@[byte_at(info, xx, yy, j)] == plasma_px(xx as u32, yy as u32, phase, shift)[j],
                decreases W - x,
            {
                let a = x.wrapping_mul(x).wrapping_add(y.wrapping_mul(y));
                let b = x.wrapping_add(y).wrapping_add(phase);
                let v = a.wrapping_add(phase).wrapping_add(shift);
                let ghost before = img@;
                img.push(v as u8);
                img.push(b as u8);
                img.push((v.wrapping_add(b) >> 1u32) as u8);
                img.push(255);
                proof {
                    assert(byte_at(info, x as int, y as int, 0) == before.len());
                    assert forall|xx: int, yy: int, j: int|
                        0 <= xx < W && 0 <= yy && 0 <= j < 4 && (yy < y || (yy == y && xx < x + 1)) implies #[trigger] img@[byte_at(info, xx, yy, j)]
                            == plasma_px(xx as u32, yy as u32, phase, shift)[j] by {
                        if !(xx == x && yy == y) {
                            lemma_earlier_pixel(info, xx, yy, x as int, y as int);
                        }
                    }
                }
                x += 1;
            }
            proof {
                assert((y + 1) * W == y * W + W) by (nonlinear_arith);
            }
            y += 1;
        }
        assert(H * W == W * H) by (nonlinear_arith);
        img
    }
}

} // verus!
