//! Compositor metrics (frame time, worst frame, frames per second) and the
//! text of the on-screen HUD. The TSC calibration and the drawing are done
//! by the kernel.
use vstd::prelude::*;
use crate::bytes::splice;
use crate::window::Rect;

verus! {

/// HUD panel size.
pub const HUD_W: i32 = 212;
pub const HUD_H: i32 = 60;

/// Rolling compositor metrics.
pub struct Perf {
    /// TSC cycles per millisecond.
    pub khz: u64,
    /// Last render duration, microseconds.
    pub frame_us: u64,
    /// Worst render this second.
    pub max_us: u64,
    /// Renders in the last full second.
    pub fps: u32,
    /// Renders so far in this second.
    pub count: u32,
}

pub struct PerfView {
    pub khz: u64,
    pub frame_us: u64,
    pub max_us: u64,
    pub fps: u32,
    pub count: u32,
}

impl View for Perf {
    type V = PerfView;

    open spec fn view(&self) -> PerfView {
        PerfView { khz: self.khz, frame_us: self.frame_us, max_us: self.max_us, fps: self.fps, count: self.count }
    }
}

impl Perf {
    /// `khz` is the TSC rate in cycles per millisecond (at least 1 is used).
    pub fn new(khz: u64) -> (p: Self)
        ensures
            p@ == (PerfView { khz: if khz > 1 { khz } else { 1 }, frame_us: 0, max_us: 0, fps: 0, count: 0 }),
    {
        Perf { khz: if khz > 1 { khz } else { 1 }, frame_us: 0, max_us: 0, fps: 0, count: 0 }
    }

    /// Record one rendered frame given its duration in TSC cycles.
    pub fn record(&mut self, tsc_delta: u64)
        requires
            old(self)@.khz >= 1,
            old(self)@.count < u32::MAX,
        ensures
            ({
                let us = (if tsc_delta * 1000 > u64::MAX { u64::MAX as int } else { tsc_delta * 1000 }) / old(
                    self,
                )@.khz as int;
                final(self)@ == (PerfView {
                    frame_us: us as u64,
                    max_us: if old(self)@.max_us >= us { old(self)@.max_us } else { us as u64 },
                    count: (old(self)@.count + 1) as u32,
                    ..old(self)@
                })
            }),
    {
        let scaled = if tsc_delta > u64::MAX / 1000 { u64::MAX } else { tsc_delta * 1000 };
        self.frame_us = scaled / self.khz;
        if self.frame_us > self.max_us {
            self.max_us = self.frame_us;
        }
        self.count += 1;
    }

    /// Roll the per-second counters (call on each wall-clock second).
    pub fn second_tick(&mut self)
        ensures
            final(self)@ == (PerfView { fps: old(self)@.count, count: 0, max_us: old(self)@.frame_us, ..old(self)@ }),
    {
        self.fps = self.count;
        self.count = 0;
        self.max_us = self.frame_us;
    }

    /// Screen rect of the HUD panel (top-right corner).
    pub fn rect(width: i32) -> (r: Rect)
        requires
            width >= i32::MIN + HUD_W + 12,
        ensures
            r == (Rect { x: (width - HUD_W - 12) as i32, y: 12, w: HUD_W, h: HUD_H }),
    {
        Rect::new(width - HUD_W - 12, 12, HUD_W, HUD_H)
    }
}

/// Decimal digits of `v`.
pub open spec fn dec_digits(v: nat) -> Seq<u8>
    decreases v,
{
    if v < 10 {
        seq![(0x30 + v) as u8]
    } else {
        dec_digits(v / 10).push((0x30 + v % 10) as u8)
    }
}

pub(crate) fn dec_vec(v: u32) -> (d: Vec<u8>)
    ensures
        d@ == dec_digits(v as nat),
    decreases v,
{
    if v < 10 {
        let mut d: Vec<u8> = Vec::new();
        d.push(0x30 + v as u8);
        d
    } else {
        let mut d = dec_vec(v / 10);
        d.push(0x30 + (v % 10) as u8);
        d
    }
}

/// `us` microseconds as milliseconds with one decimal: `M.mms`.
pub open spec fn ms_text(us: u64) -> Seq<u8> {
    let tenths = (us / 100) as u32;
    dec_digits((tenths / 10) as nat) + seq![0x2Eu8] + dec_digits((tenths % 10) as nat) + seq![0x6Du8, 0x73u8]
}

/// What fits of `src` in `buf` from `pos` on.
pub open spec fn fitted(buf_len: int, pos: int, src: Seq<u8>) -> Seq<u8> {
    if src.len() <= buf_len - pos { src } else { src.subrange(0, buf_len - pos) }
}

/// Append `src` to the text in `buf` at `pos`, dropping what does not fit;
/// returns the new position.
pub fn put(buf: &mut [u8], pos: usize, src: &[u8]) -> (p: usize)
    requires
        pos <= old(buf)@.len(),
    ensures
        p == pos + fitted(old(buf)@.len() as int, pos as int, src@).len(),
        final(buf)@ == splice(old(buf)@, pos as int, fitted(old(buf)@.len() as int, pos as int, src@)),
{
    let room = buf.len() - pos;
    let n = if src.len() < room { src.len() } else { room };
    crate::bytes::copy_into(buf, pos, &src[0..n]);
    assert(src@.subrange(0, n as int) =~= fitted(old(buf)@.len() as int, pos as int, src@));
    pos + n
}

/// Append the decimal form of `v`; returns the new position.
pub fn put_u32(buf: &mut [u8], pos: usize, v: u32) -> (p: usize)
    requires
        pos <= old(buf)@.len(),
    ensures
        p == pos + fitted(old(buf)@.len() as int, pos as int, dec_digits(v as nat)).len(),
        final(buf)@ == splice(old(buf)@, pos as int, fitted(old(buf)@.len() as int, pos as int, dec_digits(v as nat))),
{
    let d = dec_vec(v);
    put(buf, pos, d.as_slice())
}

/// Append microseconds as `M.mms`, one decimal of milliseconds.
pub fn put_ms(buf: &mut [u8], pos: usize, us: u64) -> (p: usize)
    requires
        pos <= old(buf)@.len(),
    ensures
        p == pos + fitted(old(buf)@.len() as int, pos as int, ms_text(us)).len(),
        final(buf)@ == splice(old(buf)@, pos as int, fitted(old(buf)@.len() as int, pos as int, ms_text(us))),
{
    let tenths = (us / 100) as u32;
    let mut t = dec_vec(tenths / 10);
    t.push(0x2E);
    let frac = dec_vec(tenths % 10);
    crate::bytes::push_all(&mut t, frac.as_slice());
    t.push(0x6D);
    t.push(0x73);
    assert(t@ =~= ms_text(us));
    put(buf, pos, t.as_slice())
}

} // verus!
