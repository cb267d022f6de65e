//! Drawing into a framebuffer image: pixels, rectangles, rounded rectangles,
//! blending and region copies. The image is a byte buffer laid out as the
//! boot loader describes it (row stride, bytes per pixel, channel order).
use super::fb::{isqrt, Color};
use crate::window::{max_int, min_int, Rect};
use vstd::prelude::*;

verus! {

/// Channel layout of one pixel.
#[derive(Clone, Copy, PartialEq, Eq, Debug, Structural)]
pub enum PixelFormat {
    /// Red, green, blue in that byte order.
    Rgb,
    /// Blue, green, red in that byte order.
    Bgr,
    /// One grey byte.
    U8,
    /// Any other layout: written as red, green, blue when a pixel has room.
    Unknown,
}

/// Geometry of a framebuffer: visible size, pixels per row in memory, bytes
/// per pixel and channel layout.
#[derive(Clone, Copy, PartialEq, Eq, Debug, Structural)]
pub struct FbInfo {
    pub width: usize,
    pub height: usize,
    pub stride: usize,
    pub bytes_per_pixel: usize,
    pub pixel_format: PixelFormat,
}

/// A buffer of `len` bytes holds every visible pixel of `info`, and a pixel
/// has room for the channels its format writes.
pub open spec fn fb_ok(info: FbInfo, len: int) -> bool {
    &&& info.width <= info.stride
    &&& info.bytes_per_pixel >= 1
    &&& info.height * info.stride * info.bytes_per_pixel <= len
    &&& (info.pixel_format == PixelFormat::Rgb || info.pixel_format == PixelFormat::Bgr) ==> info.bytes_per_pixel >= 3
}

/// First byte of pixel `(x, y)`.
pub open spec fn pixel_at(info: FbInfo, x: int, y: int) -> int {
    (y * info.stride + x) * info.bytes_per_pixel
}

/// Byte `j` of pixel `(x, y)`.
pub open spec fn byte_at(info: FbInfo, x: int, y: int, j: int) -> int {
    pixel_at(info, x, y) + j
}

/// Grey level of a colour: `(54 r + 183 g + 19 b) / 256`.
pub open spec fn luma(c: Color) -> u8 {
    ((c.r * 54 + c.g * 183 + c.b * 19) / 256) as u8
}

/// The bytes a pixel of format `f` and `bpp` bytes gets for colour `c`.
pub open spec fn color_bytes(f: PixelFormat, bpp: int, c: Color) -> Seq<u8> {
    match f {
        PixelFormat::Rgb => seq![c.r, c.g, c.b],
        PixelFormat::Bgr => seq![c.b, c.g, c.r],
        PixelFormat::U8 => seq![luma(c)],
        PixelFormat::Unknown => if bpp >= 3 {
            seq![c.r, c.g, c.b]
        } else {
            Seq::empty()
        },
    }
}

/// The bytes a filled rectangle gives each of its pixels: four-byte RGB and
/// BGR pixels are written whole, the fourth byte cleared.
pub open spec fn fill_bytes(f: PixelFormat, bpp: int, c: Color) -> Seq<u8> {
    if bpp == 4 && (f == PixelFormat::Rgb || f == PixelFormat::Bgr) {
        color_bytes(f, bpp, c).push(0)
    } else {
        color_bytes(f, bpp, c)
    }
}

/// `b` with `s` written from offset `o`.
pub open spec fn write_at(b: Seq<u8>, o: int, s: Seq<u8>) -> Seq<u8> {
    Seq::new(b.len(), |k: int| if o <= k < o + s.len() { s[k - o] } else { b[k] })
}

/// Distinct pixels of a row-major image occupy distinct bytes.
proof fn lemma_pixels_disjoint(info: FbInfo, x: int, y: int, j: int, x2: int, y2: int, j2: int)
    requires
        info.bytes_per_pixel >= 1,
        0 <= x < info.stride,
        0 <= x2 < info.stride,
        0 <= y,
        0 <= y2,
        0 <= j < info.bytes_per_pixel,
        0 <= j2 < info.bytes_per_pixel,
        byte_at(info, x, y, j) == byte_at(info, x2, y2, j2),
    ensures
        x == x2 && y == y2 && j == j2,
{
    let s = info.stride as int;
    let b = info.bytes_per_pixel as int;
    let p = y * s + x;
    let p2 = y2 * s + x2;
    assert(p == p2) by (nonlinear_arith)
        requires
            p * b + j == p2 * b + j2,
            0 <= j < b,
            0 <= j2 < b,
            0 <= p,
            0 <= p2,
    {
        if p < p2 {
            assert(p * b + b <= p2 * b);
        } else if p > p2 {
            assert(p2 * b + b <= p * b);
        }
    }
    assert(y == y2) by (nonlinear_arith)
        requires
            y * s + x == y2 * s + x2,
            0 <= x < s,
            0 <= x2 < s,
            0 <= y,
            0 <= y2,
    {
        if y < y2 {
            assert(y * s + s <= y2 * s);
        } else if y > y2 {
            assert(y2 * s + s <= y * s);
        }
    }
}

/// Byte `j` of a visible pixel lies inside a well-formed buffer.
proof fn lemma_byte_in_buffer(info: FbInfo, len: int, x: int, y: int, j: int)
    requires
        fb_ok(info, len),
        0 <= x < info.width,
        0 <= y < info.height,
        0 <= j < info.bytes_per_pixel,
    ensures
        0 <= pixel_at(info, x, y),
        byte_at(info, x, y, j) < len,
        pixel_at(info, x, y) + info.bytes_per_pixel <= len,
{
    let s = info.stride as int;
    let b = info.bytes_per_pixel as int;
    let h = info.height as int;
    assert((y * s + x) * b + b <= h * s * b) by (nonlinear_arith)
        requires
            0 <= x < s,
            0 <= y < h,
            b >= 1,
    {
        assert(y * s + x + 1 <= (y + 1) * s);
        assert((y + 1) * s <= h * s);
        assert((y * s + x + 1) * b <= h * s * b);
    }
    assert(0 <= (y * s + x) * b) by (nonlinear_arith)
        requires
            0 <= x,
            0 <= y,
            0 <= s,
            b >= 1,
    ;
}

/// Pixel `(x, y)` of the rectangle `[x0, x1)` by rows from `y0` has been
/// painted once rows up to `yc` and the first `xc` columns of row `yc` are.
pub open spec fn done_pixel(x0: int, x1: int, y0: int, yc: int, xc: int, x: int, y: int) -> bool {
    x0 <= x < x1 && ((y0 <= y < yc) || (y == yc && x < xc))
}

/// Byte `k` is one of the first `n` bytes of a painted pixel.
pub open spec fn in_done(info: FbInfo, k: int, x0: int, x1: int, y0: int, yc: int, xc: int, n: int) -> bool {
    exists|x: int, y: int, j: int|
        done_pixel(x0, x1, y0, yc, xc, x, y) && 0 <= j < n && k == #[trigger] byte_at(info, x, y, j)
}

/// In `b2`, every pixel of the rectangle `[x0, x1) × [y0, y1)` starts with
/// the bytes `s`; every other byte is as in `b`.
pub open spec fn painted(info: FbInfo, b: Seq<u8>, b2: Seq<u8>, x0: int, x1: int, y0: int, y1: int, s: Seq<u8>) -> bool {
    &&& b2.len() == b.len()
    &&& forall|x: int, y: int, j: int|
        x0 <= x < x1 && y0 <= y < y1 && 0 <= j < s.len() ==> b2[#[trigger] byte_at(info, x, y, j)] == s[j]
    &&& forall|k: int| 0 <= k < b.len() && !in_done(info, k, x0, x1, y0, y1, x0, s.len() as int) ==> b2[k] == b[k]
}

/// The end of a span from `start` of `len`, cut at `limit`.
pub open spec fn clip_end(start: int, len: int, limit: int) -> int {
    if start + len < limit {
        start + len
    } else {
        limit
    }
}

/// One more pixel painted, in row order.
proof fn lemma_paint_step(
    info: FbInfo,
    b0: Seq<u8>,
    b: Seq<u8>,
    s: Seq<u8>,
    x0: int,
    x1: int,
    y0: int,
    yc: int,
    xc: int,
)
    requires
        fb_ok(info, b.len() as int),
        b0.len() == b.len(),
        0 <= x0 <= xc < x1 <= info.width,
        0 <= y0 <= yc < info.height,
        s.len() <= info.bytes_per_pixel,
        forall|x: int, y: int, j: int|
            done_pixel(x0, x1, y0, yc, xc, x, y) && 0 <= j < s.len() ==> b[#[trigger] byte_at(info, x, y, j)] == s[j],
        forall|k: int| 0 <= k < b.len() && !in_done(info, k, x0, x1, y0, yc, xc, s.len() as int) ==> b[k] == b0[k],
    ensures
        ({
            let b2 = write_at(b, pixel_at(info, xc, yc), s);
            &&& forall|x: int, y: int, j: int|
                done_pixel(x0, x1, y0, yc, xc + 1, x, y) && 0 <= j < s.len() ==> b2[#[trigger] byte_at(info, x, y, j)]
                    == s[j]
            &&& forall|k: int|
                0 <= k < b.len() && !in_done(info, k, x0, x1, y0, yc, xc + 1, s.len() as int) ==> b2[k] == b0[k]
        }),
{
    let o = pixel_at(info, xc, yc);
    let b2 = write_at(b, o, s);
    lemma_byte_in_buffer(info, b.len() as int, xc, yc, 0);
    assert forall|x: int, y: int, j: int|
        done_pixel(x0, x1, y0, yc, xc + 1, x, y) && 0 <= j < s.len() implies b2[#[trigger] byte_at(info, x, y, j)]
        == s[j] by {
        lemma_byte_in_buffer(info, b.len() as int, x, y, j);
        if x == xc && y == yc {
        } else {
            if o <= byte_at(info, x, y, j) < o + s.len() {
                lemma_pixels_disjoint(info, x, y, j, xc, yc, byte_at(info, x, y, j) - o);
            }
        }
    }
    assert forall|k: int|
        0 <= k < b.len() && !in_done(info, k, x0, x1, y0, yc, xc + 1, s.len() as int) implies b2[k] == b0[k] by {
        if o <= k < o + s.len() {
            assert(k == byte_at(info, xc, yc, k - o));
            assert(in_done(info, k, x0, x1, y0, yc, xc + 1, s.len() as int));
        }
        if in_done(info, k, x0, x1, y0, yc, xc, s.len() as int) {
            let (x, y, j) = choose|x: int, y: int, j: int|
                done_pixel(x0, x1, y0, yc, xc, x, y) && 0 <= j < s.len() && k == #[trigger] byte_at(info, x, y, j);
            assert(done_pixel(x0, x1, y0, yc, xc + 1, x, y));
        }
    }
}

/// One channel blended: `a` parts in 256 of `src`, the rest of `dst`.
pub open spec fn blend_byte(dst: u8, src: u8, a: int) -> u8 {
    ((dst * (256 - a) + src * a) / 256) as u8
}

/// Pixel `(x, y)` of `b` blended toward `c` at `alpha` (capped at 256): RGB
/// and BGR pixels only; others, and pixels off the visible area, stay.
pub open spec fn blend_spec(info: FbInfo, b: Seq<u8>, x: int, y: int, c: Color, alpha: u16) -> Seq<u8> {
    let a = if alpha > 256 { 256int } else { alpha as int };
    let o = pixel_at(info, x, y);
    let cb = color_bytes(info.pixel_format, info.bytes_per_pixel as int, c);
    if x < info.width && y < info.height && (info.pixel_format == PixelFormat::Rgb || info.pixel_format
        == PixelFormat::Bgr) {
        Seq::new(b.len(), |k: int| if o <= k < o + 3 { blend_byte(b[k], cb[k - o], a) } else { b[k] })
    } else {
        b
    }
}

/// Whether `(x, y)` of a `w × h` box lies inside its rounded outline of
/// radius `r`: outside the four `r × r` corner squares every point does;
/// inside one, the points within `r` of that corner's circle centre do.
pub open spec fn inside_round_spec(x: int, y: int, w: int, h: int, r: int) -> bool {
    if r == 0 {
        true
    } else {
        let in_left = x < r;
        let in_right = x >= w - r;
        let in_top = y < r;
        let in_bottom = y >= h - r;
        let cx = if in_left { r } else { w - 1 - r };
        let cy = if in_top { r } else { h - 1 - r };
        if (in_left || in_right) && (in_top || in_bottom) {
            (x - cx) * (x - cx) + (y - cy) * (y - cy) <= r * r
        } else {
            true
        }
    }
}

/// The corner radius actually drawn: at most half the width and the height.
pub open spec fn radius(w: int, h: int, r: int) -> int {
    let a = if r < w / 2 { r } else { w / 2 };
    if a < h / 2 { a } else { h / 2 }
}

/// Screen pixel `(px, py)` belongs to the rounded box at `(x0, y0)` of size
/// `w × h` and radius `r`, is visible, and comes at or before row `yc`,
/// column `xc` of the box in row order.
pub open spec fn round_done(
    info: FbInfo,
    x0: int,
    y0: int,
    w: int,
    h: int,
    r: int,
    yc: int,
    xc: int,
    px: int,
    py: int,
) -> bool {
    let x = px - x0;
    let y = py - y0;
    &&& 0 <= x < w
    &&& 0 <= y < h
    &&& (y < yc || (y == yc && x < xc))
    &&& inside_round_spec(x, y, w, h, r)
    &&& 0 <= px < info.width
    &&& 0 <= py < info.height
}

/// Byte `k` is one of the three colour bytes of a pixel in `round_done`.
pub open spec fn in_round_done(
    info: FbInfo,
    k: int,
    x0: int,
    y0: int,
    w: int,
    h: int,
    r: int,
    yc: int,
    xc: int,
) -> bool {
    exists|px: int, py: int, j: int|
        round_done(info, x0, y0, w, h, r, yc, xc, px, py) && 0 <= j < 3 && k == #[trigger] byte_at(info, px, py, j)
}

/// In `b2`, the pixels of the rounded box (up to row `yc`, column `xc`)
/// have their colour bytes blended toward `cb` at `a`; every other byte is
/// as in `b`.
pub open spec fn round_blended(
    info: FbInfo,
    b: Seq<u8>,
    b2: Seq<u8>,
    x0: int,
    y0: int,
    w: int,
    h: int,
    r: int,
    yc: int,
    xc: int,
    cb: Seq<u8>,
    a: int,
) -> bool {
    &&& b2.len() == b.len()
    &&& forall|px: int, py: int, j: int|
        round_done(info, x0, y0, w, h, r, yc, xc, px, py) && 0 <= j < 3 ==> b2[#[trigger] byte_at(info, px, py, j)]
            == blend_byte(b[byte_at(info, px, py, j)], cb[j], a)
    &&& forall|k: int| 0 <= k < b.len() && !in_round_done(info, k, x0, y0, w, h, r, yc, xc) ==> b2[k] == b[k]
}

/// One more box pixel handled in row order.
proof fn lemma_round_step(
    info: FbInfo,
    b0: Seq<u8>,
    b: Seq<u8>,
    x0: int,
    y0: int,
    w: int,
    h: int,
    r: int,
    yc: int,
    xc: int,
    cb: Seq<u8>,
    a: int,
    c: Color,
    alpha: u16,
)
    requires
        fb_ok(info, b.len() as int),
        info.pixel_format == PixelFormat::Rgb || info.pixel_format == PixelFormat::Bgr,
        cb == color_bytes(info.pixel_format, info.bytes_per_pixel as int, c),
        a == (if alpha > 256 { 256int } else { alpha as int }),
        0 <= x0,
        0 <= y0,
        0 <= xc < w,
        0 <= yc < h,
        round_blended(info, b0, b, x0, y0, w, h, r, yc, xc, cb, a),
    ensures
        round_blended(
            info,
            b0,
            if inside_round_spec(xc, yc, w, h, r) {
                blend_spec(info, b, x0 + xc, y0 + yc, c, alpha)
            } else {
                b
            },
            x0,
            y0,
            w,
            h,
            r,
            yc,
            xc + 1,
            cb,
            a,
        ),
{
    let px = x0 + xc;
    let py = y0 + yc;
    let inside = inside_round_spec(xc, yc, w, h, r);
    let b2 = if inside { blend_spec(info, b, px, py, c, alpha) } else { b };
    let visible = px < info.width && py < info.height;
    let o = pixel_at(info, px, py);
    if visible {
        lemma_byte_in_buffer(info, b.len() as int, px, py, 0);
    }
    assert forall|qx: int, qy: int, j: int|
        round_done(info, x0, y0, w, h, r, yc, xc + 1, qx, qy) && 0 <= j < 3 implies b2[#[trigger] byte_at(
        info,
        qx,
        qy,
        j,
    )] == blend_byte(b0[byte_at(info, qx, qy, j)], cb[j], a) by {
        lemma_byte_in_buffer(info, b.len() as int, qx, qy, j);
        if qx == px && qy == py {
            if !in_round_done(info, byte_at(info, qx, qy, j), x0, y0, w, h, r, yc, xc) {
            } else {
                let (ux, uy, uj) = choose|ux: int, uy: int, uj: int|
                    round_done(info, x0, y0, w, h, r, yc, xc, ux, uy) && 0 <= uj < 3 && byte_at(info, qx, qy, j)
                        == #[trigger] byte_at(info, ux, uy, uj);
                lemma_byte_in_buffer(info, b.len() as int, ux, uy, uj);
                lemma_pixels_disjoint(info, qx, qy, j, ux, uy, uj);
            }
        } else if inside && visible && o <= byte_at(info, qx, qy, j) < o + 3 {
            lemma_pixels_disjoint(info, qx, qy, j, px, py, byte_at(info, qx, qy, j) - o);
        }
    }
    assert forall|k: int| 0 <= k < b0.len() && !in_round_done(info, k, x0, y0, w, h, r, yc, xc + 1) implies b2[k]
        == b0[k] by {
        if inside && visible && o <= k < o + 3 {
            assert(k == byte_at(info, px, py, k - o));
            assert(round_done(info, x0, y0, w, h, r, yc, xc + 1, px, py));
            assert(in_round_done(info, k, x0, y0, w, h, r, yc, xc + 1));
        }
        if in_round_done(info, k, x0, y0, w, h, r, yc, xc) {
            let (ux, uy, uj) = choose|ux: int, uy: int, uj: int|
                round_done(info, x0, y0, w, h, r, yc, xc, ux, uy) && 0 <= uj < 3 && k == #[trigger] byte_at(
                    info,
                    ux,
                    uy,
                    uj,
                );
            assert(round_done(info, x0, y0, w, h, r, yc, xc + 1, ux, uy));
        }
    }
}

/// A finished box row: the handled area is the same seen from either row.
proof fn lemma_round_row(
    info: FbInfo,
    b0: Seq<u8>,
    b: Seq<u8>,
    x0: int,
    y0: int,
    w: int,
    h: int,
    r: int,
    yc: int,
    cb: Seq<u8>,
    a: int,
)
    requires
        0 <= yc,
        0 <= w,
        round_blended(info, b0, b, x0, y0, w, h, r, yc, w, cb, a),
    ensures
        round_blended(info, b0, b, x0, y0, w, h, r, yc + 1, 0, cb, a),
{
    assert forall|px: int, py: int, j: int|
        round_done(info, x0, y0, w, h, r, yc + 1, 0, px, py) && 0 <= j < 3 implies b[#[trigger] byte_at(
        info,
        px,
        py,
        j,
    )] == blend_byte(b0[byte_at(info, px, py, j)], cb[j], a) by {
        assert(round_done(info, x0, y0, w, h, r, yc, w, px, py));
    }
    assert forall|k: int| 0 <= k < b0.len() && !in_round_done(info, k, x0, y0, w, h, r, yc + 1, 0) implies b[k]
        == b0[k] by {
        if in_round_done(info, k, x0, y0, w, h, r, yc, w) {
            let (ux, uy, uj) = choose|ux: int, uy: int, uj: int|
                round_done(info, x0, y0, w, h, r, yc, w, ux, uy) && 0 <= uj < 3 && k == #[trigger] byte_at(
                    info,
                    ux,
                    uy,
                    uj,
                );
            assert(round_done(info, x0, y0, w, h, r, yc + 1, 0, ux, uy));
        }
    }
}

/// `s` is `n`'s integer square root, rounded down.
pub open spec fn is_floor_sqrt(n: int, s: int) -> bool {
    0 <= s && s * s <= n < (s + 1) * (s + 1)
}

/// `n`'s integer square root, rounded down.
pub open spec fn floor_sqrt(n: int) -> int {
    choose|s: int| #[trigger] is_floor_sqrt(n, s)
}

proof fn lemma_floor_sqrt(n: int, s: int)
    requires
        0 <= s,
        s * s <= n < (s + 1) * (s + 1),
    ensures
        floor_sqrt(n) == s,
{
    assert(is_floor_sqrt(n, s));
    let t = floor_sqrt(n);
    assert(is_floor_sqrt(n, t));
    if t < s {
        assert((t + 1) * (t + 1) <= s * s) by (nonlinear_arith)
            requires
                0 <= t < s,
        ;
    } else if t > s {
        assert((s + 1) * (s + 1) <= t * t) by (nonlinear_arith)
            requires
                0 <= s < t,
        ;
    }
}

/// How far row `y` of a rounded box of height `h` and radius `r` is inset
/// on each side: rows within `r` of the top or bottom follow the corner
/// circle.
pub open spec fn round_inset(y: int, h: int, r: int) -> int {
    if r == 0 {
        0
    } else if y < r {
        r - floor_sqrt(r * r - (r - y) * (r - y))
    } else if y >= h - r {
        r - floor_sqrt(r * r - (y - (h - 1 - r)) * (y - (h - 1 - r)))
    } else {
        0
    }
}

/// Screen pixel `(px, py)` is visible and on the filled span of one of the
/// first `yc` rows of the rounded box at `(x0, y0)`.
pub open spec fn span_done(info: FbInfo, x0: int, y0: int, w: int, h: int, r: int, yc: int, px: int, py: int) -> bool {
    let y = py - y0;
    let inset = round_inset(y, h, r);
    &&& 0 <= y < yc
    &&& y < h
    &&& w > 2 * inset
    &&& 0 <= px
    &&& x0 + inset <= px < x0 + w - inset
    &&& px < info.width
    &&& py < info.height
}

pub open spec fn in_span_done(info: FbInfo, k: int, x0: int, y0: int, w: int, h: int, r: int, yc: int, n: int) -> bool {
    exists|px: int, py: int, j: int|
        span_done(info, x0, y0, w, h, r, yc, px, py) && 0 <= j < n && k == #[trigger] byte_at(info, px, py, j)
}

/// In `b2`, the visible pixels of the first `yc` rows of the filled rounded
/// box start with `s`; every other byte is as in `b`.
pub open spec fn round_painted(
    info: FbInfo,
    b: Seq<u8>,
    b2: Seq<u8>,
    x0: int,
    y0: int,
    w: int,
    h: int,
    r: int,
    yc: int,
    s: Seq<u8>,
) -> bool {
    &&& b2.len() == b.len()
    &&& forall|px: int, py: int, j: int|
        span_done(info, x0, y0, w, h, r, yc, px, py) && 0 <= j < s.len() ==> b2[#[trigger] byte_at(info, px, py, j)]
            == s[j]
    &&& forall|k: int| 0 <= k < b.len() && !in_span_done(info, k, x0, y0, w, h, r, yc, s.len() as int) ==> b2[k] == b[k]
}

/// Painting row `yc`'s span extends the painted rows by one.
proof fn lemma_span_row(
    info: FbInfo,
    b0: Seq<u8>,
    b: Seq<u8>,
    b2: Seq<u8>,
    x0: int,
    y0: int,
    w: int,
    h: int,
    r: int,
    yc: int,
    s: Seq<u8>,
)
    requires
        fb_ok(info, b.len() as int),
        s.len() <= info.bytes_per_pixel,
        0 <= x0,
        0 <= y0,
        0 <= yc < h,
        round_painted(info, b0, b, x0, y0, w, h, r, yc, s),
        w > 2 * round_inset(yc, h, r) ==> painted(
            info,
            b,
            b2,
            x0 + round_inset(yc, h, r),
            clip_end(x0 + round_inset(yc, h, r), w - 2 * round_inset(yc, h, r), info.width as int),
            y0 + yc,
            clip_end(y0 + yc, 1, info.height as int),
            s,
        ),
        !(w > 2 * round_inset(yc, h, r)) ==> b2 == b,
        0 <= round_inset(yc, h, r),
    ensures
        round_painted(info, b0, b2, x0, y0, w, h, r, yc + 1, s),
{
    let inset = round_inset(yc, h, r);
    let fx0 = x0 + inset;
    let fx1 = clip_end(x0 + inset, w - 2 * inset, info.width as int);
    let fy0 = y0 + yc;
    let fy1 = clip_end(y0 + yc, 1, info.height as int);
    let filled = w > 2 * inset;
    assert forall|px: int, py: int, j: int|
        span_done(info, x0, y0, w, h, r, yc + 1, px, py) && 0 <= j < s.len() implies b2[#[trigger] byte_at(
        info,
        px,
        py,
        j,
    )] == s[j] by {
        lemma_byte_in_buffer(info, b.len() as int, px, py, j);
        if py == y0 + yc {
            assert(filled);
            assert(fx0 <= px < fx1 && fy0 <= py < fy1);
        } else {
            assert(span_done(info, x0, y0, w, h, r, yc, px, py));
            if filled && in_done(info, byte_at(info, px, py, j), fx0, fx1, fy0, fy1, fx0, s.len() as int) {
                let (ux, uy, uj) = choose|ux: int, uy: int, uj: int|
                    done_pixel(fx0, fx1, fy0, fy1, fx0, ux, uy) && 0 <= uj < s.len() && byte_at(info, px, py, j)
                        == #[trigger] byte_at(info, ux, uy, uj);
                lemma_pixels_disjoint(info, px, py, j, ux, uy, uj);
            }
        }
    }
    assert forall|k: int| 0 <= k < b0.len() && !in_span_done(info, k, x0, y0, w, h, r, yc + 1, s.len() as int) implies b2[k]
        == b0[k] by {
        if filled && in_done(info, k, fx0, fx1, fy0, fy1, fx0, s.len() as int) {
            let (ux, uy, uj) = choose|ux: int, uy: int, uj: int|
                done_pixel(fx0, fx1, fy0, fy1, fx0, ux, uy) && 0 <= uj < s.len() && k == #[trigger] byte_at(
                    info,
                    ux,
                    uy,
                    uj,
                );
            assert(span_done(info, x0, y0, w, h, r, yc + 1, ux, uy));
        }
        if in_span_done(info, k, x0, y0, w, h, r, yc, s.len() as int) {
            let (ux, uy, uj) = choose|ux: int, uy: int, uj: int|
                span_done(info, x0, y0, w, h, r, yc, ux, uy) && 0 <= uj < s.len() && k == #[trigger] byte_at(
                    info,
                    ux,
                    uy,
                    uj,
                );
            assert(span_done(info, x0, y0, w, h, r, yc + 1, ux, uy));
        }
    }
}

/// In `b`, the first `n` bytes of every pixel done in row order over the
/// rectangle `[x0, x1)` from row `y0` (rows before `yc`, and the first `xc`
/// columns of row `yc`) are given by `val`; every other byte is as in `b0`.
pub open spec fn region_set(
    info: FbInfo,
    b0: Seq<u8>,
    b: Seq<u8>,
    x0: int,
    x1: int,
    y0: int,
    yc: int,
    xc: int,
    n: int,
    val: spec_fn(int, int, int) -> u8,
) -> bool {
    &&& b.len() == b0.len()
    &&& forall|x: int, y: int, j: int|
        done_pixel(x0, x1, y0, yc, xc, x, y) && 0 <= j < n ==> b[#[trigger] byte_at(info, x, y, j)] == val(x, y, j)
    &&& forall|k: int| 0 <= k < b0.len() && !in_done(info, k, x0, x1, y0, yc, xc, n) ==> b[k] == b0[k]
}

/// The bytes `val` gives pixel `(x, y)`.
pub open spec fn pixel_vals(val: spec_fn(int, int, int) -> u8, x: int, y: int, n: int) -> Seq<u8> {
    Seq::new(n as nat, |j: int| val(x, y, j))
}

/// One more pixel set, in row order.
proof fn lemma_region_step(
    info: FbInfo,
    b0: Seq<u8>,
    b: Seq<u8>,
    x0: int,
    x1: int,
    y0: int,
    yc: int,
    xc: int,
    n: int,
    val: spec_fn(int, int, int) -> u8,
)
    requires
        info.bytes_per_pixel >= 1,
        0 <= x0 <= xc < x1 <= info.stride,
        0 <= y0 <= yc,
        0 <= n <= info.bytes_per_pixel,
        pixel_at(info, xc, yc) + n <= b.len(),
        region_set(info, b0, b, x0, x1, y0, yc, xc, n, val),
    ensures
        region_set(
            info,
            b0,
            write_at(b, pixel_at(info, xc, yc), pixel_vals(val, xc, yc, n)),
            x0,
            x1,
            y0,
            yc,
            xc + 1,
            n,
            val,
        ),
{
    let o = pixel_at(info, xc, yc);
    let s = pixel_vals(val, xc, yc, n);
    let b2 = write_at(b, o, s);
    lemma_pixel_nonneg(info, xc, yc);
    assert forall|x: int, y: int, j: int|
        done_pixel(x0, x1, y0, yc, xc + 1, x, y) && 0 <= j < n implies b2[#[trigger] byte_at(info, x, y, j)] == val(
        x,
        y,
        j,
    ) by {
        if !(x == xc && y == yc) {
            lemma_earlier_pixel(info, x, y, xc, yc);
        }
    }
    assert forall|k: int| 0 <= k < b0.len() && !in_done(info, k, x0, x1, y0, yc, xc + 1, n) implies b2[k] == b0[k] by {
        if o <= k < o + n {
            assert(k == byte_at(info, xc, yc, k - o));
            assert(in_done(info, k, x0, x1, y0, yc, xc + 1, n));
        }
        if in_done(info, k, x0, x1, y0, yc, xc, n) {
            let (x, y, j) = choose|x: int, y: int, j: int|
                done_pixel(x0, x1, y0, yc, xc, x, y) && 0 <= j < n && k == #[trigger] byte_at(info, x, y, j);
            assert(done_pixel(x0, x1, y0, yc, xc + 1, x, y));
        }
    }
}

/// A pixel's first byte is not negative.
pub(crate) proof fn lemma_pixel_nonneg(info: FbInfo, x: int, y: int)
    requires
        0 <= x,
        0 <= y,
    ensures
        0 <= pixel_at(info, x, y),
{
    let s = info.stride as int;
    let b = info.bytes_per_pixel as int;
    assert(0 <= (y * s + x) * b) by (nonlinear_arith)
        requires
            0 <= x,
            0 <= y,
            0 <= s,
            0 <= b,
    ;
}

/// A pixel before `(xc, yc)` in row order ends where that one starts or
/// earlier.
pub(crate) proof fn lemma_earlier_pixel(info: FbInfo, x: int, y: int, xc: int, yc: int)
    requires
        info.bytes_per_pixel >= 1,
        0 <= x < info.stride,
        0 <= xc < info.stride,
        0 <= y,
        y < yc || (y == yc && x < xc),
    ensures
        0 <= pixel_at(info, x, y),
        pixel_at(info, x, y) + info.bytes_per_pixel <= pixel_at(info, xc, yc),
{
    let s = info.stride as int;
    let b = info.bytes_per_pixel as int;
    lemma_pixel_nonneg(info, x, y);
    assert(y * s + x + 1 <= yc * s + xc) by (nonlinear_arith)
        requires
            0 <= x < s,
            0 <= xc < s,
            0 <= y,
            y < yc || (y == yc && x < xc),
    {
        if y < yc {
            assert(y * s + s <= yc * s);
        }
    }
    assert((y * s + x) * b + b <= (yc * s + xc) * b) by (nonlinear_arith)
        requires
            y * s + x + 1 <= yc * s + xc,
            b >= 1,
    ;
}

/// A finished row of a region.
proof fn lemma_region_row(
    info: FbInfo,
    b0: Seq<u8>,
    b: Seq<u8>,
    x0: int,
    x1: int,
    y0: int,
    yc: int,
    n: int,
    val: spec_fn(int, int, int) -> u8,
)
    requires
        y0 <= yc,
        x0 <= x1,
        region_set(info, b0, b, x0, x1, y0, yc, x1, n, val),
    ensures
        region_set(info, b0, b, x0, x1, y0, yc + 1, x0, n, val),
{
    assert forall|x: int, y: int, j: int|
        done_pixel(x0, x1, y0, yc + 1, x0, x, y) && 0 <= j < n implies b[#[trigger] byte_at(info, x, y, j)] == val(
        x,
        y,
        j,
    ) by {
        assert(done_pixel(x0, x1, y0, yc, x1, x, y));
    }
    assert forall|k: int| 0 <= k < b0.len() && !in_done(info, k, x0, x1, y0, yc + 1, x0, n) implies b[k] == b0[k] by {
        if in_done(info, k, x0, x1, y0, yc, x1, n) {
            let (x, y, j) = choose|x: int, y: int, j: int|
                done_pixel(x0, x1, y0, yc, x1, x, y) && 0 <= j < n && k == #[trigger] byte_at(info, x, y, j);
            assert(done_pixel(x0, x1, y0, yc + 1, x0, x, y));
        }
    }
}

/// An RGBA alpha byte scaled from 255 to 256.
pub open spec fn rgba_alpha(a: u8) -> u16 {
    (a + a / 128) as u16
}

/// The image `b` with pixel `(x, y)` of the `iw`-wide RGBA image `data`
/// blended over it at `(x0 + x, y0 + y)`, unless that pixel's alpha is 0.
pub open spec fn rgba_step(info: FbInfo, b: Seq<u8>, data: Seq<u8>, iw: int, x0: int, y0: int, x: int, y: int) -> Seq<
    u8,
> {
    let o = (y * iw + x) * 4;
    let a = data[o + 3];
    if a == 0 {
        b
    } else {
        blend_spec(info, b, x0 + x, y0 + y, Color { r: data[o], g: data[o + 1], b: data[o + 2] }, rgba_alpha(a))
    }
}

/// The image `b` after the first `n` pixels, in row order, of the `iw`-wide
/// RGBA image `data` were blended over it at `(x0, y0)`.
pub open spec fn rgba_drawn(info: FbInfo, b: Seq<u8>, data: Seq<u8>, iw: int, x0: int, y0: int, n: nat) -> Seq<u8>
    decreases n,
{
    if n == 0 {
        b
    } else {
        let k = n - 1;
        rgba_step(info, rgba_drawn(info, b, data, iw, x0, y0, (n - 1) as nat), data, iw, x0, y0, k % iw, k / iw)
    }
}

/// The packed layout of a `w`-pixel-wide copy of a region.
pub open spec fn packed(info: FbInfo, w: int) -> FbInfo {
    FbInfo { width: w as usize, stride: w as usize, ..info }
}

/// The bytes a region copy takes from the image `b`: byte `j` of the
/// pixel `(x0 + x, y0 + y)`.
pub open spec fn copy_val(info: FbInfo, b: Seq<u8>, x0: int, y0: int) -> spec_fn(int, int, int) -> u8 {
    |x: int, y: int, j: int| b[byte_at(info, x0 + x, y0 + y, j)]
}

/// The bytes of a backdrop blend: byte `j` of region pixel `(x, y)` moves
/// from `src`'s byte toward the image's byte `b` at `a` in 256.
pub open spec fn backdrop_val(info: FbInfo, b: Seq<u8>, src: Seq<u8>, x0: int, y0: int, w: int, a: int) -> spec_fn(
    int,
    int,
    int,
) -> u8 {
    |x: int, y: int, j: int|
        blend_byte(src[byte_at(packed(info, w), x - x0, y - y0, j)], b[byte_at(info, x, y, j)], a)
}

/// A region copy of `w × h` pixels at `(x0, y0)`, cut at the screen edge,
/// fits in `len` bytes of packed rows.
pub open spec fn region_fits(info: FbInfo, x0: int, y0: int, w: int, h: int, len: int) -> bool {
    let xe = clip_end(x0, w, info.width as int);
    let ye = clip_end(y0, h, info.height as int);
    xe > x0 && ye > y0 ==> ((ye - 1 - y0) * w + (xe - x0)) * info.bytes_per_pixel <= len
}

/// A framebuffer image being drawn into.
pub struct Canvas {
    pub buf: Vec<u8>,
    pub info: FbInfo,
}

impl Canvas {
    pub open spec fn wf(&self) -> bool {
        fb_ok(self.info, self.buf@.len() as int)
    }

    pub fn new(buf: Vec<u8>, info: FbInfo) -> (c: Self)
        ensures
            c.buf == buf,
            c.info == info,
    {
        Canvas { buf, info }
    }

    pub fn width(&self) -> (w: usize)
        ensures
            w == self.info.width,
    {
        self.info.width
    }

    pub fn height(&self) -> (h: usize)
        ensures
            h == self.info.height,
    {
        self.info.height
    }

    pub fn bpp(&self) -> (b: usize)
        ensures
            b == self.info.bytes_per_pixel,
    {
        self.info.bytes_per_pixel
    }

    /// Offset of visible pixel `(x, y)`.
    fn offset(&self, x: usize, y: usize) -> (o: usize)
        requires
            self.wf(),
            x < self.info.width,
            y < self.info.height,
        ensures
            o == pixel_at(self.info, x as int, y as int),
            o + self.info.bytes_per_pixel <= self.buf@.len(),
    {
        let n = self.buf.len();
        proof {
            lemma_byte_in_buffer(self.info, n as int, x as int, y as int, 0);
            let s = self.info.stride as int;
            assert(y * s + x <= (y * s + x) * self.info.bytes_per_pixel) by (nonlinear_arith)
                requires
                    0 <= x,
                    0 <= y,
                    self.info.bytes_per_pixel >= 1,
                    0 <= s,
            ;
        }
        (y * self.info.stride + x) * self.info.bytes_per_pixel
    }

    /// Write `bytes` at offset `o`.
    fn write_bytes(&mut self, o: usize, bytes: &[u8])
        requires
            o + bytes@.len() <= old(self).buf@.len(),
        ensures
            final(self).buf@ == write_at(old(self).buf@, o as int, bytes@),
            final(self).info == old(self).info,
    {
        let n = self.buf.len();
        let mut k: usize = 0;
        while k < bytes.len()
            invariant
                n == self.buf@.len(),
                o + bytes@.len() <= n,
                k <= bytes@.len(),
                self.info == old(self).info,
                self.buf@ == write_at(old(self).buf@, o as int, bytes@.subrange(0, k as int)),
            decreases bytes@.len() - k,
        {
            self.buf.set(o + k, bytes[k]);
            k += 1;
            assert(self.buf@ =~= write_at(old(self).buf@, o as int, bytes@.subrange(0, k as int)));
        }
        assert(bytes@.subrange(0, bytes@.len() as int) =~= bytes@);
    }

    /// Fill the visible part of the `w × h` rectangle at `(x0, y0)` with `c`.
    pub fn fill_rect(&mut self, x0: usize, y0: usize, w: usize, h: usize, c: Color)
        requires
            old(self).wf(),
            x0 + w <= usize::MAX,
            y0 + h <= usize::MAX,
        ensures
            final(self).info == old(self).info,
            painted(
                old(self).info,
                old(self).buf@,
                final(self).buf@,
                x0 as int,
                clip_end(x0 as int, w as int, old(self).info.width as int),
                y0 as int,
                clip_end(y0 as int, h as int, old(self).info.height as int),
                fill_bytes(old(self).info.pixel_format, old(self).info.bytes_per_pixel as int, c),
            ),
    {
        let ghost s = fill_bytes(self.info.pixel_format, self.info.bytes_per_pixel as int, c);
        let ghost x1 = clip_end(x0 as int, w as int, self.info.width as int);
        let ghost y1 = clip_end(y0 as int, h as int, self.info.height as int);
        if x0 >= self.info.width || y0 >= self.info.height || w == 0 || h == 0 {
            assert(forall|k: int| !in_done(self.info, k, x0 as int, x1, y0 as int, y1, x0 as int, s.len() as int));
            return;
        }
        let x_end = if x0 + w < self.info.width { x0 + w } else { self.info.width };
        let y_end = if y0 + h < self.info.height { y0 + h } else { self.info.height };
        let bytes = fill_vec(self.info.pixel_format, self.info.bytes_per_pixel, c);
        let mut y = y0;
        while y < y_end
            invariant
                self.wf(),
                self.info == old(self).info,
                self.buf@.len() == old(self).buf@.len(),
                bytes@ == s,
                s.len() <= self.info.bytes_per_pixel,
                x0 < x_end <= self.info.width,
                y0 <= y <= y_end <= self.info.height,
                x_end == x1,
                y_end == y1,
                forall|x: int, yy: int, j: int|
                    done_pixel(x0 as int, x_end as int, y0 as int, y as int, x0 as int, x, yy) && 0 <= j < s.len()
                        ==> self.buf@[#[trigger] byte_at(self.info, x, yy, j)] == s[j],
                forall|k: int|
                    0 <= k < self.buf@.len() && !in_done(
                        self.info,
                        k,
                        x0 as int,
                        x_end as int,
                        y0 as int,
                        y as int,
                        x0 as int,
                        s.len() as int,
                    ) ==> self.buf@[k] == old(self).buf@[k],
            decreases y_end - y,
        {
            let mut x = x0;
            while x < x_end
                invariant
                    self.wf(),
                    self.info == old(self).info,
                    self.buf@.len() == old(self).buf@.len(),
                    bytes@ == s,
                    s.len() <= self.info.bytes_per_pixel,
                    x0 <= x <= x_end <= self.info.width,
                    y0 <= y < y_end <= self.info.height,
                    forall|xx: int, yy: int, j: int|
                        done_pixel(x0 as int, x_end as int, y0 as int, y as int, x as int, xx, yy) && 0 <= j < s.len()
                            ==> self.buf@[#[trigger] byte_at(self.info, xx, yy, j)] == s[j],
                    forall|k: int|
                        0 <= k < self.buf@.len() && !in_done(
                            self.info,
                            k,
                            x0 as int,
                            x_end as int,
                            y0 as int,
                            y as int,
                            x as int,
                            s.len() as int,
                        ) ==> self.buf@[k] == old(self).buf@[k],
                decreases x_end - x,
            {
                proof {
                    lemma_paint_step(
                        self.info,
                        old(self).buf@,
                        self.buf@,
                        s,
                        x0 as int,
                        x_end as int,
                        y0 as int,
                        y as int,
                        x as int,
                    );
                }
                let o = self.offset(x, y);
                self.write_bytes(o, bytes.as_slice());
                x += 1;
            }
            proof {
                lemma_next_row(self.info, old(self).buf@, self.buf@, s, x0 as int, x_end as int, y0 as int, y as int);
            }
            y += 1;
        }
    }

    /// Blend pixel `(x, y)` toward `c` at `alpha` (0 keeps it, 256 or more
    /// replaces it).
    pub fn blend_pixel(&mut self, x: usize, y: usize, c: Color, alpha: u16)
        requires
            old(self).wf(),
        ensures
            final(self).info == old(self).info,
            final(self).buf@ == blend_spec(old(self).info, old(self).buf@, x as int, y as int, c, alpha),
    {
        if x >= self.info.width || y >= self.info.height {
            return;
        }
        let rgb = match self.info.pixel_format {
            PixelFormat::Rgb => true,
            PixelFormat::Bgr => true,
            _ => false,
        };
        if !rgb {
            return;
        }
        let a: u16 = if alpha < 256 { alpha } else { 256 };
        let n = self.buf.len();
        let o = self.offset(x, y);
        assert(o + 3 <= n);
        let cb = color_vec(self.info.pixel_format, self.info.bytes_per_pixel, c);
        let d0 = blend_u8(self.buf[o], cb[0], a);
        let d1 = blend_u8(self.buf[o + 1], cb[1], a);
        let d2 = blend_u8(self.buf[o + 2], cb[2], a);
        self.buf.set(o, d0);
        self.buf.set(o + 1, d1);
        self.buf.set(o + 2, d2);
        assert(self.buf@ =~= blend_spec(old(self).info, old(self).buf@, x as int, y as int, c, alpha));
    }


    /// A rounded rectangle blended over the image at `alpha`: every visible
    /// pixel inside the outline moves toward `c`. Shadows and translucent
    /// surfaces are drawn this way.
    pub fn fill_round_rect_alpha(&mut self, x0: usize, y0: usize, w: usize, h: usize, r: usize, c: Color, alpha: u16)
        requires
            old(self).wf(),
            x0 + w <= usize::MAX,
            y0 + h <= usize::MAX,
            w <= isize::MAX,
            h <= isize::MAX,
            2 * radius(w as int, h as int, r as int) * radius(w as int, h as int, r as int) <= isize::MAX,
        ensures
            final(self).info == old(self).info,
            !(old(self).info.pixel_format == PixelFormat::Rgb || old(self).info.pixel_format == PixelFormat::Bgr)
                ==> final(self).buf@ == old(self).buf@,
            (old(self).info.pixel_format == PixelFormat::Rgb || old(self).info.pixel_format == PixelFormat::Bgr)
                ==> round_blended(
                old(self).info,
                old(self).buf@,
                final(self).buf@,
                x0 as int,
                y0 as int,
                w as int,
                h as int,
                radius(w as int, h as int, r as int),
                h as int,
                0,
                color_bytes(old(self).info.pixel_format, old(self).info.bytes_per_pixel as int, c),
                if alpha > 256 { 256int } else { alpha as int },
            ),
    {
        let rr = if r < w / 2 { r } else { w / 2 };
        let rr = if rr < h / 2 { rr } else { h / 2 };
        let rgb = match self.info.pixel_format {
            PixelFormat::Rgb => true,
            PixelFormat::Bgr => true,
            _ => false,
        };
        let ghost cb = color_bytes(self.info.pixel_format, self.info.bytes_per_pixel as int, c);
        let ghost a = if alpha > 256 { 256int } else { alpha as int };
        assert(rgb ==> round_blended(self.info, old(self).buf@, self.buf@, x0 as int, y0 as int, w as int, h as int, rr as int, 0, 0, cb, a));
        let mut y: usize = 0;
        while y < h
            invariant
                self.wf(),
                self.info == old(self).info,
                rgb == (self.info.pixel_format == PixelFormat::Rgb || self.info.pixel_format == PixelFormat::Bgr),
                !rgb ==> self.buf@ == old(self).buf@,
                rgb ==> round_blended(self.info, old(self).buf@, self.buf@, x0 as int, y0 as int, w as int, h as int, rr as int, y as int, 0, cb, a),
                cb == color_bytes(self.info.pixel_format, self.info.bytes_per_pixel as int, c),
                a == (if alpha > 256 { 256int } else { alpha as int }),
                rr == radius(w as int, h as int, r as int),
                y <= h,
                x0 + w <= usize::MAX,
                y0 + h <= usize::MAX,
                w <= isize::MAX,
                h <= isize::MAX,
                2 * rr * rr <= isize::MAX,
            decreases h - y,
        {
            let mut x: usize = 0;
            while x < w
                invariant
                    self.wf(),
                    self.info == old(self).info,
                    rgb == (self.info.pixel_format == PixelFormat::Rgb || self.info.pixel_format == PixelFormat::Bgr),
                    !rgb ==> self.buf@ == old(self).buf@,
                    rgb ==> round_blended(self.info, old(self).buf@, self.buf@, x0 as int, y0 as int, w as int, h as int, rr as int, y as int, x as int, cb, a),
                    cb == color_bytes(self.info.pixel_format, self.info.bytes_per_pixel as int, c),
                    a == (if alpha > 256 { 256int } else { alpha as int }),
                    rr == radius(w as int, h as int, r as int),
                    y < h,
                    x <= w,
                    x0 + w <= usize::MAX,
                    y0 + h <= usize::MAX,
                    w <= isize::MAX,
                    h <= isize::MAX,
                    2 * rr * rr <= isize::MAX,
                decreases w - x,
            {
                let inside = inside_round(x, y, w, h, rr);
                proof {
                    if rgb {
                        lemma_round_step(self.info, old(self).buf@, self.buf@, x0 as int, y0 as int, w as int, h as int, rr as int, y as int, x as int, cb, a, c, alpha);
                    }
                }
                if inside {
                    self.blend_pixel(x0 + x, y0 + y, c, alpha);
                }
                x += 1;
            }
            proof {
                if rgb {
                    lemma_round_row(self.info, old(self).buf@, self.buf@, x0 as int, y0 as int, w as int, h as int, rr as int, y as int, cb, a);
                }
            }
            y += 1;
        }
    }


    /// A filled rounded rectangle of corner radius `r` (at most half of each
    /// side): each row is one span, inset on both sides along the corner
    /// circles.
    pub fn fill_round_rect(&mut self, x0: usize, y0: usize, w: usize, h: usize, r: usize, c: Color)
        requires
            old(self).wf(),
            x0 + w <= usize::MAX,
            y0 + h <= usize::MAX,
            radius(w as int, h as int, r as int) * radius(w as int, h as int, r as int) <= usize::MAX,
        ensures
            final(self).info == old(self).info,
            round_painted(
                old(self).info,
                old(self).buf@,
                final(self).buf@,
                x0 as int,
                y0 as int,
                w as int,
                h as int,
                radius(w as int, h as int, r as int),
                h as int,
                fill_bytes(old(self).info.pixel_format, old(self).info.bytes_per_pixel as int, c),
            ),
    {
        let rr = if r < w / 2 { r } else { w / 2 };
        let rr = if rr < h / 2 { rr } else { h / 2 };
        let ghost s = fill_bytes(self.info.pixel_format, self.info.bytes_per_pixel as int, c);
        proof {
            assert(s.len() <= self.info.bytes_per_pixel);
        }
        let mut y: usize = 0;
        while y < h
            invariant
                self.wf(),
                self.info == old(self).info,
                s == fill_bytes(self.info.pixel_format, self.info.bytes_per_pixel as int, c),
                s.len() <= self.info.bytes_per_pixel,
                round_painted(self.info, old(self).buf@, self.buf@, x0 as int, y0 as int, w as int, h as int, rr as int, y as int, s),
                rr == radius(w as int, h as int, r as int),
                rr <= w / 2,
                rr <= h / 2,
                rr * rr <= usize::MAX,
                y <= h,
                x0 + w <= usize::MAX,
                y0 + h <= usize::MAX,
            decreases h - y,
        {
            let inset = row_inset(y, h, rr);
            let ghost before = self.buf@;
            if w > 2 * inset {
                self.fill_rect(x0 + inset, y0 + y, w - 2 * inset, 1, c);
            }
            proof {
                lemma_span_row(self.info, old(self).buf@, before, self.buf@, x0 as int, y0 as int, w as int, h as int, rr as int, y as int, s);
            }
            y += 1;
        }
    }


    /// Set pixel `(x, y)` to `c`; pixels off the visible area are ignored.
    pub fn put(&mut self, x: usize, y: usize, c: Color)
        requires
            old(self).wf(),
        ensures
            final(self).info == old(self).info,
            final(self).buf@ == (if x < old(self).info.width && y < old(self).info.height {
                write_at(
                    old(self).buf@,
                    pixel_at(old(self).info, x as int, y as int),
                    color_bytes(old(self).info.pixel_format, old(self).info.bytes_per_pixel as int, c),
                )
            } else {
                old(self).buf@
            }),
    {
        if x >= self.info.width || y >= self.info.height {
            return;
        }
        let o = self.offset(x, y);
        let bytes = color_vec(self.info.pixel_format, self.info.bytes_per_pixel, c);
        self.write_bytes(o, bytes.as_slice());
    }

    /// Blend the `iw × ih` RGBA image `data` (four bytes a pixel, rows packed)
    /// over the image with its corner at `(x0, y0)`, pixel by pixel in row
    /// order: a pixel of alpha 0 is skipped, others blend at their alpha
    /// scaled to 256.
    pub fn draw_rgba(&mut self, data: &[u8], iw: usize, ih: usize, x0: usize, y0: usize)
        requires
            old(self).wf(),
            iw * ih * 4 <= data@.len(),
            x0 + iw <= usize::MAX + 1,
            y0 + ih <= usize::MAX + 1,
        ensures
            final(self).info == old(self).info,
            final(self).buf@ == rgba_drawn(
                old(self).info,
                old(self).buf@,
                data@,
                iw as int,
                x0 as int,
                y0 as int,
                (iw * ih) as nat,
            ),
    {
        let dn = data.len();
        let mut y: usize = 0;
        while y < ih
            invariant
                self.wf(),
                self.info == old(self).info,
                dn == data@.len(),
                iw * ih * 4 <= dn,
                x0 + iw <= usize::MAX + 1,
                y0 + ih <= usize::MAX + 1,
                y <= ih,
                self.buf@ == rgba_drawn(old(self).info, old(self).buf@, data@, iw as int, x0 as int, y0 as int, (y * iw) as nat),
            decreases ih - y,
        {
            let mut x: usize = 0;
            while x < iw
                invariant
                    self.wf(),
                    self.info == old(self).info,
                    dn == data@.len(),
                    iw * ih * 4 <= dn,
                    x0 + iw <= usize::MAX + 1,
                    y0 + ih <= usize::MAX + 1,
                    y < ih,
                    x <= iw,
                    self.buf@ == rgba_drawn(
                        old(self).info,
                        old(self).buf@,
                        data@,
                        iw as int,
                        x0 as int,
                        y0 as int,
                        (y * iw + x) as nat,
                    ),
                decreases iw - x,
            {
                proof {
                    let k = y * iw + x;
                    assert(0 <= y * iw && k + 1 <= iw * ih && (k + 1) * 4 <= iw * ih * 4 && k <= k * 4) by (nonlinear_arith)
                        requires
                            k == y * iw + x,
                            y < ih,
                            x < iw,
                    {
                        assert(y * iw + iw <= ih * iw);
                    }
                    vstd::arithmetic::div_mod::lemma_fundamental_div_mod_converse(k, iw as int, y as int, x as int);
                }
                let o = (y * iw + x) * 4;
                let a = data[o + 3];
                if a != 0 {
                    let col = Color::rgb(data[o], data[o + 1], data[o + 2]);
                    let a16 = a as u16;
                    self.blend_pixel(x0 + x, y0 + y, col, a16 + a16 / 128);
                }
                x += 1;
            }
            assert(y * iw + iw == (y + 1) * iw) by (nonlinear_arith);
            y += 1;
        }
        assert(ih * iw == iw * ih) by (nonlinear_arith);
    }

    /// Copy the visible part of the `w × h` region at `(x0, y0)` into `dst`,
    /// packed `w` pixels to a row: byte `j` of region pixel `(x, y)` lands at
    /// `(y * w + x) * bpp + j`. A fading window blends toward such a copy of
    /// what lay behind it.
    pub fn snapshot_region(&self, dst: &mut [u8], x0: usize, y0: usize, w: usize, h: usize)
        requires
            self.wf(),
            x0 + w <= usize::MAX,
            y0 + h <= usize::MAX,
            region_fits(self.info, x0 as int, y0 as int, w as int, h as int, old(dst)@.len() as int),
        ensures
            region_set(
                packed(self.info, w as int),
                old(dst)@,
                final(dst)@,
                0,
                clip_end(x0 as int, w as int, self.info.width as int) - x0,
                0,
                clip_end(y0 as int, h as int, self.info.height as int) - y0,
                0,
                self.info.bytes_per_pixel as int,
                copy_val(self.info, self.buf@, x0 as int, y0 as int),
            ),
    {
        let ghost val = copy_val(self.info, self.buf@, x0 as int, y0 as int);
        let ghost pk = packed(self.info, w as int);
        let bpp = self.info.bytes_per_pixel;
        let dn = dst.len();
        if x0 >= self.info.width || y0 >= self.info.height || w == 0 || h == 0 {
            return;
        }
        let x_end = if x0 + w < self.info.width { x0 + w } else { self.info.width };
        let y_end = if y0 + h < self.info.height { y0 + h } else { self.info.height };
        let mut y = y0;
        while y < y_end
            invariant
                self.wf(),
                dst@.len() == dn,
                dn == old(dst)@.len(),
                bpp == self.info.bytes_per_pixel,
                pk == packed(self.info, w as int),
                val == copy_val(self.info, self.buf@, x0 as int, y0 as int),
                x0 < x_end <= self.info.width,
                x_end <= x0 + w,
                y0 <= y <= y_end <= self.info.height,
                ((y_end - 1 - y0) * w + (x_end - x0)) * bpp <= dn,
                region_set(pk, old(dst)@, dst@, 0, x_end - x0, 0, y - y0, 0, bpp as int, val),
            decreases y_end - y,
        {
            let mut x = x0;
            while x < x_end
                invariant
                    self.wf(),
                    dst@.len() == dn,
                    dn == old(dst)@.len(),
                    bpp == self.info.bytes_per_pixel,
                    pk == packed(self.info, w as int),
                    val == copy_val(self.info, self.buf@, x0 as int, y0 as int),
                    x0 <= x <= x_end <= self.info.width,
                    x_end <= x0 + w,
                    y0 <= y < y_end <= self.info.height,
                    ((y_end - 1 - y0) * w + (x_end - x0)) * bpp <= dn,
                    region_set(pk, old(dst)@, dst@, 0, x_end - x0, 0, y - y0, x - x0, bpp as int, val),
                decreases x_end - x,
            {
                let o = self.offset(x, y);
                proof {
                    lemma_packed_index(
                        w as int,
                        bpp as int,
                        (y_end - 1 - y0) as int,
                        (x_end - x0) as int,
                        (y - y0) as int,
                        (x - x0) as int,
                    );
                    lemma_region_step(
                        pk,
                        old(dst)@,
                        dst@,
                        0,
                        x_end - x0,
                        0,
                        y - y0,
                        x - x0,
                        bpp as int,
                        val,
                    );
                }
                let d = ((y - y0) * w + (x - x0)) * bpp;
                copy_bytes(dst, d, self.buf.as_slice(), o, bpp);
                proof {
                    assert(self.buf@.subrange(o as int, o + bpp) =~= pixel_vals(
                        val,
                        x - x0,
                        y - y0,
                        bpp as int,
                    ));
                }
                x += 1;
            }
            proof {
                lemma_region_row(pk, old(dst)@, dst@, 0, x_end - x0, 0, y - y0, bpp as int, val);
            }
            y += 1;
        }
    }

    /// Blend the visible part of the `w × h` region at `(x0, y0)` toward the
    /// packed copy `src` (laid out as `snapshot_region` writes it): each byte
    /// of each pixel becomes `src`'s byte weighted `256 - alpha` plus its own
    /// weighted `alpha`, over 256, with `alpha` capped at 256. At 0 the copy
    /// shows; at 256 the image stays.
    pub fn blend_from_local(&mut self, src: &[u8], x0: usize, y0: usize, w: usize, h: usize, alpha: u16)
        requires
            old(self).wf(),
            x0 + w <= usize::MAX,
            y0 + h <= usize::MAX,
            region_fits(old(self).info, x0 as int, y0 as int, w as int, h as int, src@.len() as int),
        ensures
            final(self).info == old(self).info,
            region_set(
                old(self).info,
                old(self).buf@,
                final(self).buf@,
                x0 as int,
                clip_end(x0 as int, w as int, old(self).info.width as int),
                y0 as int,
                clip_end(y0 as int, h as int, old(self).info.height as int),
                x0 as int,
                old(self).info.bytes_per_pixel as int,
                backdrop_val(
                    old(self).info,
                    old(self).buf@,
                    src@,
                    x0 as int,
                    y0 as int,
                    w as int,
                    if alpha < 256 { alpha as int } else { 256 },
                ),
            ),
    {
        let a: u16 = if alpha < 256 { alpha } else { 256 };
        let ghost val = backdrop_val(self.info, self.buf@, src@, x0 as int, y0 as int, w as int, a as int);
        let ghost b0 = self.buf@;
        let bpp = self.info.bytes_per_pixel;
        let sn = src.len();
        if x0 >= self.info.width || y0 >= self.info.height || w == 0 || h == 0 {
            return;
        }
        let x_end = if x0 + w < self.info.width { x0 + w } else { self.info.width };
        let y_end = if y0 + h < self.info.height { y0 + h } else { self.info.height };
        let mut y = y0;
        while y < y_end
            invariant
                self.wf(),
                self.info == old(self).info,
                b0 == old(self).buf@,
                sn == src@.len(),
                a <= 256,
                bpp == self.info.bytes_per_pixel,
                val == backdrop_val(self.info, b0, src@, x0 as int, y0 as int, w as int, a as int),
                x0 < x_end <= self.info.width,
                x_end <= x0 + w,
                y0 <= y <= y_end <= self.info.height,
                ((y_end - 1 - y0) * w + (x_end - x0)) * bpp <= sn,
                region_set(self.info, b0, self.buf@, x0 as int, x_end as int, y0 as int, y as int, x0 as int, bpp as int, val),
            decreases y_end - y,
        {
            let mut x = x0;
            while x < x_end
                invariant
                    self.wf(),
                    self.info == old(self).info,
                    b0 == old(self).buf@,
                    sn == src@.len(),
                    a <= 256,
                    bpp == self.info.bytes_per_pixel,
                    val == backdrop_val(self.info, b0, src@, x0 as int, y0 as int, w as int, a as int),
                    x0 <= x <= x_end <= self.info.width,
                    x_end <= x0 + w,
                    y0 <= y < y_end <= self.info.height,
                    ((y_end - 1 - y0) * w + (x_end - x0)) * bpp <= sn,
                    region_set(self.info, b0, self.buf@, x0 as int, x_end as int, y0 as int, y as int, x as int, bpp as int, val),
                decreases x_end - x,
            {
                let o = self.offset(x, y);
                proof {
                    lemma_packed_index(
                        w as int,
                        bpp as int,
                        (y_end - 1 - y0) as int,
                        (x_end - x0) as int,
                        (y - y0) as int,
                        (x - x0) as int,
                    );
                    lemma_region_step(
                        self.info,
                        b0,
                        self.buf@,
                        x0 as int,
                        x_end as int,
                        y0 as int,
                        y as int,
                        x as int,
                        bpp as int,
                        val,
                    );
                    assert forall|j: int| 0 <= j < bpp implies #[trigger] self.buf@[o + j] == b0[o + j] by {
                        if in_done(self.info, o + j, x0 as int, x_end as int, y0 as int, y as int, x as int, bpp as int) {
                            let (px, py, pj) = choose|px: int, py: int, pj: int|
                                done_pixel(x0 as int, x_end as int, y0 as int, y as int, x as int, px, py) && 0 <= pj
                                    < bpp && o + j == #[trigger] byte_at(self.info, px, py, pj);
                            lemma_earlier_pixel(self.info, px, py, x as int, y as int);
                        }
                    }
                }
                let s = ((y - y0) * w + (x - x0)) * bpp;
                let ghost before = self.buf@;
                mix_bytes(&mut self.buf, o, src, s, bpp, a);
                proof {
                    assert(Seq::new(bpp as nat, |j: int| blend_byte(src@[s + j], before[o + j], a as int))
                        =~= pixel_vals(val, x as int, y as int, bpp as int));
                }
                x += 1;
            }
            proof {
                lemma_region_row(self.info, b0, self.buf@, x0 as int, x_end as int, y0 as int, y as int, bpp as int, val);
            }
            y += 1;
        }
    }
}

/// The pixels of rectangle `r` on a framebuffer of layout `info`, clipped
/// to the screen: columns `[x, xe)` and rows `[y, ye)`.
pub open spec fn clip_rect(info: FbInfo, r: Rect) -> (int, int, int, int) {
    let x = if r.x > 0 { r.x as int } else { 0 };
    let y = if r.y > 0 { r.y as int } else { 0 };
    let xe = min_int(max_int(r.x + r.w, 0), info.width as int);
    let ye = min_int(max_int(r.y + r.h, 0), info.height as int);
    (x, y, xe, ye)
}

/// A buffer of `len` bytes holds every pixel of the clipped rectangle.
pub open spec fn rect_fits(info: FbInfo, r: Rect, len: int) -> bool {
    let (x, y, xe, ye) = clip_rect(info, r);
    x < xe && y < ye ==> pixel_at(info, xe - 1, ye - 1) + info.bytes_per_pixel <= len
}

/// The byte values of a framebuffer image `src`, pixel by pixel.
pub open spec fn same_val(info: FbInfo, src: Seq<u8>) -> spec_fn(int, int, int) -> u8 {
    |x: int, y: int, j: int| src[byte_at(info, x, y, j)]
}

/// Copy the on-screen part of rectangle `r` from `src` into `dst`, two
/// images of the same layout: every byte of those pixels takes `src`'s
/// value; the rest of `dst` stays.
pub fn copy_region(dst: &mut [u8], src: &[u8], info: FbInfo, r: Rect)
    requires
        r.edges_fit(),
        info.width <= info.stride,
        info.bytes_per_pixel >= 1,
        rect_fits(info, r, old(dst)@.len() as int),
        rect_fits(info, r, src@.len() as int),
    ensures
        ({
            let (x, y, xe, ye) = clip_rect(info, r);
            region_set(info, old(dst)@, final(dst)@, x, xe, y, ye, x, info.bytes_per_pixel as int, same_val(info, src@))
        }),
{
    let ghost val = same_val(info, src@);
    let bpp = info.bytes_per_pixel;
    let stride = info.stride;
    let dn = dst.len();
    let sn = src.len();
    let x: usize = if r.x > 0 { r.x as usize } else { 0 };
    let y: usize = if r.y > 0 { r.y as usize } else { 0 };
    if x >= info.width || y >= info.height {
        return;
    }
    let right = r.right();
    let bottom = r.bottom();
    let rc: usize = if right > 0 { right as usize } else { 0 };
    let bc: usize = if bottom > 0 { bottom as usize } else { 0 };
    let x_end = if rc < info.width { rc } else { info.width };
    let y_end = if bc < info.height { bc } else { info.height };
    if x_end <= x || y_end <= y {
        return;
    }
    let mut row = y;
    while row < y_end
        invariant
            dst@.len() == dn,
            dn == old(dst)@.len(),
            sn == src@.len(),
            bpp == info.bytes_per_pixel,
            stride == info.stride,
            bpp >= 1,
            x < x_end <= info.width <= stride,
            y <= row <= y_end <= info.height,
            pixel_at(info, x_end - 1, y_end - 1) + bpp <= dn,
            pixel_at(info, x_end - 1, y_end - 1) + bpp <= sn,
            val == same_val(info, src@),
            region_set(info, old(dst)@, dst@, x as int, x_end as int, y as int, row as int, x as int, bpp as int, val),
        decreases y_end - row,
    {
        let mut col = x;
        while col < x_end
            invariant
                dst@.len() == dn,
                dn == old(dst)@.len(),
                sn == src@.len(),
                bpp == info.bytes_per_pixel,
                stride == info.stride,
                bpp >= 1,
                x <= col <= x_end <= info.width <= stride,
                y <= row < y_end <= info.height,
                pixel_at(info, x_end - 1, y_end - 1) + bpp <= dn,
                pixel_at(info, x_end - 1, y_end - 1) + bpp <= sn,
                val == same_val(info, src@),
                region_set(info, old(dst)@, dst@, x as int, x_end as int, y as int, row as int, col as int, bpp as int, val),
            decreases x_end - col,
        {
            proof {
                if !(col == x_end - 1 && row == y_end - 1) {
                    lemma_earlier_pixel(info, col as int, row as int, x_end - 1, y_end - 1);
                }
                lemma_pixel_nonneg(info, col as int, row as int);
                let sr = stride as int;
                assert(row * sr + col <= (row * sr + col) * bpp) by (nonlinear_arith)
                    requires
                        0 <= row,
                        0 <= col,
                        0 <= sr,
                        bpp >= 1,
                ;
                assert(0 <= row * sr) by (nonlinear_arith)
                    requires
                        0 <= row,
                        0 <= sr,
                ;
                lemma_region_step(
                    info,
                    old(dst)@,
                    dst@,
                    x as int,
                    x_end as int,
                    y as int,
                    row as int,
                    col as int,
                    bpp as int,
                    val,
                );
            }
            let off = (row * stride + col) * bpp;
            copy_bytes(dst, off, src, off, bpp);
            proof {
                assert(src@.subrange(off as int, off + bpp) =~= pixel_vals(val, col as int, row as int, bpp as int));
            }
            col += 1;
        }
        proof {
            lemma_region_row(info, old(dst)@, dst@, x as int, x_end as int, y as int, row as int, bpp as int, val);
        }
        row += 1;
    }
}

/// A fade toward a region copy at alpha 0 shows the copied backdrop: when
/// `snap` holds `snapshot_region`'s copy of image `b` at `(x0, y0)` and
/// `c1` is `blend_from_local` of any later image `c0` toward `snap` at
/// alpha 0 over the same region, every byte of every pixel of the region
/// in `c1` is the one `b` had. At alpha 256 the later image stays.
pub proof fn lemma_fade_shows_backdrop(
    info: FbInfo,
    b: Seq<u8>,
    snap0: Seq<u8>,
    snap: Seq<u8>,
    c0: Seq<u8>,
    c1: Seq<u8>,
    x0: int,
    y0: int,
    w: int,
    xe: int,
    ye: int,
)
    requires
        x0 <= xe,
        y0 <= ye,
        region_set(packed(info, w), snap0, snap, 0, xe - x0, 0, ye - y0, 0, info.bytes_per_pixel as int, copy_val(info, b, x0, y0)),
        region_set(info, c0, c1, x0, xe, y0, ye, x0, info.bytes_per_pixel as int, backdrop_val(info, c0, snap, x0, y0, w, 0)),
    ensures
        forall|x: int, y: int, j: int|
            x0 <= x < xe && y0 <= y < ye && 0 <= j < info.bytes_per_pixel ==> #[trigger] c1[byte_at(info, x, y, j)]
                == b[byte_at(info, x, y, j)],
{
    assert forall|x: int, y: int, j: int|
        x0 <= x < xe && y0 <= y < ye && 0 <= j < info.bytes_per_pixel implies #[trigger] c1[byte_at(info, x, y, j)]
        == b[byte_at(info, x, y, j)] by {
        assert(done_pixel(x0, xe, y0, ye, x0, x, y));
        assert(done_pixel(0, xe - x0, 0, ye - y0, 0, x - x0, y - y0));
        let pk = packed(info, w);
        assert(snap[byte_at(pk, x - x0, y - y0, j)] == b[byte_at(info, x0 + (x - x0), y0 + (y - y0), j)]);
        let d = snap[byte_at(pk, x - x0, y - y0, j)];
        let cur = c0[byte_at(info, x, y, j)];
        assert(blend_byte(d, cur, 0) == d) by (nonlinear_arith)
            requires
                0 <= d < 256,
        ;
    }
}

/// Blending at alpha 256 keeps the image's own byte; at 0 it takes the
/// other.
pub proof fn lemma_blend_ends(dst: u8, src: u8)
    ensures
        blend_byte(dst, src, 0) == dst,
        blend_byte(dst, src, 256) == src,
{
    assert(blend_byte(dst, src, 0) == dst) by (nonlinear_arith)
        requires
            0 <= dst < 256,
    ;
    assert(blend_byte(dst, src, 256) == src) by (nonlinear_arith)
        requires
            0 <= src < 256,
    ;
}

/// Bounds for pixel `(xx, yy)` of a packed copy `w` pixels wide whose last
/// pixel is `(X - 1, Y)`.
proof fn lemma_packed_index(w: int, bpp: int, yl: int, xl: int, yy: int, xx: int)
    requires
        bpp >= 1,
        0 <= yy <= yl,
        0 <= xx < xl <= w,
    ensures
        yy * w <= yy * w + xx,
        yy * w + xx <= (yy * w + xx) * bpp,
        (yy * w + xx) * bpp + bpp <= (yl * w + xl) * bpp,
{
    assert(0 <= yy * w) by (nonlinear_arith)
        requires
            0 <= yy,
            0 <= w,
    ;
    assert(yy * w + xx <= (yy * w + xx) * bpp) by (nonlinear_arith)
        requires
            0 <= yy * w + xx,
            bpp >= 1,
    ;
    assert(yy * w + xx + 1 <= yl * w + xl) by (nonlinear_arith)
        requires
            0 <= yy <= yl,
            0 <= xx < xl <= w,
    {
        if yy < yl {
            assert(yy * w + w <= yl * w);
        }
    }
    assert((yy * w + xx) * bpp + bpp <= (yl * w + xl) * bpp) by (nonlinear_arith)
        requires
            yy * w + xx + 1 <= yl * w + xl,
            bpp >= 1,
    ;
}

/// Copy `n` bytes of `src` from `o` into `dst` from `d`.
fn copy_bytes(dst: &mut [u8], d: usize, src: &[u8], o: usize, n: usize)
    requires
        d + n <= old(dst)@.len(),
        o + n <= src@.len(),
    ensures
        final(dst)@ == write_at(old(dst)@, d as int, src@.subrange(o as int, o + n)),
{
    let dn = dst.len();
    let sn = src.len();
    let mut k: usize = 0;
    while k < n
        invariant
            dn == dst@.len(),
            sn == src@.len(),
            d + n <= dst@.len(),
            dst@.len() == old(dst)@.len(),
            o + n <= src@.len(),
            k <= n,
            dst@ == write_at(old(dst)@, d as int, src@.subrange(o as int, o + k)),
        decreases n - k,
    {
        dst[d + k] = src[o + k];
        k += 1;
        assert(dst@ =~= write_at(old(dst)@, d as int, src@.subrange(o as int, o + k)));
    }
}

/// Blend `n` bytes of `buf` from `o` toward `src`'s bytes from `s`: each
/// becomes `src`'s byte weighted `256 - a` plus its own weighted `a`.
fn mix_bytes(buf: &mut Vec<u8>, o: usize, src: &[u8], s: usize, n: usize, a: u16)
    requires
        o + n <= old(buf)@.len(),
        s + n <= src@.len(),
        a <= 256,
    ensures
        final(buf)@ == write_at(
            old(buf)@,
            o as int,
            Seq::new(n as nat, |j: int| blend_byte(src@[s + j], old(buf)@[o + j], a as int)),
        ),
{
    let ghost goal = Seq::new(n as nat, |j: int| blend_byte(src@[s + j], old(buf)@[o + j], a as int));
    let bn = buf.len();
    let sn = src.len();
    let mut k: usize = 0;
    while k < n
        invariant
            bn == buf@.len(),
            sn == src@.len(),
            o + n <= buf@.len(),
            buf@.len() == old(buf)@.len(),
            s + n <= src@.len(),
            a <= 256,
            k <= n,
            goal == Seq::new(n as nat, |j: int| blend_byte(src@[s + j], old(buf)@[o + j], a as int)),
            buf@ == write_at(old(buf)@, o as int, goal.subrange(0, k as int)),
        decreases n - k,
    {
        let v = blend_u8(src[s + k], buf[o + k], a);
        buf.set(o + k, v);
        k += 1;
        assert(buf@ =~= write_at(old(buf)@, o as int, goal.subrange(0, k as int)));
    }
    assert(goal.subrange(0, n as int) =~= goal);
}

/// A finished row: the painted area is the same whether seen as the end of
/// row `yc` or the start of row `yc + 1`.
proof fn lemma_next_row(info: FbInfo, b0: Seq<u8>, b: Seq<u8>, s: Seq<u8>, x0: int, x1: int, y0: int, yc: int)
    requires
        y0 <= yc,
        x0 <= x1,
        forall|x: int, y: int, j: int|
            done_pixel(x0, x1, y0, yc, x1, x, y) && 0 <= j < s.len() ==> b[#[trigger] byte_at(info, x, y, j)] == s[j],
        forall|k: int| 0 <= k < b.len() && !in_done(info, k, x0, x1, y0, yc, x1, s.len() as int) ==> b[k] == b0[k],
    ensures
        forall|x: int, y: int, j: int|
            done_pixel(x0, x1, y0, yc + 1, x0, x, y) && 0 <= j < s.len() ==> b[#[trigger] byte_at(info, x, y, j)] == s[j],
        forall|k: int| 0 <= k < b.len() && !in_done(info, k, x0, x1, y0, yc + 1, x0, s.len() as int) ==> b[k] == b0[k],
{
    assert forall|x: int, y: int, j: int|
        done_pixel(x0, x1, y0, yc + 1, x0, x, y) && 0 <= j < s.len() implies b[#[trigger] byte_at(info, x, y, j)]
        == s[j] by {
        assert(done_pixel(x0, x1, y0, yc, x1, x, y));
    }
    assert forall|k: int| 0 <= k < b.len() && !in_done(info, k, x0, x1, y0, yc + 1, x0, s.len() as int) implies b[k]
        == b0[k] by {
        if in_done(info, k, x0, x1, y0, yc, x1, s.len() as int) {
            let (x, y, j) = choose|x: int, y: int, j: int|
                done_pixel(x0, x1, y0, yc, x1, x, y) && 0 <= j < s.len() && k == #[trigger] byte_at(info, x, y, j);
            assert(done_pixel(x0, x1, y0, yc + 1, x0, x, y));
        }
    }
}

/// The bytes of a filled pixel for format `f`.
fn fill_vec(f: PixelFormat, bpp: usize, c: Color) -> (v: Vec<u8>)
    requires
        bpp >= 1,
        (f == PixelFormat::Rgb || f == PixelFormat::Bgr) ==> bpp >= 3,
    ensures
        v@ == fill_bytes(f, bpp as int, c),
        v@.len() <= bpp,
{
    let mut v = color_vec(f, bpp, c);
    if bpp == 4 && (matches!(f, PixelFormat::Rgb) || matches!(f, PixelFormat::Bgr)) {
        v.push(0);
    }
    v
}

/// Whether `(x, y)` of a `w × h` box lies inside its rounded outline of
/// radius `r` (at most half of each side).
pub fn inside_round(x: usize, y: usize, w: usize, h: usize, r: usize) -> (b: bool)
    requires
        x < w,
        y < h,
        r <= w / 2,
        r <= h / 2,
        w <= isize::MAX,
        h <= isize::MAX,
        2 * r * r <= isize::MAX,
    ensures
        b == inside_round_spec(x as int, y as int, w as int, h as int, r as int),
{
    if r == 0 {
        return true;
    }
    let in_left = x < r;
    let in_right = x >= w - r;
    let in_top = y < r;
    let in_bottom = y >= h - r;
    if !((in_left || in_right) && (in_top || in_bottom)) {
        return true;
    }
    let cx = if in_left { r } else { w - 1 - r };
    let cy = if in_top { r } else { h - 1 - r };
    let dx = x as isize - cx as isize;
    let dy = y as isize - cy as isize;
    assert(-(r as int) <= dx <= r && -(r as int) <= dy <= r);
    assert(dx * dx <= r * r && dy * dy <= r * r && 0 <= dx * dx && 0 <= dy * dy) by (nonlinear_arith)
        requires
            -(r as int) <= dx <= r,
            -(r as int) <= dy <= r,
    ;
    assert(r * r <= 2 * r * r && 2 * r * r == r * r + r * r) by (nonlinear_arith);
    let rr = r * r;
    let d2 = dx * dx;
    let e2 = dy * dy;
    d2 + e2 <= rr as isize
}

/// How far row `y` of a rounded box is inset on each side.
fn row_inset(y: usize, h: usize, r: usize) -> (inset: usize)
    requires
        y < h,
        r <= h / 2,
        r * r <= usize::MAX,
    ensures
        inset == round_inset(y as int, h as int, r as int),
        inset <= r,
{
    if r == 0 {
        0
    } else if y < r {
        let dy = r - y;
        assert(dy * dy <= r * r) by (nonlinear_arith)
            requires
                0 < dy <= r,
        ;
        let q = isqrt(r * r - dy * dy);
        proof {
            lemma_floor_sqrt(r * r - dy * dy, q as int);
            assert(q <= r) by (nonlinear_arith)
                requires
                    q * q <= r * r - dy * dy,
                    0 <= dy,
                    0 <= r,
            {
                if q > r {
                    assert(q * q > r * r);
                }
            }
        }
        r - q
    } else if y >= h - r {
        let dy = y - (h - 1 - r);
        assert(dy * dy <= r * r) by (nonlinear_arith)
            requires
                0 < dy <= r,
        ;
        let q = isqrt(r * r - dy * dy);
        proof {
            lemma_floor_sqrt(r * r - dy * dy, q as int);
            assert(q <= r) by (nonlinear_arith)
                requires
                    q * q <= r * r - dy * dy,
                    0 <= dy,
                    0 <= r,
            {
                if q > r {
                    assert(q * q > r * r);
                }
            }
        }
        r - q
    } else {
        0
    }
}

/// One channel blended toward `src` at `a` in 256.
fn blend_u8(dst: u8, src: u8, a: u16) -> (r: u8)
    requires
        a <= 256,
    ensures
        r == blend_byte(dst, src, a as int),
{
    let d = dst as u32;
    let s = src as u32;
    let a32 = a as u32;
    assert(d * (256 - a32) + s * a32 <= 255 * 256) by (nonlinear_arith)
        requires
            d <= 255,
            s <= 255,
            a32 <= 256,
    ;
    assert((d * (256 - a32) + s * a32) / 256 <= 255) by (nonlinear_arith)
        requires
            d * (256 - a32) + s * a32 <= 255 * 256,
    ;
    ((d * (256 - a32) + s * a32) / 256) as u8
}

/// The bytes of colour `c` for format `f`.
fn color_vec(f: PixelFormat, bpp: usize, c: Color) -> (v: Vec<u8>)
    requires
        bpp >= 1,
        (f == PixelFormat::Rgb || f == PixelFormat::Bgr) ==> bpp >= 3,
    ensures
        v@ == color_bytes(f, bpp as int, c),
        v@.len() <= bpp,
{
    let mut v: Vec<u8> = Vec::new();
    match f {
        PixelFormat::Rgb => {
            v.push(c.r);
            v.push(c.g);
            v.push(c.b);
        },
        PixelFormat::Bgr => {
            v.push(c.b);
            v.push(c.g);
            v.push(c.r);
        },
        PixelFormat::U8 => {
            assert(c.r as u16 * 54 + c.g as u16 * 183 + c.b as u16 * 19 <= 0xFFFF) by (nonlinear_arith);
            let sum: u16 = c.r as u16 * 54 + c.g as u16 * 183 + c.b as u16 * 19;
            let l = sum >> 8u16;
            assert(l == sum / 256) by (bit_vector)
                requires
                    l == sum >> 8u16,
            ;
            v.push(l as u8);
        },
        PixelFormat::Unknown => {
            if bpp >= 3 {
                v.push(c.r);
                v.push(c.g);
                v.push(c.b);
            }
        },
    }
    assert(v@ =~= color_bytes(f, bpp as int, c));
    v
}

} // verus!
