//! Window geometry and hit-testing. Pure integer math, no rendering.
use vstd::prelude::*;

verus! {

/// Title bar height in pixels.
pub const TITLE_H: i32 = 30;
/// Close-button square side.
pub const CLOSE: i32 = 18;
/// Inset of the close button from the title bar's top-right corner.
pub const CLOSE_INSET: i32 = 8;
/// Offset of the close button below the window's top edge.
pub const CLOSE_TOP: i32 = 6;

/// True when `v` is a value of `i32`.
pub open spec fn in_i32(v: int) -> bool {
    i32::MIN <= v <= i32::MAX
}

pub open spec fn min_int(a: int, b: int) -> int {
    if a < b { a } else { b }
}

pub open spec fn max_int(a: int, b: int) -> int {
    if a > b { a } else { b }
}

/// `v` clamped into `[lo, hi]` (with `lo <= hi`).
pub open spec fn clamp_int(v: int, lo: int, hi: int) -> int {
    if v < lo { lo } else if v > hi { hi } else { v }
}

/// An axis-aligned rectangle.
#[derive(Clone, Copy, PartialEq, Eq, Debug, Structural)]
pub struct Rect {
    pub x: i32,
    pub y: i32,
    pub w: i32,
    pub h: i32,
}

impl Rect {
    /// The right and bottom edges are representable.
    pub open spec fn edges_fit(self) -> bool {
        in_i32(self.x + self.w) && in_i32(self.y + self.h)
    }

    /// Half-open containment: `[x, x+w) × [y, y+h)`.
    pub open spec fn has(self, px: int, py: int) -> bool {
        self.x <= px < self.x + self.w && self.y <= py < self.y + self.h
    }

    pub open spec fn empty(self) -> bool {
        self.w <= 0 || self.h <= 0
    }

    pub open spec fn close_spec(self) -> Rect {
        Rect {
            x: (self.x + self.w - CLOSE - CLOSE_INSET) as i32,
            y: (self.y + CLOSE_TOP) as i32,
            w: CLOSE,
            h: CLOSE,
        }
    }

    pub open spec fn close_fits(self) -> bool {
        in_i32(self.x + self.w) && in_i32(self.x + self.w - CLOSE - CLOSE_INSET)
            && in_i32(self.y + CLOSE_TOP + CLOSE)
    }

    pub fn new(x: i32, y: i32, w: i32, h: i32) -> (r: Self)
        ensures
            r == (Rect { x, y, w, h }),
    {
        Rect { x, y, w, h }
    }

    /// Half-open containment: `[x, x+w) × [y, y+h)`.
    pub fn contains(&self, px: i32, py: i32) -> (b: bool)
        requires
            self.edges_fit(),
        ensures
            b == self.has(px as int, py as int),
    {
        px >= self.x && px < self.x + self.w && py >= self.y && py < self.y + self.h
    }

    /// The close button rectangle for this window.
    pub fn close_rect(&self) -> (r: Rect)
        requires
            self.close_fits(),
        ensures
            r == self.close_spec(),
            r.edges_fit(),
    {
        Rect::new(self.x + self.w - CLOSE - CLOSE_INSET, self.y + CLOSE_TOP, CLOSE, CLOSE)
    }

    /// True when the point is on the close button.
    pub fn on_close(&self, px: i32, py: i32) -> (b: bool)
        requires
            self.close_fits(),
        ensures
            b == self.close_spec().has(px as int, py as int),
    {
        self.close_rect().contains(px, py)
    }

    /// True when the point is on the draggable title area (excludes close button).
    pub fn on_title(&self, px: i32, py: i32) -> (b: bool)
        requires
            self.close_fits(),
            in_i32(self.y + TITLE_H),
        ensures
            b == (self.x <= px < self.x + self.w && self.y <= py < self.y + TITLE_H
                && !self.close_spec().has(px as int, py as int)),
    {
        px >= self.x && px < self.x + self.w && py >= self.y && py < self.y + TITLE_H
            && !self.on_close(px, py)
    }

    /// The content area below the title bar.
    pub fn body(&self) -> (r: Rect)
        requires
            in_i32(self.y + TITLE_H),
            in_i32(self.h - TITLE_H),
        ensures
            r == (Rect {
                x: self.x,
                y: (self.y + TITLE_H) as i32,
                w: self.w,
                h: max_int(self.h - TITLE_H, 0) as i32,
            }),
    {
        let hh = self.h - TITLE_H;
        Rect::new(self.x, self.y + TITLE_H, self.w, if hh > 0 { hh } else { 0 })
    }

    /// Clamp a proposed top-left so the title bar stays on a `sw × sh` screen.
    pub fn clamped_pos(&self, sw: i32, sh: i32) -> (r: (i32, i32))
        requires
            in_i32(sw - self.w),
            in_i32(sh - TITLE_H),
        ensures
            r.0 == clamp_int(self.x as int, 0, max_int(sw - self.w, 0)),
            r.1 == clamp_int(self.y as int, 0, max_int(sh - TITLE_H, 0)),
    {
        let mx = if sw - self.w > 0 { sw - self.w } else { 0 };
        let my = if sh - TITLE_H > 0 { sh - TITLE_H } else { 0 };
        let x = if self.x < 0 { 0 } else if self.x > mx { mx } else { self.x };
        let y = if self.y < 0 { 0 } else if self.y > my { my } else { self.y };
        (x, y)
    }

    pub fn right(&self) -> (r: i32)
        requires
            in_i32(self.x + self.w),
        ensures
            r == self.x + self.w,
    {
        self.x + self.w
    }

    pub fn bottom(&self) -> (r: i32)
        requires
            in_i32(self.y + self.h),
        ensures
            r == self.y + self.h,
    {
        self.y + self.h
    }

    pub fn is_empty(&self) -> (b: bool)
        ensures
            b == self.empty(),
    {
        self.w <= 0 || self.h <= 0
    }

    /// The bounding box of two non-empty rectangles.
    pub open spec fn hull(self, other: Rect) -> Rect {
        let x = min_int(self.x as int, other.x as int);
        let y = min_int(self.y as int, other.y as int);
        let right = max_int(self.x + self.w, other.x + other.w);
        let bottom = max_int(self.y + self.h, other.y + other.h);
        Rect { x: x as i32, y: y as i32, w: (right - x) as i32, h: (bottom - y) as i32 }
    }

    pub open spec fn hull_fits(self, other: Rect) -> bool {
        let x = min_int(self.x as int, other.x as int);
        let y = min_int(self.y as int, other.y as int);
        in_i32(max_int(self.x + self.w, other.x + other.w) - x)
            && in_i32(max_int(self.y + self.h, other.y + other.h) - y)
    }

    /// Smallest rectangle covering both `self` and `other` (damage-region
    /// merge). An empty operand contributes nothing.
    pub fn union(&self, other: &Rect) -> (r: Rect)
        requires
            self.edges_fit(),
            other.edges_fit(),
            self.hull_fits(*other),
        ensures
            r == (if self.empty() {
                *other
            } else if other.empty() {
                *self
            } else {
                self.hull(*other)
            }),
            !self.empty() && !other.empty() ==> forall|px: int, py: int|
                self.has(px, py) || other.has(px, py) ==> r.has(px, py),
    {
        if self.is_empty() {
            return *other;
        }
        if other.is_empty() {
            return *self;
        }
        let x = if self.x < other.x { self.x } else { other.x };
        let y = if self.y < other.y { self.y } else { other.y };
        let sr = self.right();
        let orr = other.right();
        let sb = self.bottom();
        let ob = other.bottom();
        let right = if sr > orr { sr } else { orr };
        let bottom = if sb > ob { sb } else { ob };
        Rect::new(x, y, right - x, bottom - y)
    }

    /// Overlap of two rectangles, or `None` if they don't intersect.
    pub fn intersection(&self, other: &Rect) -> (r: Option<Rect>)
        requires
            self.edges_fit(),
            other.edges_fit(),
        ensures
            match r {
                Some(i) => {
                    &&& !i.empty()
                    &&& i.edges_fit()
                    &&& i.x == max_int(self.x as int, other.x as int)
                    &&& i.y == max_int(self.y as int, other.y as int)
                    &&& i.x + i.w == min_int(self.x + self.w, other.x + other.w)
                    &&& i.y + i.h == min_int(self.y + self.h, other.y + other.h)
                    &&& forall|px: int, py: int|
                        i.has(px, py) <==> (self.has(px, py) && other.has(px, py))
                },
                None => forall|px: int, py: int| !(self.has(px, py) && other.has(px, py)),
            },
    {
        let x = if self.x > other.x { self.x } else { other.x };
        let y = if self.y > other.y { self.y } else { other.y };
        let sr = self.right();
        let orr = other.right();
        let sb = self.bottom();
        let ob = other.bottom();
        let right = if sr < orr { sr } else { orr };
        let bottom = if sb < ob { sb } else { ob };
        if right > x && bottom > y {
            Some(Rect::new(x, y, right - x, bottom - y))
        } else {
            None
        }
    }

    /// Clip the rectangle to the `0..sw × 0..sh` screen bounds.
    pub fn clamped_to(&self, sw: i32, sh: i32) -> (r: Rect)
        requires
            self.edges_fit(),
            in_i32(min_int(self.x + self.w, sw as int) - max_int(self.x as int, 0)),
            in_i32(min_int(self.y + self.h, sh as int) - max_int(self.y as int, 0)),
        ensures
            r.x == max_int(self.x as int, 0),
            r.y == max_int(self.y as int, 0),
            r.w == max_int(min_int(self.x + self.w, sw as int) - max_int(self.x as int, 0), 0),
            r.h == max_int(min_int(self.y + self.h, sh as int) - max_int(self.y as int, 0), 0),
    {
        let x = if self.x > 0 { self.x } else { 0 };
        let y = if self.y > 0 { self.y } else { 0 };
        let sr = self.right();
        let sb = self.bottom();
        let right = if sr < sw { sr } else { sw };
        let bottom = if sb < sh { sb } else { sh };
        let w = if right - x > 0 { right - x } else { 0 };
        let h = if bottom - y > 0 { bottom - y } else { 0 };
        Rect::new(x, y, w, h)
    }

    /// Grow the rectangle by `m` pixels on every side.
    pub fn inflated(&self, m: i32) -> (r: Rect)
        requires
            in_i32(self.x - m),
            in_i32(self.y - m),
            in_i32(2 * m),
            in_i32(self.w + 2 * m),
            in_i32(self.h + 2 * m),
        ensures
            r == (Rect {
                x: (self.x - m) as i32,
                y: (self.y - m) as i32,
                w: (self.w + 2 * m) as i32,
                h: (self.h + 2 * m) as i32,
            }),
    {
        Rect::new(self.x - m, self.y - m, self.w + 2 * m, self.h + 2 * m)
    }
}

} // verus!
