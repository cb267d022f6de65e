//! Layout of the launcher desktop: the six-slot dock and the start panel it
//! opens, the five-item context menu, the calculator keypad and the browser
//! chrome. Drawing and hit-testing share these functions so they agree.
use super::desktop::{dock_y, DOCK_GAP, DOCK_H, DOCK_ICON, DOCK_MARGIN, DOCK_PAD, MENU_ITEM_H, MENU_PAD, MENU_W};
use crate::window::{in_i32, max_int, min_int, Rect, TITLE_H};
use vstd::prelude::*;

verus! {

/// Integer division rounding toward zero, as `/` on machine integers does.
pub open spec fn div_trunc(a: int, b: int) -> int {
    if a >= 0 {
        a / b
    } else {
        -((-a) / b)
    }
}

/// Keypad geometry of a calculator window `r`: grid origin, cell width and
/// height, and the gap between cells.
pub open spec fn calc_layout_spec(r: Rect) -> (int, int, int, int, int) {
    let gx = r.x + 14;
    let gy = r.y + TITLE_H + 72;
    let grid_w = r.w - 28;
    let grid_h = r.y + r.h - gy - 14;
    (gx, gy, div_trunc(grid_w - 24, 4), div_trunc(grid_h - 32, 5), 8)
}

/// Every intermediate value of the keypad geometry is an `i32`.
pub open spec fn calc_layout_ok(r: Rect) -> bool {
    &&& r.edges_fit()
    &&& in_i32(r.x + 14)
    &&& in_i32(r.y + TITLE_H + 72)
    &&& in_i32(r.w - 28 - 24)
    &&& in_i32(r.y + r.h - (r.y + TITLE_H + 72) - 14 - 32)
}

pub fn calc_layout(r: Rect) -> (l: (i32, i32, i32, i32, i32))
    requires
        calc_layout_ok(r),
    ensures
        (l.0 as int, l.1 as int, l.2 as int, l.3 as int, l.4 as int) == calc_layout_spec(r),
{
    let pad: i32 = 14;
    let gap: i32 = 8;
    let disp_h: i32 = 48;
    let gx = r.x + pad;
    let gy = r.y + TITLE_H + 12 + disp_h + 12;
    let grid_w = r.w - pad * 2;
    let grid_h = r.bottom() - gy - pad;
    let cw = (grid_w - gap * 3) / 4;
    let ch = (grid_h - gap * 4) / 5;
    (gx, gy, cw, ch, gap)
}

/// The byte a keypad cell sends (`0x08` is backspace). The zero key spans
/// two columns and `=` two rows, so their cells repeat.
pub open spec fn calc_key_spec(row: int, col: int) -> u8 {
    let keys: Seq<u8> = seq![
        67u8, 8, 47, 42, // C  <  /  *
        55, 56, 57, 45, //  7  8  9  -
        52, 53, 54, 43, //  4  5  6  +
        49, 50, 51, 61, //  1  2  3  =
        48, 48, 46, 61, //  0  0  .  =
    ];
    keys[row * 4 + col]
}

pub fn calc_key(row: i32, col: i32) -> (k: u8)
    requires
        0 <= row < 5,
        0 <= col < 4,
    ensures
        k == calc_key_spec(row as int, col as int),
{
    let keys: [u8; 20] = [
        67u8, 8, 47, 42, // C  <  /  *
        55, 56, 57, 45, //  7  8  9  -
        52, 53, 54, 43, //  4  5  6  +
        49, 50, 51, 61, //  1  2  3  =
        48, 48, 46, 61, //  0  0  .  =
    ];
    let i = (row * 4 + col) as usize;
    assert(keys@ =~= seq![
        67u8, 8, 47, 42, // C  <  /  *
        55, 56, 57, 45, //  7  8  9  -
        52, 53, 54, 43, //  4  5  6  +
        49, 50, 51, 61, //  1  2  3  =
        48, 48, 46, 61, //  0  0  .  =
    ]);
    keys[i]
}

/// Keypad cell `(row, col)` of a grid at `(gx, gy)` with `cw × ch` cells
/// and gaps of `gap` holds the point.
pub open spec fn cell_has(gx: int, gy: int, cw: int, ch: int, gap: int, row: int, col: int, px: int, py: int) -> bool {
    let bx = gx + col * (cw + gap);
    let by = gy + row * (ch + gap);
    bx <= px < bx + cw && by <= py < by + ch
}

/// The key of the first cell, in row order from cell `n`, that holds the
/// point.
pub open spec fn calc_scan(gx: int, gy: int, cw: int, ch: int, gap: int, px: int, py: int, n: int) -> Option<u8>
    decreases 20 - n,
{
    if n < 0 || n >= 20 {
        None
    } else if cell_has(gx, gy, cw, ch, gap, n / 4, n % 4, px, py) {
        Some(calc_key_spec(n / 4, n % 4))
    } else {
        calc_scan(gx, gy, cw, ch, gap, px, py, n + 1)
    }
}

/// The key under `(px, py)` in calculator window `r`; none when the grid
/// has no room for cells.
pub open spec fn calc_button_spec(r: Rect, px: int, py: int) -> Option<u8> {
    let l = calc_layout_spec(r);
    if l.2 <= 0 || l.3 <= 0 {
        None
    } else {
        calc_scan(l.0, l.1, l.2, l.3, l.4, px, py, 0)
    }
}

pub fn calc_button_at(r: Rect, px: i32, py: i32) -> (k: Option<u8>)
    requires
        calc_layout_ok(r),
    ensures
        k == calc_button_spec(r, px as int, py as int),
{
    let (gx, gy, cw, ch, gap) = calc_layout(r);
    if cw <= 0 || ch <= 0 {
        return None;
    }
    proof {
        assert(cw * 4 <= r.w - 52 && ch * 5 <= r.h - 32 - TITLE_H - 86) by (nonlinear_arith)
            requires
                cw == div_trunc(r.w - 52, 4),
                ch == div_trunc(r.y + r.h - (r.y + TITLE_H + 72) - 14 - 32, 5),
                cw > 0,
                ch > 0,
        ;
    }
    let mut row: i32 = 0;
    while row < 5
        invariant
            0 <= row <= 5,
            calc_layout_ok(r),
            (gx as int, gy as int, cw as int, ch as int, gap as int) == calc_layout_spec(r),
            cw > 0,
            ch > 0,
            cw * 4 <= r.w - 52,
            ch * 5 <= r.h - 32 - TITLE_H - 86,
            calc_scan(gx as int, gy as int, cw as int, ch as int, gap as int, px as int, py as int, 0)
                == calc_scan(gx as int, gy as int, cw as int, ch as int, gap as int, px as int, py as int, row * 4),
        decreases 5 - row,
    {
        let mut col: i32 = 0;
        while col < 4
            invariant
                0 <= row < 5,
                0 <= col <= 4,
                calc_layout_ok(r),
                (gx as int, gy as int, cw as int, ch as int, gap as int) == calc_layout_spec(r),
                cw > 0,
                ch > 0,
                cw * 4 <= r.w - 52,
                ch * 5 <= r.h - 32 - TITLE_H - 86,
                calc_scan(gx as int, gy as int, cw as int, ch as int, gap as int, px as int, py as int, 0)
                    == calc_scan(gx as int, gy as int, cw as int, ch as int, gap as int, px as int, py as int, row * 4 + col),
            decreases 4 - col,
        {
            proof {
                assert(0 <= col * (cw + gap) && col * (cw + gap) + cw <= r.w - 28 && 0 <= row * (ch + gap) && row * (ch + gap) + ch <= r.h - TITLE_H - 86)
                    by (nonlinear_arith)
                    requires
                        0 <= row < 5,
                        0 <= col < 4,
                        gap == 8,
                        cw > 0,
                        ch > 0,
                        cw * 4 <= r.w - 52,
                        ch * 5 <= r.h - 32 - TITLE_H - 86,
                ;
                let n = row * 4 + col;
                assert(n / 4 == row && n % 4 == col) by (nonlinear_arith)
                    requires
                        n == row * 4 + col,
                        0 <= col < 4,
                        0 <= row,
                ;
            }
            let bx = gx + col * (cw + gap);
            let by = gy + row * (ch + gap);
            if px >= bx && px < bx + cw && py >= by && py < by + ch {
                return Some(calc_key(row, col));
            }
            col += 1;
        }
        row += 1;
    }
    None
}

// ---- dock and start panel ----

/// Icon slots on the launcher dock: the system icon, then five apps.
pub const SLOTS: i32 = 6;
/// Width of the launcher dock panel.
pub const SLOTS_W: i32 = SLOTS * DOCK_ICON + (SLOTS - 1) * DOCK_GAP + DOCK_PAD * 2;
/// Start panel width.
pub const START_W: i32 = 240;
/// Height of one start-panel row.
pub const START_ROW_H: i32 = 38;
/// Start panel inner padding.
pub const START_PAD: i32 = 10;
/// Gap above the power rows.
pub const START_GAP: i32 = 12;
/// Apps listed in the start panel (terminal, editor, task manager,
/// calculator, browser).
pub const START_APPS: i32 = 5;
/// Start panel height: the app rows, two power rows, padding and the gap.
pub const START_H: i32 = START_PAD * 2 + (START_APPS + 2) * START_ROW_H + START_GAP;
/// Items of the launcher's context menu (the five apps).
pub const MENU_ITEMS: i32 = 5;
/// Height of the launcher's context menu.
pub const MENU_TALL: i32 = MENU_PAD * 2 + MENU_ITEMS * MENU_ITEM_H;

/// What a dock click does.
#[derive(Clone, Copy, PartialEq, Eq, Debug, Structural)]
pub enum DockAction {
    /// Toggle the start panel.
    Start,
    /// Open the app window with this index.
    Open(usize),
}

/// An entry of the start panel.
#[derive(Clone, Copy, PartialEq, Eq, Debug, Structural)]
pub enum StartItem {
    /// Open the app window with this index.
    App(usize),
    Reboot,
    Shutdown,
}

pub open spec fn slots_x(sw: int) -> int {
    sw / 2 - SLOTS_W / 2
}

/// The launcher dock panel, centred at the bottom of the screen.
pub open spec fn slots_rect_spec(sw: int, sh: int) -> Rect {
    Rect { x: slots_x(sw) as i32, y: dock_y(sh) as i32, w: SLOTS_W, h: DOCK_H }
}

/// Icon slot `i` of the launcher dock.
pub open spec fn slot_spec(sw: int, sh: int, i: int) -> Rect {
    Rect {
        x: (slots_x(sw) + DOCK_PAD + i * (DOCK_ICON + DOCK_GAP)) as i32,
        y: (dock_y(sh) + DOCK_PAD) as i32,
        w: DOCK_ICON,
        h: DOCK_ICON,
    }
}

/// The launcher dock panel and its six icon slots.
pub fn dock_layout(sw: i32, sh: i32) -> (r: (Rect, Vec<Rect>))
    requires
        0 <= sw,
        i32::MIN + DOCK_H + DOCK_MARGIN <= sh,
    ensures
        r.0 == slots_rect_spec(sw as int, sh as int),
        r.1@.len() == SLOTS,
        forall|i: int| 0 <= i < SLOTS ==> r.1@[i] == slot_spec(sw as int, sh as int, i),
{
    let dx = sw / 2 - SLOTS_W / 2;
    let dy = sh - DOCK_H - DOCK_MARGIN;
    let dock = Rect::new(dx, dy, SLOTS_W, DOCK_H);
    let mut icons: Vec<Rect> = Vec::new();
    let mut x = dx + DOCK_PAD;
    let mut i: i32 = 0;
    while i < SLOTS
        invariant
            0 <= i <= SLOTS,
            dx == slots_x(sw as int),
            dy == dock_y(sh as int),
            0 <= sw,
            x == dx + DOCK_PAD + i * (DOCK_ICON + DOCK_GAP),
            icons@.len() == i,
            forall|k: int| 0 <= k < i ==> icons@[k] == slot_spec(sw as int, sh as int, k),
        decreases SLOTS - i,
    {
        icons.push(Rect::new(x, dy + DOCK_PAD, DOCK_ICON, DOCK_ICON));
        assert((i + 1) * (DOCK_ICON + DOCK_GAP) == i * (DOCK_ICON + DOCK_GAP) + (DOCK_ICON + DOCK_GAP))
            by (nonlinear_arith);
        assert(i * (DOCK_ICON + DOCK_GAP) <= 5 * (DOCK_ICON + DOCK_GAP)) by (nonlinear_arith)
            requires
                0 <= i < SLOTS,
        ;
        x = x + DOCK_ICON + DOCK_GAP;
        i = i + 1;
    }
    (dock, icons)
}

/// What a click on dock slot `i` does: the first slot toggles the start
/// panel, the others open apps in order.
pub open spec fn slot_action(i: int) -> DockAction {
    if i == 0 {
        DockAction::Start
    } else {
        DockAction::Open((i - 1) as usize)
    }
}

/// The action of the first dock slot, from slot `n` on, under the point.
pub open spec fn slot_scan(sw: int, sh: int, px: int, py: int, n: int) -> Option<DockAction>
    decreases SLOTS - n,
{
    if n < 0 || n >= SLOTS {
        None
    } else if slot_spec(sw, sh, n).has(px, py) {
        Some(slot_action(n))
    } else {
        slot_scan(sw, sh, px, py, n + 1)
    }
}

/// The dock action under `(px, py)`, if any.
pub fn dock_hit(sw: i32, sh: i32, px: i32, py: i32) -> (r: Option<DockAction>)
    requires
        0 <= sw,
        i32::MIN + DOCK_H + DOCK_MARGIN <= sh,
    ensures
        r == slot_scan(sw as int, sh as int, px as int, py as int, 0),
{
    let (_, icons) = dock_layout(sw, sh);
    let mut i: usize = 0;
    while i < 6
        invariant
            0 <= i <= 6,
            icons@.len() == SLOTS,
            forall|k: int| 0 <= k < SLOTS ==> icons@[k] == slot_spec(sw as int, sh as int, k),
            0 <= sw,
            i32::MIN + DOCK_H + DOCK_MARGIN <= sh,
            slot_scan(sw as int, sh as int, px as int, py as int, 0) == slot_scan(
                sw as int,
                sh as int,
                px as int,
                py as int,
                i as int,
            ),
        decreases 6 - i,
    {
        if icons[i].contains(px, py) {
            return if i == 0 {
                Some(DockAction::Start)
            } else {
                Some(DockAction::Open(i - 1))
            };
        }
        i += 1;
    }
    None
}

/// Height of the start panel.
pub fn start_height() -> (h: i32)
    ensures
        h == START_H,
{
    START_PAD * 2 + (START_APPS + 2) * START_ROW_H + START_GAP
}

/// Top-left of the start panel: centred above the dock's system icon, kept
/// at least 8 pixels from the screen's sides.
pub open spec fn start_origin_spec(sw: int, sh: int) -> (int, int) {
    let brand = slot_spec(sw, sh, 0);
    let hi = max_int(sw - START_W - 8, 8);
    let want = brand.x + DOCK_ICON / 2 - START_W / 2;
    let x = if want < 8 { 8 } else if want > hi { hi } else { want };
    (x, brand.y - START_H - 12)
}

pub fn start_origin(sw: i32, sh: i32) -> (r: (i32, i32))
    requires
        0 <= sw,
        i32::MIN + DOCK_H + DOCK_MARGIN + START_H <= sh,
    ensures
        (r.0 as int, r.1 as int) == start_origin_spec(sw as int, sh as int),
{
    let (_dock, icons) = dock_layout(sw, sh);
    let brand = icons[0];
    assert(brand == slot_spec(sw as int, sh as int, 0));
    let hi = if sw - START_W - 8 > 8 { sw - START_W - 8 } else { 8 };
    let want = brand.x + DOCK_ICON / 2 - START_W / 2;
    let x = if want < 8 { 8 } else if want > hi { hi } else { want };
    let y = brand.y - start_height() - 12;
    (x, y)
}

/// The start-panel entry under `(px, py)`: the app rows from the top, then
/// after a gap the reboot and shutdown rows.
pub open spec fn start_item_spec(sw: int, sh: int, px: int, py: int) -> Option<StartItem> {
    let (sx, sy) = start_origin_spec(sw, sh);
    let top = sy + START_PAD;
    let power = top + START_APPS * START_ROW_H + START_GAP;
    if px < sx + START_PAD || px >= sx + START_W - START_PAD {
        None
    } else if top <= py < top + START_APPS * START_ROW_H {
        Some(StartItem::App(((py - top) / START_ROW_H as int) as usize))
    } else if power <= py < power + START_ROW_H {
        Some(StartItem::Reboot)
    } else if power + START_ROW_H <= py < power + 2 * START_ROW_H {
        Some(StartItem::Shutdown)
    } else {
        None
    }
}

pub fn start_item_at(sw: i32, sh: i32, px: i32, py: i32) -> (r: Option<StartItem>)
    requires
        0 <= sw,
        i32::MIN + DOCK_H + DOCK_MARGIN + START_H <= sh,
    ensures
        r == start_item_spec(sw as int, sh as int, px as int, py as int),
{
    let (sx, sy) = start_origin(sw, sh);
    if px < sx + START_PAD || px >= sx + START_W - START_PAD {
        return None;
    }
    let top = sy + START_PAD;
    let mut i: i32 = 0;
    while i < START_APPS
        invariant
            0 <= i <= START_APPS,
            (sx as int, sy as int) == start_origin_spec(sw as int, sh as int),
            top == sy + START_PAD,
            sx + START_PAD <= px < sx + START_W - START_PAD,
            i32::MIN + DOCK_H + DOCK_MARGIN + START_H <= sh,
            0 <= sw,
            py < top || py >= top + i * START_ROW_H,
        decreases START_APPS - i,
    {
        let ry = top + i * START_ROW_H;
        if py >= ry && py < ry + START_ROW_H {
            assert((py - top) / (START_ROW_H as int) == i) by (nonlinear_arith)
                requires
                    i * START_ROW_H <= py - top < i * START_ROW_H + START_ROW_H,
            ;
            return Some(StartItem::App(i as usize));
        }
        i += 1;
    }
    let pwr_top = top + START_APPS * START_ROW_H + START_GAP;
    if py >= pwr_top && py < pwr_top + START_ROW_H {
        return Some(StartItem::Reboot);
    }
    let ry = pwr_top + START_ROW_H;
    if py >= ry && py < ry + START_ROW_H {
        return Some(StartItem::Shutdown);
    }
    None
}

// ---- context menu ----

/// The launcher menu item under `(px, py)` for a menu at `(mx, my)`.
pub open spec fn menu_pick_spec(mx: int, my: int, px: int, py: int) -> Option<usize> {
    let rel = py - (my + MENU_PAD);
    if px < mx + MENU_PAD || px >= mx + MENU_W - MENU_PAD {
        None
    } else if rel < 0 {
        None
    } else if rel / (MENU_ITEM_H as int) < MENU_ITEMS {
        Some((rel / (MENU_ITEM_H as int)) as usize)
    } else {
        None
    }
}

pub fn menu_item_at(mx: i32, my: i32, px: i32, py: i32) -> (r: Option<usize>)
    requires
        0 <= mx <= i32::MAX - MENU_W,
        0 <= my <= i32::MAX - MENU_TALL,
        i32::MIN <= py - (my + MENU_PAD),
    ensures
        r == menu_pick_spec(mx as int, my as int, px as int, py as int),
{
    if px < mx + MENU_PAD || px >= mx + MENU_W - MENU_PAD {
        return None;
    }
    let rel = py - (my + MENU_PAD);
    if rel < 0 {
        return None;
    }
    let i = rel / MENU_ITEM_H;
    if i < MENU_ITEMS {
        Some(i as usize)
    } else {
        None
    }
}

/// The launcher menu's top-left for a right click at `(x, y)`: kept on
/// screen.
pub fn clamp_menu(sw: i32, sh: i32, x: i32, y: i32) -> (r: (i32, i32))
    requires
        in_i32(sw - MENU_W),
        in_i32(sh - MENU_TALL),
    ensures
        r.0 == max_int(min_int(x as int, sw - MENU_W), 0),
        r.1 == max_int(min_int(y as int, sh - MENU_TALL), 0),
{
    let lx = sw - MENU_W;
    let ly = sh - MENU_TALL;
    let a = if x < lx { x } else { lx };
    let b = if y < ly { y } else { ly };
    (if a > 0 { a } else { 0 }, if b > 0 { b } else { 0 })
}

/// The label of a keypad cell: `<` for backspace, else the key itself.
pub fn key_label(k: u8) -> (l: u8)
    ensures
        l == (if k == 8 { 60u8 } else { k }),
{
    if k == 8 {
        60
    } else {
        k
    }
}

// ---- browser chrome ----

/// Geometry of a browser window: toolbar buttons, address bar, page area,
/// the height of a page line and how many lines the page area shows.
#[derive(Clone, Copy, PartialEq, Eq, Debug, Structural)]
pub struct BrowserChrome {
    pub home: Rect,
    pub reload: Rect,
    pub go: Rect,
    pub bar: Rect,
    pub content: Rect,
    pub line_h: i32,
    pub visible: usize,
}

/// Every intermediate value of the chrome geometry of `r` is an `i32`.
pub open spec fn chrome_ok(r: Rect) -> bool {
    &&& r.edges_fit()
    &&& in_i32(r.x + 102)
    &&& in_i32(r.y + 94)
    &&& in_i32(r.x + r.w - 58)
    &&& in_i32(r.w - 160)
    &&& in_i32(r.y + r.h - 14)
    &&& in_i32(r.h - 108)
}

/// The chrome of browser window `r`: 36-pixel buttons 42 pixels below its
/// top, home and reload at the left, go at the right, the address bar
/// between them (at least 60 wide), and the page below with 14 pixels of
/// margin.
pub open spec fn chrome_spec(r: Rect) -> BrowserChrome {
    let ty = r.y + TITLE_H + 12;
    let page_h = max_int(r.h - 108, 0);
    BrowserChrome {
        home: Rect { x: (r.x + 14) as i32, y: ty as i32, w: 36, h: 36 },
        reload: Rect { x: (r.x + 58) as i32, y: ty as i32, w: 36, h: 36 },
        go: Rect { x: (r.x + r.w - 50) as i32, y: ty as i32, w: 36, h: 36 },
        bar: Rect { x: (r.x + 102) as i32, y: ty as i32, w: max_int(r.w - 160, 60) as i32, h: 36 },
        content: Rect { x: (r.x + 14) as i32, y: (r.y + 94) as i32, w: (r.w - 28) as i32, h: page_h as i32 },
        line_h: 18,
        visible: (page_h / 18) as usize,
    }
}

impl BrowserChrome {
    pub fn of(r: Rect) -> (c: Self)
        requires
            chrome_ok(r),
        ensures
            c == chrome_spec(r),
    {
        let pad: i32 = 14;
        let btn: i32 = 36;
        let gap: i32 = 8;
        let ty = r.y + TITLE_H + 12;
        let home = Rect::new(r.x + pad, ty, btn, btn);
        let reload = Rect::new(home.right() + gap, ty, btn, btn);
        let go = Rect::new(r.right() - pad - btn, ty, btn, btn);
        let bar_x = reload.right() + gap;
        let bw = go.x - gap - bar_x;
        let bar = Rect::new(bar_x, ty, if bw > 60 { bw } else { 60 }, btn);
        let cy = ty + btn + 16;
        let ch = r.bottom() - 14 - cy;
        let content = Rect::new(r.x + pad, cy, r.w - pad * 2, if ch > 0 { ch } else { 0 });
        let line_h: i32 = 18;
        let lines = content.h / line_h;
        let visible = (if lines > 0 { lines } else { 0 }) as usize;
        BrowserChrome { home, reload, go, bar, content, line_h, visible }
    }
}

/// The browser's start page inside `content`: the logo, 84 pixels square,
/// centred 30 pixels below the top, and four 150 × 96 shortcut tiles 18
/// apart, centred 108 pixels below the logo.
pub open spec fn home_logo_spec(content: Rect) -> Rect {
    let cx = content.x + div_trunc(content.w as int, 2);
    Rect { x: (cx - 42) as i32, y: (content.y + 30) as i32, w: 84, h: 84 }
}

/// Shortcut tile `i` of the start page.
pub open spec fn home_tile_spec(content: Rect, i: int) -> Rect {
    let cx = content.x + div_trunc(content.w as int, 2);
    Rect { x: (cx - 327 + i * 168) as i32, y: (content.y + 222) as i32, w: 150, h: 96 }
}

/// Every intermediate value of the start-page layout is an `i32`.
pub open spec fn home_ok(content: Rect) -> bool {
    let cx = content.x + div_trunc(content.w as int, 2);
    &&& in_i32(cx)
    &&& in_i32(cx - 327)
    &&& in_i32(cx + 177)
    &&& in_i32(content.y + 222)
}

pub fn browser_home_layout(content: Rect) -> (r: (Rect, Vec<Rect>))
    requires
        home_ok(content),
    ensures
        r.0 == home_logo_spec(content),
        r.1@.len() == 4,
        forall|i: int| 0 <= i < 4 ==> r.1@[i] == home_tile_spec(content, i),
{
    let cx = content.x + content.w / 2;
    let logo_sz: i32 = 84;
    let logo = Rect::new(cx - logo_sz / 2, content.y + 30, logo_sz, logo_sz);
    let tile_w: i32 = 150;
    let tile_h: i32 = 96;
    let gap: i32 = 18;
    let total = 4 * tile_w + 3 * gap;
    let sx = cx - total / 2;
    let ty = logo.bottom() + 108;
    let mut tiles: Vec<Rect> = Vec::new();
    let mut i: i32 = 0;
    while i < 4
        invariant
            0 <= i <= 4,
            home_ok(content),
            cx == content.x + div_trunc(content.w as int, 2),
            sx == cx - 327,
            ty == content.y + 222,
            tile_w == 150,
            tile_h == 96,
            gap == 18,
            tiles@.len() == i,
            forall|k: int| 0 <= k < i ==> tiles@[k] == home_tile_spec(content, k),
        decreases 4 - i,
    {
        assert(i * (tile_w + gap) <= 3 * 168) by (nonlinear_arith)
            requires
                0 <= i < 4,
                tile_w + gap == 168,
        ;
        tiles.push(Rect::new(sx + i * (tile_w + gap), ty, tile_w, tile_h));
        i += 1;
    }
    (logo, tiles)
}

// ---- overlays ----

/// The start panel's rectangle.
pub open spec fn start_rect_spec(sw: int, sh: int) -> Rect {
    let (sx, sy) = start_origin_spec(sw, sh);
    Rect { x: sx as i32, y: sy as i32, w: START_W, h: START_H }
}

/// Screen bounds small enough that no overlay arithmetic overflows.
pub open spec fn screen_ok(sw: int, sh: int) -> bool {
    0 <= sw <= 0x100_0000 && 0 <= sh <= 0x100_0000
}

/// `r` grown by `m` on every side and clipped to the screen.
pub open spec fn pad_clip(r: Rect, m: int, sw: int, sh: int) -> Rect {
    let x = r.x - m;
    let y = r.y - m;
    let right = r.x + r.w + m;
    let bottom = r.y + r.h + m;
    Rect {
        x: max_int(x, 0) as i32,
        y: max_int(y, 0) as i32,
        w: max_int(min_int(right, sw) - max_int(x, 0), 0) as i32,
        h: max_int(min_int(bottom, sh) - max_int(y, 0), 0) as i32,
    }
}

/// What the open menu and start panel cover, with 12 pixels for their
/// shadows, clipped to the screen; empty when neither is open.
pub open spec fn overlay_spec(menu: Option<(i32, i32)>, start_open: bool, sw: int, sh: int) -> Rect {
    let s = start_rect_spec(sw, sh);
    match menu {
        Some(m) => {
            let mr = Rect { x: m.0, y: m.1, w: MENU_W, h: MENU_TALL };
            pad_clip(if start_open { mr.hull(s) } else { mr }, 12, sw, sh)
        },
        None => if start_open {
            pad_clip(s, 12, sw, sh)
        } else {
            Rect { x: 0, y: 0, w: 0, h: 0 }
        },
    }
}

/// The screen area the open overlays cover, for repainting just that part.
pub fn overlay_bounds(menu: Option<(i32, i32)>, start_open: bool, sw: i32, sh: i32) -> (r: Rect)
    requires
        screen_ok(sw as int, sh as int),
        menu matches Some(m) ==> 0 <= m.0 <= sw && 0 <= m.1 <= sh,
    ensures
        r == overlay_spec(menu, start_open, sw as int, sh as int),
{
    let mut bounds: Option<Rect> = None;
    if let Some((mx, my)) = menu {
        bounds = Some(Rect::new(mx, my, MENU_W, MENU_TALL));
    }
    if start_open {
        let (sx, sy) = start_origin(sw, sh);
        let sr = Rect::new(sx, sy, START_W, start_height());
        bounds = Some(
            match bounds {
                Some(b) => b.union(&sr),
                None => sr,
            },
        );
    }
    match bounds {
        Some(b) => b.inflated(12).clamped_to(sw, sh),
        None => Rect::new(0, 0, 0, 0),
    }
}

// ---- laws: what hit-testing resolves lies inside what is drawn ----

/// Every point the start panel resolves to an entry lies inside the panel.
pub proof fn lemma_start_hit_inside(sw: int, sh: int, px: int, py: int)
    requires
        0 <= sw <= i32::MAX,
        i32::MIN + DOCK_H + DOCK_MARGIN + START_H <= sh <= i32::MAX,
        start_item_spec(sw, sh, px, py) is Some,
    ensures
        start_rect_spec(sw, sh).has(px, py),
{
}

/// Every point the launcher dock resolves to an action lies inside the dock
/// panel.
pub proof fn lemma_dock_hit_inside(sw: int, sh: int, px: int, py: int)
    requires
        0 <= sw <= i32::MAX,
        i32::MIN + DOCK_H + DOCK_MARGIN <= sh <= i32::MAX,
        slot_scan(sw, sh, px, py, 0) is Some,
    ensures
        slots_rect_spec(sw, sh).has(px, py),
{
    lemma_slot_scan_inside(sw, sh, px, py, 0);
}

proof fn lemma_slot_scan_inside(sw: int, sh: int, px: int, py: int, n: int)
    requires
        0 <= sw <= i32::MAX,
        i32::MIN + DOCK_H + DOCK_MARGIN <= sh <= i32::MAX,
        0 <= n,
        slot_scan(sw, sh, px, py, n) is Some,
    ensures
        slots_rect_spec(sw, sh).has(px, py),
    decreases SLOTS - n,
{
    if n < SLOTS && !slot_spec(sw, sh, n).has(px, py) {
        lemma_slot_scan_inside(sw, sh, px, py, n + 1);
    } else {
        assert(n * (DOCK_ICON + DOCK_GAP) <= 5 * (DOCK_ICON + DOCK_GAP)) by (nonlinear_arith)
            requires
                0 <= n < SLOTS,
        ;
    }
}

/// Every point the launcher menu resolves to an item lies inside the menu.
pub proof fn lemma_menu_hit_inside(mx: i32, my: i32, px: int, py: int)
    requires
        menu_pick_spec(mx as int, my as int, px, py) is Some,
    ensures
        (Rect { x: mx, y: my, w: MENU_W, h: MENU_TALL }).has(px, py),
{
}

/// Every point a calculator window resolves to a key lies inside the window.
pub proof fn lemma_calc_hit_inside(r: Rect, px: int, py: int)
    requires
        calc_layout_ok(r),
        calc_button_spec(r, px, py) is Some,
    ensures
        r.has(px, py),
{
    let l = calc_layout_spec(r);
    assert(l.2 * 4 <= r.w - 52 && l.3 * 5 <= r.h - 32 - TITLE_H - 86) by (nonlinear_arith)
        requires
            l.2 == div_trunc(r.w - 52, 4),
            l.3 == div_trunc(r.y + r.h - (r.y + TITLE_H + 72) - 14 - 32, 5),
            l.2 > 0,
            l.3 > 0,
    ;
    lemma_calc_scan_inside(r, px, py, 0);
}

proof fn lemma_calc_scan_inside(r: Rect, px: int, py: int, n: int)
    requires
        calc_layout_ok(r),
        0 <= n,
        ({
            let l = calc_layout_spec(r);
            &&& l.2 > 0
            &&& l.3 > 0
            &&& l.2 * 4 <= r.w - 52
            &&& l.3 * 5 <= r.h - 32 - TITLE_H - 86
            &&& calc_scan(l.0, l.1, l.2, l.3, l.4, px, py, n) is Some
        }),
    ensures
        r.has(px, py),
    decreases 20 - n,
{
    let l = calc_layout_spec(r);
    if n < 20 && !cell_has(l.0, l.1, l.2, l.3, l.4, n / 4, n % 4, px, py) {
        lemma_calc_scan_inside(r, px, py, n + 1);
    } else {
        let row = n / 4;
        let col = n % 4;
        assert(0 <= col * (l.2 + 8) && col * (l.2 + 8) + l.2 <= r.w - 28 && 0 <= row * (l.3 + 8) && row * (l.3
            + 8) + l.3 <= r.h - TITLE_H - 86) by (nonlinear_arith)
            requires
                0 <= row < 5,
                0 <= col < 4,
                l.2 > 0,
                l.3 > 0,
                l.2 * 4 <= r.w - 52,
                l.3 * 5 <= r.h - 32 - TITLE_H - 86,
        ;
    }
}

} // verus!
