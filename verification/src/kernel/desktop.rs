//! The desktop's window manager: which windows are shown, their stacking
//! order, focus, dragging, the context menu and the dock, and the routing of
//! keys and clicks to the apps. Drawing and the floating-point open/close
//! easing live in the kernel, which reports finished transitions back through
//! [`Desktop::finish_anim`].
use crate::anim::Phase;
use crate::editor::{key_spec, Editor};
use crate::keymap::{key_result, Key, Keymap};
use crate::process::{
    can_tick, killed, next_index, prev_index, spawn_effect, spawn_pid, ticked, ProcKind, ProcState, ProcessTable,
};
use crate::terminal::{command_in, command_in_spec, term_key_spec, Action, ActionView, Command, Terminal, Time};
use crate::window::{clamp_int, max_int, min_int, Rect, TITLE_H};
use vstd::prelude::*;
use vstd::string::StringSliceAdditionalSpecFns;

verus! {

/// Window slots.
pub const TERM: usize = 0;
pub const EDIT: usize = 1;
pub const TASK: usize = 2;
pub const WIN_COUNT: usize = 3;

/// Cursor sprite bounding box.
pub const CURSOR_W: i32 = 10;
pub const CURSOR_H: i32 = 16;

/// Right-click context menu geometry; item `i` opens window `i`.
pub const MENU_W: i32 = 220;
pub const MENU_ITEM_H: i32 = 32;
pub const MENU_PAD: i32 = 6;
pub const MENU_COUNT: i32 = 3;
pub const MENU_H: i32 = MENU_PAD * 2 + MENU_COUNT * MENU_ITEM_H;

/// Floating dock geometry: brand, terminal, editor and task-manager icons.
pub const DOCK_ICON: i32 = 40;
pub const DOCK_GAP: i32 = 14;
pub const DOCK_PAD: i32 = 12;
pub const DOCK_COUNT: i32 = 4;
pub const DOCK_MARGIN: i32 = 16;
pub const DOCK_W: i32 = DOCK_COUNT * DOCK_ICON + (DOCK_COUNT - 1) * DOCK_GAP + DOCK_PAD * 2;
pub const DOCK_H: i32 = DOCK_ICON + DOCK_PAD * 2;

/// Height of the tallest window. On a screen taller than
/// `i32::MAX - MAX_WIN_H` a window dragged to the bottom would have its lower
/// edge outside the `i32` range.
pub const MAX_WIN_H: i32 = 350;

/// What changed after a mouse packet, so the caller can pick the cheap
/// cursor-only repaint or a full scene recompose.
#[derive(Clone, Copy, PartialEq, Eq, Debug, Structural)]
pub struct MouseResult {
    pub scene_dirty: bool,
    pub cursor_moved: bool,
}

#[derive(Clone, Copy, PartialEq, Eq, Debug, Structural)]
pub enum Kind {
    Terminal,
    Editor,
    TaskMgr,
}

/// The app that lives in window slot `w`.
pub open spec fn kind_of(w: int) -> Kind {
    if w == TERM {
        Kind::Terminal
    } else if w == EDIT {
        Kind::Editor
    } else {
        Kind::TaskMgr
    }
}

/// Where each window starts out, and its fixed size.
pub open spec fn home_rect(w: int) -> Rect {
    if w == TERM {
        Rect { x: 70, y: 80, w: 512, h: 320 }
    } else if w == EDIT {
        Rect { x: 610, y: 110, w: 560, h: 350 }
    } else {
        Rect { x: 360, y: 200, w: 392, h: 300 }
    }
}

pub open spec fn proc_name_spec(kind: Kind) -> Seq<u8> {
    match kind {
        Kind::Terminal => "shell".spec_bytes(),
        Kind::Editor => "editor".spec_bytes(),
        Kind::TaskMgr => "taskmgr".spec_bytes(),
    }
}

/// Name of the process an app runs as.
pub fn proc_name(kind: Kind) -> (s: &'static [u8])
    ensures
        s@ == proc_name_spec(kind),
{
    match kind {
        Kind::Terminal => "shell".as_bytes(),
        Kind::Editor => "editor".as_bytes(),
        Kind::TaskMgr => "taskmgr".as_bytes(),
    }
}

/// Title-bar text of an app's window.
pub fn title(kind: Kind) -> (s: &'static str)
    ensures
        s@ == (match kind {
            Kind::Terminal => "OSJEFF SHELL"@,
            Kind::Editor => "OSJEFF EDIT"@,
            Kind::TaskMgr => "TASK MANAGER"@,
        }),
{
    match kind {
        Kind::Terminal => "OSJEFF SHELL",
        Kind::Editor => "OSJEFF EDIT",
        Kind::TaskMgr => "TASK MANAGER",
    }
}

/// One window: where it is, whether it is shown, its running transition and
/// the pid of its app (0 when the app is not running).
#[derive(Clone, Copy, Debug)]
pub struct Win {
    pub rect: Rect,
    pub visible: bool,
    pub kind: Kind,
    pub anim: Option<Phase>,
    pub pid: u16,
}

impl Win {
    /// Shown and not on its way out: such a window takes focus and clicks.
    pub open spec fn is_active(self) -> bool {
        self.visible && self.anim != Some(Phase::Closing)
    }

    pub fn active(&self) -> (b: bool)
        ensures
            b == self.is_active(),
    {
        self.visible && !matches!(self.anim, Some(Phase::Closing))
    }
}

/// A window being dragged by its title bar, and where it was grabbed.
#[derive(Clone, Copy, Debug)]
pub struct Drag {
    pub win: usize,
    pub grab_dx: i32,
    pub grab_dy: i32,
}

/// The window manager's state as its contracts see it.
pub struct Wm {
    pub windows: Seq<Win>,
    /// Window slots from back to front.
    pub order: Seq<usize>,
    pub drag: Option<Drag>,
    pub menu: Option<(i32, i32)>,
    pub cursor_x: i32,
    pub cursor_y: i32,
    pub prev_left: bool,
    pub prev_right: bool,
}

pub open spec fn win_ok(win: Win, w: int) -> bool {
    &&& win.kind == kind_of(w)
    &&& win.rect.w == home_rect(w).w
    &&& win.rect.h == home_rect(w).h
    &&& 0 <= win.rect.x
    &&& 0 <= win.rect.y
    &&& win.rect.x + win.rect.w <= i32::MAX
    &&& win.rect.y + win.rect.h <= i32::MAX
    &&& win.pid != 0 ==> win.visible
}

/// The window manager's invariant on a `sw × sh` screen: one window per slot,
/// the stacking order a permutation of the slots, the cursor on screen, and a
/// drag grip inside the dragged window's title bar.
pub open spec fn wm_ok(s: Wm, sw: int, sh: int) -> bool {
    &&& 1 <= sw
    &&& 1 <= sh <= i32::MAX - MAX_WIN_H
    &&& s.windows.len() == WIN_COUNT
    &&& s.order.len() == WIN_COUNT
    &&& forall|i: int| 0 <= i < WIN_COUNT ==> #[trigger] s.order[i] < WIN_COUNT
    &&& forall|i: int, j: int| 0 <= i < j < WIN_COUNT ==> s.order[i] != s.order[j]
    &&& forall|w: int| 0 <= w < WIN_COUNT ==> #[trigger] win_ok(s.windows[w], w)
    &&& 0 <= s.cursor_x < sw
    &&& 0 <= s.cursor_y < sh
    &&& match s.drag {
        Some(d) => d.win < WIN_COUNT && 0 <= d.grab_dx < s.windows[d.win as int].rect.w && 0 <= d.grab_dy
            < TITLE_H,
        None => true,
    }
    &&& match s.menu {
        Some(m) => 0 <= m.0 <= max_int(sw - MENU_W, 0) && 0 <= m.1 <= max_int(sh - MENU_H, 0),
        None => true,
    }
}

// ---- geometry ----

/// Index of the context-menu item under `(px, py)` for a menu at `(mx, my)`.
pub open spec fn menu_item_spec(mx: int, my: int, px: int, py: int) -> Option<usize> {
    let rel = py - (my + MENU_PAD);
    if px < mx + MENU_PAD || px >= mx + MENU_W - MENU_PAD {
        None
    } else if rel < 0 {
        None
    } else if rel / (MENU_ITEM_H as int) < MENU_COUNT {
        Some((rel / (MENU_ITEM_H as int)) as usize)
    } else {
        None
    }
}

pub fn menu_item_at(mx: i32, my: i32, px: i32, py: i32) -> (r: Option<usize>)
    requires
        0 <= mx <= i32::MAX - MENU_W,
        0 <= my <= i32::MAX - MENU_H,
        i32::MIN <= py - (my + MENU_PAD),
    ensures
        r == menu_item_spec(mx as int, my as int, px as int, py as int),
{
    if px < mx + MENU_PAD || px >= mx + MENU_W - MENU_PAD {
        return None;
    }
    let rel = py - (my + MENU_PAD);
    if rel < 0 {
        return None;
    }
    let i = rel / MENU_ITEM_H;
    if i < MENU_COUNT {
        Some(i as usize)
    } else {
        None
    }
}

/// The menu's top-left for a right click at `(x, y)`: kept on screen.
pub open spec fn clamp_menu_spec(sw: int, sh: int, x: int, y: int) -> (i32, i32) {
    (max_int(min_int(x, sw - MENU_W), 0) as i32, max_int(min_int(y, sh - MENU_H), 0) as i32)
}

pub open spec fn dock_x(sw: int) -> int {
    sw / 2 - DOCK_W / 2
}

pub open spec fn dock_y(sh: int) -> int {
    sh - DOCK_H - DOCK_MARGIN
}

/// The dock panel, centred at the bottom of the screen.
pub open spec fn dock_rect_spec(sw: int, sh: int) -> Rect {
    Rect { x: dock_x(sw) as i32, y: dock_y(sh) as i32, w: DOCK_W, h: DOCK_H }
}

/// Icon slot `i` of the dock.
pub open spec fn dock_icon_spec(sw: int, sh: int, i: int) -> Rect {
    Rect {
        x: (dock_x(sw) + DOCK_PAD + i * (DOCK_ICON + DOCK_GAP)) as i32,
        y: (dock_y(sh) + DOCK_PAD) as i32,
        w: DOCK_ICON,
        h: DOCK_ICON,
    }
}

/// The dock panel and its icon slots.
pub fn dock_layout(sw: i32, sh: i32) -> (r: (Rect, Vec<Rect>))
    requires
        0 <= sw,
        i32::MIN + DOCK_H + DOCK_MARGIN <= sh,
    ensures
        r.0 == dock_rect_spec(sw as int, sh as int),
        r.1@.len() == DOCK_COUNT,
        forall|i: int| 0 <= i < DOCK_COUNT ==> r.1@[i] == dock_icon_spec(sw as int, sh as int, i),
{
    let dx = sw / 2 - DOCK_W / 2;
    let dy = sh - DOCK_H - DOCK_MARGIN;
    let dock = Rect::new(dx, dy, DOCK_W, DOCK_H);
    let mut icons: Vec<Rect> = Vec::new();
    let mut x = dx + DOCK_PAD;
    let mut i: i32 = 0;
    while i < DOCK_COUNT
        invariant
            0 <= i <= DOCK_COUNT,
            dx == dock_x(sw as int),
            dy == dock_y(sh as int),
            x == dx + DOCK_PAD + i * (DOCK_ICON + DOCK_GAP),
            icons@.len() == i,
            forall|k: int| 0 <= k < i ==> icons@[k] == dock_icon_spec(sw as int, sh as int, k),
        decreases DOCK_COUNT - i,
    {
        icons.push(Rect::new(x, dy + DOCK_PAD, DOCK_ICON, DOCK_ICON));
        assert((i + 1) * (DOCK_ICON + DOCK_GAP) == i * (DOCK_ICON + DOCK_GAP) + (DOCK_ICON + DOCK_GAP))
            by (nonlinear_arith);
        x = x + DOCK_ICON + DOCK_GAP;
        i = i + 1;
    }
    (dock, icons)
}

/// The window a dock click opens: the brand and terminal icons open the
/// shell, then the editor and the task manager.
pub open spec fn taskbar_spec(sw: int, sh: int, px: int, py: int) -> Option<usize> {
    if dock_icon_spec(sw, sh, 0).has(px, py) || dock_icon_spec(sw, sh, 1).has(px, py) {
        Some(TERM)
    } else if dock_icon_spec(sw, sh, 2).has(px, py) {
        Some(EDIT)
    } else if dock_icon_spec(sw, sh, 3).has(px, py) {
        Some(TASK)
    } else {
        None
    }
}

pub fn taskbar_hit(sw: i32, sh: i32, px: i32, py: i32) -> (r: Option<usize>)
    requires
        0 <= sw,
        i32::MIN + DOCK_H + DOCK_MARGIN <= sh,
    ensures
        r == taskbar_spec(sw as int, sh as int, px as int, py as int),
{
    let (_, icons) = dock_layout(sw, sh);
    if icons[0].contains(px, py) || icons[1].contains(px, py) {
        Some(TERM)
    } else if icons[2].contains(px, py) {
        Some(EDIT)
    } else if icons[3].contains(px, py) {
        Some(TASK)
    } else {
        None
    }
}

// ---- stacking order and focus ----

/// The slot of the stacking order that holds window `w`.
pub open spec fn slot_of(order: Seq<usize>, w: usize) -> int {
    choose|i: int| 0 <= i < order.len() && order[i] == w
}

/// The stacking order with `w` moved to the front.
pub open spec fn front_spec(order: Seq<usize>, w: usize) -> Seq<usize> {
    order.remove(slot_of(order, w)).push(w)
}

/// The front-most of the first `n` stacked windows that is active.
pub open spec fn top_active(s: Wm, n: int) -> Option<usize>
    decreases n,
{
    if n <= 0 {
        None
    } else if s.windows[s.order[n - 1] as int].is_active() {
        Some(s.order[n - 1])
    } else {
        top_active(s, n - 1)
    }
}

/// The focused window: the front-most active one.
pub open spec fn focused_spec(s: Wm) -> Option<usize> {
    top_active(s, WIN_COUNT as int)
}

/// The front-most of the first `n` stacked windows that is active and
/// contains `(px, py)`.
pub open spec fn top_at(s: Wm, n: int, px: int, py: int) -> Option<usize>
    decreases n,
{
    if n <= 0 {
        None
    } else if s.windows[s.order[n - 1] as int].is_active() && s.windows[s.order[n - 1] as int].rect.has(px, py) {
        Some(s.order[n - 1])
    } else {
        top_at(s, n - 1, px, py)
    }
}

pub open spec fn topmost_spec(s: Wm, px: int, py: int) -> Option<usize> {
    top_at(s, WIN_COUNT as int, px, py)
}

/// The window under a point depends only on the windows and their order.
proof fn lemma_top_at_same(s: Wm, t: Wm, n: int, px: int, py: int)
    requires
        s.windows == t.windows,
        s.order == t.order,
    ensures
        top_at(s, n, px, py) == top_at(t, n, px, py),
    decreases n,
{
    if n > 0 {
        lemma_top_at_same(s, t, n - 1, px, py);
    }
}

/// The first of the first `n` windows running process `pid`.
pub open spec fn pid_slot(ws: Seq<Win>, pid: u16, n: int) -> Option<usize>
    decreases n,
{
    if n <= 0 {
        None
    } else {
        match pid_slot(ws, pid, n - 1) {
            Some(w) => Some(w),
            None => if ws[n - 1].pid == pid {
                Some((n - 1) as usize)
            } else {
                None
            },
        }
    }
}

/// The window of process `pid` (0 stands for no process).
pub open spec fn window_of_pid_spec(ws: Seq<Win>, pid: u16) -> Option<usize> {
    if pid == 0 {
        None
    } else {
        pid_slot(ws, pid, WIN_COUNT as int)
    }
}

pub open spec fn with_win(s: Wm, w: usize, win: Win) -> Wm {
    Wm { windows: s.windows.update(w as int, win), ..s }
}

/// Opening window `w`: a shown window only comes to the front (cancelling a
/// close in progress); a hidden one is shown, starts its opening transition
/// and takes the pid of its freshly spawned app.
pub open spec fn open_spec(s: Wm, w: usize, pid: u16) -> Wm {
    let win = s.windows[w as int];
    let opened = if win.visible {
        if win.anim == Some(Phase::Closing) {
            Win { anim: Some(Phase::Opening), ..win }
        } else {
            win
        }
    } else {
        Win { visible: true, anim: Some(Phase::Opening), pid, ..win }
    };
    Wm { windows: s.windows.update(w as int, opened), order: front_spec(s.order, w), ..s }
}

/// Asking window `w` to close starts its closing transition, unless one is
/// already running.
pub open spec fn close_spec(s: Wm, w: usize) -> Wm {
    let win = s.windows[w as int];
    if win.anim == Some(Phase::Closing) {
        s
    } else {
        with_win(s, w, Win { anim: Some(Phase::Closing), ..win })
    }
}

/// Once a window of `pid` is found among the first `k`, it stays the answer
/// among the first `n >= k`.
proof fn lemma_pid_slot_stays(ws: Seq<Win>, pid: u16, k: int, n: int)
    requires
        0 <= k <= n,
        pid_slot(ws, pid, k) is Some,
    ensures
        pid_slot(ws, pid, n) == pid_slot(ws, pid, k),
    decreases n - k,
{
    if n > k {
        lemma_pid_slot_stays(ws, pid, k, n - 1);
    }
}

/// The window found for `pid` runs `pid`.
proof fn lemma_pid_slot_hit(ws: Seq<Win>, pid: u16, n: int)
    requires
        n <= WIN_COUNT,
    ensures
        pid_slot(ws, pid, n) matches Some(w) ==> 0 <= w < n && ws[w as int].pid == pid,
    decreases n,
{
    if n > 0 {
        lemma_pid_slot_hit(ws, pid, n - 1);
    }
}

/// Window `w` is in the stacking order.
proof fn lemma_order_has(s: Wm, sw: int, sh: int, w: usize)
    requires
        wm_ok(s, sw, sh),
        w < WIN_COUNT,
    ensures
        0 <= slot_of(s.order, w) < WIN_COUNT,
        s.order[slot_of(s.order, w)] == w,
        forall|i: int| 0 <= i < WIN_COUNT && s.order[i] == w ==> i == slot_of(s.order, w),
{
    assert(s.order[0] < WIN_COUNT && s.order[1] < WIN_COUNT && s.order[2] < WIN_COUNT);
    assert(s.order[0] != s.order[1] && s.order[0] != s.order[2] && s.order[1] != s.order[2]);
    if s.order[0] == w {
        assert(s.order[0] == w);
    } else if s.order[1] == w {
        assert(s.order[1] == w);
    } else {
        assert(s.order[2] == w);
    }
}

/// Moving a window to the front keeps the stacking order a permutation.
proof fn lemma_front_ok(s: Wm, sw: int, sh: int, w: usize)
    requires
        wm_ok(s, sw, sh),
        w < WIN_COUNT,
    ensures
        wm_ok(Wm { order: front_spec(s.order, w), ..s }, sw, sh),
        front_spec(s.order, w).len() == WIN_COUNT,
        front_spec(s.order, w).last() == w,
{
    lemma_order_has(s, sw, sh, w);
    let k = slot_of(s.order, w);
    let o = front_spec(s.order, w);
    assert forall|i: int| 0 <= i < WIN_COUNT implies #[trigger] o[i] < WIN_COUNT by {
        if i < k {
            assert(o[i] == s.order[i]);
        } else if i < WIN_COUNT - 1 {
            assert(o[i] == s.order[i + 1]);
        }
    }
    assert forall|i: int, j: int| 0 <= i < j < WIN_COUNT implies o[i] != o[j] by {
        let oi = if i < k { i } else { i + 1 };
        if j == WIN_COUNT - 1 {
            assert(o[i] == s.order[oi]);
        } else {
            let oj = if j < k { j } else { j + 1 };
            assert(o[i] == s.order[oi]);
            assert(o[j] == s.order[oj]);
        }
    }
}

// ---- mouse ----

/// The window whose app a click spawned: opening `w` spawns only when it was
/// hidden.
pub open spec fn spawn_of(s: Wm, w: usize) -> Option<usize> {
    if !s.windows[w as int].visible {
        Some(w)
    } else {
        None
    }
}

/// `new` is the process table `old` after the spawn of `spawned`, if any.
pub open spec fn procs_after(old: ProcessTable, new: ProcessTable, spawned: Option<usize>) -> bool {
    match spawned {
        Some(w) => spawn_effect(old, new, proc_name_spec(kind_of(w as int)), ProcKind::App, ProcState::Running),
        None => new == old,
    }
}

/// A left press at `(cx, cy)`: with the menu open it picks an item (or just
/// dismisses the menu); otherwise the close button of the window under the
/// cursor closes it, any other part raises it, and its title bar starts a
/// drag; a dock icon opens its app. Yields the new state, whether the scene
/// changed (`scene` when nothing was hit) and the window whose app was
/// spawned; `pid` is the pid a spawn would hand out.
pub open spec fn click_spec(s: Wm, sw: int, sh: int, cx: int, cy: int, pid: u16, scene: bool) -> (
    Wm,
    bool,
    Option<usize>,
) {
    match s.menu {
        Some(m) => match menu_item_spec(m.0 as int, m.1 as int, cx, cy) {
            Some(i) => (Wm { menu: None, ..open_spec(s, i, pid) }, true, spawn_of(s, i)),
            None => (Wm { menu: None, ..s }, true, None),
        },
        None => match topmost_spec(s, cx, cy) {
            Some(w) => {
                let r = s.windows[w as int].rect;
                if r.close_spec().has(cx, cy) {
                    (Wm { drag: None, ..close_spec(s, w) }, true, None)
                } else {
                    let raised = Wm { order: front_spec(s.order, w), ..s };
                    if r.x <= cx < r.x + r.w && r.y <= cy < r.y + TITLE_H {
                        (
                            Wm {
                                drag: Some(Drag { win: w, grab_dx: (cx - r.x) as i32, grab_dy: (cy - r.y) as i32 }),
                                ..raised
                            },
                            true,
                            None,
                        )
                    } else {
                        (raised, true, None)
                    }
                }
            },
            None => match taskbar_spec(sw, sh, cx, cy) {
                Some(app) => (open_spec(s, app, pid), true, spawn_of(s, app)),
                None => (s, scene, None),
            },
        },
    }
}

/// The dragged window follows the cursor, its title bar kept on screen.
pub open spec fn drag_spec(s: Wm, sw: int, sh: int, d: Drag, cx: int, cy: int) -> Wm {
    let win = s.windows[d.win as int];
    let r = win.rect;
    let x = clamp_int(cx - d.grab_dx, 0, max_int(sw - r.w, 0));
    let y = clamp_int(cy - d.grab_dy, 0, max_int(sh - TITLE_H, 0));
    with_win(s, d.win, Win { rect: Rect { x: x as i32, y: y as i32, ..r }, ..win })
}

/// The first half of a mouse packet: the cursor moves by `(dx, -dy)` and
/// stays on screen, a right press opens the context menu at the cursor, a
/// left press is a click (see [`click_spec`]).
pub open spec fn press_spec(s: Wm, sw: int, sh: int, pid: u16, dx: int, dy: int, left: bool, right: bool) -> (
    Wm,
    bool,
    Option<usize>,
) {
    let cx = clamp_int(s.cursor_x + dx, 0, sw - 1);
    let cy = clamp_int(s.cursor_y - dy, 0, sh - 1);
    let right_pressed = right && !s.prev_right;
    let s1 = Wm { cursor_x: cx as i32, cursor_y: cy as i32, ..s };
    let s2 = if right_pressed {
        Wm { menu: Some(clamp_menu_spec(sw, sh, cx, cy)), ..s1 }
    } else {
        s1
    };
    if left && !s.prev_left {
        click_spec(s2, sw, sh, cx, cy, pid, right_pressed)
    } else {
        (s2, right_pressed, None)
    }
}

/// The second half: releasing the left button ends a drag, holding it moves
/// the dragged window; the button states are remembered. The scene is dirty
/// when anything but the cursor changed, or the cursor moved over the open
/// menu.
pub open spec fn settle_spec(s: Wm, sw: int, sh: int, left: bool, right: bool, moved: bool, scene: bool) -> (
    Wm,
    MouseResult,
) {
    let s1 = if !left && s.prev_left {
        Wm { drag: None, ..s }
    } else {
        s
    };
    let (s2, scene2) = match s1.drag {
        Some(d) => if left {
            (drag_spec(s1, sw, sh, d, s.cursor_x as int, s.cursor_y as int), true)
        } else {
            (Wm { drag: None, ..s1 }, scene)
        },
        None => (s1, scene),
    };
    (
        Wm { prev_left: left, prev_right: right, ..s2 },
        MouseResult { scene_dirty: scene2 || (s2.menu is Some && moved), cursor_moved: moved },
    )
}

/// One mouse packet: the new state, what changed, and the window whose app
/// was spawned.
pub open spec fn mouse_spec(s: Wm, sw: int, sh: int, pid: u16, dx: int, dy: int, left: bool, right: bool) -> (
    Wm,
    MouseResult,
    Option<usize>,
) {
    let pressed = press_spec(s, sw, sh, pid, dx, dy, left, right);
    let settled = settle_spec(pressed.0, sw, sh, left, right, dx != 0 || dy != 0, pressed.1);
    (settled.0, settled.1, pressed.2)
}

// ---- keyboard ----

/// `d1` is `d0` after opening window `w`.
pub open spec fn opened(d0: Desktop, d1: Desktop, w: usize) -> bool {
    &&& d1.wm() == open_spec(d0.wm(), w, spawn_pid(d0.procs))
    &&& procs_after(d0.procs, d1.procs, spawn_of(d0.wm(), w))
}

/// `d1` is `d0` after asking window `w` to close.
pub open spec fn closing(d0: Desktop, d1: Desktop, w: usize) -> bool {
    &&& d1.wm() == close_spec(d0.wm(), w)
    &&& d1.procs == d0.procs
}

/// Neither the windows nor the processes changed.
pub open spec fn wm_kept(d0: Desktop, d1: Desktop) -> bool {
    &&& d1.wm() == d0.wm()
    &&& d1.procs == d0.procs
}

/// The window of the process under the Task Manager cursor.
pub open spec fn selected_window(d: Desktop) -> Option<usize> {
    let t = d.procs;
    if t.selected_spec() < t.procs().len() {
        window_of_pid_spec(d.windows@, t.procs()[t.selected_spec() as int].pid)
    } else {
        None
    }
}

/// A key in the Task Manager: the arrows move the cursor, ENTER brings the
/// selected app's window up, DELETE closes it (system processes have no
/// window and are left alone), ESC closes the Task Manager.
pub open spec fn task_key_spec(d0: Desktop, d1: Desktop, key: Key) -> bool {
    let t = d0.procs;
    let sel = t.selected_spec() as int;
    match key {
        Key::Up | Key::Down => {
            &&& d1.wm() == d0.wm()
            &&& d1.procs.wf()
            &&& d1.procs.procs() == t.procs()
            &&& d1.procs.next_pid_spec() == t.next_pid_spec()
            &&& d1.procs.selected_spec() == (if key == Key::Up {
                prev_index(sel, t.procs().len() as int)
            } else {
                next_index(sel, t.procs().len() as int)
            })
        },
        Key::Enter => match selected_window(d0) {
            Some(w) => opened(d0, d1, w),
            None => wm_kept(d0, d1),
        },
        Key::Delete => match selected_window(d0) {
            Some(w) => if t.procs()[sel].kind == ProcKind::App {
                closing(d0, d1, w)
            } else {
                wm_kept(d0, d1)
            },
            None => wm_kept(d0, d1),
        },
        Key::Esc => closing(d0, d1, TASK),
        _ => wm_kept(d0, d1),
    }
}

/// The window a key event asks to open from the shell, if any.
pub open spec fn key_opens(d: Desktop, scan: u8, extended: bool, pressed: bool, time: Time) -> Option<usize> {
    match key_result(scan, extended, pressed, d.keymap.shift_held(), d.keymap.caps_on()) {
        Some(key) => match focused_spec(d.wm()) {
            Some(top) => if kind_of(top as int) == Kind::Terminal {
                match term_key_spec(d.term@, key, time).1 {
                    ActionView::OpenEditor => Some(EDIT),
                    ActionView::OpenTasks => Some(TASK),
                    _ => None,
                }
            } else {
                None
            },
            None => None,
        },
        None => None,
    }
}

// ---- laws ----

/// Only an active window can be focused.
proof fn lemma_top_active_is_active(s: Wm, n: int)
    ensures
        top_active(s, n) matches Some(w) ==> s.windows[w as int].is_active() && exists|i: int|
            0 <= i < n && s.order[i] == w,
    decreases n,
{
    if n > 0 {
        lemma_top_active_is_active(s, n - 1);
    }
}

/// Opening a window, hidden or shown, closing or not, gives it the focus.
pub proof fn lemma_open_focuses(s: Wm, sw: int, sh: int, w: usize, pid: u16)
    requires
        wm_ok(s, sw, sh),
        w < WIN_COUNT,
    ensures
        focused_spec(open_spec(s, w, pid)) == Some(w),
{
    lemma_front_ok(s, sw, sh, w);
    let o = open_spec(s, w, pid);
    assert(o.order[WIN_COUNT - 1] == w);
    assert(o.windows[w as int].is_active());
}

/// A window asked to close loses the focus at once.
pub proof fn lemma_close_unfocuses(s: Wm, sw: int, sh: int, w: usize)
    requires
        wm_ok(s, sw, sh),
        w < WIN_COUNT,
    ensures
        focused_spec(close_spec(s, w)) != Some(w),
{
    let c = close_spec(s, w);
    lemma_top_active_is_active(c, WIN_COUNT as int);
    assert(!c.windows[w as int].is_active());
}

/// Raising an active window gives it the focus.
pub proof fn lemma_raise_focuses(s: Wm, sw: int, sh: int, w: usize)
    requires
        wm_ok(s, sw, sh),
        w < WIN_COUNT,
        s.windows[w as int].is_active(),
    ensures
        focused_spec(Wm { order: front_spec(s.order, w), ..s }) == Some(w),
{
    lemma_front_ok(s, sw, sh, w);
}

/// The desktop: the apps, the process table and the window manager state.
pub struct Desktop {
    pub sw: i32,
    pub sh: i32,
    pub term: Terminal,
    pub editor: Editor,
    pub keymap: Keymap,
    pub procs: ProcessTable,
    pub windows: Vec<Win>,
    /// Window slots from back to front.
    pub order: Vec<usize>,
    pub drag: Option<Drag>,
    pub menu: Option<(i32, i32)>,
    pub cursor_x: i32,
    pub cursor_y: i32,
    pub prev_left: bool,
    pub prev_right: bool,
}

/// The desktop right after boot: the shell window shown and opening, the
/// editor and the task manager hidden, the shell in front.
pub open spec fn boot_windows(shell_pid: u16) -> Seq<Win> {
    seq![
        Win { rect: home_rect(0), visible: true, kind: Kind::Terminal, anim: Some(Phase::Opening), pid: shell_pid },
        Win { rect: home_rect(1), visible: false, kind: Kind::Editor, anim: None, pid: 0 },
        Win { rect: home_rect(2), visible: false, kind: Kind::TaskMgr, anim: None, pid: 0 },
    ]
}

impl Desktop {
    pub open spec fn wm(&self) -> Wm {
        Wm {
            windows: self.windows@,
            order: self.order@,
            drag: self.drag,
            menu: self.menu,
            cursor_x: self.cursor_x,
            cursor_y: self.cursor_y,
            prev_left: self.prev_left,
            prev_right: self.prev_right,
        }
    }

    pub open spec fn wf(&self) -> bool {
        &&& wm_ok(self.wm(), self.sw as int, self.sh as int)
        &&& self.procs.wf()
        &&& self.term.wf()
        &&& self.editor.wf()
    }

    /// Everything but the window manager state is as in `other`.
    pub open spec fn same_apps(&self, other: Desktop) -> bool {
        &&& self.sw == other.sw
        &&& self.sh == other.sh
        &&& self.term == other.term
        &&& self.editor == other.editor
        &&& self.keymap == other.keymap
    }

    /// Start-up: the kernel, compositor and shell processes, the shell window
    /// opening in front, the cursor in the middle of the screen.
    pub fn new(sw: i32, sh: i32) -> (d: Self)
        ensures
            d.sw == sw,
            d.sh == sh,
            d.procs.procs().len() == 3,
            d.procs.procs()[0].pid == 1 && d.procs.procs()[0].name_view() == "kernel".spec_bytes()
                && d.procs.procs()[0].kind == ProcKind::System,
            d.procs.procs()[1].pid == 2 && d.procs.procs()[1].name_view() == "compositor".spec_bytes()
                && d.procs.procs()[1].kind == ProcKind::System,
            d.procs.procs()[2].pid == 3 && d.procs.procs()[2].name_view() == "shell".spec_bytes()
                && d.procs.procs()[2].kind == ProcKind::App,
            forall|i: int| 0 <= i < 3 ==> #[trigger] d.procs.procs()[i].state == ProcState::Running
                && d.procs.procs()[i].ticks == 0,
            d.procs.next_pid_spec() == 4,
            d.procs.selected_spec() == 0,
            d.windows@ == boot_windows(3),
            d.order@ == seq![TASK, EDIT, TERM],
            d.drag is None,
            d.menu is None,
            d.cursor_x == (if sw >= 0 { sw / 2 } else { -((-sw) / 2) }),
            d.cursor_y == (if sh >= 0 { sh / 2 } else { -((-sh) / 2) }),
            !d.prev_left && !d.prev_right,
            d.term@.lines == crate::terminal::banner_spec(),
            d.term@.input == Seq::<u8>::empty() && d.term@.caret == 0,
            d.editor@.lines == seq![Seq::<u8>::empty()] && d.editor@.cx == 0 && d.editor@.cy == 0 && !d.editor@.dirty,
            !d.keymap.shift_held() && !d.keymap.caps_on(),
            1 <= sw && 1 <= sh <= i32::MAX - MAX_WIN_H ==> d.wf(),
    {
        let mut procs = ProcessTable::new();
        let _ = procs.spawn("kernel".as_bytes(), ProcKind::System, ProcState::Running);
        let _ = procs.spawn("compositor".as_bytes(), ProcKind::System, ProcState::Running);
        let shell = procs.spawn("shell".as_bytes(), ProcKind::App, ProcState::Running);
        let shell_pid = match shell {
            Some(p) => p,
            None => 0,
        };
        proof {
            reveal_strlit("kernel");
            reveal_strlit("compositor");
            reveal_strlit("shell");
            assert(vstd::string::is_ascii("kernel"));
            assert(vstd::string::is_ascii("compositor"));
            assert(vstd::string::is_ascii("shell"));
            assert("kernel".spec_bytes().len() == 6);
            assert("compositor".spec_bytes().len() == 10);
            assert("shell".spec_bytes().len() == 5);
            assert(crate::process::prefix_upto("kernel".spec_bytes(), crate::process::NAME_CAP as int)
                =~= "kernel".spec_bytes());
            assert(crate::process::prefix_upto("compositor".spec_bytes(), crate::process::NAME_CAP as int)
                =~= "compositor".spec_bytes());
            assert(crate::process::prefix_upto("shell".spec_bytes(), crate::process::NAME_CAP as int)
                =~= "shell".spec_bytes());
        }
        let mut windows: Vec<Win> = Vec::new();
        windows.push(
            Win {
                rect: Rect::new(70, 80, 512, 320),
                visible: true,
                kind: Kind::Terminal,
                anim: Some(Phase::Opening),
                pid: shell_pid,
            },
        );
        windows.push(Win { rect: Rect::new(610, 110, 560, 350), visible: false, kind: Kind::Editor, anim: None, pid: 0 });
        windows.push(Win { rect: Rect::new(360, 200, 392, 300), visible: false, kind: Kind::TaskMgr, anim: None, pid: 0 });
        let mut order: Vec<usize> = Vec::new();
        order.push(TASK);
        order.push(EDIT);
        order.push(TERM);
        let d = Desktop {
            sw,
            sh,
            term: Terminal::new(),
            editor: Editor::new(),
            keymap: Keymap::new(),
            procs,
            windows,
            order,
            drag: None,
            menu: None,
            cursor_x: sw / 2,
            cursor_y: sh / 2,
            prev_left: false,
            prev_right: false,
        };
        assert(d.windows@ =~= boot_windows(3));
        assert(d.order@ =~= seq![TASK, EDIT, TERM]);
        proof {
            assert forall|w: int| 0 <= w < WIN_COUNT implies #[trigger] win_ok(d.windows@[w], w) by {
                assert(d.windows@[w] == boot_windows(3)[w]);
            }
        }
        d
    }

    pub fn cursor(&self) -> (r: (i32, i32))
        ensures
            r == (self.cursor_x, self.cursor_y),
    {
        (self.cursor_x, self.cursor_y)
    }

    /// The focused window: the front-most one that is shown and not closing.
    pub fn focused(&self) -> (r: Option<usize>)
        requires
            self.wf(),
        ensures
            r == focused_spec(self.wm()),
            r matches Some(w) ==> w < WIN_COUNT,
    {
        let mut i = WIN_COUNT;
        while i > 0
            invariant
                self.wf(),
                i <= WIN_COUNT,
                focused_spec(self.wm()) == top_active(self.wm(), i as int),
            decreases i,
        {
            let w = self.order[i - 1];
            if self.windows[w].active() {
                return Some(w);
            }
            i -= 1;
        }
        None
    }

    /// The front-most active window under `(px, py)`.
    pub fn topmost_at(&self, px: i32, py: i32) -> (r: Option<usize>)
        requires
            self.wf(),
        ensures
            r == topmost_spec(self.wm(), px as int, py as int),
            r matches Some(w) ==> w < WIN_COUNT,
    {
        let mut i = WIN_COUNT;
        while i > 0
            invariant
                self.wf(),
                i <= WIN_COUNT,
                topmost_spec(self.wm(), px as int, py as int) == top_at(self.wm(), i as int, px as int, py as int),
            decreases i,
        {
            let w = self.order[i - 1];
            assert(win_ok(self.windows@[w as int], w as int));
            if self.windows[w].active() && self.windows[w].rect.contains(px, py) {
                return Some(w);
            }
            i -= 1;
        }
        None
    }

    /// The window whose app runs as process `pid`.
    pub fn window_of_pid(&self, pid: u16) -> (r: Option<usize>)
        requires
            self.wf(),
        ensures
            r == window_of_pid_spec(self.windows@, pid),
            r matches Some(w) ==> w < WIN_COUNT && self.windows@[w as int].pid == pid && pid != 0,
    {
        if pid == 0 {
            return None;
        }
        let mut w: usize = 0;
        while w < WIN_COUNT
            invariant
                self.wf(),
                w <= WIN_COUNT,
                pid != 0,
                pid_slot(self.windows@, pid, w as int) is None,
            decreases WIN_COUNT - w,
        {
            if self.windows[w].pid == pid {
                assert(pid_slot(self.windows@, pid, w + 1) == Some(w));
                proof {
                    lemma_pid_slot_stays(self.windows@, pid, w + 1, WIN_COUNT as int);
                    lemma_pid_slot_hit(self.windows@, pid, WIN_COUNT as int);
                }
                return Some(w);
            }
            w += 1;
        }
        None
    }

    /// Raise window `win` to the front of the stacking order.
    pub fn bring_to_front(&mut self, win: usize)
        requires
            old(self).wf(),
            win < WIN_COUNT,
        ensures
            final(self).wf(),
            final(self).wm() == (Wm { order: front_spec(old(self).wm().order, win), ..old(self).wm() }),
            final(self).procs == old(self).procs,
            final(self).same_apps(*old(self)),
    {
        proof {
            lemma_order_has(self.wm(), self.sw as int, self.sh as int, win);
            lemma_front_ok(self.wm(), self.sw as int, self.sh as int, win);
        }
        let mut pos: usize = 0;
        while pos < WIN_COUNT && self.order[pos] != win
            invariant
                wm_ok(self.wm(), self.sw as int, self.sh as int),
                0 <= slot_of(self.order@, win) < WIN_COUNT,
                self.order@[slot_of(self.order@, win)] == win,
                pos <= slot_of(self.order@, win),
            decreases WIN_COUNT - pos,
        {
            pos += 1;
        }
        proof {
            lemma_order_has(self.wm(), self.sw as int, self.sh as int, win);
        }
        assert(pos == slot_of(self.order@, win));
        self.order.remove(pos);
        self.order.push(win);
        assert(self.order@ =~= front_spec(old(self).order@, win));
    }

    /// Open window `win`: bring a shown window to the front (cancelling a
    /// close in progress), or show a hidden one, spawning its app.
    pub fn open(&mut self, win: usize)
        requires
            old(self).wf(),
            win < WIN_COUNT,
            !old(self).windows@[win as int].visible ==> old(self).procs.next_pid_spec() < u16::MAX,
        ensures
            final(self).wf(),
            final(self).wm() == open_spec(old(self).wm(), win, spawn_pid(old(self).procs)),
            if old(self).windows@[win as int].visible {
                final(self).procs == old(self).procs
            } else {
                spawn_effect(
                    old(self).procs,
                    final(self).procs,
                    proc_name_spec(kind_of(win as int)),
                    ProcKind::App,
                    ProcState::Running,
                )
            },
            final(self).same_apps(*old(self)),
    {
        proof {
            assert(win_ok(self.windows@[win as int], win as int));
        }
        let mut w = self.windows[win];
        if w.visible {
            if matches!(w.anim, Some(Phase::Closing)) {
                w.anim = Some(Phase::Opening);
                self.windows.set(win, w);
            }
            assert(self.windows@ =~= old(self).windows@.update(win as int, w));
            proof {
                assert forall|k: int| 0 <= k < WIN_COUNT implies #[trigger] win_ok(self.windows@[k], k) by {
                    assert(win_ok(old(self).windows@[k], k));
                }
            }
            self.bring_to_front(win);
            return;
        }
        let pid = match self.procs.spawn(proc_name(w.kind), ProcKind::App, ProcState::Running) {
            Some(p) => p,
            None => 0,
        };
        w.visible = true;
        w.anim = Some(Phase::Opening);
        w.pid = pid;
        self.windows.set(win, w);
        proof {
            assert forall|k: int| 0 <= k < WIN_COUNT implies #[trigger] win_ok(self.windows@[k], k) by {
                assert(win_ok(old(self).windows@[k], k));
            }
        }
        self.bring_to_front(win);
    }

    /// Start closing window `win`, unless it is already closing.
    pub fn request_close(&mut self, win: usize)
        requires
            old(self).wf(),
            win < WIN_COUNT,
        ensures
            final(self).wf(),
            final(self).wm() == close_spec(old(self).wm(), win),
            final(self).procs == old(self).procs,
            final(self).same_apps(*old(self)),
    {
        let mut w = self.windows[win];
        if matches!(w.anim, Some(Phase::Closing)) {
            return;
        }
        w.anim = Some(Phase::Closing);
        self.windows.set(win, w);
        proof {
            assert forall|k: int| 0 <= k < WIN_COUNT implies #[trigger] win_ok(self.windows@[k], k) by {
                assert(win_ok(old(self).windows@[k], k));
            }
        }
    }

    /// The kernel finished window `win`'s transition. A finished close hides
    /// the window and ends its app's process.
    pub fn finish_anim(&mut self, win: usize)
        requires
            old(self).wf(),
            win < WIN_COUNT,
        ensures
            final(self).wf(),
            old(self).windows@[win as int].anim == Some(Phase::Closing) ==> {
                &&& final(self).wm() == with_win(
                    old(self).wm(),
                    win,
                    Win { anim: None, visible: false, pid: 0, ..old(self).windows@[win as int] },
                )
                &&& killed(old(self).procs, final(self).procs, old(self).windows@[win as int].pid)
            },
            old(self).windows@[win as int].anim != Some(Phase::Closing) ==> {
                &&& final(self).wm() == with_win(
                    old(self).wm(),
                    win,
                    Win { anim: None, ..old(self).windows@[win as int] },
                )
                &&& final(self).procs == old(self).procs
            },
            final(self).same_apps(*old(self)),
    {
        let mut w = self.windows[win];
        let closing = matches!(w.anim, Some(Phase::Closing));
        w.anim = None;
        if closing {
            w.visible = false;
            let _ = self.procs.kill(w.pid);
            w.pid = 0;
        }
        self.windows.set(win, w);
        proof {
            assert forall|k: int| 0 <= k < WIN_COUNT implies #[trigger] win_ok(self.windows@[k], k) by {
                assert(win_ok(old(self).windows@[k], k));
            }
        }
    }

    /// The context menu's top-left for a right click at `(x, y)`.
    fn clamp_menu(&self, x: i32, y: i32) -> (r: (i32, i32))
        requires
            1 <= self.sw,
            1 <= self.sh,
        ensures
            r == clamp_menu_spec(self.sw as int, self.sh as int, x as int, y as int),
    {
        let lx = self.sw - MENU_W;
        let ly = self.sh - MENU_H;
        let mx = if x < lx { x } else { lx };
        let my = if y < ly { y } else { ly };
        (if mx > 0 { mx } else { 0 }, if my > 0 { my } else { 0 })
    }

    /// A left press at `(cx, cy)`; returns whether the scene changed
    /// (`scene` when nothing was hit).
    fn left_click(&mut self, cx: i32, cy: i32, scene: bool) -> (r: bool)
        requires
            old(self).wf(),
            0 <= cx < old(self).sw,
            0 <= cy < old(self).sh,
            click_spec(old(self).wm(), old(self).sw as int, old(self).sh as int, cx as int, cy as int, spawn_pid(old(self).procs), scene).2 is Some
                ==> old(self).procs.next_pid_spec() < u16::MAX,
        ensures
            final(self).wf(),
            ({
                let out = click_spec(old(self).wm(), old(self).sw as int, old(self).sh as int, cx as int, cy as int, spawn_pid(old(self).procs), scene);
                &&& final(self).wm() == out.0
                &&& r == out.1
                &&& procs_after(old(self).procs, final(self).procs, out.2)
            }),
            final(self).same_apps(*old(self)),
    {
        match self.menu {
            Some(m) => {
                match menu_item_at(m.0, m.1, cx, cy) {
                    Some(i) => self.open(i),
                    None => {},
                }
                self.menu = None;
                true
            },
            None => match self.topmost_at(cx, cy) {
                Some(w) => {
                    let rect = self.windows[w].rect;
                    assert(win_ok(self.windows@[w as int], w as int));
                    if rect.on_close(cx, cy) {
                        self.request_close(w);
                        self.drag = None;
                    } else {
                        self.bring_to_front(w);
                        if rect.on_title(cx, cy) {
                            self.drag = Some(Drag { win: w, grab_dx: cx - rect.x, grab_dy: cy - rect.y });
                        }
                    }
                    true
                },
                None => match taskbar_hit(self.sw, self.sh, cx, cy) {
                    Some(app) => {
                        self.open(app);
                        true
                    },
                    None => scene,
                },
            },
        }
    }

    /// Move the window of drag `d` so its grip follows the cursor.
    fn drag_to(&mut self, d: Drag, cx: i32, cy: i32)
        requires
            old(self).wf(),
            old(self).drag == Some(d),
            0 <= cx < old(self).sw,
            0 <= cy < old(self).sh,
        ensures
            final(self).wf(),
            final(self).wm() == drag_spec(old(self).wm(), old(self).sw as int, old(self).sh as int, d, cx as int, cy as int),
            final(self).procs == old(self).procs,
            final(self).same_apps(*old(self)),
    {
        let mut win = self.windows[d.win];
        assert(win_ok(win, d.win as int));
        let mut r = win.rect;
        r.x = cx - d.grab_dx;
        r.y = cy - d.grab_dy;
        let (x, y) = r.clamped_pos(self.sw, self.sh);
        win.rect.x = x;
        win.rect.y = y;
        self.windows.set(d.win, win);
        proof {
            assert forall|k: int| 0 <= k < WIN_COUNT implies #[trigger] win_ok(self.windows@[k], k) by {
                assert(win_ok(old(self).windows@[k], k));
            }
        }
    }

    /// Cursor motion, the right press and the left press of a mouse packet.
    fn press(&mut self, dx: i32, dy: i32, left: bool, right: bool) -> (r: bool)
        requires
            old(self).wf(),
            i32::MIN <= old(self).cursor_x + dx <= i32::MAX,
            i32::MIN <= old(self).cursor_y - dy <= i32::MAX,
            press_spec(old(self).wm(), old(self).sw as int, old(self).sh as int, spawn_pid(old(self).procs), dx as int, dy as int, left, right).2 is Some
                ==> old(self).procs.next_pid_spec() < u16::MAX,
        ensures
            final(self).wf(),
            ({
                let out = press_spec(old(self).wm(), old(self).sw as int, old(self).sh as int, spawn_pid(old(self).procs), dx as int, dy as int, left, right);
                &&& final(self).wm() == out.0
                &&& r == out.1
                &&& procs_after(old(self).procs, final(self).procs, out.2)
            }),
            final(self).same_apps(*old(self)),
    {
        let nx = self.cursor_x + dx;
        let ny = self.cursor_y - dy;
        self.cursor_x = if nx < 0 { 0 } else if nx > self.sw - 1 { self.sw - 1 } else { nx };
        self.cursor_y = if ny < 0 { 0 } else if ny > self.sh - 1 { self.sh - 1 } else { ny };
        let cx = self.cursor_x;
        let cy = self.cursor_y;
        let right_pressed = right && !self.prev_right;
        if right_pressed {
            self.menu = Some(self.clamp_menu(cx, cy));
        }
        if left && !self.prev_left {
            self.left_click(cx, cy, right_pressed)
        } else {
            right_pressed
        }
    }

    /// Release, drag and button bookkeeping of a mouse packet.
    fn settle(&mut self, left: bool, right: bool, moved: bool, scene: bool) -> (r: MouseResult)
        requires
            old(self).wf(),
        ensures
            final(self).wf(),
            ({
                let out = settle_spec(old(self).wm(), old(self).sw as int, old(self).sh as int, left, right, moved, scene);
                &&& final(self).wm() == out.0
                &&& r == out.1
            }),
            final(self).procs == old(self).procs,
            final(self).same_apps(*old(self)),
    {
        let mut scene = scene;
        if !left && self.prev_left {
            self.drag = None;
        }
        match self.drag {
            Some(d) => {
                if left {
                    self.drag_to(d, self.cursor_x, self.cursor_y);
                    scene = true;
                } else {
                    self.drag = None;
                }
            },
            None => {},
        }
        if self.menu.is_some() && moved {
            scene = true;
        }
        self.prev_left = left;
        self.prev_right = right;
        MouseResult { scene_dirty: scene, cursor_moved: moved }
    }

    /// Whether the mouse packet would open a hidden window, and so spawn its
    /// process. Nothing changes.
    pub fn would_spawn(&self, dx: i32, dy: i32, left: bool, right: bool) -> (b: bool)
        requires
            self.wf(),
            i32::MIN <= self.cursor_x + dx <= i32::MAX,
            i32::MIN <= self.cursor_y - dy <= i32::MAX,
        ensures
            b == (mouse_spec(self.wm(), self.sw as int, self.sh as int, spawn_pid(self.procs), dx as int, dy as int, left, right).2 is Some),
    {
        if !(left && !self.prev_left) {
            return false;
        }
        let nx = self.cursor_x + dx;
        let ny = self.cursor_y - dy;
        let cx = if nx < 0 { 0 } else if nx > self.sw - 1 { self.sw - 1 } else { nx };
        let cy = if ny < 0 { 0 } else if ny > self.sh - 1 { self.sh - 1 } else { ny };
        let menu = if right && !self.prev_right { Some(self.clamp_menu(cx, cy)) } else { self.menu };
        let ghost sp = press_spec(self.wm(), self.sw as int, self.sh as int, spawn_pid(self.procs), dx as int, dy as int, left, right);
        let ghost s2 = Wm {
            cursor_x: cx,
            cursor_y: cy,
            menu: menu,
            ..self.wm()
        };
        assert(cx == clamp_int(self.cursor_x + dx, 0, self.sw - 1));
        assert(cy == clamp_int(self.cursor_y - dy, 0, self.sh - 1));
        assert(sp == click_spec(s2, self.sw as int, self.sh as int, cx as int, cy as int, spawn_pid(self.procs), right && !self.prev_right));
        let b = match menu {
            Some(m) => match menu_item_at(m.0, m.1, cx, cy) {
                Some(i) => {
                    assert(i < WIN_COUNT);
                    assert(sp.2 == spawn_of(s2, i));
                    assert(s2.windows[i as int] == self.windows@[i as int]);
                    !self.windows[i].visible
                },
                None => {
                    assert(sp.2 is None);
                    false
                },
            },
            None => {
                proof {
                    lemma_top_at_same(s2, self.wm(), WIN_COUNT as int, cx as int, cy as int);
                }
                match self.topmost_at(cx, cy) {
                    Some(_) => false,
                    None => match taskbar_hit(self.sw, self.sh, cx, cy) {
                        Some(app) => {
                            assert(sp.2 == spawn_of(s2, app));
                            assert(s2.windows[app as int] == self.windows@[app as int]);
                            !self.windows[app].visible
                        },
                        None => false,
                    },
                }
            },
        };
        assert(b == (sp.2 is Some));
        b
    }

    /// Whether the key event would open a hidden window from the shell, and
    /// so spawn its process. Nothing changes.
    pub fn key_would_spawn(&self, scan: u8, extended: bool, pressed: bool, time: Time) -> (b: bool)
        requires
            self.wf(),
        ensures
            b == (key_opens(*self, scan, extended, pressed, time) matches Some(w) && !self.windows@[w as int].visible),
    {
        if extended || scan != 0x1C || !pressed {
            return false;
        }
        match self.focused() {
            Some(top) => {
                if top != TERM {
                    return false;
                }
                let w = match command_in(self.term.input()) {
                    Some(Command::Edit) => EDIT,
                    Some(Command::Tasks) => TASK,
                    _ => {
                        return false;
                    },
                };
                !self.windows[w].visible
            },
            None => false,
        }
    }

    /// Feed one mouse packet: relative motion and the button states.
    pub fn handle_mouse(&mut self, dx: i32, dy: i32, left: bool, right: bool) -> (r: MouseResult)
        requires
            old(self).wf(),
            i32::MIN <= old(self).cursor_x + dx <= i32::MAX,
            i32::MIN <= old(self).cursor_y - dy <= i32::MAX,
            mouse_spec(old(self).wm(), old(self).sw as int, old(self).sh as int, spawn_pid(old(self).procs), dx as int, dy as int, left, right).2 is Some
                ==> old(self).procs.next_pid_spec() < u16::MAX,
        ensures
            final(self).wf(),
            ({
                let out = mouse_spec(old(self).wm(), old(self).sw as int, old(self).sh as int, spawn_pid(old(self).procs), dx as int, dy as int, left, right);
                &&& final(self).wm() == out.0
                &&& r == out.1
                &&& procs_after(old(self).procs, final(self).procs, out.2)
            }),
            final(self).same_apps(*old(self)),
    {
        let scene = self.press(dx, dy, left, right);
        self.settle(left, right, dx != 0 || dy != 0, scene)
    }

    /// A key for the Task Manager window.
    fn task_key(&mut self, key: Key)
        requires
            old(self).wf(),
        ensures
            final(self).wf(),
            task_key_spec(*old(self), *final(self), key),
            final(self).same_apps(*old(self)),
    {
        match key {
            Key::Up => self.procs.select_prev(),
            Key::Down => self.procs.select_next(),
            Key::Enter => {
                if let Some(pid) = self.procs.selected_pid() {
                    if let Some(w) = self.window_of_pid(pid) {
                        assert(win_ok(self.windows@[w as int], w as int));
                        self.open(w);
                    }
                }
            },
            Key::Delete => {
                let sel = self.procs.selected();
                if let Some(p) = self.procs.at(sel) {
                    if p.kind == ProcKind::App {
                        if let Some(w) = self.window_of_pid(p.pid) {
                            self.request_close(w);
                        }
                    }
                }
            },
            Key::Esc => self.request_close(TASK),
            _ => {},
        }
    }

    /// Feed one keyboard event to the focused app. Returns whether a key
    /// reached an app.
    pub fn handle_key(&mut self, scan: u8, extended: bool, pressed: bool, time: Time) -> (r: bool)
        requires
            old(self).wf(),
            key_opens(*old(self), scan, extended, pressed, time) matches Some(w)
                && !old(self).windows@[w as int].visible ==> old(self).procs.next_pid_spec() < u16::MAX,
        ensures
            final(self).wf(),
            final(self).shift_held_after(*old(self), scan, extended, pressed),
            ({
                let key = key_result(scan, extended, pressed, old(self).keymap.shift_held(), old(self).keymap.caps_on());
                let top = focused_spec(old(self).wm());
                &&& r == (key is Some && top is Some)
                &&& !r ==> wm_kept(*old(self), *final(self)) && final(self).term == old(self).term
                    && final(self).editor == old(self).editor
                &&& r ==> match kind_of(top.unwrap() as int) {
                    Kind::Terminal => {
                        let (ts, act) = term_key_spec(old(self).term@, key.unwrap(), time);
                        &&& final(self).term@ == ts
                        &&& final(self).term.wf()
                        &&& final(self).editor == old(self).editor
                        &&& match act {
                            ActionView::OpenEditor => opened(*old(self), *final(self), EDIT),
                            ActionView::OpenTasks => opened(*old(self), *final(self), TASK),
                            _ => wm_kept(*old(self), *final(self)),
                        }
                    },
                    Kind::Editor => {
                        &&& final(self).term == old(self).term
                        &&& if key.unwrap() == Key::Esc {
                            closing(*old(self), *final(self), EDIT) && final(self).editor == old(self).editor
                        } else {
                            final(self).editor@ == key_spec(old(self).editor@, key.unwrap()) && wm_kept(
                                *old(self),
                                *final(self),
                            )
                        }
                    },
                    Kind::TaskMgr => {
                        &&& final(self).term == old(self).term
                        &&& final(self).editor == old(self).editor
                        &&& task_key_spec(*old(self), *final(self), key.unwrap())
                    },
                }
            }),
            final(self).sw == old(self).sw,
            final(self).sh == old(self).sh,
    {
        let key = match self.keymap.process(scan, extended, pressed) {
            Some(k) => k,
            None => return false,
        };
        let top = match self.focused() {
            Some(w) => w,
            None => return false,
        };
        assert(win_ok(self.windows@[top as int], top as int));
        match self.windows[top].kind {
            Kind::Terminal => {
                let action = self.term.on_key(key, time);
                match action {
                    Action::OpenEditor => self.open(EDIT),
                    Action::OpenTasks => self.open(TASK),
                    _ => {},
                }
            },
            Kind::Editor => {
                if matches!(key, Key::Esc) {
                    self.request_close(EDIT);
                } else {
                    self.editor.on_key(key);
                }
            },
            Kind::TaskMgr => self.task_key(key),
        }
        true
    }

    /// The keymap state after `handle_key` fed it one event.
    pub open spec fn shift_held_after(&self, before: Desktop, scan: u8, extended: bool, pressed: bool) -> bool {
        &&& self.keymap.shift_held() == (if !extended && (scan == 0x2A || scan == 0x36) {
            pressed
        } else {
            before.keymap.shift_held()
        })
        &&& self.keymap.caps_on() == (if !extended && scan == 0x3A && pressed {
            !before.keymap.caps_on()
        } else {
            before.keymap.caps_on()
        })
    }

    /// One scheduler quantum: running processes gain a tick.
    pub fn tick_processes(&mut self)
        requires
            old(self).wf(),
            can_tick(old(self).procs),
        ensures
            final(self).wf(),
            final(self).wm() == old(self).wm(),
            ticked(old(self).procs, final(self).procs),
            final(self).same_apps(*old(self)),
    {
        self.procs.tick();
    }
}

/// Two decimal digits of `val` (its tens and units) at `idx`.
pub fn two(buf: &mut Vec<u8>, idx: usize, val: u8)
    requires
        idx + 1 < old(buf)@.len(),
    ensures
        final(buf)@ == old(buf)@.update(idx as int, (0x30 + (val / 10) % 10) as u8).update(
            idx + 1,
            (0x30 + val % 10) as u8,
        ),
{
    let len = buf.len();
    assert(idx + 1 < len);
    buf.set(idx, 0x30 + (val / 10) % 10);
    buf.set(idx + 1, 0x30 + val % 10);
}

/// The decimal digits of `v` that fit in `width` cells ending at
/// `start + width`, right-aligned: `digits_into(s, start, k, v)` writes the
/// `k` low digits, most significant first, until `v` runs out.
pub open spec fn digits_into(s: Seq<u8>, end: int, start: int, v: nat) -> Seq<u8>
    decreases end - start,
{
    if end <= start {
        s
    } else {
        let s1 = s.update(end - 1, (0x30 + v % 10) as u8);
        if v / 10 == 0 || end - 1 == start {
            s1
        } else {
            digits_into(s1, end - 1, start, v / 10)
        }
    }
}

/// Writing digits keeps a buffer's length.
proof fn lemma_digits_len(s: Seq<u8>, end: int, start: int, v: nat)
    requires
        0 <= start,
        end <= s.len(),
    ensures
        digits_into(s, end, start, v).len() == s.len(),
    decreases end - start,
{
    if end > start {
        let s1 = s.update(end - 1, (0x30 + v % 10) as u8);
        if !(v / 10 == 0 || end - 1 == start) {
            lemma_digits_len(s1, end - 1, start, v / 10);
        }
    }
}

/// Write `v` in decimal right-aligned in `buf[start..start + width]`; digits
/// that do not fit are dropped from the left, cells left of the number keep
/// their contents.
pub fn write_uint(buf: &mut Vec<u8>, start: usize, width: usize, v: u32)
    requires
        width >= 1,
        start + width <= old(buf)@.len(),
    ensures
        final(buf)@ == digits_into(old(buf)@, (start + width) as int, start as int, v as nat),
{
    let ghost target = digits_into(old(buf)@, (start + width) as int, start as int, v as nat);
    let n = buf.len();
    let mut i = start + width;
    let mut v = v;
    loop
        invariant_except_break
            start < i <= start + width,
            start + width <= n,
            n == old(buf)@.len(),
            buf@.len() == n,
            digits_into(buf@, i as int, start as int, v as nat) == target,
        ensures
            buf@ == target,
        decreases i,
    {
        i -= 1;
        buf.set(i, 0x30 + (v % 10) as u8);
        v /= 10;
        if v == 0 || i == start {
            break;
        }
    }
}

/// The tens digit of `v` as an ASCII byte.
pub open spec fn tens(v: u8) -> u8 {
    (0x30 + (v / 10) % 10) as u8
}

/// The units digit of `v` as an ASCII byte.
pub open spec fn units(v: u8) -> u8 {
    (0x30 + v % 10) as u8
}

/// The clock's text: `HH:MM:SS`.
pub open spec fn clock_spec(t: Time) -> Seq<u8> {
    seq![tens(t.h), units(t.h), 0x3Au8, tens(t.m), units(t.m), 0x3Au8, tens(t.s), units(t.s)]
}

/// The text the desktop clock shows for `t`.
pub fn clock_text(t: Time) -> (s: Vec<u8>)
    ensures
        s@ == clock_spec(t),
{
    let mut buf: Vec<u8> = vec![0x30u8; 8];
    two(&mut buf, 0, t.h);
    buf.set(2, 0x3A);
    two(&mut buf, 3, t.m);
    buf.set(5, 0x3A);
    two(&mut buf, 6, t.s);
    assert(buf@ =~= clock_spec(t));
    buf
}

/// The editor's status line for a caret at column `cx`, row `cy` (both
/// counted from 0 and shown from 1, as two digits of their low byte), with
/// `*` when there are unsaved changes: `Ln RR  Col CC *`, padded to 22.
pub open spec fn status_spec(cx: int, cy: int, dirty: bool) -> Seq<u8> {
    let row = ((cy + 1) % 256) as u8;
    let col = ((cx + 1) % 256) as u8;
    seq![
        0x4Cu8, 0x6E, 0x20, tens(row), units(row), 0x20, 0x20, 0x43, 0x6F, 0x6C, 0x20,
        tens(col), units(col), 0x20, if dirty { 0x2Au8 } else { 0x20u8 },
    ] + Seq::new(7, |i: int| 0x20u8)
}

/// The status line under the editor.
pub fn editor_status(cx: usize, cy: usize, dirty: bool) -> (s: Vec<u8>)
    requires
        cx < usize::MAX,
        cy < usize::MAX,
    ensures
        s@ == status_spec(cx as int, cy as int, dirty),
{
    let mut status: Vec<u8> = vec![0x20u8; 22];
    status.set(0, 0x4C);
    status.set(1, 0x6E);
    status.set(2, 0x20);
    let r1 = ((cy + 1) % 256) as u8;
    let c1 = ((cx + 1) % 256) as u8;
    two(&mut status, 3, r1);
    status.set(5, 0x20);
    status.set(6, 0x20);
    status.set(7, 0x43);
    status.set(8, 0x6F);
    status.set(9, 0x6C);
    two(&mut status, 11, c1);
    if dirty {
        status.set(14, 0x2A);
    }
    assert(status@ =~= status_spec(cx as int, cy as int, dirty));
    status
}

/// The three letters the task manager shows for a state.
pub open spec fn state_tag(st: ProcState) -> Seq<u8> {
    match st {
        ProcState::Running => seq![0x52u8, 0x55, 0x4E],
        ProcState::Suspended => seq![0x53u8, 0x55, 0x53],
        ProcState::Terminated => seq![0x45u8, 0x4E, 0x44],
    }
}

/// `s` with the first twelve bytes of `name` from column 4 and the state's
/// letters at columns 17 to 19.
pub open spec fn place_name(s: Seq<u8>, name: Seq<u8>, st: ProcState) -> Seq<u8> {
    let n = if name.len() < 12 { name.len() as int } else { 12 };
    Seq::new(
        s.len(),
        |i: int|
            if 4 <= i < 4 + n {
                name[i - 4]
            } else if 17 <= i < 20 {
                state_tag(st)[i - 17]
            } else {
                s[i]
            },
    )
}

/// A task manager row, 27 columns: the pid right-aligned in 3, the name
/// from column 4 (at most 12 bytes), the state at 17 and the ticks
/// right-aligned in the last 6.
pub open spec fn task_row_spec(pid: u16, name: Seq<u8>, st: ProcState, ticks: u32) -> Seq<u8> {
    let blank = Seq::new(27, |i: int| 0x20u8);
    let with_pid = digits_into(blank, 3, 0, pid as nat);
    digits_into(place_name(with_pid, name, st), 27, 21, ticks as nat)
}

/// The text of a task manager row for process `p`.
pub fn task_row(p: &crate::process::Process) -> (s: Vec<u8>)
    ensures
        s@ == task_row_spec(p.pid, p.name_view(), p.state, p.ticks),
{
    let mut line: Vec<u8> = vec![0x20u8; 27];
    proof {
        assert(line@ =~= Seq::new(27, |i: int| 0x20u8));
        lemma_digits_len(line@, 3, 0, p.pid as nat);
    }
    write_uint(&mut line, 0, 3, p.pid as u32);
    let ghost with_pid = line@;
    let name = p.name();
    let n = if name.len() < 12 { name.len() } else { 12 };
    let mut k: usize = 0;
    while k < n
        invariant
            k <= n <= 12,
            n <= name@.len(),
            n == (if name@.len() < 12 { name@.len() as int } else { 12 }),
            line@.len() == 27,
            with_pid.len() == 27,
            forall|i: int| 0 <= i < 27 ==> line@[i] == (if 4 <= i < 4 + k { name@[i - 4] } else { with_pid[i] }),
        decreases n - k,
    {
        line.set(4 + k, name[k]);
        k += 1;
    }
    match p.state {
        ProcState::Running => {
            line.set(17, 0x52);
            line.set(18, 0x55);
            line.set(19, 0x4E);
        },
        ProcState::Suspended => {
            line.set(17, 0x53);
            line.set(18, 0x55);
            line.set(19, 0x53);
        },
        ProcState::Terminated => {
            line.set(17, 0x45);
            line.set(18, 0x4E);
            line.set(19, 0x44);
        },
    }
    assert(line@ =~= place_name(with_pid, p.name_view(), p.state));
    write_uint(&mut line, 21, 6, p.ticks);
    line
}

} // verus!
