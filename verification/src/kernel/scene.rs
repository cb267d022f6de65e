//! What the desktop draws, as display lists: the start panel, the browser's
//! start page and chrome, the file manager's text lines and the boot splash.
//! Each list is a sequence of drawing commands that the framebuffer side
//! rasterizes in order; glyphs and icon bitmaps are the rasterizer's part.
//!
//! The bitmap font is fixed-pitch: a glyph cell at scale `s` is `s * cell`
//! pixels wide, where `cell` is the font's cell width at scale 1, so a text
//! of `n` bytes is `n * cell * s` pixels wide.
use super::ata::DiskInfo;
use super::desktop::{dock_icon_spec, dock_layout, dock_rect_spec, DOCK_COUNT};
use super::fb::{mix_spec, Color};
use super::perf::{dec_digits, dec_vec};
use super::panels::{
    browser_home_layout, div_trunc, home_logo_spec, home_ok, home_tile_spec, start_item_at, start_item_spec,
    start_origin, start_origin_spec, BrowserChrome, StartItem, START_APPS, START_GAP, START_H, START_PAD,
    START_ROW_H, START_W,
};
use crate::window::{max_int, min_int, Rect, TITLE_H};
use vstd::prelude::*;
use vstd::string::StrSliceExecFns;
use vstd::string::StringSliceAdditionalSpecFns;

verus! {

/// The colours of the desktop's visual identity.
#[derive(Clone, Copy, PartialEq, Eq, Debug, Structural)]
pub enum Tone {
    Accent,
    Accent2,
    Dock,
    DockEdge,
    Header,
    HeaderDim,
    HeaderText,
    Text,
    TextMuted,
    Close,
    Shadow,
    White,
}

pub open spec fn tone_spec(t: Tone) -> Color {
    match t {
        Tone::Accent => Color { r: 0x2D, g: 0xD4, b: 0xBF },
        Tone::Accent2 => Color { r: 0x7C, g: 0x6C, b: 0xFF },
        Tone::Dock => Color { r: 0x12, g: 0x18, b: 0x2B },
        Tone::DockEdge => Color { r: 0x2A, g: 0x33, b: 0x52 },
        Tone::Header => Color { r: 0x18, g: 0x21, b: 0x39 },
        Tone::HeaderDim => Color { r: 0x20, g: 0x26, b: 0x38 },
        Tone::HeaderText => Color { r: 0xE8, g: 0xED, b: 0xF7 },
        Tone::Text => Color { r: 0x12, g: 0x16, b: 0x26 },
        Tone::TextMuted => Color { r: 0x5B, g: 0x64, b: 0x7A },
        Tone::Close => Color { r: 0xFF, g: 0x5C, b: 0x5C },
        Tone::Shadow => Color { r: 0, g: 0, b: 0 },
        Tone::White => Color { r: 0xFF, g: 0xFF, b: 0xFF },
    }
}

/// The colour of tone `t`.
pub fn tone(t: Tone) -> (c: Color)
    ensures
        c == tone_spec(t),
{
    match t {
        Tone::Accent => Color::rgb(0x2D, 0xD4, 0xBF),
        Tone::Accent2 => Color::rgb(0x7C, 0x6C, 0xFF),
        Tone::Dock => Color::rgb(0x12, 0x18, 0x2B),
        Tone::DockEdge => Color::rgb(0x2A, 0x33, 0x52),
        Tone::Header => Color::rgb(0x18, 0x21, 0x39),
        Tone::HeaderDim => Color::rgb(0x20, 0x26, 0x38),
        Tone::HeaderText => Color::rgb(0xE8, 0xED, 0xF7),
        Tone::Text => Color::rgb(0x12, 0x16, 0x26),
        Tone::TextMuted => Color::rgb(0x5B, 0x64, 0x7A),
        Tone::Close => Color::rgb(0xFF, 0x5C, 0x5C),
        Tone::Shadow => Color::rgb(0, 0, 0),
        Tone::White => Color::rgb(0xFF, 0xFF, 0xFF),
    }
}

/// Bitmap icons the rasterizer knows.
#[derive(Clone, Copy, PartialEq, Eq, Debug, Structural)]
pub enum IconKind {
    Terminal,
    Editor,
    TaskMgr,
    Calculator,
    Browser,
    Power,
    Start,
    /// The OSjeff logo bitmap.
    Brand,
}

/// One drawing command, in screen pixels.
#[derive(Clone, PartialEq, Eq, Debug)]
pub enum Draw {
    /// A filled rectangle.
    Fill { x: i64, y: i64, w: i64, h: i64, color: Color },
    /// A filled rectangle with corners of radius `r`.
    Round { x: i64, y: i64, w: i64, h: i64, r: i64, color: Color },
    /// A rounded rectangle blended over what is below, `alpha` parts in 255.
    Shade { x: i64, y: i64, w: i64, h: i64, r: i64, color: Color, alpha: u16 },
    /// A line of text with its top-left glyph cell at `(x, y)`.
    Text { x: i64, y: i64, text: Vec<u8>, color: Color, scale: u8 },
    /// An icon bitmap scaled to `size` pixels square.
    Icon { icon: IconKind, x: i64, y: i64, size: i64 },
}

/// A drawing command as plain values.
pub enum DrawV {
    Fill(int, int, int, int, Color),
    Round(int, int, int, int, int, Color),
    Shade(int, int, int, int, int, Color, int),
    Text(int, int, Seq<u8>, Color, int),
    Icon(IconKind, int, int, int),
}

pub open spec fn draw_view(d: Draw) -> DrawV {
    match d {
        Draw::Fill { x, y, w, h, color } => DrawV::Fill(x as int, y as int, w as int, h as int, color),
        Draw::Round { x, y, w, h, r, color } => DrawV::Round(x as int, y as int, w as int, h as int, r as int, color),
        Draw::Shade { x, y, w, h, r, color, alpha } => DrawV::Shade(
            x as int,
            y as int,
            w as int,
            h as int,
            r as int,
            color,
            alpha as int,
        ),
        Draw::Text { x, y, text, color, scale } => DrawV::Text(x as int, y as int, text@, color, scale as int),
        Draw::Icon { icon, x, y, size } => DrawV::Icon(icon, x as int, y as int, size as int),
    }
}

pub open spec fn draws_view(ds: Seq<Draw>) -> Seq<DrawV> {
    Seq::new(ds.len(), |i: int| draw_view(ds[i]))
}

/// Append one command.
fn put(v: &mut Vec<Draw>, d: Draw)
    ensures
        draws_view(final(v)@) == draws_view(old(v)@).push(draw_view(d)),
{
    let ghost dv = draw_view(d);
    v.push(d);
    assert(draws_view(v@) =~= draws_view(old(v)@).push(dv));
}

/// Width of a text of `n` bytes at `scale`.
pub open spec fn text_w(n: int, cell: int, scale: int) -> int {
    n * cell * scale
}

// ---- start panel ----

/// One start-panel row at `ry`: the highlight when hovered, the icon and the
/// label.
pub open spec fn start_row_spec(sx: int, ry: int, hi: Option<Color>, icon: IconKind, label: Seq<u8>) -> Seq<DrawV> {
    let mark = match hi {
        Some(c) => seq![DrawV::Shade(sx + 5, ry + 2, START_W - 10, START_ROW_H - 4, 8, c, 36)],
        None => Seq::empty(),
    };
    mark + seq![
        DrawV::Icon(icon, sx + START_PAD, ry + div_trunc(START_ROW_H - 24, 2), 24),
        DrawV::Text(sx + START_PAD + 36, ry + div_trunc(START_ROW_H - 14, 2), label, tone_spec(Tone::HeaderText), 2),
    ]
}

/// Icon of start-panel app row `i`.
pub open spec fn app_icon(i: int) -> IconKind {
    if i == 0 {
        IconKind::Terminal
    } else if i == 1 {
        IconKind::Editor
    } else if i == 2 {
        IconKind::TaskMgr
    } else if i == 3 {
        IconKind::Calculator
    } else {
        IconKind::Browser
    }
}

/// Label of start-panel app row `i`.
pub open spec fn app_label(i: int) -> Seq<u8> {
    if i == 0 {
        "Terminal".spec_bytes()
    } else if i == 1 {
        "Editor".spec_bytes()
    } else if i == 2 {
        "Task Manager".spec_bytes()
    } else if i == 3 {
        "Calculator".spec_bytes()
    } else {
        "Navegador".spec_bytes()
    }
}

fn app_row(i: usize) -> (r: (IconKind, &'static str))
    requires
        i < 5,
    ensures
        r.0 == app_icon(i as int),
        r.1.spec_bytes() == app_label(i as int),
{
    if i == 0 {
        (IconKind::Terminal, "Terminal")
    } else if i == 1 {
        (IconKind::Editor, "Editor")
    } else if i == 2 {
        (IconKind::TaskMgr, "Task Manager")
    } else if i == 3 {
        (IconKind::Calculator, "Calculator")
    } else {
        (IconKind::Browser, "Navegador")
    }
}

/// The first `n` app rows, accent-highlighted where `hovered` names them.
pub open spec fn app_rows(sx: int, top: int, hovered: Option<StartItem>, n: int) -> Seq<DrawV>
    decreases n,
{
    if n <= 0 {
        Seq::empty()
    } else {
        let i = n - 1;
        let hi = if hovered == Some(StartItem::App(i as usize)) { Some(tone_spec(Tone::Accent)) } else { None };
        app_rows(sx, top, hovered, i) + start_row_spec(sx, top + i * START_ROW_H, hi, app_icon(i), app_label(i))
    }
}

/// The start panel of a `sw` × `sh` screen with `hovered` under the pointer:
/// shadow and panel, the five app rows, a divider, then the reboot and
/// shutdown rows (highlighted in the close colour).
pub open spec fn start_panel_spec(sw: int, sh: int, hovered: Option<StartItem>) -> Seq<DrawV> {
    let (sx, sy) = start_origin_spec(sw, sh);
    let top = sy + START_PAD;
    let pwr = top + START_APPS * START_ROW_H + START_GAP;
    let close = Some(tone_spec(Tone::Close));
    seq![
        DrawV::Shade(sx + 5, sy + 10, START_W as int, START_H as int, 16, tone_spec(Tone::Shadow), 40),
        DrawV::Round(sx, sy, START_W as int, START_H as int, 14, tone_spec(Tone::Dock)),
    ] + app_rows(sx, top, hovered, 5) + seq![
        DrawV::Fill(sx + START_PAD, pwr - START_GAP / 2, START_W - START_PAD * 2, 1, tone_spec(Tone::DockEdge)),
    ] + start_row_spec(
        sx,
        pwr,
        if hovered == Some(StartItem::Reboot) { close } else { None },
        IconKind::Power,
        "Reiniciar".spec_bytes(),
    ) + start_row_spec(
        sx,
        pwr + START_ROW_H,
        if hovered == Some(StartItem::Shutdown) { close } else { None },
        IconKind::Power,
        "Desligar".spec_bytes(),
    )
}

fn put_start_row(v: &mut Vec<Draw>, sx: i64, ry: i64, hi: Option<Color>, icon: IconKind, label: &str)
    requires
        -0x1_0000_0000 <= sx <= 0x1_0000_0000,
        -0x1_0000_0000 <= ry <= 0x1_0000_0000,
    ensures
        draws_view(final(v)@) == draws_view(old(v)@) + start_row_spec(
            sx as int,
            ry as int,
            hi,
            icon,
            label.spec_bytes(),
        ),
{
    let ghost v0 = draws_view(v@);
    if let Some(c) = hi {
        put(v, Draw::Shade { x: sx + 5, y: ry + 2, w: 230, h: 34, r: 8, color: c, alpha: 36 });
    }
    let ghost v1 = draws_view(v@);
    put(v, Draw::Icon { icon, x: sx + 10, y: ry + 7, size: 24 });
    put(v, Draw::Text { x: sx + 46, y: ry + 12, text: label.as_bytes_vec(), color: tone(Tone::HeaderText), scale: 2 });
    assert(div_trunc(START_ROW_H - 24, 2) == 7);
    assert(div_trunc(START_ROW_H - 14, 2) == 12);
    assert(draws_view(v@) =~= v0 + start_row_spec(sx as int, ry as int, hi, icon, label.spec_bytes()));
}

/// The start panel of a `sw` × `sh` screen with the pointer at `(cx, cy)`.
pub fn start_panel_cmds(sw: i32, sh: i32, cx: i32, cy: i32) -> (r: Vec<Draw>)
    requires
        0 <= sw,
        i32::MIN + super::desktop::DOCK_H + super::desktop::DOCK_MARGIN + START_H <= sh,
    ensures
        draws_view(r@) == start_panel_spec(sw as int, sh as int, start_item_spec(sw as int, sh as int, cx as int, cy as int)),
{
    let (sx, sy) = start_origin(sw, sh);
    let hovered = start_item_at(sw, sh, cx, cy);
    let sx = sx as i64;
    let sy = sy as i64;
    let mut v: Vec<Draw> = Vec::new();
    put(&mut v, Draw::Shade { x: sx + 5, y: sy + 10, w: 240, h: 298, r: 16, color: tone(Tone::Shadow), alpha: 40 });
    put(&mut v, Draw::Round { x: sx, y: sy, w: 240, h: 298, r: 14, color: tone(Tone::Dock) });
    let ghost head = draws_view(v@);
    let top = sy + 10;
    let mut i: usize = 0;
    while i < 5
        invariant
            0 <= i <= 5,
            top == sy + START_PAD,
            i32::MIN <= sx <= i32::MAX,
            i32::MIN <= sy <= i32::MAX,
            draws_view(v@) == head + app_rows(sx as int, top as int, hovered, i as int),
        decreases 5 - i,
    {
        let (icon, label) = app_row(i);
        let hi = if hovered == Some(StartItem::App(i)) { Some(tone(Tone::Accent)) } else { None };
        let ghost before = draws_view(v@);
        put_start_row(&mut v, sx, top + (i as i64) * 38, hi, icon, label);
        assert(draws_view(v@) =~= head + app_rows(sx as int, top as int, hovered, i + 1)) by {
            assert(before == head + app_rows(sx as int, top as int, hovered, i as int));
        }
        i += 1;
    }
    let pwr = top + 5 * 38 + 12;
    put(&mut v, Draw::Fill { x: sx + 10, y: pwr - 6, w: 220, h: 1, color: tone(Tone::DockEdge) });
    let close = tone(Tone::Close);
    put_start_row(&mut v, sx, pwr, if hovered == Some(StartItem::Reboot) { Some(close) } else { None }, IconKind::Power, "Reiniciar");
    put_start_row(
        &mut v,
        sx,
        pwr + 38,
        if hovered == Some(StartItem::Shutdown) { Some(close) } else { None },
        IconKind::Power,
        "Desligar",
    );
    assert(draws_view(v@) =~= start_panel_spec(sw as int, sh as int, hovered));
    v
}

// ---- browser start page ----

/// `b` in upper case when it is an ASCII lower-case letter.
pub open spec fn upper(b: u8) -> u8 {
    if 0x61 <= b <= 0x7A { (b - 32) as u8 } else { b }
}

/// Chip colour of start-page tile `i`.
pub open spec fn tile_accent(i: int) -> Color {
    if i == 0 {
        tone_spec(Tone::Accent)
    } else if i == 1 {
        tone_spec(Tone::Accent2)
    } else if i == 2 {
        Color { r: 0xF5, g: 0x9E, b: 0x0B }
    } else {
        Color { r: 0x4C, g: 0xC2, b: 0xFF }
    }
}

/// One shortcut tile: a shadowed white card, a coloured 34-pixel chip with
/// the label's first letter in upper case, and the label centred below.
pub open spec fn tile_spec(t: Rect, accent: Color, label: Seq<u8>, cell: int) -> Seq<DrawV> {
    let chx = t.x + div_trunc(t.w - 34, 2);
    let chy = t.y + 16;
    seq![
        DrawV::Shade(t.x + 3, t.y + 5, t.w as int, t.h as int, 12, tone_spec(Tone::Shadow), 26),
        DrawV::Round(t.x as int, t.y as int, t.w as int, t.h as int, 12, tone_spec(Tone::White)),
        DrawV::Round(chx, chy, 34, 34, 10, accent),
        DrawV::Text(chx + div_trunc(34 - cell * 3, 2), chy + div_trunc(34 - 21, 2), seq![upper(label[0])], tone_spec(Tone::White), 3),
        DrawV::Text(t.x + div_trunc(t.w - text_w(label.len() as int, cell, 2), 2), t.y + t.h - 24, label, tone_spec(Tone::Text), 2),
    ]
}

/// The first `n` tiles of the start page.
pub open spec fn home_tiles(content: Rect, labels: Seq<Seq<u8>>, cell: int, n: int) -> Seq<DrawV>
    decreases n,
{
    if n <= 0 {
        Seq::empty()
    } else {
        home_tiles(content, labels, cell, n - 1) + tile_spec(home_tile_spec(content, n - 1), tile_accent(n - 1), labels[n - 1], cell)
    }
}

pub open spec fn labels_view(ls: Seq<Vec<u8>>) -> Seq<Seq<u8>> {
    Seq::new(ls.len(), |i: int| ls[i]@)
}

/// Texts of the start page.
pub open spec fn brand_text() -> Seq<u8> {
    "OSjeff".spec_bytes()
}

pub open spec fn brand_sub() -> Seq<u8> {
    "Navegador".spec_bytes()
}

pub open spec fn brand_hint() -> Seq<u8> {
    "Pesquise ou digite um endereco na barra acima".spec_bytes()
}

/// The browser's start page in `content`: the browser icon as logo, the
/// wordmark, tagline and hint centred below it, then the four shortcut tiles
/// labelled `labels`.
pub open spec fn home_spec(content: Rect, labels: Seq<Seq<u8>>, cell: int) -> Seq<DrawV> {
    let logo = home_logo_spec(content);
    let cx = content.x + div_trunc(content.w as int, 2);
    let lb = logo.y + logo.h;
    seq![
        DrawV::Icon(IconKind::Browser, logo.x as int, logo.y as int, logo.w as int),
        DrawV::Text(cx - div_trunc(text_w(brand_text().len() as int, cell, 5), 2), lb + 16, brand_text(), tone_spec(Tone::Header), 5),
        DrawV::Text(cx - div_trunc(text_w(brand_sub().len() as int, cell, 2), 2), lb + 60, brand_sub(), tone_spec(Tone::Accent), 2),
        DrawV::Text(cx - div_trunc(text_w(brand_hint().len() as int, cell, 2), 2), lb + 84, brand_hint(), tone_spec(Tone::TextMuted), 2),
    ] + home_tiles(content, labels, cell, 4)
}

/// Labels the start page can draw: one per tile, none empty, each of a width
/// that is an `i32`.
pub open spec fn labels_ok(labels: Seq<Seq<u8>>, cell: int) -> bool {
    &&& labels.len() == 4
    &&& forall|i: int| 0 <= i < 4 ==> 1 <= #[trigger] labels[i].len() && text_w(labels[i].len() as int, cell, 2) <= i32::MAX
}

fn tile_color(i: usize) -> (c: Color)
    requires
        i < 4,
    ensures
        c == tile_accent(i as int),
{
    if i == 0 {
        tone(Tone::Accent)
    } else if i == 1 {
        tone(Tone::Accent2)
    } else if i == 2 {
        Color::rgb(0xF5, 0x9E, 0x0B)
    } else {
        Color::rgb(0x4C, 0xC2, 0xFF)
    }
}

fn put_tile(v: &mut Vec<Draw>, t: Rect, accent: Color, label: &Vec<u8>, cell: i64)
    requires
        t.w == 150,
        t.h == 96,
        1 <= cell <= 1024,
        1 <= label@.len(),
        text_w(label@.len() as int, cell as int, 2) <= i32::MAX,
    ensures
        draws_view(final(v)@) == draws_view(old(v)@) + tile_spec(t, accent, label@, cell as int),
{
    let ghost v0 = draws_view(v@);
    let x = t.x as i64;
    let y = t.y as i64;
    put(v, Draw::Shade { x: x + 3, y: y + 5, w: 150, h: 96, r: 12, color: tone(Tone::Shadow), alpha: 26 });
    put(v, Draw::Round { x, y, w: 150, h: 96, r: 12, color: tone(Tone::White) });
    let chx = x + 58;
    let chy = y + 16;
    put(v, Draw::Round { x: chx, y: chy, w: 34, h: 34, r: 10, color: accent });
    let b = label[0];
    let up = if 0x61 <= b && b <= 0x7A { b - 32 } else { b };
    let mut one: Vec<u8> = Vec::new();
    one.push(up);
    assert(one@ =~= seq![upper(label@[0])]);
    put(v, Draw::Text { x: chx + (34 - cell * 3) / 2, y: chy + 6, text: one, color: tone(Tone::White), scale: 3 });
    assert(label@.len() * cell <= i32::MAX) by (nonlinear_arith)
        requires
            label@.len() * cell * 2 <= i32::MAX,
            cell >= 1,
    ;
    let n = label.len();
    assert(n <= i32::MAX) by (nonlinear_arith)
        requires
            n * cell <= i32::MAX,
            cell >= 1,
    ;
    let n64 = n as i64;
    assert(n64 * cell <= i32::MAX);
    let lw = n64 * cell * 2;
    let q1 = (34 - cell * 3) / 2;
    let q2 = (150 - lw) / 2;
    assert(q1 == div_trunc(34 - cell * 3, 2));
    assert(q2 == div_trunc(150 - lw, 2));
    assert(up == upper(label@[0]));
    put(v, Draw::Text { x: x + (150 - lw) / 2, y: y + 72, text: crate::bytes::to_vec(label.as_slice()), color: tone(Tone::Text), scale: 2 });
    assert(div_trunc(150 - 34, 2) == 58);
    assert(div_trunc(34 - 21, 2) == 6);
    assert(draws_view(v@) =~= v0 + tile_spec(t, accent, label@, cell as int));
}

/// The browser's start page in `content`, with `labels` on its shortcut
/// tiles and glyph cells `cell` pixels wide at scale 1.
pub fn browser_home_cmds(content: Rect, labels: &Vec<Vec<u8>>, cell: i64) -> (r: Vec<Draw>)
    requires
        home_ok(content),
        1 <= cell <= 1024,
        labels_ok(labels_view(labels@), cell as int),
    ensures
        draws_view(r@) == home_spec(content, labels_view(labels@), cell as int),
{
    let (logo, tiles) = browser_home_layout(content);
    let cx = content.x as i64 + (content.w / 2) as i64;
    let lb = logo.y as i64 + logo.h as i64;
    let wm = "OSjeff".as_bytes_vec();
    let sub = "Navegador".as_bytes_vec();
    let hint = "Pesquise ou digite um endereco na barra acima".as_bytes_vec();
    proof {
        reveal_strlit("OSjeff");
        reveal_strlit("Navegador");
        reveal_strlit("Pesquise ou digite um endereco na barra acima");
        assert(vstd::string::is_ascii("OSjeff"));
        assert(vstd::string::is_ascii("Navegador"));
        assert(vstd::string::is_ascii("Pesquise ou digite um endereco na barra acima"));
        assert(wm@.len() == 6);
        assert(sub@.len() == 9);
        assert(hint@.len() == 45);
    }
    let mut v: Vec<Draw> = Vec::new();
    put(&mut v, Draw::Icon { icon: IconKind::Browser, x: logo.x as i64, y: logo.y as i64, size: logo.w as i64 });
    let wmw = (wm.len() as i64) * cell * 5;
    put(&mut v, Draw::Text { x: cx - wmw / 2, y: lb + 16, text: wm, color: tone(Tone::Header), scale: 5 });
    let sw = (sub.len() as i64) * cell * 2;
    put(&mut v, Draw::Text { x: cx - sw / 2, y: lb + 60, text: sub, color: tone(Tone::Accent), scale: 2 });
    let hw = (hint.len() as i64) * cell * 2;
    put(&mut v, Draw::Text { x: cx - hw / 2, y: lb + 84, text: hint, color: tone(Tone::TextMuted), scale: 2 });
    let ghost head = draws_view(v@);
    let mut i: usize = 0;
    while i < 4
        invariant
            0 <= i <= 4,
            1 <= cell <= 1024,
            tiles@.len() == 4,
            forall|k: int| 0 <= k < 4 ==> tiles@[k] == home_tile_spec(content, k),
            labels_ok(labels_view(labels@), cell as int),
            draws_view(v@) == head + home_tiles(content, labels_view(labels@), cell as int, i as int),
        decreases 4 - i,
    {
        let ghost before = draws_view(v@);
        assert(labels_view(labels@)[i as int] == labels@[i as int]@);
        assert(tiles@[i as int] == home_tile_spec(content, i as int));
        put_tile(&mut v, tiles[i], tile_color(i), &labels[i], cell);
        assert(draws_view(v@) =~= head + home_tiles(content, labels_view(labels@), cell as int, i + 1)) by {
            assert(before == head + home_tiles(content, labels_view(labels@), cell as int, i as int));
        }
        i += 1;
    }
    assert(draws_view(v@) =~= home_spec(content, labels_view(labels@), cell as int));
    v
}

// ---- browser chrome ----

/// Glyph cells of scale 2 that fit in an address bar `bar_w` wide, less 48
/// pixels of globe and margins; at least one.
pub open spec fn bar_cols(bar_w: int, cell: int) -> int {
    max_int((bar_w - 48) / (cell * 2), 1)
}

/// The tail of `url` that the address bar shows: its last `bar_cols` bytes.
pub open spec fn shown_spec(url: Seq<u8>, bar_w: int, cell: int) -> Seq<u8> {
    url.subrange(url.len() - min_int(url.len() as int, bar_cols(bar_w, cell)), url.len() as int)
}

/// What of `url` an address bar `bar_w` wide shows.
pub fn url_shown(url: &[u8], bar_w: i32, cell: i64) -> (s: &[u8])
    requires
        48 <= bar_w,
        1 <= cell <= 1024,
    ensures
        s@ == shown_spec(url@, bar_w as int, cell as int),
{
    let cols = (bar_w as i64 - 48) / (cell * 2);
    let cols = if cols < 1 { 1usize } else { cols as usize };
    let start = if url.len() > cols { url.len() - cols } else { 0 };
    &url[start..url.len()]
}

/// The address bar `bar`: a bordered pill, the globe mark, then the shown
/// tail of `url` with the caret when focused, or a muted placeholder when
/// `url` is empty.
pub open spec fn address_bar_spec(bar: Rect, url: Seq<u8>, caret: int, focused: bool, cell: int) -> Seq<DrawV> {
    let gx = bar.x + 10;
    let gy = bar.y + div_trunc(bar.h - 18, 2);
    let tx = bar.x + 36;
    let ty = bar.y + div_trunc(bar.h - 14, 2);
    let shown = shown_spec(url, bar.w as int, cell);
    seq![
        DrawV::Round(bar.x as int, bar.y as int, bar.w as int, bar.h as int, div_trunc(bar.h as int, 2), Color { r: 0xCE, g: 0xD6, b: 0xE6 }),
        DrawV::Round(bar.x + 1, bar.y + 1, bar.w - 2, bar.h - 2, (bar.h - 2) / 2, tone_spec(Tone::White)),
        DrawV::Round(gx, gy, 18, 18, 9, tone_spec(Tone::Accent)),
        DrawV::Fill(gx, gy + 9, 18, 2, tone_spec(Tone::White)),
        DrawV::Fill(gx + 9, gy, 2, 18, tone_spec(Tone::White)),
    ] + if url.len() == 0 {
        seq![DrawV::Text(tx, ty, "Pesquisar ou digitar um endereco".spec_bytes(), tone_spec(Tone::TextMuted), 2)]
    } else if focused {
        seq![
            DrawV::Text(tx, ty, shown, tone_spec(Tone::Text), 2),
            DrawV::Fill(tx + min_int(caret, shown.len() as int) * cell * 2, ty - 1, 2, 16, tone_spec(Tone::Accent)),
        ]
    } else {
        seq![DrawV::Text(tx, ty, shown, tone_spec(Tone::Text), 2)]
    }
}

/// The address bar `bar` showing `url` with the caret at byte `caret`.
pub fn address_bar_cmds(bar: Rect, url: &[u8], caret: usize, focused: bool, cell: i64) -> (r: Vec<Draw>)
    requires
        bar.h == 36,
        48 <= bar.w,
        1 <= cell <= 1024,
    ensures
        draws_view(r@) == address_bar_spec(bar, url@, caret as int, focused, cell as int),
{
    let mut v: Vec<Draw> = Vec::new();
    put_address_bar(&mut v, bar, url, caret, focused, cell);
    assert(draws_view(v@) =~= address_bar_spec(bar, url@, caret as int, focused, cell as int));
    v
}

fn put_address_bar(v: &mut Vec<Draw>, bar: Rect, url: &[u8], caret: usize, focused: bool, cell: i64)
    requires
        bar.h == 36,
        48 <= bar.w,
        1 <= cell <= 1024,
    ensures
        draws_view(final(v)@) == draws_view(old(v)@) + address_bar_spec(bar, url@, caret as int, focused, cell as int),
{
    let ghost v0 = draws_view(v@);
    let x = bar.x as i64;
    let y = bar.y as i64;
    let w = bar.w as i64;
    put(v, Draw::Round { x, y, w, h: 36, r: 18, color: Color::rgb(0xCE, 0xD6, 0xE6) });
    put(v, Draw::Round { x: x + 1, y: y + 1, w: w - 2, h: 34, r: 17, color: tone(Tone::White) });
    let gx = x + 10;
    let gy = y + 9;
    put(v, Draw::Round { x: gx, y: gy, w: 18, h: 18, r: 9, color: tone(Tone::Accent) });
    put(v, Draw::Fill { x: gx, y: gy + 9, w: 18, h: 2, color: tone(Tone::White) });
    put(v, Draw::Fill { x: gx + 9, y: gy, w: 2, h: 18, color: tone(Tone::White) });
    let tx = x + 36;
    let ty = y + 11;
    if url.len() == 0 {
        put(v, Draw::Text { x: tx, y: ty, text: "Pesquisar ou digitar um endereco".as_bytes_vec(), color: tone(Tone::TextMuted), scale: 2 });
    } else {
        let shown = url_shown(url, bar.w, cell);
        let n = shown.len();
        put(v, Draw::Text { x: tx, y: ty, text: crate::bytes::to_vec(shown), color: tone(Tone::Text), scale: 2 });
        if focused {
            let c = if caret < n { caret } else { n };
            assert(c <= bar_cols(bar.w as int, cell as int));
            assert(c * cell * 2 <= i32::MAX + 2048) by (nonlinear_arith)
                requires
                    c <= max_int((bar.w - 48) / (cell * 2), 1),
                    1 <= cell <= 1024,
                    48 <= bar.w <= i32::MAX,
            {
                if (bar.w - 48) / (cell * 2) >= 1 {
                    assert(c * (cell * 2) <= ((bar.w - 48) / (cell * 2)) * (cell * 2));
                } else {
                    assert(c <= 1);
                }
            }
            let cx = tx + (c as i64) * cell * 2;
            put(v, Draw::Fill { x: cx, y: ty - 1, w: 2, h: 16, color: tone(Tone::Accent) });
        }
    }
    assert(div_trunc(36 - 18, 2) == 9);
    assert(div_trunc(36 - 14, 2) == 11);
    assert(div_trunc(36, 2) == 18);
    assert(draws_view(v@) =~= v0 + address_bar_spec(bar, url@, caret as int, focused, cell as int));
}

/// The scrollbar thumb of a page `page_h` tall scrolled by `scroll` in
/// `content`, as its top and height: none unless the page overflows.
pub open spec fn thumb_spec(content: Rect, page_h: int, scroll: int) -> Option<(int, int)> {
    let h = content.h as int;
    if page_h > h && h > 0 {
        let th = max_int(h * h / page_h, 16);
        Some((content.y + (h - th) * scroll / (page_h - h), th))
    } else {
        None
    }
}

/// Where the scrollbar thumb goes.
pub fn scroll_thumb(content: Rect, page_h: i32, scroll: i32) -> (r: Option<(i64, i64)>)
    requires
        0 <= scroll,
        page_h > content.h > 0 ==> content.h >= 16,
    ensures
        r matches Some((y, h)) ==> thumb_spec(content, page_h as int, scroll as int) == Some((y as int, h as int)),
        r is None <==> thumb_spec(content, page_h as int, scroll as int) is None,
{
    let h = content.h as i64;
    let ph = page_h as i64;
    if ph > h && h > 0 {
        assert(h * h <= 0x4000_0000_0000_0000) by (nonlinear_arith)
            requires
                0 < h <= i32::MAX,
        ;
        let q = h * h / ph;
        assert(q < h) by (nonlinear_arith)
            requires
                q == (h * h) as int / (ph as int),
                0 < h < ph,
        ;
        let th = if q > 16 { q } else { 16 };
        assert((h - th) * (scroll as i64) <= 0x4000_0000_0000_0000) by (nonlinear_arith)
            requires
                0 <= h - th <= i32::MAX,
                0 <= scroll <= i32::MAX,
        ;
        let y = content.y as i64 + (h - th) * (scroll as i64) / (ph - h);
        Some((y, th))
    } else {
        None
    }
}

/// The scrollbar of a page `page_h` tall in `content`: a track along the
/// right edge and the accent thumb, when the page overflows.
pub open spec fn scrollbar_spec(content: Rect, page_h: int, scroll: int) -> Seq<DrawV> {
    match thumb_spec(content, page_h, scroll) {
        Some((y, th)) => seq![
            DrawV::Fill(content.x + content.w - 4, content.y as int, 4, content.h as int, tone_spec(Tone::DockEdge)),
            DrawV::Round(content.x + content.w - 4, y, 4, th, 2, tone_spec(Tone::Accent)),
        ],
        None => Seq::empty(),
    }
}

/// The scrollbar of a page `page_h` tall scrolled by `scroll` in `content`.
pub fn scrollbar_cmds(content: Rect, page_h: i32, scroll: i32) -> (r: Vec<Draw>)
    requires
        0 <= scroll,
        page_h > content.h > 0 ==> content.h >= 16,
    ensures
        draws_view(r@) == scrollbar_spec(content, page_h as int, scroll as int),
{
    let mut v: Vec<Draw> = Vec::new();
    if let Some((y, th)) = scroll_thumb(content, page_h, scroll) {
        let tx = content.x as i64 + content.w as i64 - 4;
        put(&mut v, Draw::Fill { x: tx, y: content.y as i64, w: 4, h: content.h as i64, color: tone(Tone::DockEdge) });
        put(&mut v, Draw::Round { x: tx, y, w: 4, h: th, r: 2, color: tone(Tone::Accent) });
    }
    assert(draws_view(v@) =~= scrollbar_spec(content, page_h as int, scroll as int));
    v
}

// ---- file manager ----

/// The first `n` bytes of `s`, or all of it when shorter.
pub open spec fn take_n(s: Seq<u8>, n: int) -> Seq<u8> {
    if s.len() <= n { s } else { s.subrange(0, n) }
}

/// Medium of a disk: solid state, spinning, or spinning by default when the
/// drive reports no rate.
pub open spec fn disk_kind(d: DiskInfo) -> Seq<u8> {
    if d.ssd {
        "SSD".spec_bytes()
    } else if d.rpm > 0 {
        "HD".spec_bytes()
    } else {
        "HD?".spec_bytes()
    }
}

/// The disk panel's line for `d` under `label`: `label: MODEL  N MiB  KIND`,
/// or `label: ausente` when there is no disk, cut at 96 bytes. The size is
/// printed as a 32-bit number.
pub open spec fn disk_line_spec(label: Seq<u8>, d: Option<DiskInfo>) -> Seq<u8> {
    let body = match d {
        Some(d) => d.model@.subrange(0, d.model_len as int) + "  ".spec_bytes() + dec_digits(
            ((d.sectors * 512 / 1048576int) % 0x1_0000_0000) as nat,
        ) + " MiB  ".spec_bytes() + disk_kind(d),
        None => "ausente".spec_bytes(),
    };
    take_n(label + ": ".spec_bytes() + body, 96)
}

/// The disk panel's line for `d` under `label`.
pub fn disk_line(label: &[u8], d: &Option<DiskInfo>) -> (s: Vec<u8>)
    requires
        d matches Some(d) ==> d.model_len <= 40 && d.sectors <= u64::MAX / 512,
    ensures
        s@ == disk_line_spec(label@, *d),
{
    let mut v = crate::bytes::to_vec(label);
    crate::bytes::push_all(&mut v, ": ".as_bytes());
    match d {
        Some(d) => {
            crate::bytes::push_all(&mut v, &d.model.as_slice()[0..d.model_len]);
            crate::bytes::push_all(&mut v, "  ".as_bytes());
            let m = d.mib();
            let digits = dec_vec((m % 0x1_0000_0000) as u32);
            crate::bytes::push_all(&mut v, digits.as_slice());
            crate::bytes::push_all(&mut v, " MiB  ".as_bytes());
            let kind = if d.ssd {
                "SSD"
            } else if d.rpm > 0 {
                "HD"
            } else {
                "HD?"
            };
            crate::bytes::push_all(&mut v, kind.as_bytes());
        },
        None => {
            crate::bytes::push_all(&mut v, "ausente".as_bytes());
        },
    }
    let ghost full = v@;
    v.truncate(96);
    assert(v@ =~= take_n(full, 96));
    v
}

/// Title of file-manager tab `view` (files, then trash).
pub open spec fn tab_name(view: int) -> Seq<u8> {
    if view == 0 { "Arquivos".spec_bytes() } else { "Lixeira".spec_bytes() }
}

/// The label of tab `view` holding `count` entries: `Arquivos (N)` or
/// `Lixeira (N)`, cut at 24 bytes.
pub open spec fn tab_label_spec(view: int, count: u32) -> Seq<u8> {
    take_n(tab_name(view) + " (".spec_bytes() + dec_digits(count as nat) + ")".spec_bytes(), 24)
}

/// The label of tab `view` holding `count` entries.
pub fn tab_label(view: usize, count: u32) -> (s: Vec<u8>)
    requires
        view < 2,
    ensures
        s@ == tab_label_spec(view as int, count),
{
    let name = if view == 0 { "Arquivos" } else { "Lixeira" };
    let mut v = name.as_bytes_vec();
    crate::bytes::push_all(&mut v, " (".as_bytes());
    let digits = dec_vec(count);
    crate::bytes::push_all(&mut v, digits.as_slice());
    crate::bytes::push_all(&mut v, ")".as_bytes());
    let ghost full = v@;
    v.truncate(24);
    assert(v@ =~= take_n(full, 24));
    v
}

/// Top of the file list in a file-manager window `r`: below the title bar,
/// the disk panel and the tabs.
pub open spec fn files_list_top(r: Rect) -> int {
    r.y + TITLE_H + 126
}

/// Row `n` of the file list, 22 pixels apart, ends above the help line.
pub open spec fn row_fits(r: Rect, n: int) -> bool {
    files_list_top(r) + n * 22 + 20 <= r.y + r.h - 26
}

/// How many of `rows` file-list rows a file-manager window `r` shows: the
/// leading rows that end above the help line.
pub fn files_visible_rows(r: Rect, rows: usize) -> (k: usize)
    ensures
        k <= rows,
        forall|i: int| 0 <= i < k ==> row_fits(r, i),
        k < rows ==> !row_fits(r, k as int),
{
    let top = r.y as i64 + 156;
    let limit = r.y as i64 + r.h as i64 - 26;
    let mut n: usize = 0;
    while n < rows
        invariant
            n <= rows,
            top == files_list_top(r),
            limit == r.y + r.h - 26,
            forall|i: int| 0 <= i < n ==> row_fits(r, i),
        decreases rows - n,
    {
        if n > 0x1000_0000 || top + (n as i64) * 22 + 20 > limit {
            assert(!row_fits(r, n as int)) by (nonlinear_arith)
                requires
                    n > 0x1000_0000 || top + n * 22 + 20 > limit,
                    top == files_list_top(r),
                    limit == r.y + r.h - 26,
                    files_list_top(r) == r.y + TITLE_H + 126,
                    TITLE_H == 30,
                    i32::MIN <= r.y <= i32::MAX,
                    i32::MIN <= r.h <= i32::MAX,
            ;
            return n;
        }
        n += 1;
    }
    n
}

// ---- boot splash ----

/// Rows `0..n` of a vertical gradient over a `w` × `h` screen: row `y` is
/// `top` blended toward `bottom` by `y * 255 / h` parts in 255.
pub open spec fn gradient_rows(w: int, h: int, top: Color, bottom: Color, n: int) -> Seq<DrawV>
    decreases n,
{
    if n <= 0 {
        Seq::empty()
    } else {
        let y = n - 1;
        let t = (y * 255 / max_int(h, 1)) as u16;
        let c = Color { r: mix_spec(top.r, bottom.r, t), g: mix_spec(top.g, bottom.g, t), b: mix_spec(top.b, bottom.b, t) };
        gradient_rows(w, h, top, bottom, y).push(DrawV::Fill(0, y, w, 1, c))
    }
}

fn put_gradient(v: &mut Vec<Draw>, w: usize, h: usize, top: Color, bottom: Color)
    requires
        w <= i32::MAX,
        h <= i32::MAX,
    ensures
        draws_view(final(v)@) == draws_view(old(v)@) + gradient_rows(w as int, h as int, top, bottom, h as int),
{
    let ghost v0 = draws_view(v@);
    let wi = w as i64;
    let hi = h as i64;
    let hm = if hi > 1 { hi } else { 1 };
    let mut y: i64 = 0;
    while y < hi
        invariant
            0 <= y <= hi,
            hi == h,
            wi == w,
            h <= i32::MAX,
            hm == max_int(h as int, 1),
            draws_view(v@) == v0 + gradient_rows(w as int, h as int, top, bottom, y as int),
        decreases hi - y,
    {
        assert((y * 255) as int / (hm as int) <= 255) by (nonlinear_arith)
            requires
                0 <= y < hi,
                hi <= hm,
                1 <= hm,
        ;
        let t = (y * 255 / hm) as u16;
        put(v, Draw::Fill { x: 0, y, w: wi, h: 1, color: top.lerp(bottom, t) });
        assert(draws_view(v@) =~= v0 + gradient_rows(w as int, h as int, top, bottom, y + 1));
        y += 1;
    }
}

/// Top and bottom of the splash gradient: deep navy to a lighter blue.
pub open spec fn splash_top() -> Color {
    Color { r: 0x07, g: 0x0C, b: 0x1A }
}

pub open spec fn splash_bottom() -> Color {
    Color { r: 0x12, g: 0x22, b: 0x42 }
}

/// Left edge of a text `n` bytes long at `scale` centred on a `w`-wide screen.
pub open spec fn centred(w: int, n: int, cell: int, scale: int) -> int {
    max_int(w - text_w(n, cell, scale), 0) / 2
}

/// Width of the splash's progress bar on a `w`-wide screen.
pub open spec fn splash_bar_spec(w: int) -> int {
    max_int(w / 3, 220)
}

/// Width of the splash's progress bar on a `w`-wide screen.
pub fn splash_bar_w(w: usize) -> (b: usize)
    ensures
        b == splash_bar_spec(w as int),
{
    if w / 3 > 220 { w / 3 } else { 220 }
}

pub open spec fn splash_title() -> Seq<u8> {
    "OSJEFF".spec_bytes()
}

pub open spec fn splash_sub() -> Seq<u8> {
    "Rust Operating System".spec_bytes()
}

pub open spec fn splash_status() -> Seq<u8> {
    "Carregando o sistema...".spec_bytes()
}

/// One frame of the boot splash on a `w` × `h` screen with `fill` pixels of
/// the progress bar done: the gradient, a glow behind the logo, the logo,
/// the wordmark and subtitle, the bar's track and fill (when wider than the
/// bar is tall) and the status line.
pub open spec fn splash_spec(w: int, h: int, fill: int, cell: int) -> Seq<DrawV> {
    let cx = w / 2;
    let logo = max_int(h / 7, 56);
    let gy = h * 30 / 100;
    let glow = logo * 5 / 2;
    let bar_w = splash_bar_spec(w);
    let bar_x = div_trunc(w - bar_w, 2);
    let bar_y = h * 72 / 100;
    let blue = Color { r: 0x3B, g: 0x82, b: 0xF6 };
    gradient_rows(w, h, splash_top(), splash_bottom(), h) + seq![
        DrawV::Shade(cx - glow / 2, gy + logo / 2 - glow / 2, glow, glow, glow / 2, blue, 26),
        DrawV::Icon(IconKind::Start, cx - logo / 2, gy, logo),
        DrawV::Text(centred(w, splash_title().len() as int, cell, 6), gy + logo + 24, splash_title(), Color { r: 0xF2, g: 0xF6, b: 0xFF }, 6),
        DrawV::Text(centred(w, splash_sub().len() as int, cell, 2), gy + logo + 88, splash_sub(), Color { r: 0x7E, g: 0x8C, b: 0xA8 }, 2),
        DrawV::Round(bar_x, bar_y, bar_w, 10, 5, Color { r: 0x1E, g: 0x2A, b: 0x44 }),
    ] + (if fill > 10 { seq![DrawV::Round(bar_x, bar_y, fill, 10, 5, blue)] } else { Seq::empty() }) + seq![
        DrawV::Text(centred(w, splash_status().len() as int, cell, 2), bar_y + 26, splash_status(), Color { r: 0x9A, g: 0xA6, b: 0xBD }, 2),
    ]
}

fn centred_x(w: i64, n: usize, cell: i64, scale: i64) -> (x: i64)
    requires
        0 <= w <= i32::MAX,
        n <= 64,
        1 <= cell <= 1024,
        1 <= scale <= 6,
    ensures
        x == centred(w as int, n as int, cell as int, scale as int),
{
    assert(n * cell * scale <= 64 * 1024 * 6) by (nonlinear_arith)
        requires
            n <= 64,
            1 <= cell <= 1024,
            1 <= scale <= 6,
    ;
    assert(n * cell <= 64 * 1024) by (nonlinear_arith)
        requires
            n <= 64,
            1 <= cell <= 1024,
    ;
    let tw = (n as i64) * cell * scale;
    if w > tw { (w - tw) / 2 } else { 0 }
}

/// One frame of the boot splash on a `w` × `h` screen with `fill` pixels of
/// the progress bar done.
pub fn splash_cmds(w: usize, h: usize, fill: usize, cell: i64) -> (r: Vec<Draw>)
    requires
        w <= i32::MAX,
        h <= i32::MAX,
        fill <= i32::MAX,
        1 <= cell <= 1024,
    ensures
        draws_view(r@) == splash_spec(w as int, h as int, fill as int, cell as int),
{
    let wi = w as i64;
    let hi = h as i64;
    let mut v: Vec<Draw> = Vec::new();
    put_gradient(&mut v, w, h, Color::rgb(0x07, 0x0C, 0x1A), Color::rgb(0x12, 0x22, 0x42));
    let cx = wi / 2;
    let logo = if hi / 7 > 56 { hi / 7 } else { 56 };
    let gy = hi * 30 / 100;
    let glow = logo * 5 / 2;
    let blue = Color::rgb(0x3B, 0x82, 0xF6);
    put(&mut v, Draw::Shade { x: cx - glow / 2, y: gy + logo / 2 - glow / 2, w: glow, h: glow, r: glow / 2, color: blue, alpha: 26 });
    put(&mut v, Draw::Icon { icon: IconKind::Start, x: cx - logo / 2, y: gy, size: logo });
    let title = "OSJEFF".as_bytes_vec();
    let sub = "Rust Operating System".as_bytes_vec();
    let status = "Carregando o sistema...".as_bytes_vec();
    proof {
        reveal_strlit("OSJEFF");
        reveal_strlit("Rust Operating System");
        reveal_strlit("Carregando o sistema...");
        assert(vstd::string::is_ascii("OSJEFF"));
        assert(vstd::string::is_ascii("Rust Operating System"));
        assert(vstd::string::is_ascii("Carregando o sistema..."));
        assert(title@.len() == 6);
        assert(sub@.len() == 21);
        assert(status@.len() == 23);
    }
    let tx = centred_x(wi, title.len(), cell, 6);
    put(&mut v, Draw::Text { x: tx, y: gy + logo + 24, text: title, color: Color::rgb(0xF2, 0xF6, 0xFF), scale: 6 });
    let sx = centred_x(wi, sub.len(), cell, 2);
    put(&mut v, Draw::Text { x: sx, y: gy + logo + 88, text: sub, color: Color::rgb(0x7E, 0x8C, 0xA8), scale: 2 });
    let bar_w = splash_bar_w(w) as i64;
    let bar_x = (wi - bar_w) / 2;
    let bar_y = hi * 72 / 100;
    put(&mut v, Draw::Round { x: bar_x, y: bar_y, w: bar_w, h: 10, r: 5, color: Color::rgb(0x1E, 0x2A, 0x44) });
    if fill > 10 {
        put(&mut v, Draw::Round { x: bar_x, y: bar_y, w: fill as i64, h: 10, r: 5, color: blue });
    }
    let stx = centred_x(wi, status.len(), cell, 2);
    put(&mut v, Draw::Text { x: stx, y: bar_y + 26, text: status, color: Color::rgb(0x9A, 0xA6, 0xBD), scale: 2 });
    assert(draws_view(v@) =~= splash_spec(w as int, h as int, fill as int, cell as int));
    v
}

// ---- toolbar ----

/// A toolbar button's face.
pub open spec fn button_spec(r: Rect, bg: Color) -> DrawV {
    DrawV::Round(r.x as int, r.y as int, r.w as int, r.h as int, 9, bg)
}

/// The house glyph centred in button `r`: a roof of widening rows over a
/// body.
pub open spec fn home_glyph(r: Rect, color: Color) -> Seq<DrawV> {
    let cx = r.x + div_trunc(r.w as int, 2);
    let top = r.y + div_trunc(r.h as int, 2) - 8;
    Seq::new(8, |i: int| DrawV::Fill(cx - i, top + i, 2 * i + 1, 1, color)) + seq![
        DrawV::Round(cx - 6, top + 8, 12, 9, 1, color),
    ]
}

/// A ring of `color` `thick` pixels wide around `(cx, cy)`, hollowed with `bg`.
pub open spec fn donut(cx: int, cy: int, rad: int, thick: int, color: Color, bg: Color) -> Seq<DrawV> {
    let ir = max_int(rad - thick, 1);
    seq![
        DrawV::Round(cx - rad, cy - rad, 2 * rad, 2 * rad, rad, color),
        DrawV::Round(cx - ir, cy - ir, 2 * ir, 2 * ir, ir, bg),
    ]
}

/// The reload glyph: a ring broken at the top right with an arrowhead.
pub open spec fn reload_glyph(r: Rect, color: Color, bg: Color) -> Seq<DrawV> {
    let cx = r.x + div_trunc(r.w as int, 2);
    let cy = r.y + div_trunc(r.h as int, 2);
    donut(cx, cy, 9, 3, color, bg) + seq![DrawV::Fill(cx, cy - 10, 7, 7, bg)] + Seq::new(
        5,
        |i: int| DrawV::Fill(cx + 1, cy - 9 + i - 1, 5 - i, 1, color),
    )
}

/// The magnifier glyph: a lens and a thick handle off its lower right.
pub open spec fn search_glyph(r: Rect, color: Color, bg: Color) -> Seq<DrawV> {
    let cx = r.x + div_trunc(r.w as int, 2) - 2;
    let cy = r.y + div_trunc(r.h as int, 2) - 2;
    donut(cx, cy, 7, 2, color, bg) + Seq::new(5, |i: int| DrawV::Fill(cx + 5 + i, cy + 5 + i, 3, 3, color))
}

/// Background of the home and reload buttons.
pub open spec fn tool_bg() -> Color {
    Color { r: 0xEC, g: 0xEF, b: 0xF5 }
}

/// The browser's toolbar in chrome `ch`: the home and reload buttons, the
/// address bar showing `url`, and the accent go button.
pub open spec fn toolbar_spec(ch: BrowserChrome, url: Seq<u8>, caret: int, focused: bool, cell: int) -> Seq<DrawV> {
    let header = tone_spec(Tone::Header);
    seq![button_spec(ch.home, tool_bg())] + home_glyph(ch.home, header) + seq![button_spec(ch.reload, tool_bg())]
        + reload_glyph(ch.reload, header, tool_bg()) + address_bar_spec(ch.bar, url, caret, focused, cell) + seq![
        button_spec(ch.go, tone_spec(Tone::Accent)),
    ] + search_glyph(ch.go, tone_spec(Tone::White), tone_spec(Tone::Accent))
}

fn put_donut(v: &mut Vec<Draw>, cx: i64, cy: i64, rad: i64, thick: i64, color: Color, bg: Color)
    requires
        -0x1_0000_0000 <= cx <= 0x1_0000_0000,
        -0x1_0000_0000 <= cy <= 0x1_0000_0000,
        0 <= thick <= rad <= 64,
    ensures
        draws_view(final(v)@) == draws_view(old(v)@) + donut(cx as int, cy as int, rad as int, thick as int, color, bg),
{
    let ghost v0 = draws_view(v@);
    put(v, Draw::Round { x: cx - rad, y: cy - rad, w: 2 * rad, h: 2 * rad, r: rad, color });
    let ir = if rad - thick > 1 { rad - thick } else { 1 };
    put(v, Draw::Round { x: cx - ir, y: cy - ir, w: 2 * ir, h: 2 * ir, r: ir, color: bg });
    assert(draws_view(v@) =~= v0 + donut(cx as int, cy as int, rad as int, thick as int, color, bg));
}

fn put_toolbar_left(v: &mut Vec<Draw>, home: Rect, reload: Rect)
    requires
        home.w == 36 && home.h == 36,
        reload.w == 36 && reload.h == 36,
    ensures
        draws_view(final(v)@) == draws_view(old(v)@) + (seq![button_spec(home, tool_bg())] + home_glyph(
            home,
            tone_spec(Tone::Header),
        ) + seq![button_spec(reload, tool_bg())] + reload_glyph(reload, tone_spec(Tone::Header), tool_bg())),
{
    let ghost v0 = draws_view(v@);
    let bg = Color::rgb(0xEC, 0xEF, 0xF5);
    let header = tone(Tone::Header);
    put(v, Draw::Round { x: home.x as i64, y: home.y as i64, w: 36, h: 36, r: 9, color: bg });
    let ghost v1 = draws_view(v@);
    let cx = home.x as i64 + 18;
    let top = home.y as i64 + 10;
    let mut i: i64 = 0;
    while i < 8
        invariant
            0 <= i <= 8,
            cx == home.x + 18,
            top == home.y + 10,
            draws_view(v@) == v1 + Seq::new(i as nat, |k: int| DrawV::Fill(cx - k, top + k, 2 * k + 1, 1, header)),
        decreases 8 - i,
    {
        put(v, Draw::Fill { x: cx - i, y: top + i, w: 2 * i + 1, h: 1, color: header });
        assert(draws_view(v@) =~= v1 + Seq::new((i + 1) as nat, |k: int| DrawV::Fill(cx - k, top + k, 2 * k + 1, 1, header)));
        i += 1;
    }
    put(v, Draw::Round { x: cx - 6, y: top + 8, w: 12, h: 9, r: 1, color: header });
    assert(div_trunc(36, 2) == 18);
    assert(draws_view(v@) =~= v0 + (seq![button_spec(home, tool_bg())] + home_glyph(home, header)));
    let ghost v2 = draws_view(v@);
    put(v, Draw::Round { x: reload.x as i64, y: reload.y as i64, w: 36, h: 36, r: 9, color: bg });
    let rx = reload.x as i64 + 18;
    let ry = reload.y as i64 + 18;
    put_donut(v, rx, ry, 9, 3, header, bg);
    put(v, Draw::Fill { x: rx, y: ry - 10, w: 7, h: 7, color: bg });
    let ghost v3 = draws_view(v@);
    let mut i: i64 = 0;
    while i < 5
        invariant
            0 <= i <= 5,
            rx == reload.x + 18,
            ry == reload.y + 18,
            draws_view(v@) == v3 + Seq::new(i as nat, |k: int| DrawV::Fill(rx + 1, ry - 9 + k - 1, 5 - k, 1, header)),
        decreases 5 - i,
    {
        put(v, Draw::Fill { x: rx + 1, y: ry - 9 + i - 1, w: 5 - i, h: 1, color: header });
        assert(draws_view(v@) =~= v3 + Seq::new((i + 1) as nat, |k: int| DrawV::Fill(rx + 1, ry - 9 + k - 1, 5 - k, 1, header)));
        i += 1;
    }
    assert(draws_view(v@) =~= v2 + (seq![button_spec(reload, tool_bg())] + reload_glyph(reload, header, tool_bg())));
    assert(draws_view(v@) =~= v0 + (seq![button_spec(home, tool_bg())] + home_glyph(home, header) + seq![
        button_spec(reload, tool_bg()),
    ] + reload_glyph(reload, header, tool_bg())));
}

fn put_go_button(v: &mut Vec<Draw>, go: Rect)
    requires
        go.w == 36 && go.h == 36,
    ensures
        draws_view(final(v)@) == draws_view(old(v)@) + (seq![button_spec(go, tone_spec(Tone::Accent))] + search_glyph(
            go,
            tone_spec(Tone::White),
            tone_spec(Tone::Accent),
        )),
{
    let ghost v0 = draws_view(v@);
    let accent = tone(Tone::Accent);
    let white = tone(Tone::White);
    put(v, Draw::Round { x: go.x as i64, y: go.y as i64, w: 36, h: 36, r: 9, color: accent });
    let cx = go.x as i64 + 16;
    let cy = go.y as i64 + 16;
    put_donut(v, cx, cy, 7, 2, white, accent);
    let ghost v1 = draws_view(v@);
    let mut i: i64 = 0;
    while i < 5
        invariant
            0 <= i <= 5,
            cx == go.x + 16,
            cy == go.y + 16,
            draws_view(v@) == v1 + Seq::new(i as nat, |k: int| DrawV::Fill(cx + 5 + k, cy + 5 + k, 3, 3, white)),
        decreases 5 - i,
    {
        put(v, Draw::Fill { x: cx + 5 + i, y: cy + 5 + i, w: 3, h: 3, color: white });
        assert(draws_view(v@) =~= v1 + Seq::new((i + 1) as nat, |k: int| DrawV::Fill(cx + 5 + k, cy + 5 + k, 3, 3, white)));
        i += 1;
    }
    assert(div_trunc(36, 2) == 18);
    assert(draws_view(v@) =~= v0 + (seq![button_spec(go, accent)] + search_glyph(go, white, accent)));
}

/// The browser's toolbar in chrome `ch` with `url` in the address bar.
pub fn toolbar_cmds(ch: BrowserChrome, url: &[u8], caret: usize, focused: bool, cell: i64) -> (r: Vec<Draw>)
    requires
        ch.home.w == 36 && ch.home.h == 36,
        ch.reload.w == 36 && ch.reload.h == 36,
        ch.go.w == 36 && ch.go.h == 36,
        ch.bar.h == 36,
        48 <= ch.bar.w,
        1 <= cell <= 1024,
    ensures
        draws_view(r@) == toolbar_spec(ch, url@, caret as int, focused, cell as int),
{
    let mut v: Vec<Draw> = Vec::new();
    put_toolbar_left(&mut v, ch.home, ch.reload);
    put_address_bar(&mut v, ch.bar, url, caret, focused, cell);
    put_go_button(&mut v, ch.go);
    assert(draws_view(v@) =~= toolbar_spec(ch, url@, caret as int, focused, cell as int));
    v
}

/// What the page area says when there is no page to paint: a centred
/// loading notice while a fetch runs, else a failure line at the top left.
pub open spec fn notice_spec(content: Rect, loading: bool, cell: int) -> Seq<DrawV> {
    if loading {
        let msg = "Carregando...".spec_bytes();
        seq![DrawV::Text(content.x + div_trunc(content.w - text_w(msg.len() as int, cell, 2), 2), content.y + 40, msg, tone_spec(Tone::TextMuted), 2)]
    } else {
        seq![DrawV::Text(content.x + 8, content.y + 8, "Falha ao carregar a pagina.".spec_bytes(), tone_spec(Tone::Close), 2)]
    }
}

/// The page area's notice: loading, or the page failed to load.
pub fn notice_cmds(content: Rect, loading: bool, cell: i64) -> (r: Vec<Draw>)
    requires
        1 <= cell <= 1024,
    ensures
        draws_view(r@) == notice_spec(content, loading, cell as int),
{
    let mut v: Vec<Draw> = Vec::new();
    if loading {
        let msg = "Carregando...".as_bytes_vec();
        proof {
            reveal_strlit("Carregando...");
            assert(vstd::string::is_ascii("Carregando..."));
            assert(msg@.len() == 13);
        }
        let n = msg.len() as i64;
        assert(n == 13);
        let w = 26 * cell;
        assert(msg@.len() * cell * 2 == 26 * cell) by (nonlinear_arith)
            requires
                msg@.len() == 13,
        ;
        let q = (content.w as i64 - w) / 2;
        assert(q == div_trunc(content.w - w, 2));
        put(&mut v, Draw::Text { x: content.x as i64 + (content.w as i64 - w) / 2, y: content.y as i64 + 40, text: msg, color: tone(Tone::TextMuted), scale: 2 });
    } else {
        put(&mut v, Draw::Text { x: content.x as i64 + 8, y: content.y as i64 + 8, text: "Falha ao carregar a pagina.".as_bytes_vec(), color: tone(Tone::Close), scale: 2 });
    }
    assert(draws_view(v@) =~= notice_spec(content, loading, cell as int));
    v
}

// ---- file manager window ----

/// One entry of the file list: its name and size in bytes.
pub open spec fn entries_view(es: Seq<(Vec<u8>, u32)>) -> Seq<(Seq<u8>, u32)> {
    Seq::new(es.len(), |i: int| (es[i].0@, es[i].1))
}

/// A size as the list shows it: decimal digits and ` B`.
pub open spec fn size_text(size: u32) -> Seq<u8> {
    take_n(dec_digits(size as nat) + " B".spec_bytes(), 12)
}

/// Row `n` of the file list: the selection highlight, the name at the left
/// and the size right-aligned.
pub open spec fn file_row_spec(r: Rect, e: (Seq<u8>, u32), selected: bool, n: int, cell: int) -> Seq<DrawV> {
    let cx = r.x + 14;
    let right = r.x + r.w - 14;
    let ry = files_list_top(r) + n * 22;
    let sz = size_text(e.1);
    (if selected { seq![DrawV::Shade(cx, ry - 2, r.w - 28, 22, 6, tone_spec(Tone::Accent), 40)] } else { Seq::empty() })
        + seq![
        DrawV::Text(cx + 8, ry + 2, e.0, tone_spec(Tone::Text), 2),
        DrawV::Text(right - 6 - text_w(sz.len() as int, cell, 2), ry + 2, sz, tone_spec(Tone::TextMuted), 2),
    ]
}

/// The file list's rows from `n` on, up to the first that does not fit.
pub open spec fn file_rows_spec(r: Rect, es: Seq<(Seq<u8>, u32)>, sel: int, cell: int, n: int) -> Seq<DrawV>
    decreases es.len() - n,
{
    if n < 0 || n >= es.len() || !row_fits(r, n) {
        Seq::empty()
    } else {
        file_row_spec(r, es[n], sel == n, n, cell) + file_rows_spec(r, es, sel, cell, n + 1)
    }
}

/// One tab: its label, underlined in the accent colour when active.
pub open spec fn tab_spec(x: int, y: int, label: Seq<u8>, active: bool, cell: int) -> Seq<DrawV> {
    if active {
        seq![
            DrawV::Text(x, y, label, tone_spec(Tone::White), 2),
            DrawV::Round(x, y + 22, text_w(label.len() as int, cell, 2), 3, 1, tone_spec(Tone::Accent)),
        ]
    } else {
        seq![DrawV::Text(x, y, label, tone_spec(Tone::TextMuted), 2)]
    }
}

/// The key help of view `view`.
pub open spec fn files_help(view: int) -> Seq<u8> {
    if view == 0 {
        "Setas mover  Tab lixeira  Del apagar  Enter abrir".spec_bytes()
    } else {
        "Setas mover  Tab arquivos  Del apagar def.  Enter restaurar".spec_bytes()
    }
}

/// The file manager window `r`: the disk panel with the boot and filesystem
/// disks, the files and trash tabs with their counts (`view` active), the
/// list of `es` with row `sel` highlighted (or `(vazio)`), and the key help.
pub open spec fn files_spec(
    r: Rect,
    boot: Option<DiskInfo>,
    fsd: Option<DiskInfo>,
    counts: (u32, u32),
    view: int,
    sel: int,
    es: Seq<(Seq<u8>, u32)>,
    cell: int,
) -> Seq<DrawV> {
    let cx = r.x + 14;
    let cy = r.y + TITLE_H + 12;
    let ty = cy + 78;
    seq![
        DrawV::Round(cx, cy, r.w - 28, 66, 8, tone_spec(Tone::HeaderDim)),
        DrawV::Text(cx + 12, cy + 8, "Discos".spec_bytes(), tone_spec(Tone::TextMuted), 2),
        DrawV::Text(cx + 12, cy + 30, disk_line_spec("boot".spec_bytes(), boot), tone_spec(Tone::Text), 2),
        DrawV::Text(cx + 12, cy + 48, disk_line_spec("FS".spec_bytes(), fsd), tone_spec(Tone::Text), 2),
    ] + tab_spec(cx, ty, tab_label_spec(0, counts.0), view == 0, cell) + tab_spec(
        cx + 170,
        ty,
        tab_label_spec(1, counts.1),
        view == 1,
        cell,
    ) + (if es.len() == 0 {
        seq![DrawV::Text(cx + 6, files_list_top(r) + 6, "(vazio)".spec_bytes(), tone_spec(Tone::TextMuted), 2)]
    } else {
        Seq::empty()
    }) + file_rows_spec(r, es, sel, cell, 0) + seq![
        DrawV::Text(cx, r.y + r.h - 20, files_help(view), tone_spec(Tone::TextMuted), 2),
    ]
}

fn put_tab(v: &mut Vec<Draw>, x: i64, y: i64, label: Vec<u8>, active: bool, cell: i64)
    requires
        -0x1_0000_0000 <= x <= 0x1_0000_0000,
        -0x1_0000_0000 <= y <= 0x1_0000_0000,
        label@.len() <= 24,
        1 <= cell <= 1024,
    ensures
        draws_view(final(v)@) == draws_view(old(v)@) + tab_spec(x as int, y as int, label@, active, cell as int),
{
    let ghost v0 = draws_view(v@);
    let ghost l = label@;
    let n = label.len() as i64;
    assert(n * cell <= 24 * 1024) by (nonlinear_arith)
        requires
            0 <= n <= 24,
            1 <= cell <= 1024,
    ;
    let w = n * cell * 2;
    if active {
        put(v, Draw::Text { x, y, text: label, color: tone(Tone::White), scale: 2 });
        put(v, Draw::Round { x, y: y + 22, w, h: 3, r: 1, color: tone(Tone::Accent) });
    } else {
        put(v, Draw::Text { x, y, text: label, color: tone(Tone::TextMuted), scale: 2 });
    }
    assert(draws_view(v@) =~= v0 + tab_spec(x as int, y as int, l, active, cell as int));
}

fn put_file_row(v: &mut Vec<Draw>, r: Rect, name: &Vec<u8>, size: u32, selected: bool, n: i64, cell: i64)
    requires
        0 <= n <= 0x1000_0000,
        1 <= cell <= 1024,
    ensures
        draws_view(final(v)@) == draws_view(old(v)@) + file_row_spec(r, (name@, size), selected, n as int, cell as int),
{
    let ghost v0 = draws_view(v@);
    let cx = r.x as i64 + 14;
    let right = r.x as i64 + r.w as i64 - 14;
    let ry = r.y as i64 + 156 + n * 22;
    if selected {
        put(v, Draw::Shade { x: cx, y: ry - 2, w: r.w as i64 - 28, h: 22, r: 6, color: tone(Tone::Accent), alpha: 40 });
    }
    put(v, Draw::Text { x: cx + 8, y: ry + 2, text: crate::bytes::to_vec(name.as_slice()), color: tone(Tone::Text), scale: 2 });
    let mut sz = dec_vec(size);
    crate::bytes::push_all(&mut sz, " B".as_bytes());
    let ghost full = sz@;
    sz.truncate(12);
    assert(sz@ =~= take_n(full, 12));
    let k = sz.len() as i64;
    assert(k * cell <= 12 * 1024) by (nonlinear_arith)
        requires
            0 <= k <= 12,
            1 <= cell <= 1024,
    ;
    let w = k * cell * 2;
    put(v, Draw::Text { x: right - 6 - w, y: ry + 2, text: sz, color: tone(Tone::TextMuted), scale: 2 });
    assert(draws_view(v@) =~= v0 + file_row_spec(r, (name@, size), selected, n as int, cell as int));
}

/// The file manager window `r`.
pub fn files_cmds(
    r: Rect,
    boot: &Option<DiskInfo>,
    fsd: &Option<DiskInfo>,
    counts: (u32, u32),
    view: usize,
    sel: usize,
    es: &Vec<(Vec<u8>, u32)>,
    cell: i64,
) -> (out: Vec<Draw>)
    requires
        view < 2,
        boot matches Some(d) ==> d.model_len <= 40 && d.sectors <= u64::MAX / 512,
        fsd matches Some(d) ==> d.model_len <= 40 && d.sectors <= u64::MAX / 512,
        1 <= cell <= 1024,
    ensures
        draws_view(out@) == files_spec(r, *boot, *fsd, counts, view as int, sel as int, entries_view(es@), cell as int),
{
    let cx = r.x as i64 + 14;
    let cy = r.y as i64 + 42;
    let mut v: Vec<Draw> = Vec::new();
    put(&mut v, Draw::Round { x: cx, y: cy, w: r.w as i64 - 28, h: 66, r: 8, color: tone(Tone::HeaderDim) });
    put(&mut v, Draw::Text { x: cx + 12, y: cy + 8, text: "Discos".as_bytes_vec(), color: tone(Tone::TextMuted), scale: 2 });
    put(&mut v, Draw::Text { x: cx + 12, y: cy + 30, text: disk_line("boot".as_bytes(), boot), color: tone(Tone::Text), scale: 2 });
    put(&mut v, Draw::Text { x: cx + 12, y: cy + 48, text: disk_line("FS".as_bytes(), fsd), color: tone(Tone::Text), scale: 2 });
    let ty = cy + 78;
    put_tab(&mut v, cx, ty, tab_label(0, counts.0), view == 0, cell);
    put_tab(&mut v, cx + 170, ty, tab_label(1, counts.1), view == 1, cell);
    if es.len() == 0 {
        put(&mut v, Draw::Text { x: cx + 6, y: r.y as i64 + 162, text: "(vazio)".as_bytes_vec(), color: tone(Tone::TextMuted), scale: 2 });
    }
    let ghost head = draws_view(v@);
    let ghost ev = entries_view(es@);
    let top = r.y as i64 + 156;
    let limit = r.y as i64 + r.h as i64 - 26;
    let mut n: usize = 0;
    while n < es.len()
        invariant_except_break
            n <= es@.len(),
            top == files_list_top(r),
            limit == r.y + r.h - 26,
            1 <= cell <= 1024,
            ev == entries_view(es@),
            draws_view(v@) + file_rows_spec(r, ev, sel as int, cell as int, n as int) == head + file_rows_spec(
                r,
                ev,
                sel as int,
                cell as int,
                0,
            ),
        ensures
            draws_view(v@) == head + file_rows_spec(r, ev, sel as int, cell as int, 0),
        decreases es.len() - n,
    {
        if n > 0x1000_0000 || top + (n as i64) * 22 + 20 > limit {
            assert(!row_fits(r, n as int)) by (nonlinear_arith)
                requires
                    n > 0x1000_0000 || top + n * 22 + 20 > limit,
                    top == files_list_top(r),
                    limit == r.y + r.h - 26,
                    files_list_top(r) == r.y + TITLE_H + 126,
                    TITLE_H == 30,
                    i32::MIN <= r.y <= i32::MAX,
                    i32::MIN <= r.h <= i32::MAX,
            ;
            assert(file_rows_spec(r, ev, sel as int, cell as int, n as int) =~= Seq::empty());
            assert(draws_view(v@) =~= draws_view(v@) + file_rows_spec(r, ev, sel as int, cell as int, n as int));
            break;
        }
        let ghost before = draws_view(v@);
        assert(row_fits(r, n as int));
        assert(ev[n as int] == (es@[n as int].0@, es@[n as int].1));
        put_file_row(&mut v, r, &es[n].0, es[n].1, sel == n, n as i64, cell);
        assert(file_rows_spec(r, ev, sel as int, cell as int, n as int) == file_row_spec(r, ev[n as int], sel == n, n as int, cell as int)
            + file_rows_spec(r, ev, sel as int, cell as int, n + 1));
        assert(draws_view(v@) + file_rows_spec(r, ev, sel as int, cell as int, n + 1) =~= before + file_rows_spec(
            r,
            ev,
            sel as int,
            cell as int,
            n as int,
        ));
        n += 1;
    }
    let help = if view == 0 {
        "Setas mover  Tab lixeira  Del apagar  Enter abrir"
    } else {
        "Setas mover  Tab arquivos  Del apagar def.  Enter restaurar"
    };
    put(&mut v, Draw::Text { x: cx, y: r.y as i64 + r.h as i64 - 20, text: help.as_bytes_vec(), color: tone(Tone::TextMuted), scale: 2 });
    assert(draws_view(v@) =~= files_spec(r, *boot, *fsd, counts, view as int, sel as int, entries_view(es@), cell as int));
    v
}

// ---- wallpaper and dock ----

/// Icon of dock slot `i`: the logo, then the shell, the editor and the task
/// manager.
pub open spec fn dock_icon_kind(i: int) -> IconKind {
    if i == 0 {
        IconKind::Brand
    } else if i == 1 {
        IconKind::Terminal
    } else if i == 2 {
        IconKind::Editor
    } else {
        IconKind::TaskMgr
    }
}

fn dock_kind(i: usize) -> (k: IconKind)
    ensures
        k == dock_icon_kind(i as int),
{
    if i == 0 {
        IconKind::Brand
    } else if i == 1 {
        IconKind::Terminal
    } else if i == 2 {
        IconKind::Editor
    } else {
        IconKind::TaskMgr
    }
}

/// The icons of the first `n` dock slots.
pub open spec fn dock_icons(w: int, h: int, n: int) -> Seq<DrawV> {
    Seq::new(
        n as nat,
        |i: int|
            {
                let r = dock_icon_spec(w, h, i);
                DrawV::Icon(dock_icon_kind(i), r.x as int, r.y as int, r.w as int)
            },
    )
}

/// The desktop behind the windows on a `w` × `h` screen: an indigo
/// gradient, a teal glow at the top left and a violet one at the bottom
/// right, the wordmark, and the floating dock with its shadow and icons.
pub open spec fn background_spec(w: int, h: int) -> Seq<DrawV> {
    let blob = max_int(w / 3, 360);
    let d = dock_rect_spec(w, h);
    let radius = d.h / 2;
    gradient_rows(w, h, Color { r: 0x0B, g: 0x0F, b: 0x1C }, Color { r: 0x16, g: 0x1C, b: 0x30 }, h) + seq![
        DrawV::Shade(0, 0, blob, blob, blob / 2, Color { r: 0x2D, g: 0xD4, b: 0xBF }, 16),
        DrawV::Shade(w - blob, h - blob, blob, blob, blob / 2, Color { r: 0x7C, g: 0x6C, b: 0xFF }, 16),
        DrawV::Text(20, 18, "OSJEFF".spec_bytes(), tone_spec(Tone::HeaderText), 2),
        DrawV::Shade(d.x as int, d.y + 8, d.w as int, d.h as int, radius, tone_spec(Tone::Shadow), 38),
        DrawV::Round(d.x as int, d.y as int, d.w as int, d.h as int, radius, tone_spec(Tone::Dock)),
    ] + dock_icons(w, h, DOCK_COUNT as int)
}

/// The desktop behind the windows on a `w` × `h` screen.
pub fn background_cmds(w: usize, h: usize) -> (r: Vec<Draw>)
    requires
        w <= i32::MAX,
        h <= i32::MAX,
    ensures
        draws_view(r@) == background_spec(w as int, h as int),
{
    let mut v: Vec<Draw> = Vec::new();
    put_gradient(&mut v, w, h, Color::rgb(0x0B, 0x0F, 0x1C), Color::rgb(0x16, 0x1C, 0x30));
    let wi = w as i64;
    let hi = h as i64;
    let blob = if wi / 3 > 360 { wi / 3 } else { 360 };
    put(&mut v, Draw::Shade { x: 0, y: 0, w: blob, h: blob, r: blob / 2, color: Color::rgb(0x2D, 0xD4, 0xBF), alpha: 16 });
    put(&mut v, Draw::Shade { x: wi - blob, y: hi - blob, w: blob, h: blob, r: blob / 2, color: Color::rgb(0x7C, 0x6C, 0xFF), alpha: 16 });
    put(&mut v, Draw::Text { x: 20, y: 18, text: "OSJEFF".as_bytes_vec(), color: tone(Tone::HeaderText), scale: 2 });
    let (dock, icons) = dock_layout(w as i32, h as i32);
    let radius = dock.h as i64 / 2;
    put(&mut v, Draw::Shade { x: dock.x as i64, y: dock.y as i64 + 8, w: dock.w as i64, h: dock.h as i64, r: radius, color: tone(Tone::Shadow), alpha: 38 });
    put(&mut v, Draw::Round { x: dock.x as i64, y: dock.y as i64, w: dock.w as i64, h: dock.h as i64, r: radius, color: tone(Tone::Dock) });
    let ghost head = draws_view(v@);
    let mut i: usize = 0;
    while i < 4
        invariant
            0 <= i <= 4,
            w <= i32::MAX,
            h <= i32::MAX,
            icons@.len() == DOCK_COUNT,
            forall|k: int| 0 <= k < DOCK_COUNT ==> icons@[k] == dock_icon_spec(w as int, h as int, k),
            draws_view(v@) == head + dock_icons(w as int, h as int, i as int),
        decreases 4 - i,
    {
        let r = icons[i];
        assert(r == dock_icon_spec(w as int, h as int, i as int));
        put(&mut v, Draw::Icon { icon: dock_kind(i), x: r.x as i64, y: r.y as i64, size: r.w as i64 });
        assert(draws_view(v@) =~= head + dock_icons(w as int, h as int, i + 1));
        i += 1;
    }
    assert(draws_view(v@) =~= background_spec(w as int, h as int));
    v
}

// ---- clipping for the rasterizer ----

/// Largest coordinate or extent handed to the framebuffer.
pub const CLIP_LIMIT: i64 = 0x100_0000;

/// A box cut to the non-negative quadrant: none when nothing is left or it
/// reaches past `CLIP_LIMIT`.
pub open spec fn clip_spec(x: int, y: int, w: int, h: int) -> Option<(int, int, int, int)> {
    let x2 = if x < 0 { 0 } else { x };
    let w2 = if x < 0 { w + x } else { w };
    let y2 = if y < 0 { 0 } else { y };
    let h2 = if y < 0 { h + y } else { h };
    if w2 <= 0 || h2 <= 0 || x2 > CLIP_LIMIT || y2 > CLIP_LIMIT || w2 > CLIP_LIMIT || h2 > CLIP_LIMIT {
        None
    } else {
        Some((x2, y2, w2, h2))
    }
}

/// Cut the box at `(x, y)`, `w` × `h`, to the non-negative quadrant.
pub fn clip_box(x: i64, y: i64, w: i64, h: i64) -> (r: Option<(usize, usize, usize, usize)>)
    ensures
        r matches Some(b) ==> clip_spec(x as int, y as int, w as int, h as int) == Some(
            (b.0 as int, b.1 as int, b.2 as int, b.3 as int),
        ),
        r is None <==> clip_spec(x as int, y as int, w as int, h as int) is None,
{
    if w <= 0 || h <= 0 {
        return None;
    }
    let (x2, w2) = if x < 0 { (0, w + x) } else { (x, w) };
    let (y2, h2) = if y < 0 { (0, h + y) } else { (y, h) };
    if w2 <= 0 || h2 <= 0 || x2 > CLIP_LIMIT || y2 > CLIP_LIMIT || w2 > CLIP_LIMIT || h2 > CLIP_LIMIT {
        return None;
    }
    Some((x2 as usize, y2 as usize, w2 as usize, h2 as usize))
}

} // verus!
