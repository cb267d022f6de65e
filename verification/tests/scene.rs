use osjeff_core::kernel::ata::DiskInfo;
use osjeff_core::kernel::fb::Color;
use osjeff_core::kernel::scene::{
    address_bar_cmds, background_cmds, browser_home_cmds, clip_box, files_cmds, notice_cmds, toolbar_cmds, disk_line, files_visible_rows, scroll_thumb, scrollbar_cmds,
    splash_bar_w, splash_cmds, start_panel_cmds, tab_label, tone, url_shown, Draw, IconKind, Tone,
};
use osjeff_core::kernel::panels::{start_origin, BrowserChrome};
use osjeff_core::window::Rect;

fn text(x: i64, y: i64, s: &str, color: Color, scale: u8) -> Draw {
    Draw::Text { x, y, text: s.as_bytes().to_vec(), color, scale }
}

#[test]
fn start_panel_with_the_first_app_hovered() {
    assert_eq!(start_origin(1280, 800), (385, 422));
    let cmds = start_panel_cmds(1280, 800, 400, 432);
    assert_eq!(cmds.len(), 18);
    assert_eq!(cmds[0], Draw::Shade { x: 390, y: 432, w: 240, h: 298, r: 16, color: tone(Tone::Shadow), alpha: 40 });
    assert_eq!(cmds[1], Draw::Round { x: 385, y: 422, w: 240, h: 298, r: 14, color: tone(Tone::Dock) });
    assert_eq!(cmds[2], Draw::Shade { x: 390, y: 434, w: 230, h: 34, r: 8, color: tone(Tone::Accent), alpha: 36 });
    assert_eq!(cmds[3], Draw::Icon { icon: IconKind::Terminal, x: 395, y: 439, size: 24 });
    assert_eq!(cmds[4], text(431, 444, "Terminal", tone(Tone::HeaderText), 2));
    assert_eq!(cmds[11], Draw::Icon { icon: IconKind::Browser, x: 395, y: 591, size: 24 });
    assert_eq!(cmds[12], text(431, 596, "Navegador", tone(Tone::HeaderText), 2));
    assert_eq!(cmds[13], Draw::Fill { x: 395, y: 628, w: 220, h: 1, color: tone(Tone::DockEdge) });
    assert_eq!(cmds[14], Draw::Icon { icon: IconKind::Power, x: 395, y: 641, size: 24 });
    assert_eq!(cmds[15], text(431, 646, "Reiniciar", tone(Tone::HeaderText), 2));
    assert_eq!(cmds[17], text(431, 684, "Desligar", tone(Tone::HeaderText), 2));
}

#[test]
fn start_panel_highlights_power_rows_in_red() {
    let cmds = start_panel_cmds(1280, 800, 400, 672);
    assert_eq!(cmds.len(), 18);
    assert_eq!(cmds[15], Draw::Shade { x: 390, y: 674, w: 230, h: 34, r: 8, color: tone(Tone::Close), alpha: 36 });
    let idle = start_panel_cmds(1280, 800, 0, 0);
    assert_eq!(idle.len(), 17);
    assert_eq!(idle[5], text(431, 482, "Editor", tone(Tone::HeaderText), 2));
}

#[test]
fn browser_home_centres_brand_and_tiles() {
    let content = Rect::new(100, 200, 700, 400);
    let labels = vec![b"github".to_vec(), b"rust".to_vec(), b"wiki".to_vec(), b"averylonglabel".to_vec()];
    let cmds = browser_home_cmds(content, &labels, 6);
    assert_eq!(cmds.len(), 4 + 4 * 5);
    assert_eq!(cmds[0], Draw::Icon { icon: IconKind::Browser, x: 408, y: 230, size: 84 });
    assert_eq!(cmds[1], text(360, 330, "OSjeff", tone(Tone::Header), 5));
    assert_eq!(cmds[2], text(396, 374, "Navegador", tone(Tone::Accent), 2));
    assert_eq!(cmds[3], text(180, 398, "Pesquise ou digite um endereco na barra acima", tone(Tone::TextMuted), 2));
    assert_eq!(cmds[4], Draw::Shade { x: 126, y: 427, w: 150, h: 96, r: 12, color: tone(Tone::Shadow), alpha: 26 });
    assert_eq!(cmds[5], Draw::Round { x: 123, y: 422, w: 150, h: 96, r: 12, color: tone(Tone::White) });
    assert_eq!(cmds[6], Draw::Round { x: 181, y: 438, w: 34, h: 34, r: 10, color: tone(Tone::Accent) });
    assert_eq!(cmds[7], text(189, 444, "G", tone(Tone::White), 3));
    assert_eq!(cmds[8], text(162, 494, "github", tone(Tone::Text), 2));
    assert_eq!(cmds[11], Draw::Round { x: 349, y: 438, w: 34, h: 34, r: 10, color: tone(Tone::Accent2) });
    assert_eq!(cmds[16], Draw::Round { x: 517, y: 438, w: 34, h: 34, r: 10, color: Color::rgb(0xF5, 0x9E, 0x0B) });
    // A label wider than its tile starts left of it (division toward zero).
    assert_eq!(cmds[23], text(627 - 9, 494, "averylonglabel", tone(Tone::Text), 2));
}

#[test]
fn address_bar_shows_the_url_tail_and_caret() {
    let url: &[u8] = b"http://example.com/a/very/long/path";
    assert_eq!(url_shown(url, 300, 6), &url[url.len() - 21..]);
    assert_eq!(url_shown(b"a.com", 300, 6), b"a.com");
    assert_eq!(url_shown(url, 48, 6), b"h");
    let bar = Rect::new(100, 50, 300, 36);
    let cmds = address_bar_cmds(bar, b"http://example.com", 5, true, 6);
    assert_eq!(cmds.len(), 7);
    assert_eq!(cmds[0], Draw::Round { x: 100, y: 50, w: 300, h: 36, r: 18, color: Color::rgb(0xCE, 0xD6, 0xE6) });
    assert_eq!(cmds[1], Draw::Round { x: 101, y: 51, w: 298, h: 34, r: 17, color: tone(Tone::White) });
    assert_eq!(cmds[2], Draw::Round { x: 110, y: 59, w: 18, h: 18, r: 9, color: tone(Tone::Accent) });
    assert_eq!(cmds[5], text(136, 61, "http://example.com", tone(Tone::Text), 2));
    assert_eq!(cmds[6], Draw::Fill { x: 196, y: 60, w: 2, h: 16, color: tone(Tone::Accent) });
    let empty = address_bar_cmds(bar, b"", 0, true, 6);
    assert_eq!(empty.len(), 6);
    assert_eq!(empty[5], text(136, 61, "Pesquisar ou digitar um endereco", tone(Tone::TextMuted), 2));
    let blurred = address_bar_cmds(bar, b"a.com", 3, false, 6);
    assert_eq!(blurred.len(), 6);
}

#[test]
fn scrollbar_thumb_tracks_the_scroll() {
    let content = Rect::new(10, 100, 500, 200);
    assert_eq!(scroll_thumb(content, 800, 300), Some((175, 50)));
    assert_eq!(scroll_thumb(content, 800, 0), Some((100, 50)));
    assert_eq!(scroll_thumb(content, 800, 600), Some((250, 50)));
    assert_eq!(scroll_thumb(content, 100000, 0), Some((100, 16)));
    assert_eq!(scroll_thumb(content, 200, 0), None);
    let cmds = scrollbar_cmds(content, 800, 300);
    assert_eq!(cmds.len(), 2);
    assert_eq!(cmds[0], Draw::Fill { x: 506, y: 100, w: 4, h: 200, color: tone(Tone::DockEdge) });
    assert_eq!(cmds[1], Draw::Round { x: 506, y: 175, w: 4, h: 50, r: 2, color: tone(Tone::Accent) });
    assert!(scrollbar_cmds(content, 150, 0).is_empty());
}

fn disk(model: &[u8], sectors: u64, ssd: bool, rpm: u16) -> DiskInfo {
    let mut m = [b' '; 40];
    m[..model.len()].copy_from_slice(model);
    DiskInfo { model: m, model_len: model.len(), sectors, ssd, rpm }
}

#[test]
fn disk_lines_name_model_size_and_medium() {
    let hd = Some(disk(b"QEMU HARDDISK", 2097152, false, 0));
    assert_eq!(disk_line(b"boot", &hd), b"boot: QEMU HARDDISK  1024 MiB  HD?".to_vec());
    let ssd = Some(disk(b"FAST", 4096, true, 1));
    assert_eq!(disk_line(b"FS", &ssd), b"FS: FAST  2 MiB  SSD".to_vec());
    let spin = Some(disk(b"OLD", 2048, false, 7200));
    assert_eq!(disk_line(b"FS", &spin), b"FS: OLD  1 MiB  HD".to_vec());
    assert_eq!(disk_line(b"FS", &None), b"FS: ausente".to_vec());
    let long = vec![b'x'; 100];
    assert_eq!(disk_line(&long, &None).len(), 96);
}

#[test]
fn tab_labels_count_entries() {
    assert_eq!(tab_label(0, 3), b"Arquivos (3)".to_vec());
    assert_eq!(tab_label(1, 0), b"Lixeira (0)".to_vec());
    assert_eq!(tab_label(0, u32::MAX), b"Arquivos (4294967295)".to_vec());
}

#[test]
fn file_list_shows_rows_above_the_help_line() {
    let r = Rect::new(0, 0, 400, 300);
    assert_eq!(files_visible_rows(r, 10), 5);
    assert_eq!(files_visible_rows(r, 3), 3);
    assert_eq!(files_visible_rows(Rect::new(0, 0, 400, 100), 10), 0);
}

#[test]
fn splash_frame_layout() {
    assert_eq!(splash_bar_w(1024), 341);
    assert_eq!(splash_bar_w(600), 220);
    let cmds = splash_cmds(1024, 768, 100, 6);
    assert_eq!(cmds.len(), 768 + 7);
    assert_eq!(cmds[0], Draw::Fill { x: 0, y: 0, w: 1024, h: 1, color: Color::rgb(0x07, 0x0C, 0x1A) });
    let last = Color::rgb(0x07, 0x0C, 0x1A).lerp(Color::rgb(0x12, 0x22, 0x42), 254);
    assert_eq!(cmds[767], Draw::Fill { x: 0, y: 767, w: 1024, h: 1, color: last });
    let blue = Color::rgb(0x3B, 0x82, 0xF6);
    assert_eq!(cmds[768], Draw::Shade { x: 376, y: 148, w: 272, h: 272, r: 136, color: blue, alpha: 26 });
    assert_eq!(cmds[769], Draw::Icon { icon: IconKind::Start, x: 458, y: 230, size: 109 });
    assert_eq!(cmds[770], text(404, 363, "OSJEFF", Color::rgb(0xF2, 0xF6, 0xFF), 6));
    assert_eq!(cmds[771], text(386, 427, "Rust Operating System", Color::rgb(0x7E, 0x8C, 0xA8), 2));
    assert_eq!(cmds[772], Draw::Round { x: 341, y: 552, w: 341, h: 10, r: 5, color: Color::rgb(0x1E, 0x2A, 0x44) });
    assert_eq!(cmds[773], Draw::Round { x: 341, y: 552, w: 100, h: 10, r: 5, color: blue });
    assert_eq!(cmds[774], text(374, 578, "Carregando o sistema...", Color::rgb(0x9A, 0xA6, 0xBD), 2));
    // Too little progress draws no fill.
    assert_eq!(splash_cmds(1024, 768, 10, 6).len(), 768 + 6);
}

#[test]
fn toolbar_buttons_glyphs_and_bar() {
    let ch = BrowserChrome::of(Rect::new(100, 100, 600, 400));
    let cmds = toolbar_cmds(ch, b"a.com", 0, false, 6);
    assert_eq!(cmds.len(), 33);
    let bg = Color::rgb(0xEC, 0xEF, 0xF5);
    let header = tone(Tone::Header);
    assert_eq!(cmds[0], Draw::Round { x: 114, y: 142, w: 36, h: 36, r: 9, color: bg });
    assert_eq!(cmds[1], Draw::Fill { x: 132, y: 152, w: 1, h: 1, color: header });
    assert_eq!(cmds[8], Draw::Fill { x: 125, y: 159, w: 15, h: 1, color: header });
    assert_eq!(cmds[9], Draw::Round { x: 126, y: 160, w: 12, h: 9, r: 1, color: header });
    assert_eq!(cmds[10], Draw::Round { x: 158, y: 142, w: 36, h: 36, r: 9, color: bg });
    assert_eq!(cmds[11], Draw::Round { x: 167, y: 151, w: 18, h: 18, r: 9, color: header });
    assert_eq!(cmds[12], Draw::Round { x: 170, y: 154, w: 12, h: 12, r: 6, color: bg });
    assert_eq!(cmds[13], Draw::Fill { x: 176, y: 150, w: 7, h: 7, color: bg });
    assert_eq!(cmds[14], Draw::Fill { x: 177, y: 150, w: 5, h: 1, color: header });
    assert_eq!(cmds[24], text(238, 153, "a.com", tone(Tone::Text), 2));
    assert_eq!(cmds[25], Draw::Round { x: 650, y: 142, w: 36, h: 36, r: 9, color: tone(Tone::Accent) });
    assert_eq!(cmds[26], Draw::Round { x: 659, y: 151, w: 14, h: 14, r: 7, color: tone(Tone::White) });
    assert_eq!(cmds[27], Draw::Round { x: 661, y: 153, w: 10, h: 10, r: 5, color: tone(Tone::Accent) });
    assert_eq!(cmds[32], Draw::Fill { x: 675, y: 167, w: 3, h: 3, color: tone(Tone::White) });
}

#[test]
fn page_area_notices() {
    let content = Rect::new(114, 194, 572, 292);
    let loading = notice_cmds(content, true, 6);
    assert_eq!(loading, vec![text(322, 234, "Carregando...", tone(Tone::TextMuted), 2)]);
    let failed = notice_cmds(content, false, 6);
    assert_eq!(failed, vec![text(122, 202, "Falha ao carregar a pagina.", tone(Tone::Close), 2)]);
}

#[test]
fn file_manager_window() {
    let r = Rect::new(0, 0, 400, 300);
    let boot = Some(disk(b"QEMU HARDDISK", 2097152, false, 0));
    let entries = vec![(b"a.txt".to_vec(), 12u32), (b"notes".to_vec(), 1234u32)];
    let cmds = files_cmds(r, &boot, &None, (2, 0), 0, 0, &entries, 6);
    assert_eq!(cmds.len(), 13);
    assert_eq!(cmds[0], Draw::Round { x: 14, y: 42, w: 372, h: 66, r: 8, color: tone(Tone::HeaderDim) });
    assert_eq!(cmds[1], text(26, 50, "Discos", tone(Tone::TextMuted), 2));
    assert_eq!(cmds[2], text(26, 72, "boot: QEMU HARDDISK  1024 MiB  HD?", tone(Tone::Text), 2));
    assert_eq!(cmds[3], text(26, 90, "FS: ausente", tone(Tone::Text), 2));
    assert_eq!(cmds[4], text(14, 120, "Arquivos (2)", tone(Tone::White), 2));
    assert_eq!(cmds[5], Draw::Round { x: 14, y: 142, w: 144, h: 3, r: 1, color: tone(Tone::Accent) });
    assert_eq!(cmds[6], text(184, 120, "Lixeira (0)", tone(Tone::TextMuted), 2));
    assert_eq!(cmds[7], Draw::Shade { x: 14, y: 154, w: 372, h: 22, r: 6, color: tone(Tone::Accent), alpha: 40 });
    assert_eq!(cmds[8], text(22, 158, "a.txt", tone(Tone::Text), 2));
    assert_eq!(cmds[9], text(332, 158, "12 B", tone(Tone::TextMuted), 2));
    assert_eq!(cmds[10], text(22, 180, "notes", tone(Tone::Text), 2));
    assert_eq!(cmds[11], text(308, 180, "1234 B", tone(Tone::TextMuted), 2));
    assert_eq!(cmds[12], text(14, 280, "Setas mover  Tab lixeira  Del apagar  Enter abrir", tone(Tone::TextMuted), 2));
}

#[test]
fn empty_trash_view_of_the_file_manager() {
    let r = Rect::new(0, 0, 400, 300);
    let cmds = files_cmds(r, &None, &None, (0, 0), 1, 0, &Vec::new(), 6);
    assert_eq!(cmds.len(), 9);
    assert_eq!(cmds[4], text(14, 120, "Arquivos (0)", tone(Tone::TextMuted), 2));
    assert_eq!(cmds[5], text(184, 120, "Lixeira (0)", tone(Tone::White), 2));
    assert_eq!(cmds[6], Draw::Round { x: 184, y: 142, w: 132, h: 3, r: 1, color: tone(Tone::Accent) });
    assert_eq!(cmds[7], text(20, 162, "(vazio)", tone(Tone::TextMuted), 2));
    assert_eq!(cmds[8], text(14, 280, "Setas mover  Tab arquivos  Del apagar def.  Enter restaurar", tone(Tone::TextMuted), 2));
    // A short window shows no rows.
    let entries = vec![(b"x".to_vec(), 1u32)];
    assert_eq!(files_cmds(Rect::new(0, 0, 400, 150), &None, &None, (1, 0), 0, 0, &entries, 6).len(), 8);
}

#[test]
fn wallpaper_glows_wordmark_and_dock() {
    let cmds = background_cmds(1280, 800);
    assert_eq!(cmds.len(), 800 + 9);
    assert_eq!(cmds[0], Draw::Fill { x: 0, y: 0, w: 1280, h: 1, color: Color::rgb(0x0B, 0x0F, 0x1C) });
    let last = Color::rgb(0x0B, 0x0F, 0x1C).lerp(Color::rgb(0x16, 0x1C, 0x30), 254);
    assert_eq!(cmds[799], Draw::Fill { x: 0, y: 799, w: 1280, h: 1, color: last });
    assert_eq!(cmds[800], Draw::Shade { x: 0, y: 0, w: 426, h: 426, r: 213, color: Color::rgb(0x2D, 0xD4, 0xBF), alpha: 16 });
    assert_eq!(cmds[801], Draw::Shade { x: 854, y: 374, w: 426, h: 426, r: 213, color: Color::rgb(0x7C, 0x6C, 0xFF), alpha: 16 });
    assert_eq!(cmds[802], text(20, 18, "OSJEFF", tone(Tone::HeaderText), 2));
    assert_eq!(cmds[803], Draw::Shade { x: 527, y: 728, w: 226, h: 64, r: 32, color: tone(Tone::Shadow), alpha: 38 });
    assert_eq!(cmds[804], Draw::Round { x: 527, y: 720, w: 226, h: 64, r: 32, color: tone(Tone::Dock) });
    assert_eq!(cmds[805], Draw::Icon { icon: IconKind::Brand, x: 539, y: 732, size: 40 });
    assert_eq!(cmds[808], Draw::Icon { icon: IconKind::TaskMgr, x: 701, y: 732, size: 40 });
    // A narrow screen: the violet glow starts left of the screen.
    let small = background_cmds(300, 200);
    assert_eq!(small[201], Draw::Shade { x: -60, y: -160, w: 360, h: 360, r: 180, color: Color::rgb(0x7C, 0x6C, 0xFF), alpha: 16 });
}

#[test]
fn clipping_boxes_for_the_framebuffer() {
    assert_eq!(clip_box(10, 20, 30, 40), Some((10, 20, 30, 40)));
    assert_eq!(clip_box(-10, -5, 30, 40), Some((0, 0, 20, 35)));
    assert_eq!(clip_box(-30, 0, 30, 40), None);
    assert_eq!(clip_box(0, 0, 0, 5), None);
    assert_eq!(clip_box(0, 0, i64::MAX, 5), None);
    assert_eq!(clip_box(i64::MIN, 0, 5, 5), None);
}
