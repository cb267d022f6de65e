use osjeff_core::kernel::canvas::{copy_region, FbInfo, PixelFormat};
use osjeff_core::kernel::panels::{
    browser_home_layout, calc_button_at, calc_layout, clamp_menu, dock_hit, dock_layout, key_label,
    menu_item_at, overlay_bounds, start_height, start_item_at, start_origin, BrowserChrome, DockAction,
    StartItem,
};
use osjeff_core::window::Rect;

#[test]
fn calculator_keypad_geometry() {
    let r = Rect::new(470, 150, 300, 420);
    assert_eq!(calc_layout(r), (484, 252, 62, 54, 8));
}

#[test]
fn calculator_keys_under_points() {
    let r = Rect::new(470, 150, 300, 420);
    assert_eq!(calc_button_at(r, 484, 252), Some(b'C'));
    assert_eq!(calc_button_at(r, 554, 252), Some(0x08));
    assert_eq!(calc_button_at(r, 546, 252), None); // the gap between cells
    assert_eq!(calc_button_at(r, 554, 500), Some(b'0'));
    assert_eq!(calc_button_at(r, 694, 438), Some(b'='));
    assert_eq!(calc_button_at(r, 500, 200), None);
}

#[test]
fn calculator_too_small_has_no_keys() {
    let r = Rect::new(0, 0, 40, 100);
    assert_eq!(calc_button_at(r, 10, 90), None);
}

#[test]
fn launcher_dock_slots() {
    let (dock, slots) = dock_layout(1280, 800);
    assert_eq!(dock, Rect::new(473, 720, 334, 64));
    assert_eq!(slots.len(), 6);
    for (i, s) in slots.iter().enumerate() {
        assert_eq!(*s, Rect::new(485 + 54 * i as i32, 732, 40, 40));
    }
}

#[test]
fn launcher_dock_actions() {
    assert_eq!(dock_hit(1280, 800, 485, 732), Some(DockAction::Start));
    assert_eq!(dock_hit(1280, 800, 539, 740), Some(DockAction::Open(0)));
    assert_eq!(dock_hit(1280, 800, 755, 771), Some(DockAction::Open(4)));
    assert_eq!(dock_hit(1280, 800, 525, 732), None);
    assert_eq!(dock_hit(1280, 800, 485, 731), None);
}

#[test]
fn start_panel_position() {
    assert_eq!(start_height(), 298);
    assert_eq!(start_origin(1280, 800), (385, 422));
    // On a narrow screen the panel keeps 8 pixels from the left edge.
    assert_eq!(start_origin(200, 800).0, 8);
}

#[test]
fn start_panel_entries() {
    assert_eq!(start_item_at(1280, 800, 400, 432), Some(StartItem::App(0)));
    assert_eq!(start_item_at(1280, 800, 400, 589), Some(StartItem::App(4)));
    assert_eq!(start_item_at(1280, 800, 400, 625), None); // the divider gap
    assert_eq!(start_item_at(1280, 800, 400, 634), Some(StartItem::Reboot));
    assert_eq!(start_item_at(1280, 800, 400, 672), Some(StartItem::Shutdown));
    assert_eq!(start_item_at(1280, 800, 400, 710), None);
    assert_eq!(start_item_at(1280, 800, 390, 432), None);
}

#[test]
fn launcher_menu_items() {
    assert_eq!(menu_item_at(100, 100, 110, 106), Some(0));
    assert_eq!(menu_item_at(100, 100, 110, 106 + 32 * 4), Some(4));
    assert_eq!(menu_item_at(100, 100, 110, 106 + 32 * 5), None);
    assert_eq!(menu_item_at(100, 100, 105, 120), None);
    assert_eq!(clamp_menu(1280, 800, 1200, 700), (1060, 628));
    assert_eq!(clamp_menu(1280, 800, -5, -5), (0, 0));
}

#[test]
fn keypad_labels() {
    assert_eq!(key_label(0x08), b'<');
    assert_eq!(key_label(b'7'), b'7');
}

#[test]
fn browser_chrome_layout() {
    let c = BrowserChrome::of(Rect::new(150, 60, 916, 560));
    assert_eq!(c.home, Rect::new(164, 102, 36, 36));
    assert_eq!(c.reload, Rect::new(208, 102, 36, 36));
    assert_eq!(c.go, Rect::new(1016, 102, 36, 36));
    assert_eq!(c.bar, Rect::new(252, 102, 756, 36));
    assert_eq!(c.content, Rect::new(164, 154, 888, 452));
    assert_eq!(c.line_h, 18);
    assert_eq!(c.visible, 25);
}

#[test]
fn browser_chrome_in_a_tiny_window() {
    let c = BrowserChrome::of(Rect::new(0, 0, 100, 100));
    assert_eq!(c.bar.w, 60);
    assert_eq!(c.content.h, 0);
    assert_eq!(c.visible, 0);
}

#[test]
fn browser_start_page_layout() {
    let (logo, tiles) = browser_home_layout(Rect::new(164, 154, 888, 452));
    assert_eq!(logo, Rect::new(566, 184, 84, 84));
    assert_eq!(
        tiles,
        vec![
            Rect::new(281, 376, 150, 96),
            Rect::new(449, 376, 150, 96),
            Rect::new(617, 376, 150, 96),
            Rect::new(785, 376, 150, 96),
        ]
    );
}

#[test]
fn overlay_bounds_cover_menu_and_start_panel() {
    assert_eq!(overlay_bounds(None, false, 1280, 800), Rect::new(0, 0, 0, 0));
    assert_eq!(overlay_bounds(Some((100, 100)), false, 1280, 800), Rect::new(88, 88, 244, 196));
    assert_eq!(overlay_bounds(None, true, 1280, 800), Rect::new(373, 410, 264, 322));
    assert_eq!(overlay_bounds(Some((1000, 50)), true, 1280, 800), Rect::new(373, 38, 859, 694));
    assert_eq!(overlay_bounds(Some((0, 0)), false, 1280, 800), Rect::new(0, 0, 232, 184));
}

#[test]
fn copy_region_copies_only_the_clipped_rectangle() {
    let info = FbInfo { width: 4, height: 3, stride: 4, bytes_per_pixel: 3, pixel_format: PixelFormat::Rgb };
    let src: Vec<u8> = (0..36u8).collect();
    let mut dst = vec![0u8; 36];
    copy_region(&mut dst, &src, info, Rect::new(1, 1, 2, 5));
    for y in 0..3usize {
        for x in 0..4usize {
            let o = (y * 4 + x) * 3;
            let inside = (1..3).contains(&x) && (1..3).contains(&y);
            for j in 0..3 {
                let want = if inside { src[o + j] } else { 0 };
                assert_eq!(dst[o + j], want, "pixel {} {} byte {}", x, y, j);
            }
        }
    }
    let mut dst2 = vec![0u8; 36];
    copy_region(&mut dst2, &src, info, Rect::new(-5, 0, 6, 1));
    assert_eq!(&dst2[0..3], &src[0..3]);
    assert!(dst2[3..].iter().all(|&b| b == 0));
}

#[test]
fn hit_areas_lie_inside_their_panels() {
    let (sx, sy) = start_origin(1280, 800);
    let start = Rect::new(sx, sy, 240, start_height());
    let (dock, _) = dock_layout(1280, 800);
    let calc = Rect::new(470, 150, 300, 420);
    for py in (0..800).step_by(3) {
        for px in (0..1280).step_by(3) {
            if start_item_at(1280, 800, px, py).is_some() {
                assert!(start.contains(px, py), "start {} {}", px, py);
            }
            if dock_hit(1280, 800, px, py).is_some() {
                assert!(dock.contains(px, py), "dock {} {}", px, py);
            }
            if calc_button_at(calc, px, py).is_some() {
                assert!(calc.contains(px, py), "calc {} {}", px, py);
            }
            if menu_item_at(100, 100, px, py).is_some() {
                assert!(Rect::new(100, 100, 220, 172).contains(px, py), "menu {} {}", px, py);
            }
        }
    }
}
