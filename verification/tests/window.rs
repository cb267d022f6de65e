use osjeff_core::window::{Rect, TITLE_H};

fn win() -> Rect {
    Rect::new(100, 100, 400, 300)
}

#[test]
fn contains_is_half_open() {
    let r = win();
    assert!(r.contains(100, 100));
    assert!(r.contains(499, 399));
    assert!(!r.contains(500, 400));
    assert!(!r.contains(99, 100));
}

#[test]
fn close_button_top_right() {
    let r = win();
    let c = r.close_rect();
    assert_eq!(c, Rect::new(100 + 400 - 18 - 8, 106, 18, 18));
    assert!(r.on_close(c.x + 1, c.y + 1));
    assert!(!r.on_close(r.x + 5, r.y + 5));
}

#[test]
fn title_excludes_close_button() {
    let r = win();
    assert!(r.on_title(r.x + 10, r.y + 10));
    let c = r.close_rect();
    assert!(!r.on_title(c.x + 1, c.y + 1));
}

#[test]
fn title_band_height() {
    let r = win();
    assert!(r.on_title(r.x + 5, r.y + TITLE_H - 1));
    assert!(!r.on_title(r.x + 5, r.y + TITLE_H));
}

#[test]
fn body_is_below_title() {
    let r = win();
    let b = r.body();
    assert_eq!(b, Rect::new(100, 130, 400, 270));
}

#[test]
fn clamp_keeps_window_on_screen() {
    let r = Rect::new(-50, -20, 400, 300);
    assert_eq!(r.clamped_pos(1280, 800), (0, 0));
    let r2 = Rect::new(2000, 2000, 400, 300);
    assert_eq!(r2.clamped_pos(1280, 800), (1280 - 400, 800 - TITLE_H));
}

#[test]
fn union_covers_both() {
    let a = Rect::new(10, 10, 20, 20); // [10,30)x[10,30)
    let b = Rect::new(40, 5, 10, 40); // [40,50)x[5,45)
    let u = a.union(&b);
    assert_eq!(u, Rect::new(10, 5, 40, 40)); // [10,50)x[5,45)
}

#[test]
fn union_with_empty_is_identity() {
    let a = Rect::new(10, 10, 20, 20);
    let empty = Rect::new(0, 0, 0, 0);
    assert_eq!(a.union(&empty), a);
    assert_eq!(empty.union(&a), a);
}

#[test]
fn intersection_overlap() {
    let a = Rect::new(0, 0, 30, 30);
    let b = Rect::new(20, 20, 30, 30);
    assert_eq!(a.intersection(&b), Some(Rect::new(20, 20, 10, 10)));
}

#[test]
fn intersection_disjoint_is_none() {
    let a = Rect::new(0, 0, 10, 10);
    let b = Rect::new(20, 20, 10, 10);
    assert_eq!(a.intersection(&b), None);
    // touching edges (not overlapping) -> None
    assert_eq!(a.intersection(&Rect::new(10, 0, 5, 10)), None);
}

#[test]
fn clamp_to_screen() {
    let r = Rect::new(-5, -5, 20, 20); // [-5,15)
    assert_eq!(r.clamped_to(1280, 800), Rect::new(0, 0, 15, 15));
    let off = Rect::new(1270, 0, 100, 50);
    assert_eq!(off.clamped_to(1280, 800), Rect::new(1270, 0, 10, 50));
    // fully off-screen -> zero area
    assert!(Rect::new(2000, 0, 10, 10).clamped_to(1280, 800).is_empty());
}

#[test]
fn inflate_grows_all_sides() {
    let r = Rect::new(10, 10, 20, 20);
    assert_eq!(r.inflated(5), Rect::new(5, 5, 30, 30));
}

#[test]
fn right_bottom_empty() {
    let r = Rect::new(10, 20, 30, 40);
    assert_eq!(r.right(), 40);
    assert_eq!(r.bottom(), 60);
    assert!(!r.is_empty());
    assert!(Rect::new(0, 0, 0, 5).is_empty());
}

#[test]
fn clamp_handles_oversized_window() {
    // Width exceeds screen -> x pinned to 0. Height never constrains y
    // (only the title bar must stay visible), so y is unchanged.
    let r = Rect::new(10, 10, 2000, 2000);
    assert_eq!(r.clamped_pos(1280, 800), (0, 10));
}
