use osjeff_core::kernel::canvas::{inside_round, Canvas, FbInfo, PixelFormat};
use osjeff_core::kernel::fb::Color;

fn canvas(w: usize, h: usize, stride: usize, bpp: usize, f: PixelFormat) -> Canvas {
    let info = FbInfo { width: w, height: h, stride, bytes_per_pixel: bpp, pixel_format: f };
    Canvas::new(vec![0u8; h * stride * bpp], info)
}

fn px(c: &Canvas, x: usize, y: usize) -> Vec<u8> {
    let bpp = c.bpp();
    let o = (y * c.info.stride + x) * bpp;
    c.buf[o..o + bpp].to_vec()
}

#[test]
fn put_writes_channels_in_format_order() {
    let mut c = canvas(4, 3, 4, 4, PixelFormat::Rgb);
    c.put(1, 2, Color::rgb(10, 20, 30));
    assert_eq!(px(&c, 1, 2), vec![10, 20, 30, 0]);
    let mut d = canvas(4, 3, 4, 3, PixelFormat::Bgr);
    d.put(0, 0, Color::rgb(10, 20, 30));
    assert_eq!(px(&d, 0, 0), vec![30, 20, 10]);
}

#[test]
fn put_grey_uses_luma() {
    let mut c = canvas(2, 2, 2, 1, PixelFormat::U8);
    c.put(1, 1, Color::rgb(255, 255, 255));
    // (255 * 54 + 255 * 183 + 255 * 19) >> 8 = 255
    assert_eq!(px(&c, 1, 1), vec![255]);
    c.put(0, 0, Color::rgb(100, 0, 0));
    assert_eq!(px(&c, 0, 0), vec![(100u16 * 54 >> 8) as u8]);
}

#[test]
fn put_off_screen_changes_nothing() {
    let mut c = canvas(2, 2, 3, 3, PixelFormat::Rgb);
    let before = c.buf.clone();
    c.put(2, 0, Color::rgb(1, 2, 3));
    c.put(0, 2, Color::rgb(1, 2, 3));
    assert_eq!(c.buf, before);
}

#[test]
fn fill_rect_is_clipped_to_the_screen() {
    let mut c = canvas(4, 4, 5, 3, PixelFormat::Rgb);
    c.fill_rect(2, 1, 10, 2, Color::rgb(7, 8, 9));
    for y in 0..4 {
        for x in 0..5 {
            let inside = (2..4).contains(&x) && (1..3).contains(&y);
            let want = if inside { vec![7, 8, 9] } else { vec![0, 0, 0] };
            assert_eq!(px(&c, x, y), want, "pixel {} {}", x, y);
        }
    }
}

#[test]
fn fill_rect_with_four_byte_pixels_clears_padding() {
    let info = FbInfo { width: 2, height: 1, stride: 2, bytes_per_pixel: 4, pixel_format: PixelFormat::Bgr };
    let mut c = Canvas::new(vec![0xAA; 8], info);
    c.fill_rect(0, 0, 2, 1, Color::rgb(1, 2, 3));
    assert_eq!(c.buf, vec![3, 2, 1, 0, 3, 2, 1, 0]);
}

#[test]
fn blend_pixel_mixes_by_alpha() {
    let mut c = canvas(1, 1, 1, 3, PixelFormat::Rgb);
    c.put(0, 0, Color::rgb(100, 200, 0));
    c.blend_pixel(0, 0, Color::rgb(200, 0, 255), 128);
    // (100 * 128 + 200 * 128) / 256 = 150; (200 * 128) / 256 = 100; (255 * 128) / 256 = 127
    assert_eq!(px(&c, 0, 0), vec![150, 100, 127]);
    c.blend_pixel(0, 0, Color::rgb(9, 9, 9), 1000);
    assert_eq!(px(&c, 0, 0), vec![9, 9, 9]);
    c.blend_pixel(0, 0, Color::rgb(200, 200, 200), 0);
    assert_eq!(px(&c, 0, 0), vec![9, 9, 9]);
}

#[test]
fn blend_pixel_skips_grey_images() {
    let mut c = canvas(1, 1, 1, 1, PixelFormat::U8);
    c.blend_pixel(0, 0, Color::rgb(255, 255, 255), 256);
    assert_eq!(c.buf, vec![0]);
}

#[test]
fn rounded_outline_cuts_corners() {
    assert!(inside_round(0, 0, 10, 10, 0));
    assert!(!inside_round(0, 0, 10, 10, 3));
    assert!(inside_round(3, 0, 10, 10, 3));
    assert!(inside_round(5, 5, 10, 10, 3));
    assert!(!inside_round(9, 9, 10, 10, 3));
    assert!(inside_round(6, 3, 10, 10, 3));
}

#[test]
fn round_rect_leaves_corners() {
    let mut c = canvas(8, 8, 8, 3, PixelFormat::Rgb);
    c.fill_round_rect(0, 0, 8, 8, 3, Color::rgb(1, 1, 1));
    assert_eq!(px(&c, 0, 0), vec![0, 0, 0]);
    assert_eq!(px(&c, 7, 7), vec![0, 0, 0]);
    assert_eq!(px(&c, 4, 4), vec![1, 1, 1]);
    assert_eq!(px(&c, 0, 4), vec![1, 1, 1]);
    assert_eq!(px(&c, 4, 0), vec![1, 1, 1]);
}

#[test]
fn round_rect_alpha_blends_inside_only() {
    let mut c = canvas(8, 8, 8, 3, PixelFormat::Rgb);
    c.fill_round_rect_alpha(0, 0, 8, 8, 3, Color::rgb(200, 200, 200), 128);
    assert_eq!(px(&c, 0, 0), vec![0, 0, 0]);
    assert_eq!(px(&c, 4, 4), vec![100, 100, 100]);
}

#[test]
fn snapshot_then_blend_at_zero_restores_backdrop() {
    let mut c = canvas(4, 4, 4, 3, PixelFormat::Rgb);
    c.fill_rect(0, 0, 4, 4, Color::rgb(10, 20, 30));
    let mut saved = vec![0u8; 2 * 2 * 3];
    c.snapshot_region(&mut saved, 1, 1, 2, 2);
    assert_eq!(saved, vec![10, 20, 30, 10, 20, 30, 10, 20, 30, 10, 20, 30]);
    c.fill_rect(1, 1, 2, 2, Color::rgb(250, 250, 250));
    let window = c.buf.clone();
    c.blend_from_local(&saved, 1, 1, 2, 2, 256);
    assert_eq!(c.buf, window);
    c.blend_from_local(&saved, 1, 1, 2, 2, 0);
    assert_eq!(px(&c, 1, 1), vec![10, 20, 30]);
    assert_eq!(px(&c, 2, 2), vec![10, 20, 30]);
}

#[test]
fn blend_from_local_mixes_halfway() {
    let mut c = canvas(2, 1, 2, 3, PixelFormat::Rgb);
    c.fill_rect(0, 0, 2, 1, Color::rgb(200, 100, 0));
    let backdrop = vec![0u8, 100, 200, 0, 100, 200];
    c.blend_from_local(&backdrop, 0, 0, 2, 1, 128);
    assert_eq!(c.buf, vec![100, 100, 100, 100, 100, 100]);
}

#[test]
fn snapshot_clipped_at_screen_edge() {
    let mut c = canvas(3, 3, 3, 1, PixelFormat::U8);
    c.buf = vec![1, 2, 3, 4, 5, 6, 7, 8, 9];
    let mut saved = vec![0u8; 4];
    c.snapshot_region(&mut saved, 2, 1, 2, 2);
    // Only column 2 of rows 1 and 2 is on screen.
    assert_eq!(saved, vec![6, 0, 9, 0]);
}

#[test]
fn draw_rgba_skips_transparent_pixels() {
    let mut c = canvas(2, 1, 2, 3, PixelFormat::Rgb);
    let data = vec![255, 0, 0, 255, 0, 255, 0, 0];
    c.draw_rgba(&data, 2, 1, 0, 0);
    assert_eq!(px(&c, 0, 0), vec![255, 0, 0]);
    assert_eq!(px(&c, 1, 0), vec![0, 0, 0]);
}
