use osjeff_core::apps::plasma::{Plasma, H, W};

#[test]
fn plasma_keys_and_clicks() {
    let mut p = Plasma::new();
    assert_eq!((p.shift, p.speed), (0, 16));
    p.on_key(32);
    assert_eq!(p.shift, 48);
    p.on_key(10);
    assert_eq!(p.speed, 24);
    for _ in 0..3 {
        p.on_key(10);
    }
    assert_eq!(p.speed, 4);
    p.on_pointer(10, 3, 0);
    assert_eq!(p.shift, 48);
    p.on_pointer(10, 3, 1);
    assert_eq!(p.shift, 68);
    p.on_pointer(-5, 3, 1);
    assert_eq!(p.shift, 68);
}

#[test]
fn plasma_pixels() {
    let p = Plasma { shift: 3, speed: 10 };
    let img = p.frame(100);
    assert_eq!(img.len(), W * H * 4);
    // Pixel (2, 1) at phase 10: a = 5, b = 13, v = 18.
    let o = (W + 2) * 4;
    assert_eq!(&img[o..o + 4], &[18, 13, 15, 255]);
    assert_eq!(&img[0..4], &[13, 10, 11, 255]);
}
