use osjeff_core::fs;
use osjeff_core::browser::{html_to_text, parse_url, Browser, Status, COLS};
use osjeff_core::keymap::Key;
use osjeff_core::net::checksum;

#[test]
fn browser_backspace_undoes_typed_char() {
    let mut b = Browser::new();
    b.on_key(Key::Left);
    b.on_key(Key::Left);
    let before = b.url().to_vec();
    let caret = b.caret();
    b.on_key(Key::Char(b'z'));
    assert_ne!(b.url(), &before[..]);
    b.on_key(Key::Backspace);
    assert_eq!(b.url(), &before[..]);
    assert_eq!(b.caret(), caret);
}

#[test]
fn browser_lines_numbered_by_line_count() {
    let mut b = Browser::new();
    b.load_response(b"\r\n\r\n<p>a</p><p>b</p><p>c</p>");
    let n = b.line_count();
    assert!(n >= 3);
    for i in 0..n {
        assert!(b.line(i).is_some());
    }
    assert!(b.line(n).is_none());
}

#[test]
fn browser_fail_and_empty_page_messages() {
    let mut b = Browser::new();
    b.fail();
    assert_eq!(b.status(), Status::Error);
    assert_eq!(b.content(), b"Falha ao carregar a pagina (sem rede, DNS ou TLS).");
    b.load_response(b"HTTP/1.0 200 OK\r\n\r\n<script>x</script>");
    assert_eq!(b.status(), Status::Done);
    assert_eq!(b.content(), b"(pagina vazia)");
}

#[test]
fn html_text_lines_fit_even_for_long_words() {
    let word = [b'x'; 3 * COLS + 7];
    let mut out = [0u8; 1024];
    let n = html_to_text(&word, &mut out);
    assert!(n > 0);
    for line in out[..n].split(|&c| c == b'\n') {
        assert!(line.len() <= COLS);
    }
}

#[test]
fn html_text_truncates_to_buffer() {
    let mut out = [0u8; 4];
    let n = html_to_text(b"<p>hello world</p>", &mut out);
    assert_eq!(n, 4);
    assert_eq!(&out, b"hell");
}

#[test]
fn url_port_out_of_range_keeps_default() {
    let u = parse_url(b"http://host:99999/x").unwrap();
    assert_eq!(u.port, 80);
    assert_eq!(u.path(), b"/x");
    let u = parse_url(b"  https://HOST:0").unwrap();
    assert_eq!(u.port, 443);
    assert_eq!(u.host(), b"HOST");
}

#[test]
fn checksum_odd_length_pads_low_byte() {
    // 0x0102 + 0x0300 = 0x0402 -> !0x0402
    assert_eq!(checksum(&[0x01, 0x02, 0x03]), !0x0402u16);
    assert_eq!(checksum(&[]), 0xFFFF);
}

#[test]
fn restore_after_trash_gives_back_the_image() {
    let mut img = [0u8; fs::IMAGE_SIZE];
    fs::format(&mut img);
    let docs = fs::mkdir(&mut img, fs::ROOT, b"docs").unwrap();
    let sub = fs::mkdir(&mut img, docs as u8, b"sub").unwrap();
    fs::write_in(&mut img, sub as u8, b"deep.txt", b"deep").unwrap();
    fs::write_in(&mut img, docs as u8, b"a.txt", b"hi").unwrap();
    fs::write(&mut img, b"other", b"x").unwrap();
    let before = img;
    assert_eq!(fs::trash(&mut img, b"docs"), Ok(()));
    assert_ne!(img[..], before[..]);
    assert_eq!(fs::restore(&mut img, b"docs"), Ok(()));
    assert_eq!(img[..], before[..]);
    // Nothing named so in the trash: restore refuses and changes nothing.
    assert_eq!(fs::restore(&mut img, b"docs"), Err(fs::FsError::NotFound));
    assert_eq!(img[..], before[..]);
}
