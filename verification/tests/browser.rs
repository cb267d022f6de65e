use osjeff_core::browser::{build_search_url, encode_query, html_to_text, http_body, looks_like_url, parse_url, Browser, Status, COLS};
use osjeff_core::keymap::Key;

#[test]
fn parse_plain_host_defaults_https() {
    let u = parse_url(b"example.com").unwrap();
    assert!(u.https);
    assert_eq!(u.port, 443);
    assert_eq!(u.host(), b"example.com");
    assert_eq!(u.path(), b"/");
}

#[test]
fn parse_http_scheme_and_path_and_port() {
    let u = parse_url(b"http://example.com:8080/a/b?x=1").unwrap();
    assert!(!u.https);
    assert_eq!(u.port, 8080);
    assert_eq!(u.host(), b"example.com");
    assert_eq!(u.path(), b"/a/b?x=1");
}

#[test]
fn parse_https_default_port_and_query_only_path() {
    let u = parse_url(b"https://duckduckgo.com/html/?q=rust").unwrap();
    assert!(u.https);
    assert_eq!(u.port, 443);
    assert_eq!(u.host(), b"duckduckgo.com");
    assert_eq!(u.path(), b"/html/?q=rust");
}

#[test]
fn parse_rejects_empty_host() {
    assert!(parse_url(b"   ").is_none());
    assert!(parse_url(b"https://").is_none());
}

#[test]
fn url_vs_search_heuristic() {
    assert!(looks_like_url(b"example.com"));
    assert!(looks_like_url(b"http://foo.bar/baz"));
    assert!(!looks_like_url(b"rust programming"));
    assert!(!looks_like_url(b"hello"));
    assert!(!looks_like_url(b"two words.with dot"));
}

#[test]
fn encode_query_escapes() {
    let mut out = [0u8; 64];
    let n = encode_query(b"rust lang & co", &mut out);
    assert_eq!(&out[..n], b"rust+lang+%26+co");
}

#[test]
fn search_url_built() {
    let mut out = [0u8; 128];
    let n = build_search_url(b"rust", &mut out);
    assert_eq!(&out[..n], b"https://www.bing.com/search?q=rust");
}

#[test]
fn http_body_after_headers() {
    let resp = b"HTTP/1.0 200 OK\r\nContent-Type: text/html\r\n\r\n<p>hi</p>";
    assert_eq!(http_body(resp), b"<p>hi</p>");
}

#[test]
fn html_strips_tags_and_decodes_entities() {
    let html = b"<html><body><p>Hello &amp; welcome</p><p>Line 2</p></body></html>";
    let mut out = [0u8; 256];
    let n = html_to_text(html, &mut out);
    let text = core::str::from_utf8(&out[..n]).unwrap();
    assert!(text.contains("Hello & welcome"));
    assert!(text.contains("Line 2"));
    // Block boundary inserted a newline.
    assert!(text.contains('\n'));
}

#[test]
fn html_skips_script_and_style() {
    let html =
        b"<style>.x{color:red}</style><p>Keep</p><script>var a=1<2;</script><p>This</p>";
    let mut out = [0u8; 256];
    let n = html_to_text(html, &mut out);
    let text = core::str::from_utf8(&out[..n]).unwrap();
    assert!(text.contains("Keep"));
    assert!(text.contains("This"));
    assert!(!text.contains("color"));
    assert!(!text.contains("var a"));
}

#[test]
fn html_wraps_long_lines() {
    let mut html = [b'a'; 200];
    // make it words
    for i in (0..200).step_by(5) {
        html[i] = b' ';
    }
    let mut out = [0u8; 512];
    let n = html_to_text(&html, &mut out);
    for line in out[..n].split(|&c| c == b'\n') {
        assert!(line.len() <= COLS, "line too long: {}", line.len());
    }
}

#[test]
fn browser_typing_and_caret() {
    let mut b = Browser::new();
    // clear the default url
    while b.caret() > 0 {
        b.on_key(Key::Backspace);
    }
    for &c in b"abc" {
        b.on_key(Key::Char(c));
    }
    assert_eq!(b.url(), b"abc");
    b.on_key(Key::Left);
    b.on_key(Key::Char(b'X'));
    assert_eq!(b.url(), b"abXc");
}

#[test]
fn browser_submit_navigates_url() {
    let mut b = Browser::new();
    b.submit();
    let req = b.take_request().unwrap();
    assert_eq!(req, b"https://www.bing.com");
    assert_eq!(b.status(), Status::Loading);
    assert!(b.take_request().is_none()); // consumed
}

#[test]
fn browser_submit_searches_free_text() {
    let mut b = Browser::new();
    while b.caret() > 0 {
        b.on_key(Key::Backspace);
    }
    for &c in b"rust lang" {
        b.on_key(Key::Char(c));
    }
    b.on_key(Key::Enter);
    let req = b.take_request().unwrap();
    assert_eq!(req, b"https://www.bing.com/search?q=rust+lang");
}

#[test]
fn browser_loads_response_into_lines() {
    let mut b = Browser::new();
    b.load_response(b"HTTP/1.0 200 OK\r\n\r\n<p>One</p><p>Two</p>");
    assert_eq!(b.status(), Status::Done);
    assert!(b.line_count() >= 2);
    assert!(b.content().windows(3).any(|w| w == b"One"));
}

#[test]
fn browser_scroll_clamps() {
    let mut b = Browser::new();
    b.load_response(b"\r\n\r\n<p>a</p><p>b</p><p>c</p>");
    b.scroll = 100;
    b.clamp_scroll(2);
    assert!(b.scroll <= b.line_count());
}

#[test]
fn port_out_of_range_keeps_default() {
    let u = parse_url(b"http://example.com:70000/x").unwrap();
    assert_eq!(u.port, 80);
    let u = parse_url(b"example.com:0").unwrap();
    assert_eq!(u.port, 443);
    // A value past 65535 is out of range however many digits it has.
    let u = parse_url(b"http://example.com:4294967297/").unwrap();
    assert_eq!(u.port, 80);
    let u = parse_url(b"a.com:4294967376").unwrap();
    assert_eq!(u.port, 443);
    let u = parse_url(b"a.com:0000065535").unwrap();
    assert_eq!(u.port, 65535);
}
