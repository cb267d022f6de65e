use osjeff_core::kernel::fetch::{http_request, local_port, resolve_redirect, Fetcher, URL_CAP};

#[test]
fn redirects_resolve_against_the_host() {
    assert_eq!(resolve_redirect(b"a.com", b"https://b.org/x"), b"https://b.org/x".to_vec());
    assert_eq!(resolve_redirect(b"a.com", b"HTTP://b.org/"), b"HTTP://b.org/".to_vec());
    assert_eq!(resolve_redirect(b"a.com", b"//cdn.net/p"), b"https://cdn.net/p".to_vec());
    assert_eq!(resolve_redirect(b"a.com", b"/login"), b"https://a.com/login".to_vec());
    assert_eq!(resolve_redirect(b"a.com", b"page.html"), b"https://a.com/page.html".to_vec());
    assert_eq!(resolve_redirect(b"a.com", b""), b"https://a.com/".to_vec());
}

#[test]
fn one_fetch_in_flight() {
    let mut f = Fetcher::new();
    assert!(f.is_idle());
    assert_eq!(f.take_result(), None);
    assert!(f.try_post(b"http://a.com/"));
    assert!(!f.is_idle());
    assert!(!f.try_post(b"http://b.com/"));
    assert_eq!(f.begin(), Some(b"http://a.com/".to_vec()));
    assert_eq!(f.begin(), None);
    assert_eq!(f.take_result(), None);
    f.finish(Some(b"HTTP/1.0 200 OK\r\n\r\nhi".to_vec()));
    assert_eq!(f.take_result(), Some(Some(b"HTTP/1.0 200 OK\r\n\r\nhi".to_vec())));
    assert!(f.is_idle());
    assert_eq!(f.take_result(), None);
}

#[test]
fn failed_fetch_reports_none() {
    let mut f = Fetcher::new();
    assert!(f.try_post(b"http://down/"));
    assert!(f.begin().is_some());
    f.finish(None);
    assert_eq!(f.take_result(), Some(None));
}

#[test]
fn long_urls_are_cut() {
    let mut f = Fetcher::new();
    let url = vec![b'a'; URL_CAP + 100];
    assert!(f.try_post(&url));
    assert_eq!(f.begin().unwrap().len(), URL_CAP);
}

#[test]
fn plain_http_request() {
    assert_eq!(
        http_request(b"example.com", b"/index.html"),
        b"GET /index.html HTTP/1.0\r\nHost: example.com\r\nConnection: close\r\n\r\n".to_vec()
    );
}

#[test]
fn ephemeral_ports() {
    assert_eq!(local_port(0), 49152);
    assert_eq!(local_port(5), 49157);
    assert_eq!(local_port(0x4000), 49152);
    assert_eq!(local_port(0xFFFF), 49152 + 0x3FFF);
}
