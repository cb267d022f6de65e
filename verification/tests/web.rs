use osjeff_core::web::css::{parse_css, parse_simple_selector};
use osjeff_core::web::dom::{parse_html, Element, Node};
use osjeff_core::web::layout::{render, Cmd, Page};
use osjeff_core::web::Rgb;

fn texts(page: &Page) -> Vec<Vec<u8>> {
    page.cmds
        .iter()
        .filter_map(|c| match c {
            Cmd::Text { text, .. } => Some(text.clone()),
            _ => None,
        })
        .collect()
}

fn scale_of(page: &Page, word: &[u8]) -> Option<u8> {
    page.cmds.iter().find_map(|c| match c {
        Cmd::Text { text, scale, .. } if text.as_slice() == word => Some(*scale),
        _ => None,
    })
}

fn has_colored(page: &Page, word: &[u8], want: Rgb) -> bool {
    page.cmds
        .iter()
        .any(|c| matches!(c, Cmd::Text { text, color, .. } if text.as_slice() == word && *color == want))
}

fn contains(hay: &[u8], needle: &[u8]) -> bool {
    hay.windows(needle.len()).any(|w| w == needle)
}

fn first_element(nodes: &[Node]) -> &Element {
    nodes
        .iter()
        .find_map(|n| match n {
            Node::Element(e) => Some(e),
            _ => None,
        })
        .expect("an element")
}

fn count_elements(nodes: &[Node]) -> usize {
    nodes
        .iter()
        .map(|n| match n {
            Node::Element(e) => 1 + count_elements(&e.children),
            Node::Text(_) => 0,
        })
        .sum()
}

#[test]
fn web_renders_heading_and_paragraph() {
    let page = render(b"<h1>Title</h1><p>Hello world</p>", 600);
    let t = texts(&page);
    assert!(t.iter().any(|s| s == b"Title"));
    assert!(t.iter().any(|s| s == b"Hello"));
    assert!(t.iter().any(|s| s == b"world"));
    assert!(page.height > 0);
}

#[test]
fn layout_renders_heading_and_paragraph() {
    let page = render(b"<h1>Title</h1><p>Hello world</p>", 600);
    let t = texts(&page);
    assert!(t.iter().any(|s| s == b"Title"));
    assert!(t.iter().any(|s| s == b"Hello"));
    assert!(t.iter().any(|s| s == b"world"));
    assert!(page.height > 0);
}

#[test]
fn web_heading_is_larger_than_paragraph() {
    let page = render(b"<h1>Big</h1><p>small</p>", 600);
    let big = scale_of(&page, b"Big");
    let small = scale_of(&page, b"small");
    assert!(big > small);
}

#[test]
fn layout_heading_is_larger_than_paragraph() {
    let page = render(b"<h1>Big</h1><p>small</p>", 600);
    let big = scale_of(&page, b"Big");
    let small = scale_of(&page, b"small");
    assert!(big > small);
}

#[test]
fn web_css_color_and_background_applied() {
    let page = render(
        b"<style>.hl{color:#ff0000} body{background:#ffffff}</style><p class=hl>red</p>",
        600,
    );
    let red = has_colored(&page, b"red", Rgb(255, 0, 0));
    assert!(red, "class color should apply");
}

#[test]
fn layout_css_color_and_background_applied() {
    let page = render(
        b"<style>.hl{color:#ff0000} body{background:#ffffff}</style><p class=hl>red</p>",
        600,
    );
    let red = has_colored(&page, b"red", Rgb(255, 0, 0));
    assert!(red, "class color should apply");
}

#[test]
fn web_display_none_hides_content() {
    let page = render(b"<p>shown</p><div style='display:none'>hidden</div>", 600);
    let t = texts(&page);
    assert!(t.iter().any(|s| s == b"shown"));
    assert!(!t.iter().any(|s| s == b"hidden"));
}

#[test]
fn layout_display_none_hides_content() {
    let page = render(b"<p>shown</p><div style='display:none'>hidden</div>", 600);
    let t = texts(&page);
    assert!(t.iter().any(|s| s == b"shown"));
    assert!(!t.iter().any(|s| s == b"hidden"));
}

#[test]
fn web_long_text_wraps_within_width() {
    let long = "word ".repeat(100);
    let html = format!("<p>{long}</p>");
    let page = render(html.as_bytes(), 300);
    let ys: Vec<i32> = page
        .cmds
        .iter()
        .filter_map(|c| match c {
            Cmd::Text { y, .. } => Some(*y),
            _ => None,
        })
        .collect();
    assert!(ys.iter().max() > ys.iter().min());
}

#[test]
fn layout_long_text_wraps_within_width() {
    let long = "word ".repeat(100);
    let html = format!("<p>{long}</p>");
    let page = render(html.as_bytes(), 300);
    let ys: Vec<i32> = page
        .cmds
        .iter()
        .filter_map(|c| match c {
            Cmd::Text { y, .. } => Some(*y),
            _ => None,
        })
        .collect();
    assert!(ys.iter().max() > ys.iter().min());
}

#[test]
fn web_links_get_the_ua_blue() {
    let page = render(b"<p>see <a href=x>this link</a> ok</p>", 600);
    let link_blue = has_colored(&page, b"link", Rgb(0x15, 0x65, 0xC0));
    assert!(link_blue);
}

#[test]
fn layout_links_get_the_ua_blue() {
    let page = render(b"<p>see <a href=x>this link</a> ok</p>", 600);
    let link_blue = has_colored(&page, b"link", Rgb(0x15, 0x65, 0xC0));
    assert!(link_blue);
}

#[test]
fn web_parses_rules_and_decls() {
    let ss = parse_css("h1, .big { color: #fff; font-size: 32px; } p{margin:10px}");
    assert_eq!(ss.rules.len(), 2);
    assert_eq!(ss.rules[0].selectors.len(), 2);
    assert_eq!(ss.rules[0].decls.len(), 2);
    assert_eq!(ss.rules[0].decls[0].name, b"color");
}

#[test]
fn css_parses_rules_and_decls() {
    let ss = parse_css("h1, .big { color: #fff; font-size: 32px; } p{margin:10px}");
    assert_eq!(ss.rules.len(), 2);
    assert_eq!(ss.rules[0].selectors.len(), 2);
    assert_eq!(ss.rules[0].decls.len(), 2);
    assert_eq!(ss.rules[0].decls[0].name, b"color");
}

#[test]
fn web_selector_matching_and_specificity() {
    let (nodes, _) = parse_html(b"<p id=lead class='a b'>x</p>");
    let el = match &nodes[0] {
        Node::Element(e) => e,
        _ => panic!(),
    };
    assert!(parse_simple_selector(b"p").unwrap().matches(el));
    assert!(parse_simple_selector(b".a").unwrap().matches(el));
    assert!(parse_simple_selector(b"#lead").unwrap().matches(el));
    assert!(parse_simple_selector(b"p.a.b").unwrap().matches(el));
    assert!(!parse_simple_selector(b".c").unwrap().matches(el));
    assert!(
        parse_simple_selector(b"#lead").unwrap().specificity()
            > parse_simple_selector(b"p").unwrap().specificity()
    );
}

#[test]
fn css_selector_matching_and_specificity() {
    let (nodes, _) = parse_html(b"<p id=lead class='a b'>x</p>");
    let el = match &nodes[0] {
        Node::Element(e) => e,
        _ => panic!(),
    };
    assert!(parse_simple_selector(b"p").unwrap().matches(el));
    assert!(parse_simple_selector(b".a").unwrap().matches(el));
    assert!(parse_simple_selector(b"#lead").unwrap().matches(el));
    assert!(parse_simple_selector(b"p.a.b").unwrap().matches(el));
    assert!(!parse_simple_selector(b".c").unwrap().matches(el));
    assert!(
        parse_simple_selector(b"#lead").unwrap().specificity()
            > parse_simple_selector(b"p").unwrap().specificity()
    );
}

#[test]
fn web_skips_at_rules_and_comments() {
    let ss = parse_css("@media x { p{color:red} } /* c */ a { color: blue; }");
    assert_eq!(ss.rules.len(), 1);
    assert_eq!(ss.rules[0].selectors[0].tag.as_deref(), Some(b"a".as_slice()));
}

#[test]
fn css_skips_at_rules_and_comments() {
    let ss = parse_css("@media x { p{color:red} } /* c */ a { color: blue; }");
    assert_eq!(ss.rules.len(), 1);
    assert_eq!(ss.rules[0].selectors[0].tag.as_deref(), Some(b"a".as_slice()));
}

#[test]
fn web_rightmost_compound_of_complex_selector() {
    let ss = parse_css("div.box > p span.hl { color: red }");
    let sel = &ss.rules[0].selectors[0];
    assert_eq!(sel.tag.as_deref(), Some(b"span".as_slice()));
    assert_eq!(sel.classes, [b"hl".to_vec()]);
}

#[test]
fn css_rightmost_compound_of_complex_selector() {
    let ss = parse_css("div.box > p span.hl { color: red }");
    let sel = &ss.rules[0].selectors[0];
    assert_eq!(sel.tag.as_deref(), Some(b"span".as_slice()));
    assert_eq!(sel.classes, [b"hl".to_vec()]);
}

#[test]
fn web_parses_nested_elements_and_text() {
    let (nodes, _) = parse_html(b"<div id=x class='a b'><p>Hello <b>world</b></p></div>");
    let div = first_element(&nodes);
    assert_eq!(div.tag, b"div");
    assert_eq!(div.id(), Some(b"x".as_slice()));
    let classes: Vec<_> = div.classes();
    assert_eq!(classes, [b"a".to_vec(), b"b".to_vec()]);
    let p = first_element(&div.children);
    assert_eq!(p.tag, b"p");
}

#[test]
fn dom_parses_nested_elements_and_text() {
    let (nodes, _) = parse_html(b"<div id=x class='a b'><p>Hello <b>world</b></p></div>");
    let div = first_element(&nodes);
    assert_eq!(div.tag, b"div");
    assert_eq!(div.id(), Some(b"x".as_slice()));
    let classes: Vec<_> = div.classes();
    assert_eq!(classes, [b"a".to_vec(), b"b".to_vec()]);
    let p = first_element(&div.children);
    assert_eq!(p.tag, b"p");
}

#[test]
fn web_captures_style_css_and_skips_script() {
    let (nodes, css) =
        parse_html(b"<style>p { color: red; }</style><script>var x=1<2;</script><p>hi</p>");
    assert!(contains(&css, b"color: red"));
    assert_eq!(
        nodes
            .iter()
            .filter(|n| matches!(n, Node::Element(_)))
            .count(),
        1
    );
}

#[test]
fn dom_captures_style_css_and_skips_script() {
    let (nodes, css) =
        parse_html(b"<style>p { color: red; }</style><script>var x=1<2;</script><p>hi</p>");
    assert!(contains(&css, b"color: red"));
    assert_eq!(
        nodes
            .iter()
            .filter(|n| matches!(n, Node::Element(_)))
            .count(),
        1
    );
}

#[test]
fn web_void_and_self_closing_tags() {
    let (nodes, _) = parse_html(b"<div>a<br>b<img src=x/>c</div>");
    let div = first_element(&nodes);
    assert!(div.children.len() >= 3);
}

#[test]
fn dom_void_and_self_closing_tags() {
    let (nodes, _) = parse_html(b"<div>a<br>b<img src=x/>c</div>");
    let div = first_element(&nodes);
    assert!(div.children.len() >= 3);
}

#[test]
fn web_tolerates_unclosed_tags() {
    let (nodes, _) = parse_html(b"<p>one<p>two");
    assert_eq!(count_elements(&nodes), 2);
}

#[test]
fn dom_tolerates_unclosed_tags() {
    let (nodes, _) = parse_html(b"<p>one<p>two");
    assert_eq!(count_elements(&nodes), 2);
}

#[test]
fn web_decodes_entities_in_text() {
    let (nodes, _) = parse_html(b"<p>a &amp; b &#233;</p>");
    let p = first_element(&nodes);
    if let Node::Text(t) = &p.children[0] {
        assert!(contains(t, b"a & b"));
        assert!(t.contains(&b'e'));
    } else {
        panic!("expected text");
    }
}

#[test]
fn dom_decodes_entities_in_text() {
    let (nodes, _) = parse_html(b"<p>a &amp; b &#233;</p>");
    let p = first_element(&nodes);
    if let Node::Text(t) = &p.children[0] {
        assert!(contains(t, b"a & b"));
        assert!(t.contains(&b'e'));
    } else {
        panic!("expected text");
    }
}

#[test]
fn unicode_whitespace_is_trimmed() {
    // NBSP and EM SPACE around a value are whitespace to `str::trim`.
    assert_eq!(
        osjeff_core::web::parse_color("\u{a0} #ffffff\u{2003}"),
        Some(Rgb(255, 255, 255))
    );
    assert_eq!(osjeff_core::web::text::trim("\u{3000}ab\u{85}".as_bytes()), b"ab");
    assert_eq!(osjeff_core::web::text::trim("\u{a0}\u{a0}".as_bytes()), b"");
    // Other multi-byte characters are kept.
    assert_eq!(osjeff_core::web::text::trim("é ".as_bytes()), "é".as_bytes());
}

#[test]
fn words_are_measured_in_characters() {
    assert_eq!(osjeff_core::web::text::utf8_chars("héllo".as_bytes()), 5);
    assert_eq!(osjeff_core::web::text::utf8_chars("日本".as_bytes()), 2);
    assert_eq!(osjeff_core::web::text::utf8_chars(b""), 0);
}

#[test]
fn css_stray_closing_brace_is_skipped() {
    let ss = parse_css("} a { color: blue; }");
    assert_eq!(ss.rules.len(), 1);
    assert_eq!(ss.rules[0].selectors[0].tag.as_deref(), Some(b"a".as_slice()));
    assert_eq!(ss.rules[0].decls[0].name, b"color".to_vec());
    let ss = parse_css("p { x: 1 } } } h1 { y: 2 }");
    assert_eq!(ss.rules.len(), 2);
    // Selector text with no block after it ends the sheet.
    assert_eq!(parse_css("p { x: 1 } em").rules.len(), 1);
}
