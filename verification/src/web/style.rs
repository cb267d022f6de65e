//! Style cascade: combine the user-agent and page stylesheets into the
//! computed values of each element.
use vstd::prelude::*;
use vstd::string::StringSliceAdditionalSpecFns;
use crate::browser::{all_digits, digits_value, lemma_digits_step, lemma_scan_bounds, scan};
use crate::bytes::bytes_eq;
use super::{parse_color_bytes, parse_color_spec, Rgb};
use super::css::{
    decl_view, decls_view, matches_spec, parse_decls, parse_decls_spec, rule_view, rules_view, selector_view,
    selectors_view, specificity_spec, DeclV, RuleV, SelectorV, Stylesheet,
};
use super::dom::{attr_get, attrs_view, Element};
use super::text::{first_word_len, negate, next_ws, trim, trim_str};

verus! {

/// The user-agent default stylesheet: block elements stack, headings are
/// bold and larger, links are blue, lists indent.
pub fn ua_css() -> (s: &'static str)
    ensures
        s@ == ua_css_spec()@,
{
    "
html,body,div,p,h1,h2,h3,h4,h5,h6,ul,ol,header,footer,article,section,nav,main,blockquote,pre,table,tr,form,figure,figcaption{display:block}
li{display:list-item}
script,style,head,title,meta,link{display:none}
h1{font-size:30px;font-weight:bold;margin:16px}
h2{font-size:25px;font-weight:bold;margin:14px}
h3{font-size:21px;font-weight:bold;margin:12px}
h4,h5,h6{font-size:18px;font-weight:bold;margin:10px}
p{margin:10px}
ul,ol{margin:10px;padding:20px}
blockquote{margin:14px}
a{color:#1565C0}
b,strong{font-weight:bold}
body{color:#14233A;font-size:16px}
"
}

pub open spec fn ua_css_spec() -> &'static str {
    "
html,body,div,p,h1,h2,h3,h4,h5,h6,ul,ol,header,footer,article,section,nav,main,blockquote,pre,table,tr,form,figure,figcaption{display:block}
li{display:list-item}
script,style,head,title,meta,link{display:none}
h1{font-size:30px;font-weight:bold;margin:16px}
h2{font-size:25px;font-weight:bold;margin:14px}
h3{font-size:21px;font-weight:bold;margin:12px}
h4,h5,h6{font-size:18px;font-weight:bold;margin:10px}
p{margin:10px}
ul,ol{margin:10px;padding:20px}
blockquote{margin:14px}
a{color:#1565C0}
b,strong{font-weight:bold}
body{color:#14233A;font-size:16px}
"
}

#[derive(Clone, Copy, PartialEq, Eq, Debug, Structural)]
pub enum Disp {
    Block,
    Inline,
    ListItem,
    Hidden,
}

#[derive(Clone, Copy, PartialEq, Eq, Debug, Structural)]
pub enum Align {
    Left,
    Center,
}

/// Computed style for one element: only the properties the renderer uses.
#[derive(Clone, Copy, PartialEq, Eq, Debug, Structural)]
pub struct Computed {
    pub display: Disp,
    pub color: Rgb,
    pub bg: Option<Rgb>,
    pub scale: u8,
    pub bold: bool,
    pub margin: i32,
    pub padding: i32,
    pub align: Align,
}

impl Computed {
    /// The inherited root style (the `body` defaults before any element).
    pub fn root() -> (c: Self)
        ensures
            c == root_spec(),
    {
        Computed {
            display: Disp::Block,
            color: Rgb(0x14, 0x23, 0x3A),
            bg: None,
            scale: 2,
            bold: false,
            margin: 0,
            padding: 0,
            align: Align::Left,
        }
    }
}

pub open spec fn root_spec() -> Computed {
    Computed {
        display: Disp::Block,
        color: Rgb(0x14, 0x23, 0x3A),
        bg: None,
        scale: 2,
        bold: false,
        margin: 0,
        padding: 0,
        align: Align::Left,
    }
}

/// The display an element has before any stylesheet.
pub open spec fn default_display_spec(tag: Seq<u8>) -> Disp {
    if tag == "html".spec_bytes() || tag == "body".spec_bytes() || tag == "div".spec_bytes() || tag == "p".spec_bytes()
        || tag == "h1".spec_bytes() || tag == "h2".spec_bytes() || tag == "h3".spec_bytes() || tag == "h4".spec_bytes()
        || tag == "h5".spec_bytes() || tag == "h6".spec_bytes() || tag == "ul".spec_bytes() || tag == "ol".spec_bytes()
        || tag == "header".spec_bytes() || tag == "footer".spec_bytes() || tag == "article".spec_bytes()
        || tag == "section".spec_bytes() || tag == "nav".spec_bytes() || tag == "main".spec_bytes()
        || tag == "blockquote".spec_bytes() || tag == "pre".spec_bytes() || tag == "table".spec_bytes()
        || tag == "tr".spec_bytes() || tag == "form".spec_bytes() || tag == "figure".spec_bytes()
        || tag == "figcaption".spec_bytes() {
        Disp::Block
    } else if tag == "li".spec_bytes() {
        Disp::ListItem
    } else if tag == "script".spec_bytes() || tag == "style".spec_bytes() || tag == "head".spec_bytes()
        || tag == "title".spec_bytes() || tag == "meta".spec_bytes() || tag == "link".spec_bytes() {
        Disp::Hidden
    } else {
        Disp::Inline
    }
}

fn default_display(tag: &[u8]) -> (d: Disp)
    ensures
        d == default_display_spec(tag@),
{
    if bytes_eq(tag, "html".as_bytes()) || bytes_eq(tag, "body".as_bytes()) || bytes_eq(tag, "div".as_bytes())
        || bytes_eq(tag, "p".as_bytes()) || bytes_eq(tag, "h1".as_bytes()) || bytes_eq(tag, "h2".as_bytes())
        || bytes_eq(tag, "h3".as_bytes()) || bytes_eq(tag, "h4".as_bytes()) || bytes_eq(tag, "h5".as_bytes())
        || bytes_eq(tag, "h6".as_bytes()) || bytes_eq(tag, "ul".as_bytes()) || bytes_eq(tag, "ol".as_bytes())
        || bytes_eq(tag, "header".as_bytes()) || bytes_eq(tag, "footer".as_bytes()) || bytes_eq(
        tag,
        "article".as_bytes(),
    ) || bytes_eq(tag, "section".as_bytes()) || bytes_eq(tag, "nav".as_bytes()) || bytes_eq(tag, "main".as_bytes())
        || bytes_eq(tag, "blockquote".as_bytes()) || bytes_eq(tag, "pre".as_bytes()) || bytes_eq(
        tag,
        "table".as_bytes(),
    ) || bytes_eq(tag, "tr".as_bytes()) || bytes_eq(tag, "form".as_bytes()) || bytes_eq(tag, "figure".as_bytes())
        || bytes_eq(tag, "figcaption".as_bytes()) {
        Disp::Block
    } else if bytes_eq(tag, "li".as_bytes()) {
        Disp::ListItem
    } else if bytes_eq(tag, "script".as_bytes()) || bytes_eq(tag, "style".as_bytes()) || bytes_eq(
        tag,
        "head".as_bytes(),
    ) || bytes_eq(tag, "title".as_bytes()) || bytes_eq(tag, "meta".as_bytes()) || bytes_eq(tag, "link".as_bytes()) {
        Disp::Hidden
    } else {
        Disp::Inline
    }
}

/// The bitmap font scale (1..=6) for a CSS pixel font size: the nearest
/// multiple of 8 pixels.
pub open spec fn scale_spec(px: i32) -> u8 {
    if px + 4 < 8 {
        1
    } else if (px + 4) / 8 > 6 {
        6
    } else {
        ((px + 4) / 8) as u8
    }
}

pub fn scale_from_px(px: i32) -> (s: u8)
    ensures
        s == scale_spec(px),
{
    if px < 4 {
        1
    } else {
        let q = (px as i64 + 4) / 8;
        if q > 6 {
            6
        } else {
            q as u8
        }
    }
}

/// `s` with every trailing `px` removed.
pub open spec fn strip_px(s: Seq<u8>) -> Seq<u8>
    decreases s.len(),
{
    if s.len() >= 2 && s[s.len() - 2] == 0x70 && s[s.len() - 1] == 0x78 {
        strip_px(s.subrange(0, s.len() - 2))
    } else {
        s
    }
}

pub open spec fn digit_fn() -> spec_fn(u8) -> bool {
    |c: u8| 0x30 <= c <= 0x39
}

/// A leading CSS length like `12px` or `12`, in pixels.
pub open spec fn parse_px_spec(v: Seq<u8>) -> Option<i32> {
    let t = trim_str(strip_px(trim_str(v)));
    let d = t.subrange(0, scan(t, 0, negate(digit_fn())));
    if d.len() == 0 || digits_value(d) > i32::MAX {
        None
    } else {
        Some(digits_value(d) as i32)
    }
}

pub fn parse_px(v: &[u8]) -> (r: Option<i32>)
    ensures
        r == parse_px_spec(v@),
{
    let t0 = trim(v);
    let mut e = t0.len();
    assert(t0@.subrange(0, t0@.len() as int) =~= t0@);
    while e >= 2 && t0[e - 2] == 0x70 && t0[e - 1] == 0x78
        invariant
            e <= t0@.len(),
            strip_px(t0@) == strip_px(t0@.subrange(0, e as int)),
        decreases e,
    {
        assert(t0@.subrange(0, e as int).subrange(0, e - 2) =~= t0@.subrange(0, e - 2));
        e -= 2;
    }
    let t = trim(&t0[0..e]);
    let n = t.len();
    let mut k: usize = 0;
    let mut v: u64 = 0;
    assert(t@.subrange(0, 0) =~= Seq::<u8>::empty());
    while k < n && 0x30 <= t[k] && t[k] <= 0x39
        invariant
            n == t@.len(),
            k <= n,
            scan(t@, 0, negate(digit_fn())) == scan(t@, k as int, negate(digit_fn())),
            v <= 0x7FFF_FFFF * 10 + 9,
            v <= 0x7FFF_FFFF ==> v == digits_value(t@.subrange(0, k as int)),
            v > 0x7FFF_FFFF ==> digits_value(t@.subrange(0, k as int)) > 0x7FFF_FFFF,
        decreases n - k,
    {
        proof {
            lemma_digits_step(t@, 0, k as int);
        }
        if v <= 0x7FFF_FFFF {
            v = v * 10 + (t[k] - 0x30) as u64;
        }
        k += 1;
    }
    proof {
        lemma_scan_bounds(t@, k as int, negate(digit_fn()));
    }
    if k == 0 || v > 0x7FFF_FFFF {
        None
    } else {
        Some(v as i32)
    }
}

// ---- cascade ----

/// `a` is at most `b` in lexicographic order.
pub open spec fn le3(a: (int, int, int), b: (int, int, int)) -> bool {
    a.0 < b.0 || (a.0 == b.0 && (a.1 < b.1 || (a.1 == b.1 && a.2 <= b.2)))
}

/// `a` ranks strictly below `b` in the order the cascade uses.
pub open spec fn ranks_below(a: SelectorV, b: SelectorV) -> bool {
    le3(specificity_spec(a), specificity_spec(b)) && specificity_spec(a) != specificity_spec(b)
}

/// An id outranks everything without one, whatever the number of classes
/// and tags on either side; with ids alike, more classes outrank fewer,
/// whatever the tags; with ids and class counts alike, a tag outranks none.
pub proof fn lemma_specificity_order(a: SelectorV, b: SelectorV)
    ensures
        a.1 is Some && b.1 is None ==> ranks_below(b, a),
        (a.1 is Some) == (b.1 is Some) && a.2.len() > b.2.len() ==> ranks_below(b, a),
        (a.1 is Some) == (b.1 is Some) && a.2.len() == b.2.len() && a.0 is Some && b.0 is None ==> ranks_below(b, a),
{
}

/// The highest specificity among the selectors that match, if any do.
pub open spec fn best_spec(sels: Seq<SelectorV>, tag: Seq<u8>, attrs: Seq<(Seq<u8>, Seq<u8>)>) -> Option<(int, int, int)>
    decreases sels.len(),
{
    if sels.len() == 0 {
        None
    } else {
        let rest = best_spec(sels.drop_last(), tag, attrs);
        if matches_spec(sels.last(), tag, attrs) {
            let s = specificity_spec(sels.last());
            match rest {
                Some(r) => if le3(s, r) { Some(r) } else { Some(s) },
                None => Some(s),
            }
        } else {
            rest
        }
    }
}

/// The rules that apply, each with its specificity, in sheet order.
pub open spec fn matched_rules(rules: Seq<RuleV>, tag: Seq<u8>, attrs: Seq<(Seq<u8>, Seq<u8>)>) -> Seq<((int, int, int), Seq<DeclV>)>
    decreases rules.len(),
{
    if rules.len() == 0 {
        Seq::empty()
    } else {
        let rest = matched_rules(rules.drop_last(), tag, attrs);
        match best_spec(rules.last().0, tag, attrs) {
            Some(s) => rest.push((s, rules.last().1)),
            None => rest,
        }
    }
}

/// Where a stable insertion puts an item with key `k`: before the first item
/// with a greater key.
pub open spec fn insert_pos(sorted: Seq<((int, int, int), Seq<DeclV>)>, k: (int, int, int)) -> int
    decreases sorted.len(),
{
    if sorted.len() == 0 {
        0
    } else if le3(sorted.last().0, k) {
        sorted.len() as int
    } else {
        insert_pos(sorted.drop_last(), k)
    }
}

/// The items sorted by key, equal keys kept in order (a stable sort).
pub open spec fn sort_stable(items: Seq<((int, int, int), Seq<DeclV>)>) -> Seq<((int, int, int), Seq<DeclV>)>
    decreases items.len(),
{
    if items.len() == 0 {
        Seq::empty()
    } else {
        let s = sort_stable(items.drop_last());
        s.insert(insert_pos(s, items.last().0), items.last())
    }
}

/// The declarations of the items, in order.
pub open spec fn flatten(items: Seq<((int, int, int), Seq<DeclV>)>) -> Seq<DeclV>
    decreases items.len(),
{
    if items.len() == 0 {
        Seq::empty()
    } else {
        flatten(items.drop_last()) + items.last().1
    }
}

/// The first word of a trimmed value.
pub open spec fn first_word(v: Seq<u8>) -> Seq<u8> {
    v.subrange(0, next_ws(v, 0))
}

/// The effect of one declaration on a computed style.
pub open spec fn apply_decl(c: Computed, d: DeclV) -> Computed {
    let v = trim_str(d.1);
    let n = d.0;
    if n == "display".spec_bytes() {
        Computed {
            display: if v == "block".spec_bytes() {
                Disp::Block
            } else if v == "inline".spec_bytes() || v == "inline-block".spec_bytes() {
                Disp::Inline
            } else if v == "list-item".spec_bytes() {
                Disp::ListItem
            } else if v == "none".spec_bytes() {
                Disp::Hidden
            } else {
                c.display
            },
            ..c
        }
    } else if n == "color".spec_bytes() {
        match parse_color_spec(v) {
            Some(rgb) => Computed { color: rgb, ..c },
            None => c,
        }
    } else if n == "background".spec_bytes() || n == "background-color".spec_bytes() {
        Computed { bg: parse_color_spec(first_word(v)), ..c }
    } else if n == "font-size".spec_bytes() {
        match parse_px_spec(v) {
            Some(px) => Computed { scale: scale_spec(px), ..c },
            None => c,
        }
    } else if n == "font-weight".spec_bytes() {
        Computed {
            bold: v == "bold".spec_bytes() || v == "bolder".spec_bytes() || v == "600".spec_bytes() || v
                == "700".spec_bytes() || v == "800".spec_bytes() || v == "900".spec_bytes(),
            ..c
        }
    } else if n == "text-align".spec_bytes() {
        Computed { align: if v == "center".spec_bytes() { Align::Center } else { Align::Left }, ..c }
    } else if n == "margin".spec_bytes() || n == "margin-top".spec_bytes() {
        match parse_px_spec(v) {
            Some(px) => Computed { margin: px, ..c },
            None => c,
        }
    } else if n == "padding".spec_bytes() || n == "padding-left".spec_bytes() {
        match parse_px_spec(v) {
            Some(px) => Computed { padding: px, ..c },
            None => c,
        }
    } else {
        c
    }
}

/// The declarations applied in order.
pub open spec fn apply_all(c: Computed, ds: Seq<DeclV>) -> Computed
    decreases ds.len(),
{
    if ds.len() == 0 {
        c
    } else {
        apply_decl(apply_all(c, ds.drop_last()), ds.last())
    }
}

/// The style an element starts from: its tag's display and what it inherits.
pub open spec fn initial_style(tag: Seq<u8>, parent: Computed) -> Computed {
    Computed {
        display: default_display_spec(tag),
        color: parent.color,
        bg: None,
        scale: parent.scale,
        bold: parent.bold,
        margin: 0,
        padding: 0,
        align: parent.align,
    }
}

/// The computed style of an element: the declarations of the matching rules
/// from lowest to highest specificity (sheet order among equals), then its
/// inline `style` attribute, applied over the initial style.
#[verifier::opaque]
pub open spec fn compute_spec(tag: Seq<u8>, attrs: Seq<(Seq<u8>, Seq<u8>)>, rules: Seq<RuleV>, parent: Computed) -> Computed {
    let inline = match attr_get(attrs, "style".spec_bytes()) {
        Some(s) => parse_decls_spec(s),
        None => Seq::empty(),
    };
    apply_all(initial_style(tag, parent), flatten(sort_stable(matched_rules(rules, tag, attrs))) + inline)
}

fn le3_exec(a: (usize, usize, usize), b: (usize, usize, usize)) -> (r: bool)
    ensures
        r == le3((a.0 as int, a.1 as int, a.2 as int), (b.0 as int, b.1 as int, b.2 as int)),
{
    a.0 < b.0 || (a.0 == b.0 && (a.1 < b.1 || (a.1 == b.1 && a.2 <= b.2)))
}

/// The highest specificity among the selectors of a rule that match `el`.
fn best(sels: &Vec<super::css::Selector>, el: &Element) -> (r: Option<(usize, usize, usize)>)
    ensures
        match r {
            Some(s) => best_spec(selectors_view(sels@), el.tag@, attrs_view(el.attrs@)) == Some(
                (s.0 as int, s.1 as int, s.2 as int),
            ),
            None => best_spec(selectors_view(sels@), el.tag@, attrs_view(el.attrs@)) is None,
        },
{
    let mut out: Option<(usize, usize, usize)> = None;
    let mut k: usize = 0;
    assert(selectors_view(sels@).subrange(0, 0) =~= Seq::<SelectorV>::empty());
    while k < sels.len()
        invariant
            k <= sels@.len(),
            match out {
                Some(s) => best_spec(selectors_view(sels@).subrange(0, k as int), el.tag@, attrs_view(el.attrs@))
                    == Some((s.0 as int, s.1 as int, s.2 as int)),
                None => best_spec(selectors_view(sels@).subrange(0, k as int), el.tag@, attrs_view(el.attrs@)) is None,
            },
        decreases sels@.len() - k,
    {
        let ghost pre = selectors_view(sels@).subrange(0, k + 1);
        assert(pre.drop_last() =~= selectors_view(sels@).subrange(0, k as int));
        assert(pre.last() == selector_view(sels@[k as int]));
        if sels[k].matches(el) {
            let sp = sels[k].specificity();
            match out {
                Some(r) => {
                    if !le3_exec(sp, r) {
                        out = Some(sp);
                    }
                },
                None => {
                    out = Some(sp);
                },
            }
        }
        k += 1;
    }
    assert(selectors_view(sels@).subrange(0, sels@.len() as int) =~= selectors_view(sels@));
    out
}

pub open spec fn item_view(rules: Seq<RuleV>, it: ((usize, usize, usize), usize)) -> ((int, int, int), Seq<DeclV>) {
    ((it.0.0 as int, it.0.1 as int, it.0.2 as int), rules[it.1 as int].1)
}

pub open spec fn items_view(rules: Seq<RuleV>, its: Seq<((usize, usize, usize), usize)>) -> Seq<((int, int, int), Seq<DeclV>)> {
    Seq::new(its.len(), |i: int| item_view(rules, its[i]))
}

/// The matching rules of `sheet` (by index) sorted by specificity, sheet
/// order kept among equals.
fn sorted_matches(el: &Element, sheet: &Stylesheet) -> (r: Vec<((usize, usize, usize), usize)>)
    ensures
        items_view(rules_view(sheet.rules@), r@) == sort_stable(
            matched_rules(rules_view(sheet.rules@), el.tag@, attrs_view(el.attrs@)),
        ),
        forall|i: int| 0 <= i < r@.len() ==> r@[i].1 < sheet.rules@.len(),
{
    let ghost rv = rules_view(sheet.rules@);
    let ghost tag = el.tag@;
    let ghost attrs = attrs_view(el.attrs@);
    let mut sorted: Vec<((usize, usize, usize), usize)> = Vec::new();
    let mut k: usize = 0;
    assert(rv.subrange(0, 0) =~= Seq::<RuleV>::empty());
    assert(items_view(rv, sorted@) =~= Seq::<((int, int, int), Seq<DeclV>)>::empty());
    while k < sheet.rules.len()
        invariant
            rv == rules_view(sheet.rules@),
            tag == el.tag@,
            attrs == attrs_view(el.attrs@),
            k <= sheet.rules@.len(),
            items_view(rv, sorted@) == sort_stable(matched_rules(rv.subrange(0, k as int), tag, attrs)),
            forall|i: int| 0 <= i < sorted@.len() ==> sorted@[i].1 < k,
        decreases sheet.rules@.len() - k,
    {
        let ghost pre = rv.subrange(0, k + 1);
        assert(pre.drop_last() =~= rv.subrange(0, k as int));
        assert(pre.last() == rule_view(sheet.rules@[k as int]));
        match best(&sheet.rules[k].selectors, el) {
            Some(sp) => {
                let ghost key = (sp.0 as int, sp.1 as int, sp.2 as int);
                let ghost sv = items_view(rv, sorted@);
                let mut p = sorted.len();
                assert(sv.subrange(0, sv.len() as int) =~= sv);
                while p > 0 && !le3_exec(sorted[p - 1].0, sp)
                    invariant
                        p <= sorted@.len(),
                        key == (sp.0 as int, sp.1 as int, sp.2 as int),
                        sv == items_view(rv, sorted@),
                        insert_pos(sv, key) == insert_pos(sv.subrange(0, p as int), key),
                    decreases p,
                {
                    assert(sv.subrange(0, p as int).drop_last() =~= sv.subrange(0, p - 1));
                    assert(sv.subrange(0, p as int).last() == sv[p - 1]);
                    assert(sv[p - 1].0 == (sorted@[p - 1].0.0 as int, sorted@[p - 1].0.1 as int, sorted@[p - 1].0.2 as int));
                    p -= 1;
                }
                if p > 0 {
                    assert(sv.subrange(0, p as int).last() == sv[p - 1]);
                    assert(sv[p - 1].0 == (sorted@[p - 1].0.0 as int, sorted@[p - 1].0.1 as int, sorted@[p - 1].0.2 as int));
                }
                assert(insert_pos(sv.subrange(0, p as int), key) == p);
                let ghost old_sorted = sorted@;
                sorted.insert(p, (sp, k));
                assert(items_view(rv, sorted@) =~= sv.insert(p as int, item_view(rv, (sp, k))));
                assert(item_view(rv, (sp, k)) == (key, pre.last().1));
                let ghost x = matched_rules(rv.subrange(0, k as int), tag, attrs);
                assert(matched_rules(pre, tag, attrs) == x.push((key, pre.last().1)));
                assert(x.push((key, pre.last().1)).drop_last() =~= x);
                assert(sort_stable(x.push((key, pre.last().1))) == sv.insert(insert_pos(sv, key), (key, pre.last().1)));
            },
            None => {},
        }
        k += 1;
    }
    assert(rv.subrange(0, sheet.rules@.len() as int) =~= rv);
    sorted
}

fn apply_decl_exec(c: Computed, d: &super::css::Decl) -> (r: Computed)
    ensures
        r == apply_decl(c, decl_view(*d)),
{
    let v = trim(d.value.as_slice());
    let n = d.name.as_slice();
    if bytes_eq(n, "display".as_bytes()) {
        let display = if bytes_eq(v, "block".as_bytes()) {
            Disp::Block
        } else if bytes_eq(v, "inline".as_bytes()) || bytes_eq(v, "inline-block".as_bytes()) {
            Disp::Inline
        } else if bytes_eq(v, "list-item".as_bytes()) {
            Disp::ListItem
        } else if bytes_eq(v, "none".as_bytes()) {
            Disp::Hidden
        } else {
            c.display
        };
        Computed { display, ..c }
    } else if bytes_eq(n, "color".as_bytes()) {
        match parse_color_bytes(v) {
            Some(rgb) => Computed { color: rgb, ..c },
            None => c,
        }
    } else if bytes_eq(n, "background".as_bytes()) || bytes_eq(n, "background-color".as_bytes()) {
        let e = first_word_len(v);
        Computed { bg: parse_color_bytes(&v[0..e]), ..c }
    } else if bytes_eq(n, "font-size".as_bytes()) {
        match parse_px(v) {
            Some(px) => Computed { scale: scale_from_px(px), ..c },
            None => c,
        }
    } else if bytes_eq(n, "font-weight".as_bytes()) {
        let bold = bytes_eq(v, "bold".as_bytes()) || bytes_eq(v, "bolder".as_bytes()) || bytes_eq(v, "600".as_bytes())
            || bytes_eq(v, "700".as_bytes()) || bytes_eq(v, "800".as_bytes()) || bytes_eq(v, "900".as_bytes());
        Computed { bold, ..c }
    } else if bytes_eq(n, "text-align".as_bytes()) {
        Computed { align: if bytes_eq(v, "center".as_bytes()) { Align::Center } else { Align::Left }, ..c }
    } else if bytes_eq(n, "margin".as_bytes()) || bytes_eq(n, "margin-top".as_bytes()) {
        match parse_px(v) {
            Some(px) => Computed { margin: px, ..c },
            None => c,
        }
    } else if bytes_eq(n, "padding".as_bytes()) || bytes_eq(n, "padding-left".as_bytes()) {
        match parse_px(v) {
            Some(px) => Computed { padding: px, ..c },
            None => c,
        }
    } else {
        c
    }
}

/// Apply `decls` in order to `c`.
fn apply_decls(c: Computed, decls: &Vec<super::css::Decl>, Ghost(done): Ghost<Seq<DeclV>>, Ghost(
    init,
): Ghost<Computed>) -> (r: Computed)
    requires
        c == apply_all(init, done),
    ensures
        r == apply_all(init, done + decls_view(decls@)),
{
    let mut cur = c;
    let mut k: usize = 0;
    assert(done + decls_view(decls@).subrange(0, 0) =~= done);
    while k < decls.len()
        invariant
            k <= decls@.len(),
            cur == apply_all(init, done + decls_view(decls@).subrange(0, k as int)),
        decreases decls@.len() - k,
    {
        let ghost pre = done + decls_view(decls@).subrange(0, k + 1);
        assert(pre.drop_last() =~= done + decls_view(decls@).subrange(0, k as int));
        assert(pre.last() == decl_view(decls@[k as int]));
        cur = apply_decl_exec(cur, &decls[k]);
        k += 1;
    }
    assert(decls_view(decls@).subrange(0, decls@.len() as int) =~= decls_view(decls@));
    cur
}

/// Resolve the computed style for `el` given its inherited parent style.
pub fn compute(el: &Element, sheet: &Stylesheet, parent: &Computed) -> (c: Computed)
    ensures
        c == compute_spec(el.tag@, attrs_view(el.attrs@), rules_view(sheet.rules@), *parent),
{
    proof {
        reveal(compute_spec);
    }
    let init = Computed {
        display: default_display(el.tag.as_slice()),
        color: parent.color,
        bg: None,
        scale: parent.scale,
        bold: parent.bold,
        margin: 0,
        padding: 0,
        align: parent.align,
    };
    let ghost rv = rules_view(sheet.rules@);
    let sorted = sorted_matches(el, sheet);
    let ghost sv = items_view(rv, sorted@);
    let mut cur = init;
    let mut m: usize = 0;
    assert(sv.subrange(0, 0) =~= Seq::<((int, int, int), Seq<DeclV>)>::empty());
    while m < sorted.len()
        invariant
            rv == rules_view(sheet.rules@),
            sv == items_view(rv, sorted@),
            forall|i: int| 0 <= i < sorted@.len() ==> sorted@[i].1 < sheet.rules@.len(),
            m <= sorted@.len(),
            cur == apply_all(init, flatten(sv.subrange(0, m as int))),
        decreases sorted@.len() - m,
    {
        let idx = sorted[m].1;
        let ghost pre = sv.subrange(0, m + 1);
        assert(pre.drop_last() =~= sv.subrange(0, m as int));
        assert(pre.last().1 == decls_view(sheet.rules@[idx as int].decls@));
        cur = apply_decls(cur, &sheet.rules[idx].decls, Ghost(flatten(sv.subrange(0, m as int))), Ghost(init));
        m += 1;
    }
    assert(sv.subrange(0, sorted@.len() as int) =~= sv);
    let ghost before = flatten(sv);
    let style_key = "style".as_bytes();
    match el.attrs_get(style_key) {
        Some(st) => {
            let inline = parse_decls(st);
            cur = apply_decls(cur, &inline, Ghost(before), Ghost(init));
        },
        None => {
            assert(before + Seq::<DeclV>::empty() =~= before);
        },
    }
    cur
}

} // verus!
