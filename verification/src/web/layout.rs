//! Block layout with inline text flow, producing the display list.
//!
//! Coordinates are `i32` with wrapping arithmetic, as an optimised build of
//! the renderer computes them.
use vstd::prelude::*;
use vstd::string::StringSliceAdditionalSpecFns;
use super::Rgb;
use super::css::{parse_css_bytes, rules_from, rules_view, RuleV, Stylesheet};
use super::dom::{attrs_view, node_view, nodes_view, parse_html, parse_html_spec, Element, Node, NodeV};
use super::style::{compute, compute_spec, root_spec, ua_css, ua_css_spec, Align, Computed, Disp};
use super::text::{char_count, split, split_spec, utf8_chars};
use crate::bytes::bytes_eq;

verus! {

/// A rectangle or a run of text to paint. The kernel maps `Rgb`/`scale` onto
/// its framebuffer and bitmap font.
pub enum Cmd {
    Rect { x: i32, y: i32, w: i32, h: i32, color: Rgb },
    Text { x: i32, y: i32, text: Vec<u8>, color: Rgb, scale: u8, bold: bool },
}

/// A paint command as plain values.
pub enum CmdV {
    Rect(i32, i32, i32, i32, Rgb),
    Text(i32, i32, Seq<u8>, Rgb, u8, bool),
}

/// A laid-out page: a flat display list plus the total content height (for
/// scrolling).
pub struct Page {
    pub cmds: Vec<Cmd>,
    pub height: i32,
}

pub open spec fn cmd_view(c: Cmd) -> CmdV {
    match c {
        Cmd::Rect { x, y, w, h, color } => CmdV::Rect(x, y, w, h, color),
        Cmd::Text { x, y, text, color, scale, bold } => CmdV::Text(x, y, text@, color, scale, bold),
    }
}

pub open spec fn cmds_view(cs: Seq<Cmd>) -> Seq<CmdV> {
    Seq::new(cs.len(), |i: int| cmd_view(cs[i]))
}

/// Wrapping `i32` addition.
#[verifier::opaque]
pub open spec fn wadd(a: i32, b: i32) -> i32 {
    vstd::wrapping::i32_specs::wrapping_add(a, b)
}

/// Wrapping `i32` subtraction.
#[verifier::opaque]
pub open spec fn wsub(a: i32, b: i32) -> i32 {
    vstd::wrapping::i32_specs::wrapping_sub(a, b)
}

/// Wrapping `i32` multiplication.
#[verifier::opaque]
pub open spec fn wmul(a: i32, b: i32) -> i32 {
    vstd::wrapping::i32_specs::wrapping_mul(a, b)
}

fn add_w(a: i32, b: i32) -> (r: i32)
    ensures
        r == wadd(a, b),
{
    proof {
        reveal(wadd);
    }
    a.wrapping_add(b)
}

fn sub_w(a: i32, b: i32) -> (r: i32)
    ensures
        r == wsub(a, b),
{
    proof {
        reveal(wsub);
    }
    a.wrapping_sub(b)
}

fn mul_w(a: i32, b: i32) -> (r: i32)
    ensures
        r == wmul(a, b),
{
    proof {
        reveal(wmul);
    }
    a.wrapping_mul(b)
}

/// Width in pixels of a character cell at `scale`.
pub open spec fn char_w_spec(scale: u8) -> i32 {
    (6 * scale) as i32
}

/// Height in pixels of a text line at `scale`.
pub open spec fn line_h_spec(scale: u8) -> i32 {
    (9 * scale) as i32
}

fn char_w(scale: u8) -> (w: i32)
    ensures
        w == char_w_spec(scale),
{
    6 * scale as i32
}

fn line_h(scale: u8) -> (h: i32)
    ensures
        h == line_h_spec(scale),
{
    9 * scale as i32
}

/// One word of inline content with the style it renders with.
pub struct Word {
    pub text: Vec<u8>,
    pub color: Rgb,
    pub scale: u8,
    pub bold: bool,
}

/// A word as plain values: text, color, scale, bold.
pub type WordV = (Seq<u8>, Rgb, u8, bool);

pub open spec fn word_view(w: Word) -> WordV {
    (w.text@, w.color, w.scale, w.bold)
}

pub open spec fn words_view(ws: Seq<Word>) -> Seq<WordV> {
    Seq::new(ws.len(), |i: int| word_view(ws[i]))
}

/// The words of `pieces` (space-separated parts of a text) in style `c`,
/// empty ones dropped.
pub open spec fn styled_words(pieces: Seq<Seq<u8>>, c: Computed) -> Seq<WordV>
    decreases pieces.len(),
{
    if pieces.len() == 0 {
        Seq::empty()
    } else {
        let rest = styled_words(pieces.drop_last(), c);
        if pieces.last().len() == 0 { rest } else { rest.push((pieces.last(), c.color, c.scale, c.bold)) }
    }
}

/// `out` with the words of `text` added in style `c`.
pub open spec fn push_words_spec(out: Seq<WordV>, text: Seq<u8>, c: Computed) -> Seq<WordV> {
    out + styled_words(split_spec(text, 0x20), c)
}

/// Inline flow: the words of the current line, its width so far, its
/// tallest scale, the pen's y, and the commands emitted so far.
pub struct FlowV {
    pub line: Seq<WordV>,
    pub line_w: i32,
    pub max_scale: u8,
    pub y: i32,
    pub cmds: Seq<CmdV>,
}

/// Rust's `/ 2` on `i32`, rounding toward zero.
pub open spec fn half(d: i32) -> i32 {
    if d >= 0 { (d / 2) as i32 } else { (-((-d) / 2)) as i32 }
}

/// The text commands of one line, words placed left to right from `lx`.
pub open spec fn line_cmds(line: Seq<WordV>, lx: i32, y: i32) -> Seq<CmdV>
    decreases line.len(),
{
    if line.len() == 0 {
        Seq::empty()
    } else {
        let w = line[0];
        let next = wadd(wadd(lx, wmul(char_w_spec(w.2), char_count(w.0) as i32)), char_w_spec(w.2));
        seq![CmdV::Text(lx, y, w.0, w.1, w.2, w.3)] + line_cmds(line.drop_first(), next, y)
    }
}

/// Emit the current line (centred when asked and it is narrower than the
/// box) and move the pen down by its height.
pub open spec fn flush_line_spec(st: FlowV, x: i32, width: i32, align: Align) -> FlowV {
    if st.line.len() == 0 {
        st
    } else {
        let lx = if align == Align::Center && st.line_w < width { wadd(x, half(wsub(width, st.line_w))) } else { x };
        FlowV {
            line: Seq::empty(),
            line_w: 0,
            max_scale: 1,
            y: wadd(st.y, line_h_spec(st.max_scale)),
            cmds: st.cmds + line_cmds(st.line, lx, st.y),
        }
    }
}

/// Add one word to the flow: a line-feed word ends the line; a word that
/// does not fit after the words already on the line starts a new one.
pub open spec fn flow_step(st: FlowV, w: WordV, x: i32, width: i32, align: Align) -> FlowV {
    if w.0 == seq![0x0Au8] {
        flush_line_spec(st, x, width, align)
    } else {
        let ww = wmul(char_w_spec(w.2), char_count(w.0) as i32);
        let space = if st.line.len() == 0 { 0i32 } else { char_w_spec(w.2) };
        let st1 = if wadd(wadd(st.line_w, space), ww) > width && st.line.len() > 0 {
            flush_line_spec(st, x, width, align)
        } else {
            st
        };
        let lw = if st1.line.len() == 0 { wadd(st1.line_w, ww) } else { wadd(st1.line_w, wadd(space, ww)) };
        FlowV {
            line: st1.line.push(w),
            line_w: lw,
            max_scale: if st1.max_scale >= w.2 { st1.max_scale } else { w.2 },
            y: st1.y,
            cmds: st1.cmds,
        }
    }
}

pub open spec fn flow_all(ws: Seq<WordV>, st: FlowV, x: i32, width: i32, align: Align) -> FlowV
    decreases ws.len(),
{
    if ws.len() == 0 {
        st
    } else {
        flow_step(flow_all(ws.drop_last(), st, x, width, align), ws.last(), x, width, align)
    }
}

/// The commands and the new pen y after laying out buffered inline words as
/// wrapped line boxes.
#[verifier::opaque]
pub open spec fn flush_inline_spec(words: Seq<WordV>, x: i32, y: i32, width: i32, align: Align, cmds: Seq<CmdV>) -> (
    Seq<CmdV>,
    i32,
) {
    if words.len() == 0 {
        (cmds, y)
    } else {
        let st = flow_all(words, FlowV { line: Seq::empty(), line_w: 0, max_scale: 1, y, cmds }, x, width, align);
        let f = flush_line_spec(st, x, width, align);
        (f.cmds, f.y)
    }
}

/// The word stream of an inline element (styled `parent`) added to `out`: a
/// `<br>` is a line-feed word; children contribute their words, hidden ones
/// nothing.
pub open spec fn collect_spec(node: NodeV, rules: Seq<RuleV>, parent: Computed, out: Seq<WordV>) -> Seq<WordV>
    decreases node, 0int,
{
    match node {
        NodeV::Element(tag, attrs, ch) => if tag == "br".spec_bytes() {
            out.push((seq![0x0Au8], parent.color, parent.scale, parent.bold))
        } else {
            collect_from(ch, 0, rules, parent, out)
        },
        NodeV::Text(_) => out,
    }
}

pub open spec fn collect_from(nodes: Seq<NodeV>, k: int, rules: Seq<RuleV>, parent: Computed, out: Seq<WordV>) -> Seq<
    WordV,
>
    decreases nodes, nodes.len() - k,
{
    if k < 0 || k >= nodes.len() {
        out
    } else {
        let out2 = match nodes[k] {
            NodeV::Text(t) => push_words_spec(out, t, parent),
            NodeV::Element(tag, attrs, _) => {
                let c = compute_spec(tag, attrs, rules, parent);
                if c.display != Disp::Hidden { collect_spec(nodes[k], rules, c, out) } else { out }
            },
        };
        collect_from(nodes, k + 1, rules, parent, out2)
    }
}

/// Block layout state: the pen's y, the inline words not yet laid out, and
/// the commands so far.
pub struct LayV {
    pub y: i32,
    pub inline: Seq<WordV>,
    pub cmds: Seq<CmdV>,
}

/// Lay out the nodes from `k` on in a block box at `x` of `width`: text and
/// inline elements gather words; a block or list item first lays out the
/// gathered words, then itself; hidden elements are skipped.
pub open spec fn children_from(
    nodes: Seq<NodeV>,
    k: int,
    rules: Seq<RuleV>,
    parent: Computed,
    x: i32,
    width: i32,
    st: LayV,
) -> LayV
    decreases nodes, nodes.len() - k,
{
    if k < 0 || k >= nodes.len() {
        st
    } else {
        let st2 = match nodes[k] {
            NodeV::Text(t) => LayV { inline: push_words_spec(st.inline, t, parent), ..st },
            NodeV::Element(tag, attrs, _) => {
                let c = compute_spec(tag, attrs, rules, parent);
                if c.display == Disp::Hidden {
                    st
                } else if c.display == Disp::Inline {
                    LayV { inline: collect_spec(nodes[k], rules, c, st.inline), ..st }
                } else {
                    let f = flush_inline_spec(st.inline, x, st.y, width, parent.align, st.cmds);
                    let b = block_spec(nodes[k], c, rules, x, f.1, width, f.0);
                    LayV { y: b.1, inline: Seq::empty(), cmds: b.0 }
                }
            },
        };
        children_from(nodes, k + 1, rules, parent, x, width, st2)
    }
}

/// Lay out sibling nodes from pen position `y`; the commands and the y
/// below the last of them.
pub open spec fn layout_spec(
    nodes: Seq<NodeV>,
    rules: Seq<RuleV>,
    parent: Computed,
    x: i32,
    y: i32,
    width: i32,
    cmds: Seq<CmdV>,
) -> (Seq<CmdV>, i32)
    decreases nodes, nodes.len() + 1,
{
    let st = children_from(nodes, 0, rules, parent, x, width, LayV { y, inline: Seq::empty(), cmds });
    flush_inline_spec(st.inline, x, st.y, width, parent.align, st.cmds)
}

/// Lay out one block element styled `c`: margin, padding, an optional list
/// marker, its children, and a background behind them.
pub open spec fn block_spec(node: NodeV, c: Computed, rules: Seq<RuleV>, x: i32, y: i32, width: i32, cmds: Seq<CmdV>) -> (
    Seq<CmdV>,
    i32,
)
    decreases node, 0int,
{
    match node {
        NodeV::Element(tag, attrs, ch) => {
            let y1 = wadd(y, c.margin);
            let li = c.display == Disp::ListItem;
            let cx = wadd(wadd(x, c.padding), if li { 8i32 } else { 0i32 });
            let cw0 = wsub(width, wmul(2, c.padding));
            let cw = if cw0 >= 20 { cw0 } else { 20i32 };
            let y2 = wadd(y1, c.padding);
            let cmds1 = if li {
                cmds.push(CmdV::Text(wsub(cx, 12), y2, seq![0x2Du8], c.color, c.scale, false))
            } else {
                cmds
            };
            let r = layout_spec(ch, rules, c, cx, y2, cw, cmds1);
            let y4 = wadd(r.1, c.padding);
            let cmds3 = match c.bg {
                Some(bg) => r.0.insert(
                    cmds.len() as int,
                    CmdV::Rect(x, y1, width, if wsub(y4, y1) >= 0 { wsub(y4, y1) } else { 0i32 }, bg),
                ),
                None => r.0,
            };
            (cmds3, wadd(y4, c.margin))
        },
        NodeV::Text(_) => (cmds, y),
    }
}

/// What [`render`] gives for a document and a viewport width: the display
/// list and the page height.
pub open spec fn render_spec(html: Seq<u8>, viewport_w: i32) -> (Seq<CmdV>, i32) {
    let doc = parse_html_spec(html);
    let rules = rules_from(ua_css_spec().spec_bytes(), 0, Seq::empty()) + rules_from(doc.1, 0, Seq::empty());
    let w0 = wsub(viewport_w, 24);
    let r = layout_spec(doc.0, rules, root_spec(), 12, 12, if w0 >= 40 { w0 } else { 40i32 }, Seq::empty());
    (r.0, wadd(r.1, 12))
}

proof fn lemma_nodes_view_index(ns: Seq<Node>)
    ensures
        nodes_view(ns).len() == ns.len(),
        forall|k: int| 0 <= k < ns.len() ==> nodes_view(ns)[k] == node_view(#[trigger] ns[k]),
    decreases ns.len(),
{
    if ns.len() > 0 {
        lemma_nodes_view_index(ns.drop_last());
        assert forall|k: int| 0 <= k < ns.len() implies nodes_view(ns)[k] == node_view(#[trigger] ns[k]) by {
            if k < ns.len() - 1 {
                assert(ns.drop_last()[k] == ns[k]);
            }
        }
    }
}

pub open spec fn element_view(el: Element) -> NodeV {
    NodeV::Element(el.tag@, attrs_view(el.attrs@), nodes_view(el.children@))
}

fn push_words(out: &mut Vec<Word>, text: &[u8], c: &Computed)
    ensures
        words_view(final(out)@) == push_words_spec(words_view(old(out)@), text@, *c),
{
    let parts = split(text, 0x20);
    let mut k: usize = 0;
    assert(parts.deep_view().subrange(0, 0) =~= Seq::<Seq<u8>>::empty());
    assert(words_view(out@) + styled_words(Seq::<Seq<u8>>::empty(), *c) =~= words_view(out@));
    while k < parts.len()
        invariant
            k <= parts@.len(),
            parts.deep_view() == split_spec(text@, 0x20),
            words_view(out@) == words_view(old(out)@) + styled_words(parts.deep_view().subrange(0, k as int), *c),
        decreases parts@.len() - k,
    {
        let ghost pre = parts.deep_view().subrange(0, k + 1);
        assert(pre.drop_last() =~= parts.deep_view().subrange(0, k as int));
        assert(pre.last() =~= parts@[k as int]@);
        if parts[k].len() > 0 {
            let w = Word { text: crate::bytes::to_vec(parts[k].as_slice()), color: c.color, scale: c.scale, bold: c.bold };
            let ghost before = out@;
            out.push(w);
            assert(words_view(out@) =~= words_view(before).push(word_view(w)));
        }
        k += 1;
    }
    assert(parts.deep_view().subrange(0, parts@.len() as int) =~= parts.deep_view());
}

pub open spec fn line_view(words: Seq<Word>, line: Seq<usize>) -> Seq<WordV> {
    Seq::new(line.len(), |i: int| word_view(words[line[i] as int]))
}

/// Emit the words `line` (indices into `words`) as one line at pen `y`.
fn emit_line(
    words: &Vec<Word>,
    line: &Vec<usize>,
    line_w: i32,
    max_scale: u8,
    y: i32,
    x: i32,
    width: i32,
    align: Align,
    cmds: &mut Vec<Cmd>,
) -> (ny: i32)
    requires
        forall|i: int| 0 <= i < line@.len() ==> line@[i] < words@.len(),
        line@.len() > 0,
    ensures
        ({
            let f = flush_line_spec(
                FlowV { line: line_view(words@, line@), line_w, max_scale, y, cmds: cmds_view(old(cmds)@) },
                x,
                width,
                align,
            );
            cmds_view(final(cmds)@) == f.cmds && ny == f.y
        }),
        old(cmds)@.len() <= final(cmds)@.len(),
{
    let lx0 = if align == Align::Center && line_w < width {
        let d = sub_w(width, line_w);
        let h = if d >= 0 { d / 2 } else { (-((-(d as i64)) / 2)) as i32 };
        add_w(x, h)
    } else {
        x
    };
    let ghost lv = line_view(words@, line@);
    let mut lx = lx0;
    let mut k: usize = 0;
    assert(lv.subrange(0, lv.len() as int) =~= lv);
    assert(cmds_view(cmds@) + line_cmds(lv, lx0, y) == cmds_view(old(cmds)@) + line_cmds(lv.subrange(0, lv.len() as int), lx0, y));
    while k < line.len()
        invariant
            lv == line_view(words@, line@),
            forall|i: int| 0 <= i < line@.len() ==> line@[i] < words@.len(),
            k <= line@.len(),
            old(cmds)@.len() <= cmds@.len(),
            cmds_view(cmds@) + line_cmds(lv.subrange(k as int, lv.len() as int), lx, y) == cmds_view(old(cmds)@)
                + line_cmds(lv, lx0, y),
        decreases line@.len() - k,
    {
        let w = &words[line[k]];
        let ghost rest = lv.subrange(k as int, lv.len() as int);
        assert(rest[0] == word_view(*w));
        assert(rest.drop_first() =~= lv.subrange(k + 1, lv.len() as int));
        let ghost before = cmds@;
        let cmd = Cmd::Text { x: lx, y, text: crate::bytes::to_vec(w.text.as_slice()), color: w.color, scale: w.scale, bold: w.bold };
        cmds.push(cmd);
        assert(cmds_view(cmds@) =~= cmds_view(before).push(cmd_view(cmd)));
        let cw = char_w(w.scale);
        lx = add_w(add_w(lx, mul_w(cw, utf8_chars(w.text.as_slice()) as i32)), cw);
        assert(cmds_view(before).push(cmd_view(cmd)) + line_cmds(lv.subrange(k + 1, lv.len() as int), lx, y) =~= cmds_view(
            before,
        ) + (seq![cmd_view(cmd)] + line_cmds(lv.subrange(k + 1, lv.len() as int), lx, y)));
        k += 1;
    }
    assert(lv.subrange(line@.len() as int, lv.len() as int) =~= Seq::<WordV>::empty());
    assert(cmds_view(cmds@) + Seq::<CmdV>::empty() =~= cmds_view(cmds@));
    add_w(y, line_h(max_scale))
}

/// Emit the buffered inline words as wrapped, optionally centered, line
/// boxes; returns the pen's new y and leaves the buffer empty.
fn flush_inline(words: &mut Vec<Word>, x: i32, y: i32, width: i32, align: Align, cmds: &mut Vec<Cmd>) -> (ny: i32)
    ensures
        (cmds_view(final(cmds)@), ny) == flush_inline_spec(words_view(old(words)@), x, y, width, align, cmds_view(old(cmds)@)),
        final(words)@.len() == 0,
        old(cmds)@.len() <= final(cmds)@.len(),
{
    proof {
        reveal(flush_inline_spec);
    }
    if words.len() == 0 {
        return y;
    }
    let ghost wv = words_view(words@);
    let ghost init = FlowV { line: Seq::empty(), line_w: 0, max_scale: 1, y, cmds: cmds_view(cmds@) };
    let mut line: Vec<usize> = Vec::new();
    let mut line_w: i32 = 0;
    let mut max_scale: u8 = 1;
    let mut py = y;
    let mut k: usize = 0;
    assert(wv.subrange(0, 0) =~= Seq::<WordV>::empty());
    assert(line_view(words@, line@) =~= Seq::<WordV>::empty());
    while k < words.len()
        invariant
            wv == words_view(words@),
            k <= words@.len(),
            old(cmds)@.len() <= cmds@.len(),
            forall|i: int| 0 <= i < line@.len() ==> line@[i] < k,
            flow_all(wv.subrange(0, k as int), init, x, width, align) == (FlowV {
                line: line_view(words@, line@),
                line_w,
                max_scale,
                y: py,
                cmds: cmds_view(cmds@),
            }),
        decreases words@.len() - k,
    {
        let ghost pre = wv.subrange(0, k + 1);
        assert(pre.drop_last() =~= wv.subrange(0, k as int));
        assert(pre.last() == word_view(words@[k as int]));
        let is_nl = words[k].text.len() == 1 && words[k].text[0] == 0x0A;
        assert(is_nl == (words@[k as int].text@ == seq![0x0Au8])) by {
            if words@[k as int].text@ == seq![0x0Au8] {
                assert(words@[k as int].text@[0] == 0x0Au8);
            }
            if is_nl {
                assert(words@[k as int].text@ =~= seq![0x0Au8]);
            }
        }
        if is_nl {
            if line.len() > 0 {
                py = emit_line(words, &line, line_w, max_scale, py, x, width, align, cmds);
                line.clear();
                line_w = 0;
                max_scale = 1;
                assert(line_view(words@, line@) =~= Seq::<WordV>::empty());
            }
        } else {
            let sc = words[k].scale;
            let cw = char_w(sc);
            let ww = mul_w(cw, utf8_chars(words[k].text.as_slice()) as i32);
            let space: i32 = if line.len() == 0 { 0 } else { cw };
            if add_w(add_w(line_w, space), ww) > width && line.len() > 0 {
                py = emit_line(words, &line, line_w, max_scale, py, x, width, align, cmds);
                line.clear();
                line_w = 0;
                max_scale = 1;
                assert(line_view(words@, line@) =~= Seq::<WordV>::empty());
            }
            line_w = if line.len() == 0 { add_w(line_w, ww) } else { add_w(line_w, add_w(space, ww)) };
            if sc > max_scale {
                max_scale = sc;
            }
            let ghost lb = line@;
            line.push(k);
            assert(line_view(words@, line@) =~= line_view(words@, lb).push(word_view(words@[k as int])));
        }
        k += 1;
    }
    assert(wv.subrange(0, words@.len() as int) =~= wv);
    if line.len() > 0 {
        py = emit_line(words, &line, line_w, max_scale, py, x, width, align, cmds);
    }
    words.clear();
    py
}

/// Gather the word stream of an inline element subtree styled `parent`.
fn collect_inline(el: &Element, sheet: &Stylesheet, parent: &Computed, out: &mut Vec<Word>)
    ensures
        words_view(final(out)@) == collect_spec(element_view(*el), rules_view(sheet.rules@), *parent, words_view(old(out)@)),
    decreases el.children@,
{
    if bytes_eq(el.tag.as_slice(), "br".as_bytes()) {
        let mut nl: Vec<u8> = Vec::new();
        nl.push(0x0A);
        let w = Word { text: nl, color: parent.color, scale: parent.scale, bold: parent.bold };
        let ghost before = out@;
        out.push(w);
        assert(w.text@ =~= seq![0x0Au8]);
        assert(words_view(out@) =~= words_view(before).push(word_view(w)));
        return;
    }
    let ghost nv = nodes_view(el.children@);
    let ghost rules = rules_view(sheet.rules@);
    proof {
        lemma_nodes_view_index(el.children@);
    }
    let mut k: usize = 0;
    while k < el.children.len()
        invariant
            nv == nodes_view(el.children@),
            rules == rules_view(sheet.rules@),
            nv.len() == el.children@.len(),
            forall|i: int| 0 <= i < el.children@.len() ==> nv[i] == node_view(#[trigger] el.children@[i]),
            k <= el.children@.len(),
            collect_from(nv, 0, rules, *parent, words_view(old(out)@)) == collect_from(nv, k as int, rules, *parent, words_view(out@)),
        decreases el.children@.len() - k,
    {
        assert(nv[k as int] == node_view(el.children@[k as int]));
        match &el.children[k] {
            Node::Text(t) => {
                push_words(out, t.as_slice(), parent);
            },
            Node::Element(child) => {
                let c = compute(child, sheet, parent);
                if c.display != Disp::Hidden {
                    assert(decreases_to!(el.children@ => el.children@[k as int]));
                    collect_inline(child, sheet, &c, out);
                }
            },
        }
        k += 1;
    }
}

/// Lay out a list of sibling nodes in a block box, returning the y just
/// below the last one. Runs of inline content between block children are
/// gathered into line boxes.
fn layout_children(
    nodes: &Vec<Node>,
    sheet: &Stylesheet,
    parent: &Computed,
    x: i32,
    y: i32,
    width: i32,
    cmds: &mut Vec<Cmd>,
) -> (ny: i32)
    ensures
        (cmds_view(final(cmds)@), ny) == layout_spec(nodes_view(nodes@), rules_view(sheet.rules@), *parent, x, y, width, cmds_view(old(cmds)@)),
        old(cmds)@.len() <= final(cmds)@.len(),
    decreases nodes@, 1int,
{
    let ghost nv = nodes_view(nodes@);
    let ghost rules = rules_view(sheet.rules@);
    let ghost st0 = LayV { y, inline: Seq::empty(), cmds: cmds_view(cmds@) };
    proof {
        lemma_nodes_view_index(nodes@);
    }
    let mut inline: Vec<Word> = Vec::new();
    let mut py = y;
    let mut k: usize = 0;
    assert(words_view(inline@) =~= Seq::<WordV>::empty());
    while k < nodes.len()
        invariant
            nv == nodes_view(nodes@),
            rules == rules_view(sheet.rules@),
            nv.len() == nodes@.len(),
            forall|i: int| 0 <= i < nodes@.len() ==> nv[i] == node_view(#[trigger] nodes@[i]),
            k <= nodes@.len(),
            old(cmds)@.len() <= cmds@.len(),
            children_from(nv, 0, rules, *parent, x, width, st0) == children_from(
                nv,
                k as int,
                rules,
                *parent,
                x,
                width,
                LayV { y: py, inline: words_view(inline@), cmds: cmds_view(cmds@) },
            ),
        decreases nodes@.len() - k,
    {
        assert(nv[k as int] == node_view(nodes@[k as int]));
        match &nodes[k] {
            Node::Text(t) => {
                push_words(&mut inline, t.as_slice(), parent);
            },
            Node::Element(el) => {
                let c = compute(el, sheet, parent);
                if c.display == Disp::Hidden {
                } else if c.display == Disp::Inline {
                    assert(decreases_to!(nodes@ => nodes@[k as int]));
                    collect_inline(el, sheet, &c, &mut inline);
                } else {
                    py = flush_inline(&mut inline, x, py, width, parent.align, cmds);
                    assert(words_view(inline@) =~= Seq::<WordV>::empty());
                    assert(decreases_to!(nodes@ => nodes@[k as int]));
                    py = layout_block(el, &c, sheet, x, py, width, cmds);
                }
            },
        }
        k += 1;
    }
    flush_inline(&mut inline, x, py, width, parent.align, cmds)
}

/// The block layout of an element with children `ch`, spelled out.
proof fn lemma_block_unfold(tag: Seq<u8>, attrs: Seq<(Seq<u8>, Seq<u8>)>, ch: Seq<NodeV>, c: Computed, rules: Seq<RuleV>, x: i32, y: i32, width: i32, cmds: Seq<CmdV>)
    ensures
        ({
            let y1 = wadd(y, c.margin);
            let li = c.display == Disp::ListItem;
            let cx = wadd(wadd(x, c.padding), if li { 8i32 } else { 0i32 });
            let cw0 = wsub(width, wmul(2, c.padding));
            let cw = if cw0 >= 20 { cw0 } else { 20i32 };
            let y2 = wadd(y1, c.padding);
            let cmds1 = marker_spec(cmds, li, cx, y2, c);
            let r = layout_spec(ch, rules, c, cx, y2, cw, cmds1);
            let y4 = wadd(r.1, c.padding);
            block_spec(NodeV::Element(tag, attrs, ch), c, rules, x, y, width, cmds) == (
                background_spec(r.0, cmds.len() as int, c.bg, x, y1, width, y4),
                wadd(y4, c.margin),
            )
        }),
{
}

/// The commands with a list marker added for a list item.
pub open spec fn marker_spec(cmds: Seq<CmdV>, li: bool, cx: i32, y2: i32, c: Computed) -> Seq<CmdV> {
    if li {
        cmds.push(CmdV::Text(wsub(cx, 12), y2, seq![0x2Du8], c.color, c.scale, false))
    } else {
        cmds
    }
}

/// The commands with a background rectangle inserted at `at`, behind what
/// follows, when there is a background.
pub open spec fn background_spec(cmds: Seq<CmdV>, at: int, bg: Option<Rgb>, x: i32, top: i32, width: i32, bottom: i32) -> Seq<CmdV> {
    match bg {
        Some(b) => cmds.insert(at, CmdV::Rect(x, top, width, if wsub(bottom, top) >= 0 { wsub(bottom, top) } else { 0i32 }, b)),
        None => cmds,
    }
}

fn push_marker(cmds: &mut Vec<Cmd>, li: bool, cx: i32, y2: i32, c: &Computed)
    ensures
        cmds_view(final(cmds)@) == marker_spec(cmds_view(old(cmds)@), li, cx, y2, *c),
        old(cmds)@.len() <= final(cmds)@.len(),
{
    if li {
        let mut dash: Vec<u8> = Vec::new();
        dash.push(0x2D);
        assert(dash@ =~= seq![0x2Du8]);
        let m = Cmd::Text { x: sub_w(cx, 12), y: y2, text: dash, color: c.color, scale: c.scale, bold: false };
        let ghost before = cmds@;
        cmds.push(m);
        assert(cmds_view(cmds@) =~= cmds_view(before).push(cmd_view(m)));
    }
}

fn insert_background(cmds: &mut Vec<Cmd>, at: usize, bg: Option<Rgb>, x: i32, top: i32, width: i32, bottom: i32)
    requires
        at <= old(cmds)@.len(),
    ensures
        cmds_view(final(cmds)@) == background_spec(cmds_view(old(cmds)@), at as int, bg, x, top, width, bottom),
        old(cmds)@.len() <= final(cmds)@.len(),
{
    match bg {
        Some(b) => {
            let d = sub_w(bottom, top);
            let r = Cmd::Rect { x, y: top, w: width, h: if d >= 0 { d } else { 0 }, color: b };
            let ghost before = cmds@;
            cmds.insert(at, r);
            assert(cmds_view(cmds@) =~= cmds_view(before).insert(at as int, cmd_view(r)));
        },
        None => {},
    }
}

/// Lay out a single block element (margins, padding, background, then content).
fn layout_block(
    el: &Element,
    c: &Computed,
    sheet: &Stylesheet,
    x: i32,
    y: i32,
    width: i32,
    cmds: &mut Vec<Cmd>,
) -> (ny: i32)
    ensures
        (cmds_view(final(cmds)@), ny) == block_spec(element_view(*el), *c, rules_view(sheet.rules@), x, y, width, cmds_view(old(cmds)@)),
        old(cmds)@.len() <= final(cmds)@.len(),
    decreases el.children@, 2int,
{
    proof {
        lemma_block_unfold(el.tag@, attrs_view(el.attrs@), nodes_view(el.children@), *c, rules_view(sheet.rules@), x, y, width, cmds_view(cmds@));
    }
    let y1 = add_w(y, c.margin);
    let li = c.display == Disp::ListItem;
    let cx = add_w(add_w(x, c.padding), if li { 8 } else { 0 });
    let cw0 = sub_w(width, mul_w(2, c.padding));
    let cw = if cw0 >= 20 { cw0 } else { 20 };
    let bg_index = cmds.len();
    let y2 = add_w(y1, c.padding);
    push_marker(cmds, li, cx, y2, c);
    let y3 = layout_children(&el.children, sheet, c, cx, y2, cw, cmds);
    let y4 = add_w(y3, c.padding);
    insert_background(cmds, bg_index, c.bg, x, y1, width, y4);
    add_w(y4, c.margin)
}

/// Render an HTML document to a display list laid out for `viewport_w` pixels.
pub fn render(html: &[u8], viewport_w: i32) -> (page: Page)
    ensures
        (cmds_view(page.cmds@), page.height) == render_spec(html@, viewport_w),
{
    let (dom, css) = parse_html(html);
    let mut sheet = parse_css_bytes(ua_css().as_bytes());
    let mut extra = parse_css_bytes(css.as_slice());
    sheet.rules.append(&mut extra.rules);
    assert(rules_view(sheet.rules@) =~= rules_from(ua_css_spec().spec_bytes(), 0, Seq::empty()) + rules_from(
        css@,
        0,
        Seq::empty(),
    ));
    let root = Computed::root();
    let mut cmds: Vec<Cmd> = Vec::new();
    let w0 = sub_w(viewport_w, 24);
    assert(cmds_view(cmds@) =~= Seq::<CmdV>::empty());
    let y = layout_children(&dom, &sheet, &root, 12, 12, if w0 >= 40 { w0 } else { 40 }, &mut cmds);
    Page { cmds, height: add_w(y, 12) }
}

impl Default for Page {
    fn default() -> (p: Self)
        ensures
            p.cmds@.len() == 0,
            p.height == 0,
    {
        Page { cmds: Vec::new(), height: 0 }
    }
}

} // verus!
