//! CSS parser: rules, simple selectors, specificity, matching.
use vstd::prelude::*;
use vstd::string::StringSliceAdditionalSpecFns;
use crate::browser::{lemma_scan_bounds, scan};
use crate::bytes::bytes_eq;
use super::dom::{advance, attr_get, attrs_view, words, Element};
use super::text::{ascii_ws_fn, byte_is, lower_seq, negate, split, split_spec, to_lower, trim, trim_str};

verus! {

/// A parsed stylesheet: an ordered list of rules.
pub struct Stylesheet {
    pub rules: Vec<Rule>,
}

pub struct Rule {
    pub selectors: Vec<Selector>,
    pub decls: Vec<Decl>,
}

/// A single simple selector (the rightmost compound selector of any complex
/// selector: combinators and ancestors are ignored, which over-matches but
/// keeps the engine small).
pub struct Selector {
    pub tag: Option<Vec<u8>>,
    pub id: Option<Vec<u8>>,
    pub classes: Vec<Vec<u8>>,
}

pub struct Decl {
    pub name: Vec<u8>,
    pub value: Vec<u8>,
}

/// CSS specificity as `(ids, classes, tags)`, compared lexicographically.
pub type Specificity = (usize, usize, usize);

/// A selector as plain values: tag, id, classes.
pub type SelectorV = (Option<Seq<u8>>, Option<Seq<u8>>, Seq<Seq<u8>>);

/// A declaration as plain values: name, value.
pub type DeclV = (Seq<u8>, Seq<u8>);

/// A rule as plain values: selectors, declarations.
pub type RuleV = (Seq<SelectorV>, Seq<DeclV>);

pub open spec fn opt_view(o: Option<Vec<u8>>) -> Option<Seq<u8>> {
    match o {
        Some(v) => Some(v@),
        None => None,
    }
}

pub open spec fn selector_view(s: Selector) -> SelectorV {
    (opt_view(s.tag), opt_view(s.id), s.classes.deep_view())
}

pub open spec fn decl_view(d: Decl) -> DeclV {
    (d.name@, d.value@)
}

pub open spec fn decls_view(ds: Seq<Decl>) -> Seq<DeclV> {
    Seq::new(ds.len(), |i: int| decl_view(ds[i]))
}

pub open spec fn selectors_view(ss: Seq<Selector>) -> Seq<SelectorV> {
    Seq::new(ss.len(), |i: int| selector_view(ss[i]))
}

pub open spec fn rule_view(r: Rule) -> RuleV {
    (selectors_view(r.selectors@), decls_view(r.decls@))
}

pub open spec fn rules_view(rs: Seq<Rule>) -> Seq<RuleV> {
    Seq::new(rs.len(), |i: int| rule_view(rs[i]))
}

/// `(ids, classes, tags)` of a selector.
pub open spec fn specificity_spec(s: SelectorV) -> (int, int, int) {
    (if s.1 is Some { 1int } else { 0 }, s.2.len() as int, if s.0 is Some { 1int } else { 0 })
}

/// A selector matches an element with this tag and these attributes: the
/// tag agrees (or is `*` or absent), the id agrees (or is absent), and each
/// of its classes is among the element's classes.
pub open spec fn matches_spec(s: SelectorV, tag: Seq<u8>, attrs: Seq<(Seq<u8>, Seq<u8>)>) -> bool {
    let classes = words(
        match attr_get(attrs, "class".spec_bytes()) {
            Some(v) => v,
            None => Seq::<u8>::empty(),
        },
    );
    &&& (s.0 matches Some(t) ==> t == "*".spec_bytes() || t == tag)
    &&& (s.1 matches Some(id) ==> attr_get(attrs, "id".spec_bytes()) == Some(id))
    &&& forall|k: int| 0 <= k < s.2.len() ==> classes.contains(#[trigger] s.2[k])
}

fn contains_word(ws: &Vec<Vec<u8>>, w: &[u8]) -> (r: bool)
    ensures
        r == ws.deep_view().contains(w@),
{
    let mut k: usize = 0;
    while k < ws.len()
        invariant
            k <= ws@.len(),
            forall|x: int| 0 <= x < k ==> ws.deep_view()[x] != w@,
        decreases ws@.len() - k,
    {
        assert(ws.deep_view()[k as int] =~= ws@[k as int]@);
        if bytes_eq(ws[k].as_slice(), w) {
            return true;
        }
        k += 1;
    }
    false
}

impl Selector {
    pub fn specificity(&self) -> (s: Specificity)
        ensures
            (s.0 as int, s.1 as int, s.2 as int) == specificity_spec(selector_view(*self)),
    {
        (if self.id.is_some() { 1 } else { 0 }, self.classes.len(), if self.tag.is_some() { 1 } else { 0 })
    }

    /// Does this selector match `el`?
    pub fn matches(&self, el: &Element) -> (b: bool)
        ensures
            b == matches_spec(selector_view(*self), el.tag@, attrs_view(el.attrs@)),
    {
        let star = "*".as_bytes();
        match &self.tag {
            Some(t) => {
                if !bytes_eq(t.as_slice(), star) && !bytes_eq(t.as_slice(), el.tag.as_slice()) {
                    return false;
                }
            },
            None => {},
        }
        match &self.id {
            Some(id) => {
                match el.id() {
                    Some(v) => {
                        if !bytes_eq(v, id.as_slice()) {
                            return false;
                        }
                    },
                    None => {
                        return false;
                    },
                }
            },
            None => {},
        }
        let have = el.classes();
        let mut k: usize = 0;
        while k < self.classes.len()
            invariant
                k <= self.classes@.len(),
                have.deep_view() == words(
                    match attr_get(attrs_view(el.attrs@), "class".spec_bytes()) {
                        Some(v) => v,
                        None => Seq::<u8>::empty(),
                    },
                ),
                forall|x: int| 0 <= x < k ==> have.deep_view().contains(#[trigger] self.classes.deep_view()[x]),
            decreases self.classes@.len() - k,
        {
            assert(self.classes.deep_view()[k as int] =~= self.classes@[k as int]@);
            if !contains_word(&have, self.classes[k].as_slice()) {
                assert(selector_view(*self).2[k as int] == self.classes.deep_view()[k as int]);
                assert(!matches_spec(selector_view(*self), el.tag@, attrs_view(el.attrs@)));
                return false;
            }
            k += 1;
        }
        true
    }
}

// ---- parsing ----

pub open spec fn star_slash_from(b: Seq<u8>, k: int) -> int
    decreases b.len() - k,
{
    if k < 0 || k + 1 >= b.len() || (b[k] == 0x2A && b[k + 1] == 0x2F) {
        k
    } else {
        star_slash_from(b, k + 1)
    }
}

/// Past whitespace and `/* ... */` comments from `i`.
pub open spec fn css_ws_from(b: Seq<u8>, i: int) -> int
    decreases b.len() - i,
{
    if i < 0 || i > b.len() {
        i
    } else {
        let j = scan(b, i, negate(ascii_ws_fn()));
        proof {
            lemma_scan_bounds(b, i, negate(ascii_ws_fn()));
        }
        if j + 1 < b.len() && b[j] == 0x2F && b[j + 1] == 0x2A {
            let k = star_slash_from(b, j + 2);
            css_ws_from(b, advance(b, j, if k + 2 > b.len() { b.len() as int } else { k + 2 }))
        } else {
            j
        }
    }
}

pub open spec fn block_open_fn() -> spec_fn(u8) -> bool {
    |c: u8| c == 0x7B || c == 0x3B
}

/// Past a `{ ... }` block at `k` with `depth` braces already open.
pub open spec fn block_end(b: Seq<u8>, k: int, depth: int) -> int
    decreases b.len() - k,
{
    if k < 0 || k >= b.len() {
        k
    } else if b[k] == 0x7B {
        block_end(b, k + 1, depth + 1)
    } else if b[k] == 0x7D {
        if depth - 1 == 0 { k + 1 } else { block_end(b, k + 1, depth - 1) }
    } else {
        block_end(b, k + 1, depth)
    }
}

/// Past an at-rule at `i`: to its `;`, or past its balanced block.
pub open spec fn at_rule_end(b: Seq<u8>, i: int) -> int {
    let k = scan(b, i, block_open_fn());
    if k < b.len() && b[k] == 0x3B { k + 1 } else { block_end(b, k, 0) }
}

pub open spec fn is_alpha(c: u8) -> bool {
    (0x41 <= c <= 0x5A) || (0x61 <= c <= 0x7A)
}

pub open spec fn is_alnum(c: u8) -> bool {
    is_alpha(c) || (0x30 <= c <= 0x39)
}

pub open spec fn tag_char_fn() -> spec_fn(u8) -> bool {
    |c: u8| is_alnum(c) || c == 0x2D || c == 0x2A
}

pub open spec fn ident_char_fn() -> spec_fn(u8) -> bool {
    |c: u8| is_alnum(c) || c == 0x2D || c == 0x5F
}

/// The `#id` / `.class` parts of a compound selector from `i`, added to
/// `(id, classes)`; stops at anything else or an empty name.
pub open spec fn compound_from(s: Seq<u8>, i: int, id: Option<Seq<u8>>, classes: Seq<Seq<u8>>) -> (
    Option<Seq<u8>>,
    Seq<Seq<u8>>,
)
    decreases s.len() - i,
{
    if i < 0 || i >= s.len() || (s[i] != 0x2E && s[i] != 0x23) {
        (id, classes)
    } else {
        let e = scan(s, i + 1, negate(ident_char_fn()));
        proof {
            lemma_scan_bounds(s, i + 1, negate(ident_char_fn()));
        }
        let name = s.subrange(i + 1, e);
        if name.len() == 0 {
            (id, classes)
        } else if s[i] == 0x2E {
            compound_from(s, e, id, classes.push(name))
        } else {
            compound_from(s, e, Some(name), classes)
        }
    }
}

/// A compound selector: an optional tag (or `*`, lower-cased) then `#id`
/// and `.class` parts; `None` when it has none of them.
pub open spec fn simple_selector_spec(s: Seq<u8>) -> Option<SelectorV> {
    let has_tag = s.len() > 0 && (is_alpha(s[0]) || s[0] == 0x2A);
    let e = if has_tag { scan(s, 0, negate(tag_char_fn())) } else { 0 };
    let tag = if has_tag { Some(lower_seq(s.subrange(0, e))) } else { None };
    let (id, classes) = compound_from(s, e, None, Seq::empty());
    if tag is None && id is None && classes.len() == 0 {
        None
    } else {
        Some((tag, id, classes))
    }
}

/// The selector of one comma-separated part: its last whitespace-separated
/// compound.
pub open spec fn part_selector(part: Seq<u8>) -> Option<SelectorV> {
    let ws = words(part);
    let last = trim_str(if ws.len() > 0 { ws.last() } else { Seq::empty() });
    if last.len() == 0 { None } else { simple_selector_spec(last) }
}

pub open spec fn selectors_of(parts: Seq<Seq<u8>>) -> Seq<SelectorV>
    decreases parts.len(),
{
    if parts.len() == 0 {
        Seq::empty()
    } else {
        let rest = selectors_of(parts.drop_last());
        match part_selector(parts.last()) {
            Some(s) => rest.push(s),
            None => rest,
        }
    }
}

/// One `name: value` declaration: both trimmed, the name lower-cased;
/// `None` without a colon or with an empty side.
pub open spec fn decl_of(chunk: Seq<u8>) -> Option<DeclV> {
    let c = trim_str(chunk);
    let k = scan(c, 0, byte_is(0x3A));
    if c.len() == 0 || k >= c.len() {
        None
    } else {
        let name = lower_seq(trim_str(c.subrange(0, k)));
        let value = trim_str(c.subrange(k + 1, c.len() as int));
        if name.len() == 0 || value.len() == 0 { None } else { Some((name, value)) }
    }
}

pub open spec fn decls_of(chunks: Seq<Seq<u8>>) -> Seq<DeclV>
    decreases chunks.len(),
{
    if chunks.len() == 0 {
        Seq::empty()
    } else {
        let rest = decls_of(chunks.drop_last());
        match decl_of(chunks.last()) {
            Some(d) => rest.push(d),
            None => rest,
        }
    }
}

/// The declarations of a `;`-separated list.
pub open spec fn parse_decls_spec(text: Seq<u8>) -> Seq<DeclV> {
    decls_of(split_spec(text, 0x3B))
}

pub open spec fn brace_fn() -> spec_fn(u8) -> bool {
    |c: u8| c == 0x7B || c == 0x7D
}

/// The rules of `b` from `i` on, after those in `acc`: at-rules are skipped,
/// rules with no usable selector or declaration are dropped, a stray `}` is
/// skipped, and selector text with no `{` after it ends the sheet.
pub open spec fn rules_from(b: Seq<u8>, i: int, acc: Seq<RuleV>) -> Seq<RuleV>
    decreases b.len() - i,
{
    if i < 0 || i >= b.len() {
        acc
    } else {
        let i1 = css_ws_from(b, i);
        if i1 < i || i1 >= b.len() {
            acc
        } else if b[i1] == 0x40 {
            rules_from(b, advance(b, i, at_rule_end(b, i1)), acc)
        } else {
            let k = scan(b, i1, brace_fn());
            if k >= b.len() {
                acc
            } else if b[k] == 0x7D {
                rules_from(b, advance(b, i, k + 1), acc)
            } else {
                let e = scan(b, k + 1, byte_is(0x7D));
                let next = if e < b.len() { e + 1 } else { e };
                let sels = selectors_of(split_spec(b.subrange(i1, k), 0x2C));
                let decls = parse_decls_spec(b.subrange(k + 1, e));
                rules_from(b, advance(b, i, next), if sels.len() > 0 && decls.len() > 0 { acc.push((sels, decls)) } else { acc })
            }
        }
    }
}

fn skip_css_ws(b: &[u8], i: usize) -> (r: usize)
    requires
        i <= b@.len(),
    ensures
        r == css_ws_from(b@, i as int),
        i <= r <= b@.len(),
{
    let n = b.len();
    let mut k = i;
    loop
        invariant
            n == b@.len(),
            i <= k <= n,
            css_ws_from(b@, i as int) == css_ws_from(b@, k as int),
        decreases n - k,
    {
        let mut j = k;
        while j < n && (b[j] == 0x20 || b[j] == 0x09 || b[j] == 0x0A || b[j] == 0x0C || b[j] == 0x0D)
            invariant
                n == b@.len(),
                k <= j <= n,
                scan(b@, k as int, negate(ascii_ws_fn())) == scan(b@, j as int, negate(ascii_ws_fn())),
            decreases n - j,
        {
            j += 1;
        }
        if n - j >= 2 && b[j] == 0x2F && b[j + 1] == 0x2A {
            let mut m = j + 2;
            while n - m >= 2 && !(b[m] == 0x2A && b[m + 1] == 0x2F)
                invariant
                    n == b@.len(),
                    j + 2 <= m <= n,
                    star_slash_from(b@, j + 2) == star_slash_from(b@, m as int),
                decreases n - m,
            {
                m += 1;
            }
            k = if n - m < 2 { n } else { m + 2 };
        } else {
            return j;
        }
    }
}

fn skip_at_rule(b: &[u8], i: usize) -> (r: usize)
    requires
        i < b@.len(),
        b@[i as int] == 0x40,
    ensures
        r == at_rule_end(b@, i as int),
        i < r <= b@.len(),
{
    let n = b.len();
    let mut k = i;
    while k < n && b[k] != 0x7B && b[k] != 0x3B
        invariant
            n == b@.len(),
            i <= k <= n,
            scan(b@, i as int, block_open_fn()) == scan(b@, k as int, block_open_fn()),
        decreases n - k,
    {
        k += 1;
    }
    if k < n && b[k] == 0x3B {
        return k + 1;
    }
    let ghost start = k;
    let mut depth: usize = 0;
    while k < n
        invariant
            n == b@.len(),
            start == scan(b@, i as int, block_open_fn()),
            !(start < n && b@[start as int] == 0x3B),
            i < start <= k <= n,
            depth <= k - start,
            k > start ==> depth >= 1,
            k == start ==> depth == 0,
            k == start && k < n ==> b@[k as int] == 0x7B,
            block_end(b@, start as int, 0) == block_end(b@, k as int, depth as int),
        decreases n - k,
    {
        if b[k] == 0x7B {
            depth += 1;
        } else if b[k] == 0x7D {
            if depth - 1 == 0 {
                return k + 1;
            }
            depth -= 1;
        }
        k += 1;
    }
    k
}

pub fn parse_simple_selector(s: &[u8]) -> (r: Option<Selector>)
    ensures
        match r {
            Some(sel) => simple_selector_spec(s@) == Some(selector_view(sel)),
            None => simple_selector_spec(s@) is None,
        },
{
    let n = s.len();
    let mut i: usize = 0;
    let mut tag: Option<Vec<u8>> = None;
    if n > 0 && ((0x41 <= s[0] && s[0] <= 0x5A) || (0x61 <= s[0] && s[0] <= 0x7A) || s[0] == 0x2A) {
        while i < n && ((0x41 <= s[i] && s[i] <= 0x5A) || (0x61 <= s[i] && s[i] <= 0x7A) || (0x30 <= s[i] && s[i]
            <= 0x39) || s[i] == 0x2D || s[i] == 0x2A)
            invariant
                n == s@.len(),
                i <= n,
                scan(s@, 0, negate(tag_char_fn())) == scan(s@, i as int, negate(tag_char_fn())),
            decreases n - i,
        {
            i += 1;
        }
        tag = Some(to_lower(&s[0..i]));
    }
    let ghost e0 = i;
    let mut id: Option<Vec<u8>> = None;
    let mut classes: Vec<Vec<u8>> = Vec::new();
    assert(classes.deep_view() =~= Seq::<Seq<u8>>::empty());
    loop
        invariant
            n == s@.len(),
            i <= n,
            compound_from(s@, e0 as int, None, Seq::empty()) == compound_from(s@, i as int, opt_view(id), classes.deep_view()),
        ensures
            compound_from(s@, e0 as int, None, Seq::empty()) == (opt_view(id), classes.deep_view()),
        decreases n - i,
    {
        if i >= n || (s[i] != 0x2E && s[i] != 0x23) {
            break;
        }
        let kind = s[i];
        let start = i + 1;
        let mut e = start;
        while e < n && ((0x41 <= s[e] && s[e] <= 0x5A) || (0x61 <= s[e] && s[e] <= 0x7A) || (0x30 <= s[e] && s[e]
            <= 0x39) || s[e] == 0x2D || s[e] == 0x5F)
            invariant
                n == s@.len(),
                start <= e <= n,
                scan(s@, start as int, negate(ident_char_fn())) == scan(s@, e as int, negate(ident_char_fn())),
            decreases n - e,
        {
            e += 1;
        }
        if e == start {
            break;
        }
        let name = crate::bytes::to_vec(&s[start..e]);
        if kind == 0x2E {
            assert(name.deep_view() =~= name@);
            let ghost before = classes.deep_view();
            let ghost old_c = classes@;
            classes.push(name);
            assert(classes.deep_view() =~= before.push(s@.subrange(start as int, e as int))) by {
                assert(forall|x: int| 0 <= x < old_c.len() ==> classes@[x] == old_c[x]);
            }
        } else {
            id = Some(name);
        }
        i = e;
    }
    if tag.is_none() && id.is_none() && classes.len() == 0 {
        None
    } else {
        Some(Selector { tag, id, classes })
    }
}

fn last_word(part: &[u8]) -> (w: Vec<u8>)
    ensures
        w@ == (if words(part@).len() > 0 { words(part@).last() } else { Seq::<u8>::empty() }),
{
    let ws = super::dom::split_words_pub(part);
    if ws.len() > 0 {
        assert(ws.deep_view()[ws.len() - 1] =~= ws@[ws.len() - 1]@);
        crate::bytes::to_vec(ws[ws.len() - 1].as_slice())
    } else {
        Vec::new()
    }
}

fn parse_selectors(text: &[u8]) -> (out: Vec<Selector>)
    ensures
        selectors_view(out@) == selectors_of(split_spec(text@, 0x2C)),
{
    let parts = split(text, 0x2C);
    let mut out: Vec<Selector> = Vec::new();
    let mut k: usize = 0;
    assert(selectors_view(out@) =~= Seq::<SelectorV>::empty());
    assert(parts.deep_view().subrange(0, 0) =~= Seq::<Seq<u8>>::empty());
    while k < parts.len()
        invariant
            k <= parts@.len(),
            parts.deep_view() == split_spec(text@, 0x2C),
            selectors_view(out@) == selectors_of(parts.deep_view().subrange(0, k as int)),
        decreases parts@.len() - k,
    {
        assert(parts.deep_view().subrange(0, k + 1).drop_last() =~= parts.deep_view().subrange(0, k as int));
        assert(parts.deep_view()[k as int] =~= parts@[k as int]@);
        let last = last_word(parts[k].as_slice());
        let t = trim(last.as_slice());
        if t.len() > 0 {
            match parse_simple_selector(t) {
                Some(sel) => {
                    let ghost before = out@;
                    out.push(sel);
                    assert(selectors_view(out@) =~= selectors_view(before).push(selector_view(sel)));
                },
                None => {},
            }
        }
        k += 1;
    }
    assert(parts.deep_view().subrange(0, parts@.len() as int) =~= parts.deep_view());
    out
}

/// Parse a `;`-separated declaration list.
pub fn parse_decls(text: &[u8]) -> (out: Vec<Decl>)
    ensures
        decls_view(out@) == parse_decls_spec(text@),
{
    let parts = split(text, 0x3B);
    let mut out: Vec<Decl> = Vec::new();
    let mut k: usize = 0;
    assert(decls_view(out@) =~= Seq::<DeclV>::empty());
    assert(parts.deep_view().subrange(0, 0) =~= Seq::<Seq<u8>>::empty());
    while k < parts.len()
        invariant
            k <= parts@.len(),
            parts.deep_view() == split_spec(text@, 0x3B),
            decls_view(out@) == decls_of(parts.deep_view().subrange(0, k as int)),
        decreases parts@.len() - k,
    {
        assert(parts.deep_view().subrange(0, k + 1).drop_last() =~= parts.deep_view().subrange(0, k as int));
        assert(parts.deep_view()[k as int] =~= parts@[k as int]@);
        let c = trim(parts[k].as_slice());
        let cn = c.len();
        let mut m: usize = 0;
        while m < cn && c[m] != 0x3A
            invariant
                cn == c@.len(),
                m <= cn,
                scan(c@, 0, byte_is(0x3A)) == scan(c@, m as int, byte_is(0x3A)),
            decreases cn - m,
        {
            m += 1;
        }
        if cn > 0 && m < cn {
            let name = to_lower(trim(&c[0..m]));
            let value = crate::bytes::to_vec(trim(&c[m + 1..cn]));
            if name.len() > 0 && value.len() > 0 {
                let ghost before = out@;
                let d = Decl { name, value };
                out.push(d);
                assert(decls_view(out@) =~= decls_view(before).push(decl_view(d)));
            }
        }
        k += 1;
    }
    assert(parts.deep_view().subrange(0, parts@.len() as int) =~= parts.deep_view());
    out
}

/// Parse a stylesheet held in bytes.
pub fn parse_css_bytes(b: &[u8]) -> (ss: Stylesheet)
    ensures
        rules_view(ss.rules@) == rules_from(b@, 0, Seq::empty()),
{
    let n = b.len();
    let mut i: usize = 0;
    let mut rules: Vec<Rule> = Vec::new();
    assert(rules_view(rules@) =~= Seq::<RuleV>::empty());
    loop
        invariant
            n == b@.len(),
            i <= n,
            rules_from(b@, 0, Seq::empty()) == rules_from(b@, i as int, rules_view(rules@)),
        ensures
            rules_from(b@, 0, Seq::empty()) == rules_view(rules@),
        decreases n - i,
    {
        if i >= n {
            break;
        }
        let i1 = skip_css_ws(b, i);
        if i1 >= n {
            break;
        }
        if b[i1] == 0x40 {
            i = skip_at_rule(b, i1);
            continue;
        }
        let mut k = i1;
        while k < n && b[k] != 0x7B && b[k] != 0x7D
            invariant
                n == b@.len(),
                i1 <= k <= n,
                scan(b@, i1 as int, brace_fn()) == scan(b@, k as int, brace_fn()),
            decreases n - k,
        {
            k += 1;
        }
        if k >= n {
            break;
        }
        if b[k] == 0x7D {
            i = k + 1;
            continue;
        }
        let mut e = k + 1;
        while e < n && b[e] != 0x7D
            invariant
                n == b@.len(),
                k + 1 <= e <= n,
                scan(b@, k + 1, byte_is(0x7D)) == scan(b@, e as int, byte_is(0x7D)),
            decreases n - e,
        {
            e += 1;
        }
        let selectors = parse_selectors(&b[i1..k]);
        let decls = parse_decls(&b[k + 1..e]);
        if selectors.len() > 0 && decls.len() > 0 {
            let ghost before = rules@;
            let r = Rule { selectors, decls };
            rules.push(r);
            assert(rules_view(rules@) =~= rules_view(before).push(rule_view(r)));
        }
        i = if e < n { e + 1 } else { e };
    }
    Stylesheet { rules }
}

/// Parse a stylesheet. Tolerant: malformed rules and unsupported `@` rules are
/// skipped without aborting the parse.
pub fn parse_css(input: &str) -> (ss: Stylesheet)
    ensures
        rules_view(ss.rules@) == rules_from(input.spec_bytes(), 0, Seq::empty()),
{
    parse_css_bytes(input.as_bytes())
}

impl Default for Stylesheet {
    fn default() -> (ss: Self)
        ensures
            ss.rules@.len() == 0,
    {
        Stylesheet { rules: Vec::new() }
    }
}

} // verus!
