//! DOM tree and a tolerant HTML parser (also captures `<style>` CSS).
use vstd::prelude::*;
use vstd::string::StringSliceAdditionalSpecFns;
use crate::browser::{all_digits, decode_entity, decode_entity_spec, digits_value, lemma_digits_step, lemma_scan_bounds, scan, semi_byte};
use crate::bytes::{ascii_lower, bytes_eq, lower_spec};
use super::text::{ascii_ws_fn, byte_is, is_ascii_ws, lower_seq, negate, to_lower, trim, trim_str};

verus! {

/// A DOM node: either an element or a run of text.
pub enum Node {
    Element(Element),
    Text(Vec<u8>),
}

/// An element node with its tag, attributes and children.
pub struct Element {
    pub tag: Vec<u8>,
    /// Attribute names and values; each name occurs once.
    pub attrs: Vec<(Vec<u8>, Vec<u8>)>,
    pub children: Vec<Node>,
}

/// A node as plain values.
pub enum NodeV {
    Element(Seq<u8>, Seq<(Seq<u8>, Seq<u8>)>, Seq<NodeV>),
    Text(Seq<u8>),
}

pub open spec fn attrs_view(a: Seq<(Vec<u8>, Vec<u8>)>) -> Seq<(Seq<u8>, Seq<u8>)> {
    Seq::new(a.len(), |i: int| (a[i].0@, a[i].1@))
}

pub open spec fn node_view(n: Node) -> NodeV
    decreases n,
{
    match n {
        Node::Element(e) => NodeV::Element(e.tag@, attrs_view(e.attrs@), nodes_view(e.children@)),
        Node::Text(t) => NodeV::Text(t@),
    }
}

pub open spec fn nodes_view(ns: Seq<Node>) -> Seq<NodeV>
    decreases ns,
{
    if ns.len() == 0 {
        Seq::empty()
    } else {
        nodes_view(ns.drop_last()).push(node_view(ns.last()))
    }
}

proof fn lemma_nodes_view_push(ns: Seq<Node>, n: Node)
    ensures
        nodes_view(ns.push(n)) == nodes_view(ns).push(node_view(n)),
{
    assert(ns.push(n).drop_last() =~= ns);
}

/// Index of the attribute named `key`.
pub open spec fn attr_index(a: Seq<(Seq<u8>, Seq<u8>)>, key: Seq<u8>) -> Option<int>
    decreases a.len(),
{
    if a.len() == 0 {
        None
    } else if a.last().0 == key {
        Some(a.len() - 1)
    } else {
        attr_index(a.drop_last(), key)
    }
}

/// The value of attribute `key`.
pub open spec fn attr_get(a: Seq<(Seq<u8>, Seq<u8>)>, key: Seq<u8>) -> Option<Seq<u8>> {
    match attr_index(a, key) {
        Some(i) => Some(a[i].1),
        None => None,
    }
}

/// Set attribute `key` to `value`, replacing an earlier value.
pub open spec fn attr_insert(a: Seq<(Seq<u8>, Seq<u8>)>, key: Seq<u8>, value: Seq<u8>) -> Seq<(Seq<u8>, Seq<u8>)> {
    match attr_index(a, key) {
        Some(i) => a.update(i, (key, value)),
        None => a.push((key, value)),
    }
}

proof fn lemma_attr_index_bounds(a: Seq<(Seq<u8>, Seq<u8>)>, key: Seq<u8>)
    ensures
        attr_index(a, key) matches Some(i) ==> 0 <= i < a.len() && a[i].0 == key,
        attr_index(a, key) is None ==> forall|k: int| 0 <= k < a.len() ==> a[k].0 != key,
    decreases a.len(),
{
    if a.len() > 0 {
        lemma_attr_index_bounds(a.drop_last(), key);
        if attr_index(a, key) is None {
            assert forall|k: int| 0 <= k < a.len() implies a[k].0 != key by {
                if k < a.len() - 1 {
                    assert(a.drop_last()[k] == a[k]);
                }
            }
        }
    }
}

fn attr_find(a: &Vec<(Vec<u8>, Vec<u8>)>, key: &[u8]) -> (r: Option<usize>)
    ensures
        match r {
            Some(j) => attr_index(attrs_view(a@), key@) == Some(j as int) && j < a@.len(),
            None => attr_index(attrs_view(a@), key@) is None,
        },
{
    proof {
        lemma_attr_index_bounds(attrs_view(a@), key@);
    }
    let mut i = a.len();
    assert(attrs_view(a@).subrange(0, a@.len() as int) =~= attrs_view(a@));
    while i > 0
        invariant
            i <= a@.len(),
            attr_index(attrs_view(a@), key@) == attr_index(attrs_view(a@).subrange(0, i as int), key@),
        decreases i,
    {
        let ghost av = attrs_view(a@).subrange(0, i as int);
        assert(av.drop_last() =~= attrs_view(a@).subrange(0, i - 1));
        if bytes_eq(a[i - 1].0.as_slice(), key) {
            return Some(i - 1);
        }
        i -= 1;
    }
    assert(attrs_view(a@).subrange(0, 0) =~= Seq::<(Seq<u8>, Seq<u8>)>::empty());
    None
}

fn attr_set(a: &mut Vec<(Vec<u8>, Vec<u8>)>, key: Vec<u8>, value: Vec<u8>)
    ensures
        attrs_view(final(a)@) == attr_insert(attrs_view(old(a)@), key@, value@),
{
    proof {
        lemma_attr_index_bounds(attrs_view(a@), key@);
    }
    match attr_find(a, key.as_slice()) {
        Some(i) => {
            let ghost k = key@;
            let ghost v = value@;
            a.set(i, (key, value));
            assert(attrs_view(a@) =~= attrs_view(old(a)@).update(i as int, (k, v)));
        },
        None => {
            let ghost k = key@;
            let ghost v = value@;
            a.push((key, value));
            assert(attrs_view(a@) =~= attrs_view(old(a)@).push((k, v)));
        },
    }
}

/// The words of `s[from..]` separated by ASCII whitespace.
pub open spec fn words_from(s: Seq<u8>, from: int) -> Seq<Seq<u8>>
    decreases s.len() - from,
{
    if from < 0 || from >= s.len() {
        Seq::empty()
    } else {
        let a = scan(s, from, negate(ascii_ws_fn()));
        proof {
            lemma_scan_bounds(s, from, negate(ascii_ws_fn()));
        }
        if a >= s.len() {
            Seq::empty()
        } else {
            let e = scan(s, a, ascii_ws_fn());
            proof {
                lemma_scan_bounds(s, a, ascii_ws_fn());
            }
            seq![s.subrange(a, e)] + words_from(s, e)
        }
    }
}

/// The words of `s` separated by ASCII whitespace (`split_ascii_whitespace`).
pub open spec fn words(s: Seq<u8>) -> Seq<Seq<u8>> {
    words_from(s, 0)
}

fn split_words(s: &[u8]) -> (w: Vec<Vec<u8>>)
    ensures
        w.deep_view() == words(s@),
{
    let n = s.len();
    let mut out: Vec<Vec<u8>> = Vec::new();
    let mut i: usize = 0;
    while i < n
        invariant
            n == s@.len(),
            i <= n,
            out.deep_view() + words_from(s@, i as int) == words(s@),
        decreases n - i,
    {
        let mut a = i;
        while a < n && (s[a] == 0x20 || s[a] == 0x09 || s[a] == 0x0A || s[a] == 0x0C || s[a] == 0x0D)
            invariant
                n == s@.len(),
                i <= a <= n,
                scan(s@, i as int, negate(ascii_ws_fn())) == scan(s@, a as int, negate(ascii_ws_fn())),
            decreases n - a,
        {
            a += 1;
        }
        if a >= n {
            assert(words_from(s@, i as int) =~= Seq::<Seq<u8>>::empty());
            i = n;
        } else {
            let mut e = a;
            while e < n && !(s[e] == 0x20 || s[e] == 0x09 || s[e] == 0x0A || s[e] == 0x0C || s[e] == 0x0D)
                invariant
                    n == s@.len(),
                    a <= e <= n,
                    scan(s@, a as int, ascii_ws_fn()) == scan(s@, e as int, ascii_ws_fn()),
                decreases n - e,
            {
                e += 1;
            }
            let w = crate::bytes::to_vec(&s[a..e]);
            assert(w.deep_view() =~= w@);
            let ghost before = out.deep_view();
            let ghost old_out = out@;
            out.push(w);
            assert(forall|k: int| 0 <= k < old_out.len() ==> out@[k] == old_out[k]);
            assert(out.deep_view() =~= before.push(s@.subrange(a as int, e as int)));
            assert(words_from(s@, i as int) == seq![s@.subrange(a as int, e as int)] + words_from(s@, e as int));
            assert(before + (seq![s@.subrange(a as int, e as int)] + words_from(s@, e as int)) =~= before.push(
                s@.subrange(a as int, e as int),
            ) + words_from(s@, e as int));
            i = e;
        }
    }
    assert(words_from(s@, n as int) =~= Seq::<Seq<u8>>::empty());
    assert(out.deep_view() + Seq::<Seq<u8>>::empty() =~= out.deep_view());
    out
}

/// The words of `s` separated by ASCII whitespace.
pub fn split_words_pub(s: &[u8]) -> (w: Vec<Vec<u8>>)
    ensures
        w.deep_view() == words(s@),
{
    split_words(s)
}

impl Element {
    /// The `id` attribute.
    pub fn id(&self) -> (r: Option<&[u8]>)
        ensures
            match r {
                Some(v) => attr_get(attrs_view(self.attrs@), "id".spec_bytes()) == Some(v@),
                None => attr_get(attrs_view(self.attrs@), "id".spec_bytes()) is None,
            },
    {
        proof {
            lemma_attr_index_bounds(attrs_view(self.attrs@), "id".spec_bytes());
        }
        let key = "id".as_bytes();
        assert(key@ == "id".spec_bytes());
        match attr_find(&self.attrs, key) {
            Some(i) => {
                assert(attr_index(attrs_view(self.attrs@), key@) == Some(i as int));
                assert(attrs_view(self.attrs@)[i as int].1 == self.attrs@[i as int].1@);
                Some(self.attrs[i].1.as_slice())
            },
            None => None,
        }
    }

    /// The value of attribute `key`.
    pub fn attrs_get(&self, key: &[u8]) -> (r: Option<&[u8]>)
        ensures
            match r {
                Some(v) => attr_get(attrs_view(self.attrs@), key@) == Some(v@),
                None => attr_get(attrs_view(self.attrs@), key@) is None,
            },
    {
        match attr_find(&self.attrs, key) {
            Some(i) => {
                assert(attrs_view(self.attrs@)[i as int].1 == self.attrs@[i as int].1@);
                Some(self.attrs[i].1.as_slice())
            },
            None => None,
        }
    }

    /// The words of the `class` attribute.
    pub fn classes(&self) -> (c: Vec<Vec<u8>>)
        ensures
            c.deep_view() == words(
                match attr_get(attrs_view(self.attrs@), "class".spec_bytes()) {
                    Some(v) => v,
                    None => Seq::<u8>::empty(),
                },
            ),
    {
        proof {
            lemma_attr_index_bounds(attrs_view(self.attrs@), "class".spec_bytes());
        }
        match attr_find(&self.attrs, "class".as_bytes()) {
            Some(i) => {
                assert(attrs_view(self.attrs@)[i as int].1 == self.attrs@[i as int].1@);
                split_words(self.attrs[i].1.as_slice())
            },
            None => {
                let empty: [u8; 0] = [];
                let w = split_words(empty.as_slice());
                assert(empty@ =~= Seq::<u8>::empty());
                w
            },
        }
    }
}

/// HTML elements that never have children (void elements).
pub open spec fn is_void_spec(tag: Seq<u8>) -> bool {
    ||| tag == "br".spec_bytes()
    ||| tag == "img".spec_bytes()
    ||| tag == "hr".spec_bytes()
    ||| tag == "meta".spec_bytes()
    ||| tag == "link".spec_bytes()
    ||| tag == "input".spec_bytes()
    ||| tag == "area".spec_bytes()
    ||| tag == "base".spec_bytes()
    ||| tag == "col".spec_bytes()
    ||| tag == "embed".spec_bytes()
    ||| tag == "source".spec_bytes()
    ||| tag == "track".spec_bytes()
    ||| tag == "wbr".spec_bytes()
}

fn is_void(tag: &[u8]) -> (r: bool)
    ensures
        r == is_void_spec(tag@),
{
    bytes_eq(tag, "br".as_bytes()) || bytes_eq(tag, "img".as_bytes()) || bytes_eq(tag, "hr".as_bytes())
        || bytes_eq(tag, "meta".as_bytes()) || bytes_eq(tag, "link".as_bytes()) || bytes_eq(tag, "input".as_bytes())
        || bytes_eq(tag, "area".as_bytes()) || bytes_eq(tag, "base".as_bytes()) || bytes_eq(tag, "col".as_bytes())
        || bytes_eq(tag, "embed".as_bytes()) || bytes_eq(tag, "source".as_bytes()) || bytes_eq(tag, "track".as_bytes())
        || bytes_eq(tag, "wbr".as_bytes())
}

// ---- text decoding ----

/// The ASCII letter a Latin-1 accented letter folds to (`é` -> `e`), for
/// code points in U+00C0..=U+00FF; `None` for anything else.
pub open spec fn fold_ascii_spec(cp: u32) -> Option<u8> {
    if 0xC0 <= cp <= 0xC5 {
        Some(0x41u8)
    } else if cp == 0xC7 {
        Some(0x43u8)
    } else if 0xC8 <= cp <= 0xCB {
        Some(0x45u8)
    } else if 0xCC <= cp <= 0xCF {
        Some(0x49u8)
    } else if cp == 0xD1 {
        Some(0x4Eu8)
    } else if (0xD2 <= cp <= 0xD6) || cp == 0xD8 {
        Some(0x4Fu8)
    } else if 0xD9 <= cp <= 0xDC {
        Some(0x55u8)
    } else if cp == 0xDD {
        Some(0x59u8)
    } else if 0xE0 <= cp <= 0xE5 {
        Some(0x61u8)
    } else if cp == 0xE7 {
        Some(0x63u8)
    } else if 0xE8 <= cp <= 0xEB {
        Some(0x65u8)
    } else if 0xEC <= cp <= 0xEF {
        Some(0x69u8)
    } else if cp == 0xF1 {
        Some(0x6Eu8)
    } else if (0xF2 <= cp <= 0xF6) || cp == 0xF8 {
        Some(0x6Fu8)
    } else if 0xF9 <= cp <= 0xFC {
        Some(0x75u8)
    } else if cp == 0xFD || cp == 0xFF {
        Some(0x79u8)
    } else {
        None
    }
}

pub fn fold_ascii(cp: u32) -> (r: Option<u8>)
    ensures
        r == fold_ascii_spec(cp),
{
    if 0xC0 <= cp && cp <= 0xC5 {
        Some(0x41)
    } else if cp == 0xC7 {
        Some(0x43)
    } else if 0xC8 <= cp && cp <= 0xCB {
        Some(0x45)
    } else if 0xCC <= cp && cp <= 0xCF {
        Some(0x49)
    } else if cp == 0xD1 {
        Some(0x4E)
    } else if (0xD2 <= cp && cp <= 0xD6) || cp == 0xD8 {
        Some(0x4F)
    } else if 0xD9 <= cp && cp <= 0xDC {
        Some(0x55)
    } else if cp == 0xDD {
        Some(0x59)
    } else if 0xE0 <= cp && cp <= 0xE5 {
        Some(0x61)
    } else if cp == 0xE7 {
        Some(0x63)
    } else if 0xE8 <= cp && cp <= 0xEB {
        Some(0x65)
    } else if 0xEC <= cp && cp <= 0xEF {
        Some(0x69)
    } else if cp == 0xF1 {
        Some(0x6E)
    } else if (0xF2 <= cp && cp <= 0xF6) || cp == 0xF8 {
        Some(0x6F)
    } else if 0xF9 <= cp && cp <= 0xFC {
        Some(0x75)
    } else if cp == 0xFD || cp == 0xFF {
        Some(0x79)
    } else {
        None
    }
}

pub open spec fn is_cont(b: u8) -> bool {
    0x80 <= b <= 0xBF
}

/// The code point starting `s` and its encoded length: a 2- to 4-byte
/// UTF-8 sequence is decoded from its bit pattern; a byte that does not
/// start one (or a truncated one) stands for U+FFFD and is one byte long.
pub open spec fn decode_utf8_spec(s: Seq<u8>) -> (u32, int) {
    if s.len() == 0 {
        (0xFFFD, 1)
    } else if s[0] < 0x80 {
        (s[0] as u32, 1)
    } else if 0xC0 <= s[0] <= 0xDF && s.len() >= 2 && is_cont(s[1]) {
        (((s[0] - 0xC0) * 64 + (s[1] - 0x80)) as u32, 2)
    } else if 0xE0 <= s[0] <= 0xEF && s.len() >= 3 && is_cont(s[1]) && is_cont(s[2]) {
        (((s[0] - 0xE0) * 4096 + (s[1] - 0x80) * 64 + (s[2] - 0x80)) as u32, 3)
    } else if 0xF0 <= s[0] <= 0xF7 && s.len() >= 4 && is_cont(s[1]) && is_cont(s[2]) && is_cont(s[3]) {
        (((s[0] - 0xF0) * 262144 + (s[1] - 0x80) * 4096 + (s[2] - 0x80) * 64 + (s[3] - 0x80)) as u32, 4)
    } else {
        (0xFFFD, 1)
    }
}

pub fn decode_utf8(s: &[u8]) -> (r: (u32, usize))
    ensures
        r.0 == decode_utf8_spec(s@).0,
        r.1 == decode_utf8_spec(s@).1,
{
    let n = s.len();
    if n == 0 {
        (0xFFFD, 1)
    } else if s[0] < 0x80 {
        (s[0] as u32, 1)
    } else if 0xC0 <= s[0] && s[0] <= 0xDF && n >= 2 && 0x80 <= s[1] && s[1] <= 0xBF {
        (((s[0] - 0xC0) as u32) * 64 + (s[1] - 0x80) as u32, 2)
    } else if 0xE0 <= s[0] && s[0] <= 0xEF && n >= 3 && 0x80 <= s[1] && s[1] <= 0xBF && 0x80 <= s[2] && s[2] <= 0xBF {
        (((s[0] - 0xE0) as u32) * 4096 + ((s[1] - 0x80) as u32) * 64 + (s[2] - 0x80) as u32, 3)
    } else if 0xF0 <= s[0] && s[0] <= 0xF7 && n >= 4 && 0x80 <= s[1] && s[1] <= 0xBF && 0x80 <= s[2] && s[2] <= 0xBF
        && 0x80 <= s[3] && s[3] <= 0xBF {
        (((s[0] - 0xF0) as u32) * 262144 + ((s[1] - 0x80) as u32) * 4096 + ((s[2] - 0x80) as u32) * 64 + (s[3]
            - 0x80) as u32, 4)
    } else {
        (0xFFFD, 1)
    }
}

/// The byte an entity named `name` stands for in page text: the browser's
/// entities, or a numeric `&#NN;` whose code point folds to ASCII.
pub open spec fn text_entity_spec(name: Seq<u8>) -> Option<u8> {
    match decode_entity_spec(name) {
        Some(b) => Some(b),
        None => if name.len() >= 2 && name[0] == 0x23 && all_digits(name.subrange(1, name.len() as int))
            && digits_value(name.subrange(1, name.len() as int)) <= 0xFF {
            fold_ascii_spec(digits_value(name.subrange(1, name.len() as int)) as u32)
        } else {
            None
        },
    }
}

fn text_entity(name: &[u8]) -> (r: Option<u8>)
    ensures
        r == text_entity_spec(name@),
{
    if let Some(b) = decode_entity(name) {
        return Some(b);
    }
    if name.len() < 2 || name[0] != 0x23 {
        return None;
    }
    let n = name.len();
    let mut v: u32 = 0;
    let mut k: usize = 1;
    let mut digits = true;
    assert(name@.subrange(1, 1) =~= Seq::<u8>::empty());
    while k < n && digits
        invariant
            n == name@.len(),
            1 <= k <= n,
            digits ==> all_digits(name@.subrange(1, k as int)),
            !digits ==> !all_digits(name@.subrange(1, n as int)),
            v <= 0x100 * 10 + 9,
            v <= 0xFF ==> v == digits_value(name@.subrange(1, k as int)),
            v > 0xFF ==> digits_value(name@.subrange(1, k as int)) > 0xFF,
        decreases n - k + (if digits { 1int } else { 0int }),
    {
        let d = name[k];
        if d < 0x30 || d > 0x39 {
            assert(name@.subrange(1, n as int)[k - 1] == d);
            digits = false;
        } else {
            proof {
                lemma_digits_step(name@, 1, k as int);
                assert(name@.subrange(1, k + 1) =~= name@.subrange(1, k as int).push(d));
            }
            if v <= 0xFF {
                v = v * 10 + (d - 0x30) as u32;
            }
            k += 1;
        }
    }
    if !digits || v > 0xFF {
        None
    } else {
        fold_ascii(v)
    }
}

/// Decoded page text of `b[i..]`: entities decoded, non-ASCII letters
/// folded to ASCII (others dropped), and each run of ASCII whitespace made a
/// single space (`last_space` says whether one was just emitted).
pub open spec fn decode_from(b: Seq<u8>, i: int, last_space: bool) -> Seq<u8>
    decreases b.len() - i,
{
    if i < 0 || i >= b.len() {
        Seq::empty()
    } else {
        let c = b[i];
        if is_ascii_ws(c) {
            if last_space { decode_from(b, i + 1, true) } else { seq![0x20u8] + decode_from(b, i + 1, true) }
        } else if c == 0x26 {
            let lim = if b.len() < i + 12 { b.len() as int } else { i + 12 };
            let j = scan(b.subrange(0, lim), i + 1, semi_byte());
            proof {
                lemma_scan_bounds(b.subrange(0, lim), i + 1, semi_byte());
            }
            if j < b.len() && b[j] == 0x3B && text_entity_spec(b.subrange(i + 1, j)) is Some {
                seq![text_entity_spec(b.subrange(i + 1, j))->0] + decode_from(b, j + 1, false)
            } else {
                seq![0x26u8] + decode_from(b, i + 1, false)
            }
        } else if c >= 0x80 {
            let (cp, len) = decode_utf8_spec(b.subrange(i, b.len() as int));
            let next = if i + len > b.len() { b.len() as int } else { i + len };
            match fold_ascii_spec(cp) {
                Some(a) => seq![a] + decode_from(b, next, false),
                None => decode_from(b, next, false),
            }
        } else {
            seq![c] + decode_from(b, i + 1, false)
        }
    }
}

/// Decode HTML entities and collapse runs of ASCII whitespace into single
/// spaces (HTML's normal whitespace handling for flow content).
#[verifier::rlimit(40)]
pub fn decode_text(bytes: &[u8]) -> (out: Vec<u8>)
    ensures
        out@ == decode_from(bytes@, 0, false),
{
    let n = bytes.len();
    let mut out: Vec<u8> = Vec::new();
    let mut last_space = false;
    let mut i: usize = 0;
    while i < n
        invariant
            n == bytes@.len(),
            i <= n,
            out@ + decode_from(bytes@, i as int, last_space) == decode_from(bytes@, 0, false),
        decreases n - i,
    {
        let ghost before = out@;
        let c = bytes[i];
        if c == 0x20 || c == 0x09 || c == 0x0A || c == 0x0C || c == 0x0D {
            if !last_space {
                out.push(0x20);
                assert(before + (seq![0x20u8] + decode_from(bytes@, i + 1, true)) =~= out@ + decode_from(
                    bytes@,
                    i + 1,
                    true,
                ));
            }
            last_space = true;
            i += 1;
        } else if c == 0x26 {
            let lim = if n - i < 12 { n } else { i + 12 };
            let ghost head = bytes@.subrange(0, lim as int);
            let mut j = i + 1;
            while j < lim && bytes[j] != 0x3B
                invariant
                    n == bytes@.len(),
                    lim <= n,
                    head == bytes@.subrange(0, lim as int),
                    i + 1 <= j <= lim || (j == i + 1 && lim == i + 1),
                    scan(head, i + 1, semi_byte()) == scan(head, j as int, semi_byte()),
                decreases lim - j,
            {
                j += 1;
            }
            let mut done = false;
            if j < n && bytes[j] == 0x3B {
                if let Some(ch) = text_entity(&bytes[i + 1..j]) {
                    out.push(ch);
                    assert(before + (seq![ch] + decode_from(bytes@, j + 1, false)) =~= out@ + decode_from(
                        bytes@,
                        j + 1,
                        false,
                    ));
                    i = j + 1;
                    done = true;
                }
            }
            if !done {
                out.push(0x26);
                assert(before + (seq![0x26u8] + decode_from(bytes@, i + 1, false)) =~= out@ + decode_from(
                    bytes@,
                    i + 1,
                    false,
                ));
                i += 1;
            }
            last_space = false;
        } else if c >= 0x80 {
            let (cp, len) = decode_utf8(&bytes[i..n]);
            let next = if len > n - i { n } else { i + len };
            match fold_ascii(cp) {
                Some(a) => {
                    out.push(a);
                    assert(before + (seq![a] + decode_from(bytes@, next as int, false)) =~= out@ + decode_from(
                        bytes@,
                        next as int,
                        false,
                    ));
                },
                None => {},
            }
            i = next;
            last_space = false;
        } else {
            out.push(c);
            assert(before + (seq![c] + decode_from(bytes@, i + 1, false)) =~= out@ + decode_from(
                bytes@,
                i + 1,
                false,
            ));
            last_space = false;
            i += 1;
        }
    }
    assert(out@ + Seq::<u8>::empty() =~= out@);
    out
}

// ---- the parser ----

/// `lit` occurs in `b` at `i`.
pub open spec fn at_lit(b: Seq<u8>, i: int, lit: Seq<u8>) -> bool {
    0 <= i && i + lit.len() <= b.len() && b.subrange(i, i + lit.len()) == lit
}

/// Past the next `ch` at or after `i` (the end when there is none).
pub open spec fn skip_until_spec(b: Seq<u8>, i: int, ch: u8) -> int {
    let j = scan(b, i, byte_is(ch));
    if j < b.len() { j + 1 } else { j }
}

/// First index at or after `k` where `lit` occurs (the end when it does not).
pub open spec fn lit_from(b: Seq<u8>, k: int, lit: Seq<u8>) -> int
    decreases b.len() - k,
{
    if k >= b.len() || at_lit(b, k, lit) {
        k
    } else {
        lit_from(b, k + 1, lit)
    }
}

proof fn lemma_lit_from_bounds(b: Seq<u8>, k: int, lit: Seq<u8>)
    requires
        0 <= k <= b.len(),
    ensures
        k <= lit_from(b, k, lit) <= b.len(),
    decreases b.len() - k,
{
    if k < b.len() && !at_lit(b, k, lit) {
        lemma_lit_from_bounds(b, k + 1, lit);
    }
}

/// Past the `-->` that closes a comment opened at `i`.
pub open spec fn comment_end(b: Seq<u8>, i: int) -> int {
    let k = lit_from(b, i + 4, "-->".spec_bytes());
    if k + 3 > b.len() { b.len() as int } else { k + 3 }
}

/// A byte of an element or attribute name.
pub open spec fn is_name_char(c: u8) -> bool {
    (0x30 <= c <= 0x39) || (0x41 <= c <= 0x5A) || (0x61 <= c <= 0x7A) || c == 0x2D || c == 0x5F || c == 0x3A
}

pub open spec fn name_char_fn() -> spec_fn(u8) -> bool {
    |c: u8| is_name_char(c)
}

pub open spec fn name_end(b: Seq<u8>, i: int) -> int {
    scan(b, i, negate(name_char_fn()))
}

pub open spec fn ws_end(b: Seq<u8>, i: int) -> int {
    scan(b, i, negate(ascii_ws_fn()))
}

pub open spec fn value_end_fn() -> spec_fn(u8) -> bool {
    |c: u8| is_ascii_ws(c) || c == 0x3E
}

/// An attribute value at `i`: quoted (to the matching quote) or bare (to
/// whitespace or `>`), and the position after it.
pub open spec fn attr_value_spec(b: Seq<u8>, i: int) -> (Seq<u8>, int) {
    if i >= b.len() {
        (Seq::empty(), i)
    } else if b[i] == 0x22 || b[i] == 0x27 {
        let e = scan(b, i + 1, byte_is(b[i]));
        (b.subrange(i + 1, e), if e < b.len() { e + 1 } else { e })
    } else {
        let e = scan(b, i, value_end_fn());
        (b.subrange(i, e), e)
    }
}

/// `k` moved past `i`, within the text.
pub open spec fn advance(b: Seq<u8>, i: int, k: int) -> int {
    if k <= i { i + 1 } else if k > b.len() { b.len() as int } else { k }
}

/// The attributes from `i` up to the end of the start tag, added to `acc`,
/// and where they end. Names are lower-cased; a name without `=` has an
/// empty value; stray bytes are skipped.
pub open spec fn attrs_from(b: Seq<u8>, i: int, acc: Seq<(Seq<u8>, Seq<u8>)>) -> (Seq<(Seq<u8>, Seq<u8>)>, int)
    decreases b.len() - i,
{
    if i < 0 || i >= b.len() {
        (acc, i)
    } else {
        let i1 = ws_end(b, i);
        if i1 >= b.len() || b[i1] == 0x3E || at_lit(b, i1, "/>".spec_bytes()) {
            (acc, i1)
        } else {
            let j = name_end(b, i1);
            if j <= i1 {
                attrs_from(b, advance(b, i, i1 + 1), acc)
            } else {
                let i2 = ws_end(b, j);
                let (v, i3) = if i2 < b.len() && b[i2] == 0x3D {
                    attr_value_spec(b, ws_end(b, i2 + 1))
                } else {
                    (Seq::empty(), i2)
                };
                attrs_from(b, advance(b, i, i3), attr_insert(acc, lower_seq(b.subrange(i1, j)), v))
            }
        }
    }
}

/// The end of a start tag at `i`: whether it was `/>`, and the position after it.
pub open spec fn tag_end_spec(b: Seq<u8>, i: int) -> (bool, int) {
    let i1 = ws_end(b, i);
    if at_lit(b, i1, "/>".spec_bytes()) {
        (true, i1 + 2)
    } else if i1 < b.len() && b[i1] == 0x3E {
        (false, i1 + 1)
    } else {
        (false, skip_until_spec(b, i1, 0x3E))
    }
}

/// `needle` occurs at `k`, ignoring ASCII case.
pub open spec fn at_lit_ci(b: Seq<u8>, k: int, needle: Seq<u8>) -> bool {
    0 <= k && k + needle.len() <= b.len() && lower_seq(b.subrange(k, k + needle.len())) == lower_seq(needle)
}

/// First index at or after `k` where `needle` occurs, ignoring case (the end
/// when it does not).
pub open spec fn ci_from(b: Seq<u8>, k: int, needle: Seq<u8>) -> int
    decreases b.len() - k,
{
    if k >= b.len() || at_lit_ci(b, k, needle) {
        k
    } else {
        ci_from(b, k + 1, needle)
    }
}

/// The raw text of a `<script>`/`<style>` body starting at `i`, up to its
/// closing tag (or the end), and the position after that closing tag.
pub open spec fn raw_spec(b: Seq<u8>, i: int, tag: Seq<u8>) -> (Seq<u8>, int) {
    let k = ci_from(b, i, "</".spec_bytes() + tag);
    if k >= b.len() {
        (b.subrange(i, b.len() as int), b.len() as int)
    } else {
        (b.subrange(i, k), skip_until_spec(b, k, 0x3E))
    }
}

/// The sibling nodes parsed from `i` (after those in `acc`), where they
/// stop (the end, or a close tag), and the CSS gathered (after `css`).
/// `open` holds the names of the enclosing elements.
pub open spec fn nodes_from(b: Seq<u8>, i: int, open: Seq<Seq<u8>>, acc: Seq<NodeV>, css: Seq<u8>) -> (
    Seq<NodeV>,
    int,
    Seq<u8>,
)
    decreases b.len() - i, 1int,
{
    if i < 0 || i >= b.len() {
        (acc, i, css)
    } else if at_lit(b, i, "<!--".spec_bytes()) {
        nodes_from(b, advance(b, i, comment_end(b, i)), open, acc, css)
    } else if at_lit(b, i, "<!".spec_bytes()) {
        nodes_from(b, advance(b, i, skip_until_spec(b, i, 0x3E)), open, acc, css)
    } else if at_lit(b, i, "</".spec_bytes()) {
        (acc, i, css)
    } else if b[i] == 0x3C {
        let r = element_at(b, i, open, css);
        nodes_from(
            b,
            advance(b, i, r.1),
            open,
            match r.0 {
                Some(n) => acc.push(n),
                None => acc,
            },
            r.2,
        )
    } else {
        let e = scan(b, i, byte_is(0x3C));
        let t = decode_from(b.subrange(i, e), 0, false);
        nodes_from(b, advance(b, i, e), open, if trim_str(t).len() > 0 { acc.push(NodeV::Text(t)) } else { acc }, css)
    }
}

/// The element whose start tag is at `i` (none for a nameless tag or a
/// `<script>`/`<style>`, whose body is skipped, a style body being added to
/// the CSS), where it ends, and the CSS gathered. A close tag naming an
/// enclosing element other than this one is left for that element.
pub open spec fn element_at(b: Seq<u8>, i: int, open: Seq<Seq<u8>>, css: Seq<u8>) -> (Option<NodeV>, int, Seq<u8>)
    decreases b.len() - i, 0int,
{
    if i < 0 || i >= b.len() {
        (None, i, css)
    } else {
        let st = start_tag(b, i);
        let tag = st.0;
        if tag.len() == 0 {
            (None, skip_until_spec(b, name_end(b, i + 1), 0x3E), css)
        } else if is_raw_tag(tag) {
            let (raw, i4) = raw_spec(b, st.3, tag);
            (None, i4, if tag == "style".spec_bytes() { css + raw + seq![0x0Au8] } else { css })
        } else if st.2 || is_void_spec(tag) {
            (Some(NodeV::Element(tag, st.1, Seq::empty())), st.3, css)
        } else {
            let r = nodes_from(b, advance(b, i, st.3), open.push(tag), Seq::empty(), css);
            (Some(NodeV::Element(tag, st.1, r.0)), close_end_spec(b, r.1, tag, open.push(tag)), r.2)
        }
    }
}

/// The start tag at `i`: its lower-cased name, its attributes, whether it
/// was self-closing, and the position after it.
pub open spec fn start_tag(b: Seq<u8>, i: int) -> (Seq<u8>, Seq<(Seq<u8>, Seq<u8>)>, bool, int) {
    let j = name_end(b, i + 1);
    let tag = lower_seq(b.subrange(i + 1, j));
    let (attrs, i2) = attrs_from(b, j, Seq::empty());
    let (sc, i3) = tag_end_spec(b, i2);
    (tag, attrs, sc, i3)
}

/// Elements whose body is raw text.
pub open spec fn is_raw_tag(tag: Seq<u8>) -> bool {
    tag == "script".spec_bytes() || tag == "style".spec_bytes()
}

/// What [`parse_html`] gives: the nodes and CSS of a UTF-8 document, nothing
/// for bytes that are not UTF-8.
pub open spec fn parse_html_spec(input: Seq<u8>) -> (Seq<NodeV>, Seq<u8>) {
    if vstd::utf8::valid_utf8(input) {
        let r = nodes_from(input, 0, Seq::empty(), Seq::empty(), Seq::empty());
        (r.0, r.2)
    } else {
        (Seq::empty(), Seq::empty())
    }
}

/// `core::str::from_utf8` accepts exactly the well-formed UTF-8 byte strings:
/// this wrapper claims that its result is `Ok` just when `b` is valid UTF-8
/// as `vstd::utf8::valid_utf8` defines it.
#[verifier::external_body]
pub(crate) fn is_utf8(b: &[u8]) -> (r: bool)
    ensures
        r == vstd::utf8::valid_utf8(b@),
{
    core::str::from_utf8(b).is_ok()
}

fn at_lit_exec(b: &[u8], i: usize, lit: &[u8]) -> (r: bool)
    requires
        i <= b@.len(),
    ensures
        r == at_lit(b@, i as int, lit@),
{
    if b.len() - i < lit.len() {
        return false;
    }
    bytes_eq(&b[i..i + lit.len()], lit)
}

fn scan_byte(b: &[u8], i: usize, ch: u8) -> (j: usize)
    requires
        i <= b@.len(),
    ensures
        j == scan(b@, i as int, byte_is(ch)),
        i <= j <= b@.len(),
{
    let n = b.len();
    let mut j = i;
    while j < n && b[j] != ch
        invariant
            n == b@.len(),
            i <= j <= n,
            scan(b@, i as int, byte_is(ch)) == scan(b@, j as int, byte_is(ch)),
        decreases n - j,
    {
        j += 1;
    }
    j
}

fn skip_until(b: &[u8], i: usize, ch: u8) -> (k: usize)
    requires
        i <= b@.len(),
    ensures
        k == skip_until_spec(b@, i as int, ch),
        i <= k <= b@.len(),
{
    let j = scan_byte(b, i, ch);
    if j < b.len() { j + 1 } else { j }
}

fn skip_comment(b: &[u8], i: usize) -> (k: usize)
    requires
        at_lit(b@, i as int, "<!--".spec_bytes()),
    ensures
        k == comment_end(b@, i as int),
        i < k <= b@.len(),
{
    proof {
        reveal_strlit("<!--");
        assert(vstd::string::is_ascii("<!--"));
        assert("<!--".spec_bytes().len() == 4);
    }
    let n = b.len();
    let close = "-->".as_bytes();
    let mut k = i + 4;
    proof {
        lemma_lit_from_bounds(b@, i + 4, "-->".spec_bytes());
    }
    while k < n && !at_lit_exec(b, k, close)
        invariant
            n == b@.len(),
            close@ == "-->".spec_bytes(),
            i + 4 <= k <= n,
            lit_from(b@, i + 4, "-->".spec_bytes()) == lit_from(b@, k as int, "-->".spec_bytes()),
        decreases n - k,
    {
        k += 1;
    }
    if n - k < 3 { n } else { k + 3 }
}

fn name_end_exec(b: &[u8], i: usize) -> (j: usize)
    requires
        i <= b@.len(),
    ensures
        j == name_end(b@, i as int),
        i <= j <= b@.len(),
{
    let n = b.len();
    let mut j = i;
    while j < n && ((0x30 <= b[j] && b[j] <= 0x39) || (0x41 <= b[j] && b[j] <= 0x5A) || (0x61 <= b[j] && b[j] <= 0x7A)
        || b[j] == 0x2D || b[j] == 0x5F || b[j] == 0x3A)
        invariant
            n == b@.len(),
            i <= j <= n,
            name_end(b@, i as int) == scan(b@, j as int, negate(name_char_fn())),
        decreases n - j,
    {
        j += 1;
    }
    j
}

fn ws_end_exec(b: &[u8], i: usize) -> (j: usize)
    requires
        i <= b@.len(),
    ensures
        j == ws_end(b@, i as int),
        i <= j <= b@.len(),
{
    let n = b.len();
    let mut j = i;
    while j < n && (b[j] == 0x20 || b[j] == 0x09 || b[j] == 0x0A || b[j] == 0x0C || b[j] == 0x0D)
        invariant
            n == b@.len(),
            i <= j <= n,
            ws_end(b@, i as int) == scan(b@, j as int, negate(ascii_ws_fn())),
        decreases n - j,
    {
        j += 1;
    }
    j
}

fn parse_attr_value(b: &[u8], i: usize) -> (r: (Vec<u8>, usize))
    requires
        i <= b@.len(),
    ensures
        r.0@ == attr_value_spec(b@, i as int).0,
        r.1 == attr_value_spec(b@, i as int).1,
        i <= r.1 <= b@.len(),
{
    let n = b.len();
    if i >= n {
        return (Vec::new(), i);
    }
    let q = b[i];
    if q == 0x22 || q == 0x27 {
        let e = scan_byte(b, i + 1, q);
        let v = crate::bytes::to_vec(&b[i + 1..e]);
        (v, if e < n { e + 1 } else { e })
    } else {
        let mut e = i;
        while e < n && !(b[e] == 0x20 || b[e] == 0x09 || b[e] == 0x0A || b[e] == 0x0C || b[e] == 0x0D || b[e] == 0x3E)
            invariant
                n == b@.len(),
                i <= e <= n,
                scan(b@, i as int, value_end_fn()) == scan(b@, e as int, value_end_fn()),
            decreases n - e,
        {
            e += 1;
        }
        (crate::bytes::to_vec(&b[i..e]), e)
    }
}

fn parse_attrs(b: &[u8], i: usize) -> (r: (Vec<(Vec<u8>, Vec<u8>)>, usize))
    requires
        i <= b@.len(),
    ensures
        attrs_view(r.0@) == attrs_from(b@, i as int, Seq::empty()).0,
        r.1 == attrs_from(b@, i as int, Seq::empty()).1,
        i <= r.1 <= b@.len(),
{
    let n = b.len();
    let mut attrs: Vec<(Vec<u8>, Vec<u8>)> = Vec::new();
    let mut k = i;
    assert(attrs_view(attrs@) =~= Seq::<(Seq<u8>, Seq<u8>)>::empty());
    loop
        invariant
            n == b@.len(),
            i <= k <= n,
            attrs_from(b@, i as int, Seq::empty()) == attrs_from(b@, k as int, attrs_view(attrs@)),
        decreases n - k,
    {
        let k1 = ws_end_exec(b, k);
        if k1 >= n || b[k1] == 0x3E || at_lit_exec(b, k1, "/>".as_bytes()) {
            return (attrs, k1);
        }
        let j = name_end_exec(b, k1);
        if j <= k1 {
            k = k1 + 1;
        } else {
            let name = to_lower(&b[k1..j]);
            let k2 = ws_end_exec(b, j);
            let (v, k3) = if k2 < n && b[k2] == 0x3D {
                let k4 = ws_end_exec(b, k2 + 1);
                parse_attr_value(b, k4)
            } else {
                (Vec::new(), k2)
            };
            attr_set(&mut attrs, name, v);
            k = k3;
        }
    }
}

fn consume_tag_end(b: &[u8], i: usize) -> (r: (bool, usize))
    requires
        i <= b@.len(),
    ensures
        r.0 == tag_end_spec(b@, i as int).0,
        r.1 == tag_end_spec(b@, i as int).1,
        i <= r.1 <= b@.len(),
{
    let n = b.len();
    let k = ws_end_exec(b, i);
    proof {
        reveal_strlit("/>");
        assert(vstd::string::is_ascii("/>"));
        assert("/>".spec_bytes().len() == 2);
    }
    if at_lit_exec(b, k, "/>".as_bytes()) {
        (true, k + 2)
    } else if k < b.len() && b[k] == 0x3E {
        (false, k + 1)
    } else {
        (false, skip_until(b, k, 0x3E))
    }
}

fn eq_ci(a: &[u8], b: &[u8]) -> (r: bool)
    ensures
        r == (lower_seq(a@) == lower_seq(b@)),
{
    if a.len() != b.len() {
        assert(lower_seq(a@).len() != lower_seq(b@).len());
        return false;
    }
    let mut k: usize = 0;
    while k < a.len()
        invariant
            a@.len() == b@.len(),
            k <= a@.len(),
            forall|x: int| 0 <= x < k ==> lower_spec(a@[x]) == lower_spec(b@[x]),
        decreases a@.len() - k,
    {
        if ascii_lower(a[k]) != ascii_lower(b[k]) {
            assert(lower_seq(a@)[k as int] != lower_seq(b@)[k as int]);
            return false;
        }
        k += 1;
    }
    assert(lower_seq(a@) =~= lower_seq(b@));
    true
}

fn read_raw_until_close(b: &[u8], i: usize, tag: &[u8]) -> (r: (Vec<u8>, usize))
    requires
        i <= b@.len(),
    ensures
        r.0@ == raw_spec(b@, i as int, tag@).0,
        r.1 == raw_spec(b@, i as int, tag@).1,
        i <= r.1 <= b@.len(),
{
    let n = b.len();
    let mut needle: Vec<u8> = Vec::new();
    needle.push(0x3C);
    needle.push(0x2F);
    crate::bytes::push_all(&mut needle, tag);
    proof {
        reveal_strlit("</");
        assert(vstd::string::is_ascii("</"));
    }
    assert(needle@ =~= "</".spec_bytes() + tag@);
    let m = needle.len();
    let mut k = i;
    while k < n && !(n - k >= m && eq_ci(&b[k..k + m], needle.as_slice()))
        invariant
            n == b@.len(),
            m == needle@.len(),
            i <= k <= n,
            ci_from(b@, i as int, needle@) == ci_from(b@, k as int, needle@),
        decreases n - k,
    {
        k += 1;
    }
    if k >= n {
        (crate::bytes::to_vec(&b[i..n]), n)
    } else {
        (crate::bytes::to_vec(&b[i..k]), skip_until(b, k, 0x3E))
    }
}

fn contains_name(open: &Vec<Vec<u8>>, name: &[u8]) -> (r: bool)
    ensures
        r == open.deep_view().contains(name@),
{
    let mut k: usize = 0;
    while k < open.len()
        invariant
            k <= open@.len(),
            forall|x: int| 0 <= x < k ==> open.deep_view()[x] != name@,
        decreases open@.len() - k,
    {
        assert(open.deep_view()[k as int] =~= open@[k as int]@);
        if bytes_eq(open[k].as_slice(), name) {
            assert(open.deep_view()[k as int] == name@);
            return true;
        }
        k += 1;
    }
    false
}

/// Parse sibling nodes from `i` until the end or a close tag; returns them
/// and where they stop.
fn parse_nodes(b: &[u8], i: usize, css: &mut Vec<u8>, open: &mut Vec<Vec<u8>>) -> (r: (Vec<Node>, usize))
    requires
        i <= b@.len(),
    ensures
        ({
            let s = nodes_from(b@, i as int, old(open).deep_view(), Seq::empty(), old(css)@);
            &&& nodes_view(r.0@) == s.0
            &&& r.1 == s.1
            &&& final(css)@ == s.2
        }),
        final(open).deep_view() == old(open).deep_view(),
        i <= r.1 <= b@.len(),
    decreases b@.len() - i, 1int,
{
    let n = b.len();
    let mut nodes: Vec<Node> = Vec::new();
    let mut k = i;
    let ghost ov = open.deep_view();
    assert(nodes_view(nodes@) =~= Seq::<NodeV>::empty());
    loop
        invariant
            n == b@.len(),
            i <= k <= n,
            open.deep_view() == ov,
            ov == old(open).deep_view(),
            nodes_from(b@, i as int, ov, Seq::empty(), old(css)@) == nodes_from(b@, k as int, ov, nodes_view(nodes@), css@),
        decreases n - k,
    {
        if k >= n {
            return (nodes, k);
        }
        if at_lit_exec(b, k, "<!--".as_bytes()) {
            k = skip_comment(b, k);
        } else if at_lit_exec(b, k, "<!".as_bytes()) {
            assert(b@[k as int] == 0x3C) by {
                reveal_strlit("<!");
                assert(vstd::string::is_ascii("<!"));
                assert(b@.subrange(k as int, k + 2)[0] == b@[k as int]);
            }
            proof {
                lemma_scan_bounds(b@, k + 1, byte_is(0x3E));
            }
            let k2 = skip_until(b, k, 0x3E);
            k = k2;
        } else if at_lit_exec(b, k, "</".as_bytes()) {
            return (nodes, k);
        } else if b[k] == 0x3C {
            let (node, k2) = parse_element(b, k, css, open);
            let ghost before = nodes@;
            match node {
                Some(nd) => {
                    nodes.push(nd);
                    proof {
                        lemma_nodes_view_push(before, nd);
                    }
                },
                None => {},
            }
            k = k2;
        } else {
            proof {
                lemma_scan_bounds(b@, k + 1, byte_is(0x3C));
            }
            let e = scan_byte(b, k, 0x3C);
            let t = decode_text(&b[k..e]);
            let ghost before = nodes@;
            if trim(t.as_slice()).len() > 0 {
                let ghost tv = t@;
                let nd = Node::Text(t);
                nodes.push(nd);
                proof {
                    lemma_nodes_view_push(before, nd);
                }
            }
            k = e;
        }
    }
}

/// Where an element whose children ended at `k` ends: past its close tag,
/// unless that tag names another enclosing element (left for it).
pub open spec fn close_end_spec(b: Seq<u8>, k: int, tag: Seq<u8>, open: Seq<Seq<u8>>) -> int {
    if at_lit(b, k, "</".spec_bytes()) {
        let ne = name_end(b, k + 2);
        let close = lower_seq(b.subrange(k + 2, ne));
        if close != tag && open.contains(close) {
            k
        } else {
            skip_until_spec(b, ne, 0x3E)
        }
    } else {
        k
    }
}

fn close_tag_end(b: &[u8], k: usize, tag: &[u8], open: &Vec<Vec<u8>>) -> (r: usize)
    requires
        k <= b@.len(),
    ensures
        r == close_end_spec(b@, k as int, tag@, open.deep_view()),
        k <= r <= b@.len(),
{
    let n = b.len();
    proof {
        reveal_strlit("</");
        assert(vstd::string::is_ascii("</"));
        assert("</".spec_bytes().len() == 2);
    }
    if at_lit_exec(b, k, "</".as_bytes()) {
        let ne = name_end_exec(b, k + 2);
        let close = to_lower(&b[k + 2..ne]);
        let k6 = skip_until(b, ne, 0x3E);
        if !bytes_eq(close.as_slice(), tag) && contains_name(open, close.as_slice()) {
            k
        } else {
            k6
        }
    } else {
        k
    }
}

fn parse_start_tag(b: &[u8], i: usize) -> (r: (Vec<u8>, Vec<(Vec<u8>, Vec<u8>)>, bool, usize, usize))
    requires
        i < b@.len(),
    ensures
        r.0@ == start_tag(b@, i as int).0,
        attrs_view(r.1@) == start_tag(b@, i as int).1,
        r.2 == start_tag(b@, i as int).2,
        r.3 == start_tag(b@, i as int).3,
        r.4 == name_end(b@, i + 1),
        i < r.4 <= r.3 <= b@.len(),
{
    let n = b.len();
    let j = name_end_exec(b, i + 1);
    let tag = to_lower(&b[i + 1..j]);
    let (attrs, k2) = parse_attrs(b, j);
    let (sc, k3) = consume_tag_end(b, k2);
    (tag, attrs, sc, k3, j)
}

/// Skip a script/style body from `k`, adding a style body to `css`.
fn skip_raw(b: &[u8], k: usize, tag: &[u8], css: &mut Vec<u8>) -> (r: usize)
    requires
        k <= b@.len(),
    ensures
        r == raw_spec(b@, k as int, tag@).1,
        final(css)@ == if tag@ == "style".spec_bytes() {
            old(css)@ + raw_spec(b@, k as int, tag@).0 + seq![0x0Au8]
        } else {
            old(css)@
        },
        k <= r <= b@.len(),
{
    let (raw, k4) = read_raw_until_close(b, k, tag);
    if bytes_eq(tag, "style".as_bytes()) {
        crate::bytes::push_all(css, raw.as_slice());
        css.push(0x0A);
        assert(css@ =~= old(css)@ + raw@ + seq![0x0Au8]);
    }
    k4
}

/// Parse the element whose start tag is at `i`; returns it (none for a
/// nameless tag or a script/style) and where it ends.
fn parse_element(b: &[u8], i: usize, css: &mut Vec<u8>, open: &mut Vec<Vec<u8>>) -> (r: (Option<Node>, usize))
    requires
        i < b@.len(),
        b@[i as int] == 0x3C,
    ensures
        ({
            let s = element_at(b@, i as int, old(open).deep_view(), old(css)@);
            &&& (match r.0 {
                Some(nd) => s.0 == Some(node_view(nd)),
                None => s.0 is None,
            })
            &&& r.1 == s.1
            &&& final(css)@ == s.2
        }),
        final(open).deep_view() == old(open).deep_view(),
        i < r.1 <= b@.len(),
    decreases b@.len() - i, 0int,
{
    let (tag, attrs, sc, k3, j) = parse_start_tag(b, i);
    if tag.len() == 0 {
        return (None, skip_until(b, j, 0x3E));
    }
    if bytes_eq(tag.as_slice(), "script".as_bytes()) || bytes_eq(tag.as_slice(), "style".as_bytes()) {
        let k4 = skip_raw(b, k3, tag.as_slice(), css);
        return (None, k4);
    }
    if sc || is_void(tag.as_slice()) {
        let nd = Node::Element(Element { tag, attrs, children: Vec::new() });
        assert(nodes_view(Seq::<Node>::empty()) =~= Seq::<NodeV>::empty());
        return (Some(nd), k3);
    }
    let ghost ov = open.deep_view();
    let ghost tv = tag@;
    let tag_copy = crate::bytes::to_vec(tag.as_slice());
    assert(tag_copy.deep_view() =~= tv);
    let ghost old_open = open@;
    let ghost tc = tag_copy;
    open.push(tag_copy);
    assert(open@ == old_open.push(tc));
    assert(open.deep_view() =~= ov.push(tv)) by {
        assert forall|x: int| 0 <= x < old_open.len() implies open@[x] == old_open[x] by {
            assert(old_open.push(tc)[x] == old_open[x]);
        }
    }
    let (children, k4) = parse_nodes(b, k3, css, open);
    let k5 = close_tag_end(b, k4, tag.as_slice(), open);
    let ghost bp = open@;
    let ghost bpd = open.deep_view();
    assert(bpd == ov.push(tv));
    open.pop();
    assert(open@ =~= bp.drop_last());
    assert(open.deep_view() =~= ov) by {
        assert forall|x: int| 0 <= x < open@.len() implies open.deep_view()[x] == ov[x] by {
            assert(open@[x] == bp[x]);
            assert(bpd[x] == bp[x].deep_view());
            assert(ov.push(tv)[x] == ov[x]);
        }
    }
    let nd = Node::Element(Element { tag, attrs, children });
    (Some(nd), k5)
}

/// Parse an HTML document into a DOM tree plus the concatenated text of every
/// `<style>` element (the page's CSS). Tolerant of malformed markup: unknown
/// tags pass through, mismatched close tags pop to the nearest match.
pub fn parse_html(input: &[u8]) -> (r: (Vec<Node>, Vec<u8>))
    ensures
        nodes_view(r.0@) == parse_html_spec(input@).0,
        r.1@ == parse_html_spec(input@).1,
{
    if !is_utf8(input) {
        assert(nodes_view(Seq::<Node>::empty()) =~= Seq::<NodeV>::empty());
        return (Vec::new(), Vec::new());
    }
    let mut css: Vec<u8> = Vec::new();
    let mut open: Vec<Vec<u8>> = Vec::new();
    assert(open.deep_view() =~= Seq::<Seq<u8>>::empty());
    assert(css@ =~= Seq::<u8>::empty());
    let (nodes, _) = parse_nodes(input, 0, &mut css, &mut open);
    (nodes, css)
}

} // verus!
