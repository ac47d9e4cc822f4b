//! The markup grammar as mathematics: what the parser reads from a text,
//! position by position, and the document it builds.
use crate::layout::{is_void, known_tag, HtmlNode, HtmlTag, StyleProperty};
use crate::text::{ascii_lower, decode_entities, is_alnum, is_ws, occurs_at, trim};
use vstd::prelude::*;

verus! {

/// The kind of an element as a plain value: a recognised kind, or a custom
/// tag by its name.
pub enum KindV {
    Known(HtmlTag),
    Custom(Seq<char>),
}

/// A document tree as plain values: an element by its kind, attributes,
/// children and style map; or a text.
pub enum NodeV {
    Element(KindV, Map<Seq<char>, Seq<char>>, Seq<NodeV>, Map<Seq<char>, StyleProperty>),
    Text(Seq<char>),
}

pub open spec fn kind_view(t: HtmlTag) -> KindV {
    match t {
        HtmlTag::Custom(c) => KindV::Custom(c@),
        _ => KindV::Known(t),
    }
}

/// The kind that a tag name denotes.
pub open spec fn kind_of_name(name: Seq<char>) -> KindV {
    match known_tag(ascii_lower(name)) {
        Some(t) => KindV::Known(t),
        None => KindV::Custom(name),
    }
}

pub open spec fn attr_view(m: Map<Seq<char>, String>) -> Map<Seq<char>, Seq<char>> {
    m.map_values(|v: String| v@)
}

/// `n` is the tree `v`: same kinds, attributes, texts, style maps and
/// children, in order; a text node has no style.
pub open spec fn models(n: HtmlNode, v: NodeV) -> bool
    decreases n,
{
    match v {
        NodeV::Text(t) => n.node_type is Text && n.node_type->Text_0@ == t && n.style@ == Map::<
            Seq<char>,
            StyleProperty,
        >::empty(),
        NodeV::Element(key, attrs, kids, style) => {
            &&& n.node_type is Element
            &&& kind_view(n.node_type->Element_0) == key
            &&& attr_view(n.attributes@) == attrs
            &&& n.style@ == style
            &&& n.children@.len() == kids.len()
            &&& forall|i: int|
                #![trigger n.children@[i]]
                0 <= i < n.children@.len() ==> models(n.children@[i], kids[i])
        },
    }
}

/// `n` has the shape of the tree `v`: same kinds, attributes, texts and
/// children, in order, whatever the style maps.
pub open spec fn models_shape(n: HtmlNode, v: NodeV) -> bool
    decreases n,
{
    match v {
        NodeV::Text(t) => n.node_type is Text && n.node_type->Text_0@ == t,
        NodeV::Element(key, attrs, kids, _) => {
            &&& n.node_type is Element
            &&& kind_view(n.node_type->Element_0) == key
            &&& attr_view(n.attributes@) == attrs
            &&& n.children@.len() == kids.len()
            &&& forall|i: int|
                #![trigger n.children@[i]]
                0 <= i < n.children@.len() ==> models_shape(n.children@[i], kids[i])
        },
    }
}

pub proof fn lemma_models_shape(n: HtmlNode, v: NodeV)
    requires
        models(n, v),
    ensures
        models_shape(n, v),
    decreases n,
{
    if let NodeV::Element(_, _, kids, _) = v {
        assert forall|i: int|
            #![trigger n.children@[i]]
            0 <= i < n.children@.len() implies models_shape(n.children@[i], kids[i]) by {
            assert(decreases_to!(n => n.children@[i]));
            lemma_models_shape(n.children@[i], kids[i]);
        }
    }
}

pub open spec fn models_all(ns: Seq<HtmlNode>, vs: Seq<NodeV>) -> bool {
    &&& ns.len() == vs.len()
    &&& forall|i: int| #![trigger ns[i]] 0 <= i < ns.len() ==> models(ns[i], vs[i])
}

/// The first position at or after `p` where `ok` fails, or the end.
pub open spec fn scan(s: Seq<char>, p: int, ok: spec_fn(int) -> bool) -> int
    decreases s.len() - p,
{
    if 0 <= p < s.len() && ok(p) {
        scan(s, p + 1, ok)
    } else {
        p
    }
}

pub proof fn lemma_scan(s: Seq<char>, p: int, ok: spec_fn(int) -> bool)
    requires
        0 <= p <= s.len(),
    ensures
        p <= scan(s, p, ok) <= s.len(),
        forall|q: int| p <= q < scan(s, p, ok) ==> #[trigger] ok(q),
        scan(s, p, ok) == s.len() || !ok(scan(s, p, ok)),
    decreases s.len() - p,
{
    if p < s.len() && ok(p) {
        lemma_scan(s, p + 1, ok);
    }
}

pub open spec fn ws_at(s: Seq<char>) -> spec_fn(int) -> bool {
    |q: int| is_ws(s[q])
}

pub open spec fn name_at(s: Seq<char>) -> spec_fn(int) -> bool {
    |q: int| is_alnum(s[q]) || s[q] == '_'
}

pub open spec fn attr_at(s: Seq<char>) -> spec_fn(int) -> bool {
    |q: int| is_alnum(s[q]) || s[q] == '-' || s[q] == '_' || s[q] == ':'
}

pub open spec fn ascii_ws_at(s: Seq<char>) -> spec_fn(int) -> bool {
    |q: int| s[q] == ' ' || s[q] == '\t' || s[q] == '\n' || s[q] == '\x0C' || s[q] == '\r'
}

pub open spec fn not_at(s: Seq<char>, c: char) -> spec_fn(int) -> bool {
    |q: int| s[q] != c
}

pub open spec fn bare_at(s: Seq<char>) -> spec_fn(int) -> bool {
    |q: int| !is_ws(s[q]) && s[q] != '>' && s[q] != '/'
}

pub open spec fn comment_at(s: Seq<char>) -> spec_fn(int) -> bool {
    |q: int| !occurs_at(s, q, seq!['-', '-', '>'])
}

/// `</name>` in lower case.
pub open spec fn end_tag_of(name: Seq<char>) -> Seq<char> {
    seq!['<', '/'] + ascii_lower(name) + seq!['>']
}

pub open spec fn raw_at(s: Seq<char>, e: Seq<char>) -> spec_fn(int) -> bool {
    |q: int| !(q + e.len() <= s.len() && ascii_lower(s.subrange(q, q + e.len())) == e)
}

pub open spec fn skip_ws(s: Seq<char>, p: int) -> int {
    scan(s, p, ws_at(s))
}

/// An attribute value at `p`, decoded, and where it ends.
pub open spec fn attr_value(s: Seq<char>, p: int) -> (Seq<char>, int) {
    if p < s.len() && (s[p] == '"' || s[p] == '\'') {
        let e = scan(s, p + 1, not_at(s, s[p]));
        (decode_entities(s.subrange(p + 1, e)), if e < s.len() {
            e + 1
        } else {
            e
        })
    } else {
        let e = scan(s, p, bare_at(s));
        (decode_entities(s.subrange(p, e)), e)
    }
}

pub proof fn lemma_attr_value(s: Seq<char>, p: int)
    requires
        0 <= p <= s.len(),
    ensures
        p <= attr_value(s, p).1 <= s.len(),
{
    if p < s.len() && (s[p] == '"' || s[p] == '\'') {
        lemma_scan(s, p + 1, not_at(s, s[p]));
    } else {
        lemma_scan(s, p, bare_at(s));
    }
}

/// The attributes read from `p` on, added to `m`, up to the end of the tag,
/// and where they end.
pub open spec fn attributes_from(s: Seq<char>, p: int, m: Map<Seq<char>, Seq<char>>) -> (
    Map<Seq<char>, Seq<char>>,
    int,
)
    decreases s.len() - p,
{
    if p < 0 || p > s.len() {
        (m, p)
    } else {
        let q = skip_ws(s, p);
        if q >= s.len() || s[q] == '>' || s[q] == '/' {
            (m, q)
        } else {
            let e = scan(s, q, attr_at(s));
            proof {
                lemma_scan(s, p, ws_at(s));
                lemma_scan(s, q, attr_at(s));
            }
            if e == q {
                attributes_from(s, q + 1, m)
            } else {
                let name = s.subrange(q, e);
                let w = skip_ws(s, e);
                proof {
                    lemma_scan(s, e, ws_at(s));
                }
                let v = if w < s.len() && s[w] == '=' {
                    proof {
                        lemma_scan(s, w + 1, ws_at(s));
                        lemma_attr_value(s, skip_ws(s, w + 1));
                    }
                    attr_value(s, skip_ws(s, w + 1))
                } else {
                    (Seq::<char>::empty(), w)
                };
                attributes_from(s, v.1, m.insert(ascii_lower(name), v.0))
            }
        }
    }
}

pub proof fn lemma_attributes(s: Seq<char>, p: int, m: Map<Seq<char>, Seq<char>>)
    requires
        0 <= p <= s.len(),
    ensures
        p <= attributes_from(s, p, m).1 <= s.len(),
    decreases s.len() - p,
{
    let q = skip_ws(s, p);
    lemma_scan(s, p, ws_at(s));
    if !(q >= s.len() || s[q] == '>' || s[q] == '/') {
        let e = scan(s, q, attr_at(s));
        lemma_scan(s, q, attr_at(s));
        if e == q {
            lemma_attributes(s, q + 1, m);
        } else {
            let name = s.subrange(q, e);
            let w = skip_ws(s, e);
            lemma_scan(s, e, ws_at(s));
            let v = if w < s.len() && s[w] == '=' {
                lemma_scan(s, w + 1, ws_at(s));
                lemma_attr_value(s, skip_ws(s, w + 1));
                attr_value(s, skip_ws(s, w + 1))
            } else {
                (Seq::<char>::empty(), w)
            };
            lemma_attributes(s, v.1, m.insert(ascii_lower(name), v.0));
        }
    }
}

/// Where a closing tag at `p` ends: `</`, a name, whitespace and `>` (one
/// character stands for a missing `>`).
pub open spec fn closing_end(s: Seq<char>, p: int) -> int {
    let a = skip_ws(s, p + 2);
    let b = scan(s, a, name_at(s));
    let c = skip_ws(s, b);
    if c < s.len() {
        c + 1
    } else {
        c
    }
}

/// A closing tag for `name`, in any ASCII case, is at `p`.
pub open spec fn closes(s: Seq<char>, p: int, name: Seq<char>) -> bool {
    occurs_at(s, p, seq!['<', '/']) && {
        let b = scan(s, p + 2, name_at(s));
        let c = scan(s, b, ascii_ws_at(s));
        c < s.len() && s[c] == '>' && ascii_lower(s.subrange(p + 2, b)) == ascii_lower(name)
    }
}

pub open spec fn comment_end(s: Seq<char>, p: int) -> int {
    let e = scan(s, p + 4, comment_at(s));
    if occurs_at(s, e, seq!['-', '-', '>']) {
        e + 3
    } else {
        e
    }
}

pub open spec fn at_doctype(s: Seq<char>, p: int) -> bool {
    0 <= p && p + 9 <= s.len() && s[p] == '<' && s[p + 1] == '!' && ascii_lower(
        s.subrange(p + 2, p + 9),
    ) == seq!['d', 'o', 'c', 't', 'y', 'p', 'e']
}

pub open spec fn doctype_end(s: Seq<char>, p: int) -> int {
    let e = scan(s, p, not_at(s, '>'));
    if e < s.len() {
        e + 1
    } else {
        e
    }
}

/// The raw content of a script or style element named `name` from `p`: the
/// text up to its closing tag, if not empty.
pub open spec fn raw_content(s: Seq<char>, p: int, name: Seq<char>) -> (Seq<NodeV>, int) {
    let e = scan(s, p, raw_at(s, end_tag_of(name)));
    (if e > p {
        seq![NodeV::Text(s.subrange(p, e))]
    } else {
        seq![]
    }, e)
}

/// The next reading position after a step from `q` that reached `q2`: at
/// least one character on, and not past the end.
pub open spec fn next_pos(s: Seq<char>, q: int, q2: int) -> int {
    if q2 > s.len() {
        s.len() as int
    } else if q2 > q {
        q2
    } else {
        q + 1
    }
}

/// How deep elements nest: an element opened at this depth gets no children,
/// and what it holds is read as its following siblings.
pub const MAX_DEPTH: usize = 256;

/// The element that starts with the `<` at `p`, opened at nesting depth
/// `depth`, and where it ends.
pub open spec fn element_at(s: Seq<char>, p: int, depth: int) -> (NodeV, int)
    decreases s.len() - p, 0int,
{
    if p < 0 || p >= s.len() {
        (NodeV::Text(Seq::<char>::empty()), p)
    } else {
        let a = skip_ws(s, p + 1);
        let b = scan(s, a, name_at(s));
        let name = s.subrange(a, b);
        let (attrs, c) = attributes_from(s, b, Map::empty());
        let d = skip_ws(s, c);
        let self_closing = occurs_at(s, d, seq!['/', '>']);
        let e = if self_closing {
            d + 2
        } else if d < s.len() {
            d + 1
        } else {
            d
        };
        let kind = known_tag(ascii_lower(name));
        let key = kind_of_name(name);
        if self_closing || (kind matches Some(t) && is_void(t)) {
            (NodeV::Element(key, attrs, seq![], Map::empty()), e)
        } else {
            let (kids, f) = if kind matches Some(t) && (t is Script || t is Style) {
                raw_content(s, e, name)
            } else if depth >= MAX_DEPTH {
                (seq![], e)
            } else {
                proof {
                    lemma_scan(s, p + 1, ws_at(s));
                    lemma_scan(s, a, name_at(s));
                    lemma_attributes(s, b, Map::empty());
                    lemma_scan(s, c, ws_at(s));
                }
                nodes_at(s, next_pos(s, p, e), Some(name), depth + 1)
            };
            let g = if closes(s, f, name) {
                closing_end(s, f)
            } else {
                f
            };
            (NodeV::Element(key, attrs, kids, Map::empty()), g)
        }
    }
}

/// The nodes read from `p` on: up to the end, or, within an element named
/// `end`, up to a closing tag for it or, where another closing tag comes
/// first, up to that one. Comments, doctype declarations, stray closing tags
/// at the top and whitespace text are dropped.
pub open spec fn nodes_at(s: Seq<char>, p: int, end: Option<Seq<char>>, depth: int) -> (
    Seq<NodeV>,
    int,
)
    decreases s.len() - p, 1int,
{
    if p < 0 || p > s.len() {
        (seq![], p)
    } else {
        let q = skip_ws(s, p);
        proof {
            lemma_scan(s, p, ws_at(s));
        }
        if q >= s.len() {
            (seq![], q)
        } else if end matches Some(t) && closes(s, q, t) {
            (seq![], q)
        } else if occurs_at(s, q, seq!['<', '!', '-', '-']) {
            nodes_at(s, next_pos(s, q, comment_end(s, q)), end, depth)
        } else if at_doctype(s, q) {
            nodes_at(s, next_pos(s, q, doctype_end(s, q)), end, depth)
        } else if s[q] == '<' && q + 1 < s.len() && s[q + 1] == '/' {
            if end is None {
                nodes_at(s, next_pos(s, q, closing_end(s, q)), end, depth)
            } else {
                (seq![], q)
            }
        } else if s[q] == '<' {
            let (e, q2) = element_at(s, q, depth);
            let (rest, f) = nodes_at(s, next_pos(s, q, q2), end, depth);
            (seq![e] + rest, f)
        } else {
            let t_end = scan(s, q, not_at(s, '<'));
            let t = decode_entities(s.subrange(q, t_end));
            let (rest, f) = nodes_at(s, next_pos(s, q, t_end), end, depth);
            (if trim(t).len() == 0 {
                rest
            } else {
                seq![NodeV::Text(t)] + rest
            }, f)
        }
    }
}

} // verus!

verus! {

pub open spec fn html_key() -> KindV {
    KindV::Known(HtmlTag::Html)
}

pub open spec fn head_key() -> KindV {
    KindV::Known(HtmlTag::Head)
}

pub open spec fn body_key() -> KindV {
    KindV::Known(HtmlTag::Body)
}

pub open spec fn style_key() -> KindV {
    KindV::Known(HtmlTag::Style)
}

pub open spec fn has_key(v: NodeV, k: KindV) -> bool {
    v matches NodeV::Element(key, _, _, _) && key == k
}

/// `k` is the kind `t`, or a custom kind whose name is `word` in any ASCII
/// case.
pub open spec fn names_kind(k: KindV, t: HtmlTag, word: Seq<char>) -> bool {
    match k {
        KindV::Known(u) => u == t,
        KindV::Custom(c) => ascii_lower(c) == word,
    }
}

pub open spec fn is_kind(v: NodeV, t: HtmlTag, word: Seq<char>) -> bool {
    v matches NodeV::Element(key, _, _, _) && names_kind(key, t, word)
}

pub open spec fn is_html(v: NodeV) -> bool {
    is_kind(v, HtmlTag::Html, seq!['h', 't', 'm', 'l'])
}

pub open spec fn is_head(v: NodeV) -> bool {
    is_kind(v, HtmlTag::Head, seq!['h', 'e', 'a', 'd'])
}

pub open spec fn is_body(v: NodeV) -> bool {
    is_kind(v, HtmlTag::Body, seq!['b', 'o', 'd', 'y'])
}

/// `v` as an element of kind `k`.
pub open spec fn rekey(v: NodeV, k: KindV) -> NodeV {
    match v {
        NodeV::Element(_, a, c, st) => NodeV::Element(k, a, c, st),
        NodeV::Text(t) => NodeV::Text(t),
    }
}

/// The elements among `vs`, in order.
pub open spec fn elements_of(vs: Seq<NodeV>) -> Seq<NodeV>
    decreases vs.len(),
{
    if vs.len() == 0 {
        seq![]
    } else {
        (if vs[0] is Element {
            seq![vs[0]]
        } else {
            seq![]
        }) + elements_of(vs.drop_first())
    }
}

/// Sorts the children of the root: the first head and the first body (a
/// custom tag named head or body in any case counts, and becomes one), and
/// the rest in order; whitespace text, later heads and bodies, and style
/// elements are dropped.
pub open spec fn sort_children(
    kids: Seq<NodeV>,
    head: Option<NodeV>,
    body: Option<NodeV>,
    others: Seq<NodeV>,
) -> (Option<NodeV>, Option<NodeV>, Seq<NodeV>)
    decreases kids.len(),
{
    if kids.len() == 0 {
        (head, body, others)
    } else {
        let c = kids[0];
        let rest = kids.drop_first();
        if c matches NodeV::Text(t) && trim(t).len() == 0 {
            sort_children(rest, head, body, others)
        } else if is_head(c) {
            sort_children(
                rest,
                if head is None {
                    Some(rekey(c, head_key()))
                } else {
                    head
                },
                body,
                others,
            )
        } else if is_body(c) {
            sort_children(
                rest,
                head,
                if body is None {
                    Some(rekey(c, body_key()))
                } else {
                    body
                },
                others,
            )
        } else if has_key(c, style_key()) {
            sort_children(rest, head, body, others)
        } else {
            sort_children(rest, head, body, others.push(c))
        }
    }
}

/// `kids` without the style elements.
pub open spec fn without_styles(kids: Seq<NodeV>) -> Seq<NodeV>
    decreases kids.len(),
{
    if kids.len() == 0 {
        seq![]
    } else {
        (if has_key(kids[0], style_key()) {
            seq![]
        } else {
            seq![kids[0]]
        }) + without_styles(kids.drop_first())
    }
}

pub open spec fn strip_model(v: NodeV) -> NodeV {
    match v {
        NodeV::Element(k, a, c, st) => NodeV::Element(k, a, without_styles(c), st),
        NodeV::Text(t) => NodeV::Text(t),
    }
}

pub open spec fn children_of(v: NodeV) -> Seq<NodeV> {
    match v {
        NodeV::Element(_, _, c, _) => c,
        NodeV::Text(_) => seq![],
    }
}

/// The root that normalisation works on: the given one where it is an html
/// element (a custom tag named html in any case counts), else a new one
/// around it.
pub open spec fn html_root(root: NodeV) -> NodeV {
    if is_html(root) {
        root
    } else {
        NodeV::Element(html_key(), Map::empty(), seq![root], Map::empty())
    }
}

/// The normalised document: an html root whose children are the head and
/// then the body, with the other content at the start of the body and no
/// style elements. Nodes keep their style maps; a new head or body has an
/// empty one.
pub open spec fn cleanup_model(root: NodeV) -> NodeV {
    let r = html_root(root);
    match r {
        NodeV::Element(_, attrs, kids, style) => {
            let sorted = sort_children(kids, None, None, seq![]);
            let h = match sorted.0 {
                Some(h) => strip_model(h),
                None => NodeV::Element(head_key(), Map::empty(), seq![], Map::empty()),
            };
            let b = match sorted.1 {
                Some(b) => strip_model(b),
                None => NodeV::Element(body_key(), Map::empty(), seq![], Map::empty()),
            };
            let body = match b {
                NodeV::Element(k, a, c, st) => NodeV::Element(k, a, sorted.2 + c, st),
                NodeV::Text(t) => NodeV::Text(t),
            };
            NodeV::Element(html_key(), attrs, seq![h, body], style)
        },
        NodeV::Text(t) => NodeV::Text(t),
    }
}

/// The root that markup gives before normalisation: its top-level elements,
/// under their html element if that is the only one, else under a new one.
pub open spec fn root_of(s: Seq<char>) -> NodeV {
    let top = elements_of(nodes_at(s, 0, None, 0).0);
    if top.len() == 1 && is_html(top[0]) {
        top[0]
    } else {
        NodeV::Element(html_key(), Map::empty(), top, Map::empty())
    }
}

/// The document that markup denotes.
pub open spec fn document_of(s: Seq<char>) -> NodeV {
    cleanup_model(root_of(s))
}

/// The text of a style element: its first child, if that is text.
pub open spec fn style_text_of(v: NodeV) -> Seq<Seq<char>> {
    let c = children_of(v);
    if c.len() > 0 && c[0] is Text {
        seq![c[0]->Text_0]
    } else {
        seq![]
    }
}

/// The texts of the style elements among `kids`, in order.
pub open spec fn styles_in(kids: Seq<NodeV>) -> Seq<Seq<char>>
    decreases kids.len(),
{
    if kids.len() == 0 {
        seq![]
    } else {
        (if has_key(kids[0], style_key()) {
            style_text_of(kids[0])
        } else {
            seq![]
        }) + styles_in(kids.drop_first())
    }
}

/// The style texts that normalisation collects: those of the root's style
/// children, then of the head's, then of the body's.
pub open spec fn document_styles(root: NodeV) -> Seq<Seq<char>> {
    let r = html_root(root);
    let kids = children_of(r);
    let sorted = sort_children(kids, None, None, seq![]);
    styles_in(kids) + match sorted.0 {
        Some(h) => styles_in(children_of(h)),
        None => seq![],
    } + match sorted.1 {
        Some(b) => styles_in(children_of(b)),
        None => seq![],
    }
}

/// The texts of `ts` one after another.
pub open spec fn flatten(ts: Seq<Seq<char>>) -> Seq<char>
    decreases ts.len(),
{
    if ts.len() == 0 {
        seq![]
    } else {
        flatten(ts.drop_last()) + ts.last()
    }
}

/// The style sheet of a document: the text of all its style elements.
pub open spec fn style_sheet_of(s: Seq<char>) -> Seq<char> {
    flatten(document_styles(root_of(s)))
}

} // verus!
