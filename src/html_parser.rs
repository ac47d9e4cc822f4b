//! The markup parser: a single rooted tree from any text, however malformed.
//!
//! Parsing never fails. A closing tag that does not match closes the open
//! element and is left for an ancestor; one that nothing claims is skipped;
//! an element left open is closed at the end of its parent. Every step reads
//! at least one character, so parsing ends on any input. Elements nest at
//! most `MAX_DEPTH` deep: deeper content is read as siblings, so neither the
//! parser nor the cascade recurses without bound on a parsed tree.
use crate::cascade::{lemma_cascade_views, resolved, stylized};
use crate::css_parser::{css_rules, parse_css, props_view, rules_view};
use crate::layout::{
    is_void, is_void_element, known_tag, lookup_tag, CssRule, HtmlNode, HtmlTag, NodeType,
    StyleProperty,
};
use crate::markup::{
    MAX_DEPTH,
    at_doctype, attr_at, attr_value, attr_view, attributes_from, bare_at, body_key, children_of,
    cleanup_model, closes, closing_end, comment_at, comment_end, doctype_end, document_of,
    document_styles, element_at, elements_of, end_tag_of, flatten, has_key, head_key, html_key,
    is_body, is_head, is_html, kind_of_name, kind_view, lemma_models_shape, lemma_scan, models,
    models_all, models_shape, name_at, names_kind, nodes_at, not_at, raw_at, raw_content, root_of,
    scan, skip_ws, sort_children, strip_model, style_key, style_sheet_of, style_text_of, styles_in,
    without_styles, ws_at, NodeV,
};
use crate::strmap::StrMap;
use crate::text::{
    ascii_lower, chars_of, decode, decode_entities, is_alnum, is_blank, is_whitespace, matches_at,
    occurs_at, string_from, sub_vec, to_ascii_lower, views,
};
use vstd::prelude::*;

verus! {

/// Attribute names are kept in lower case.
pub open spec fn keys_lower(m: Map<Seq<char>, String>) -> bool {
    forall|k: Seq<char>| #[trigger] m.contains_key(k) ==> ascii_lower(k) == k
}

/// The shape every parsed tree has: text nodes are leaves without
/// attributes or style, void elements have no children, and attribute names are in
/// lower case.
pub open spec fn tree_ok(n: HtmlNode) -> bool
    decreases n,
{
    match n.node_type {
        NodeType::Text(_) => n.children@.len() == 0 && n.attributes@ == Map::<
            Seq<char>,
            String,
        >::empty() && n.style@ == Map::<Seq<char>, StyleProperty>::empty(),
        NodeType::Element(t) => {
            &&& keys_lower(n.attributes@)
            &&& (is_void(t) ==> n.children@.len() == 0)
            &&& forall|i: int|
                #![trigger n.children@[i]]
                0 <= i < n.children@.len() ==> tree_ok(n.children@[i])
        },
    }
}

pub open spec fn all_ok(v: Seq<HtmlNode>) -> bool {
    forall|j: int| #![trigger v[j]] 0 <= j < v.len() ==> tree_ok(v[j])
}

/// A character of a tag name.
pub open spec fn is_name_char(c: char) -> bool {
    is_alnum(c) || c == '_'
}

/// A character of an attribute name.
pub open spec fn is_attr_char(c: char) -> bool {
    is_alnum(c) || c == '-' || c == '_' || c == ':'
}

fn name_char(c: char) -> (r: bool)
    ensures
        r == is_name_char(c),
{
    ('a' <= c && c <= 'z') || ('A' <= c && c <= 'Z') || ('0' <= c && c <= '9') || c == '_'
}

fn attr_char(c: char) -> (r: bool)
    ensures
        r == is_attr_char(c),
{
    ('a' <= c && c <= 'z') || ('A' <= c && c <= 'Z') || ('0' <= c && c <= '9') || c == '-' || c
        == '_' || c == ':'
}

proof fn lemma_lower_idem(s: Seq<char>)
    ensures
        ascii_lower(ascii_lower(s)) == ascii_lower(s),
{
    assert(ascii_lower(ascii_lower(s)) =~= ascii_lower(s));
}

/// The kind that a tag name denotes, compared without regard to ASCII case;
/// an unknown name becomes a custom tag that keeps it as written.
pub fn match_tag(tag_name: &[char]) -> (r: HtmlTag)
    ensures
        match crate::layout::known_tag(ascii_lower(tag_name@)) {
            Some(t) => r == t,
            None => r is Custom && r->Custom_0@ == tag_name@,
        },
        kind_view(r) == kind_of_name(tag_name@),
{
    proof {
        crate::layout::lemma_tag_in(crate::layout::known_tags(), ascii_lower(tag_name@));
    }
    let lower = to_ascii_lower(tag_name);
    match lookup_tag(&lower) {
        Some(t) => t,
        None => HtmlTag::Custom(string_from(tag_name)),
    }
}

/// The name of the element whose children are being read, as plain values.
pub open spec fn end_view(end_tag: Option<&Vec<char>>) -> Option<Seq<char>> {
    match end_tag {
        Some(t) => Some(t@),
        None => None,
    }
}

/// A cursor over the markup.
struct Parser {
    input: Vec<char>,
    pos: usize,
}

impl Parser {
    spec fn wf(&self) -> bool {
        self.pos <= self.input@.len()
    }

    fn new(input: &str) -> (r: Parser)
        ensures
            r.wf(),
            r.input@ == input@,
            r.pos == 0,
    {
        Parser { input: chars_of(input), pos: 0 }
    }

    fn eof(&self) -> (r: bool)
        requires
            self.wf(),
        ensures
            r == (self.pos == self.input@.len()),
    {
        self.pos >= self.input.len()
    }

    /// The character at the cursor, or `'\0'` at the end.
    fn current_char(&self) -> (r: char)
        requires
            self.wf(),
        ensures
            self.pos < self.input@.len() ==> r == self.input@[self.pos as int],
            self.pos == self.input@.len() ==> r == '\0',
    {
        if self.pos < self.input.len() {
            self.input[self.pos]
        } else {
            '\0'
        }
    }

    /// Reads one character, if any is left.
    fn consume_char(&mut self) -> (r: char)
        requires
            old(self).wf(),
        ensures
            final(self).wf(),
            final(self).input == old(self).input,
            old(self).pos < old(self).input@.len() ==> final(self).pos == old(self).pos + 1 && r
                == old(self).input@[old(self).pos as int],
            old(self).pos == old(self).input@.len() ==> final(self).pos == old(self).pos && r
                == '\0',
    {
        if self.pos >= self.input.len() {
            return '\0';
        }
        let c = self.input[self.pos];
        self.pos = self.pos + 1;
        c
    }

    fn starts_with(&self, s: &[char]) -> (r: bool)
        requires
            self.wf(),
        ensures
            r == occurs_at(self.input@, self.pos as int, s@),
    {
        matches_at(self.input.as_slice(), self.pos, s)
    }

    /// Reads past whitespace.
    fn consume_whitespace(&mut self)
        requires
            old(self).wf(),
        ensures
            final(self).wf(),
            final(self).input == old(self).input,
            final(self).pos == skip_ws(old(self).input@, old(self).pos as int),
            old(self).pos <= final(self).pos,
    {
        let ghost s = self.input@;
        proof {
            lemma_scan(s, self.pos as int, ws_at(s));
        }
        while self.pos < self.input.len() && is_whitespace(self.input[self.pos])
            invariant
                self.wf(),
                self.input == old(self).input,
                s == self.input@,
                scan(s, self.pos as int, ws_at(s)) == skip_ws(s, old(self).pos as int),
            decreases self.input@.len() - self.pos,
        {
            self.pos = self.pos + 1;
        }
    }

    /// Reads whitespace and then a tag name: letters, digits and `_`.
    fn parse_tag_name(&mut self) -> (r: Vec<char>)
        requires
            old(self).wf(),
        ensures
            final(self).wf(),
            final(self).input == old(self).input,
            ({
                let s = old(self).input@;
                let a = skip_ws(s, old(self).pos as int);
                &&& final(self).pos == scan(s, a, name_at(s))
                &&& r@ == s.subrange(a, final(self).pos as int)
            }),
            old(self).pos <= final(self).pos,
    {
        let ghost s = self.input@;
        proof {
            lemma_scan(s, self.pos as int, ws_at(s));
            lemma_scan(s, skip_ws(s, self.pos as int), name_at(s));
        }
        self.consume_whitespace();
        let start = self.pos;
        while self.pos < self.input.len() && name_char(self.input[self.pos])
            invariant
                self.wf(),
                self.input == old(self).input,
                s == self.input@,
                start <= self.pos,
                scan(s, self.pos as int, name_at(s)) == scan(s, start as int, name_at(s)),
            decreases self.input@.len() - self.pos,
        {
            self.pos = self.pos + 1;
        }
        sub_vec(self.input.as_slice(), start, self.pos)
    }

    /// Reads an attribute name: letters, digits, `-`, `_` and `:`.
    fn parse_attribute_name(&mut self) -> (r: Vec<char>)
        requires
            old(self).wf(),
        ensures
            final(self).wf(),
            final(self).input == old(self).input,
            final(self).pos == scan(old(self).input@, old(self).pos as int, attr_at(old(self).input@)),
            r@ == old(self).input@.subrange(old(self).pos as int, final(self).pos as int),
            old(self).pos <= final(self).pos,
    {
        let ghost s = self.input@;
        proof {
            lemma_scan(s, self.pos as int, attr_at(s));
        }
        let start = self.pos;
        while self.pos < self.input.len() && attr_char(self.input[self.pos])
            invariant
                self.wf(),
                self.input == old(self).input,
                s == self.input@,
                start == old(self).pos,
                start <= self.pos,
                scan(s, self.pos as int, attr_at(s)) == scan(s, start as int, attr_at(s)),
            decreases self.input@.len() - self.pos,
        {
            self.pos = self.pos + 1;
        }
        sub_vec(self.input.as_slice(), start, self.pos)
    }

    /// Reads an attribute value, quoted or bare, with its character
    /// references decoded.
    fn parse_attribute_value(&mut self) -> (r: String)
        requires
            old(self).wf(),
        ensures
            final(self).wf(),
            final(self).input == old(self).input,
            r@ == attr_value(old(self).input@, old(self).pos as int).0,
            final(self).pos == attr_value(old(self).input@, old(self).pos as int).1,
            old(self).pos <= final(self).pos,
    {
        let ghost s = self.input@;
        proof {
            crate::markup::lemma_attr_value(s, self.pos as int);
        }
        let start: usize;
        let end: usize;
        if self.pos < self.input.len() && (self.input[self.pos] == '"' || self.input[self.pos]
            == '\'') {
            let quote = self.consume_char();
            start = self.pos;
            while self.pos < self.input.len() && self.input[self.pos] != quote
                invariant
                    self.wf(),
                    self.input == old(self).input,
                    s == self.input@,
                    start <= self.pos,
                    scan(s, self.pos as int, not_at(s, quote)) == scan(
                        s,
                        start as int,
                        not_at(s, quote),
                    ),
                decreases self.input@.len() - self.pos,
            {
                self.pos = self.pos + 1;
            }
            end = self.pos;
            if self.pos < self.input.len() {
                self.pos = self.pos + 1;
            }
        } else {
            start = self.pos;
            while self.pos < self.input.len() && !is_whitespace(self.input[self.pos])
                && self.input[self.pos] != '>' && self.input[self.pos] != '/'
                invariant
                    self.wf(),
                    self.input == old(self).input,
                    s == self.input@,
                    start <= self.pos,
                    scan(s, self.pos as int, bare_at(s)) == scan(s, start as int, bare_at(s)),
                decreases self.input@.len() - self.pos,
            {
                self.pos = self.pos + 1;
            }
            end = self.pos;
        }
        let raw = sub_vec(self.input.as_slice(), start, end);
        string_from(&decode(&raw))
    }

    /// Reads the attributes of an opening tag, up to its `>` or `/>`.
    fn parse_attributes(&mut self) -> (r: StrMap<String>)
        requires
            old(self).wf(),
        ensures
            final(self).wf(),
            final(self).input == old(self).input,
            keys_lower(r@),
            attr_view(r@) == attributes_from(old(self).input@, old(self).pos as int, Map::empty()).0,
            final(self).pos == attributes_from(
                old(self).input@,
                old(self).pos as int,
                Map::empty(),
            ).1,
            old(self).pos <= final(self).pos,
    {
        let ghost s = self.input@;
        proof {
            crate::markup::lemma_attributes(s, self.pos as int, Map::empty());
        }
        let mut attrs: StrMap<String> = StrMap::new();
        assert(attr_view(attrs@) =~= Map::<Seq<char>, Seq<char>>::empty());
        loop
            invariant
                self.wf(),
                self.input == old(self).input,
                s == self.input@,
                keys_lower(attrs@),
                attributes_from(s, self.pos as int, attr_view(attrs@)) == attributes_from(
                    s,
                    old(self).pos as int,
                    Map::empty(),
                ),
            ensures
                self.wf(),
                self.input == old(self).input,
                keys_lower(attrs@),
                attributes_from(s, old(self).pos as int, Map::empty()) == (
                    attr_view(attrs@),
                    self.pos as int,
                ),
            decreases self.input@.len() - self.pos,
        {
            let ghost p = self.pos as int;
            proof {
                lemma_scan(s, p, ws_at(s));
            }
            self.consume_whitespace();
            if self.pos >= self.input.len() || self.input[self.pos] == '>' || self.input[self.pos]
                == '/' {
                assert(attributes_from(s, p, attr_view(attrs@)) == (
                    attr_view(attrs@),
                    self.pos as int,
                ));
                break;
            }
            let ghost q = self.pos as int;
            let name = self.parse_attribute_name();
            proof {
                lemma_scan(s, q, attr_at(s));
            }
            if name.len() == 0 {
                self.consume_char();
                continue;
            }
            let ghost e = self.pos as int;
            self.consume_whitespace();
            let ghost w = self.pos as int;
            let value = if self.pos < self.input.len() && self.input[self.pos] == '=' {
                self.pos = self.pos + 1;
                self.consume_whitespace();
                self.parse_attribute_value()
            } else {
                String::new()
            };
            let key = to_ascii_lower(&name);
            proof {
                lemma_lower_idem(name@);
            }
            let ghost before = attrs@;
            let ghost vv = value@;
            attrs.insert(string_from(&key), value);
            assert(attr_view(attrs@) =~= attr_view(before).insert(key@, vv));
            assert forall|k: Seq<char>| #[trigger] attrs@.contains_key(k) implies ascii_lower(k)
                == k by {
                if k != key@ {
                    assert(before.contains_key(k));
                }
            }
        }
        attrs
    }

    /// Reads `<!--` through `-->`, or to the end if the comment is not closed.
    fn parse_comment(&mut self)
        requires
            old(self).wf(),
            old(self).pos + 4 <= old(self).input@.len(),
        ensures
            final(self).wf(),
            final(self).input == old(self).input,
            final(self).pos == comment_end(old(self).input@, old(self).pos as int),
            final(self).pos > old(self).pos,
    {
        let ghost s = self.input@;
        let n = self.input.len();
        self.pos = self.pos + 4;
        let end = ['-', '-', '>'];
        assert(end@ == seq!['-', '-', '>']);
        while self.pos < self.input.len() && !self.starts_with(&end)
            invariant
                self.wf(),
                self.input == old(self).input,
                s == self.input@,
                end@ == seq!['-', '-', '>'],
                self.pos > old(self).pos,
                scan(s, self.pos as int, comment_at(s)) == scan(
                    s,
                    old(self).pos + 4,
                    comment_at(s),
                ),
            decreases self.input@.len() - self.pos,
        {
            self.pos = self.pos + 1;
        }
        if self.starts_with(&end) {
            self.pos = self.pos + 3;
        }
    }

    /// Whether a doctype declaration starts at the cursor: `<!` and then
    /// `doctype` in any case.
    fn at_doctype(&self) -> (r: bool)
        requires
            self.wf(),
        ensures
            r == at_doctype(self.input@, self.pos as int),
    {
        if self.input.len() - self.pos < 9 {
            return false;
        }
        if self.input[self.pos] != '<' || self.input[self.pos + 1] != '!' {
            return false;
        }
        let word = to_ascii_lower(&sub_vec(self.input.as_slice(), self.pos + 2, self.pos + 9));
        let doctype = ['d', 'o', 'c', 't', 'y', 'p', 'e'];
        crate::text::same_chars(&word, &doctype)
    }

    /// Reads a doctype declaration through its `>`.
    fn parse_doctype(&mut self)
        requires
            old(self).wf(),
            old(self).pos < old(self).input@.len(),
        ensures
            final(self).wf(),
            final(self).input == old(self).input,
            final(self).pos == doctype_end(old(self).input@, old(self).pos as int),
            final(self).pos > old(self).pos,
    {
        let ghost s = self.input@;
        proof {
            lemma_scan(s, self.pos as int, not_at(s, '>'));
        }
        let n = self.input.len();
        while !self.eof() && self.current_char() != '>'
            invariant
                self.wf(),
                self.input == old(self).input,
                s == self.input@,
                scan(s, self.pos as int, not_at(s, '>')) == scan(
                    s,
                    old(self).pos as int,
                    not_at(s, '>'),
                ),
                n == self.input@.len(),
            decreases self.input@.len() - self.pos,
        {
            self.pos = self.pos + 1;
        }
        if self.pos < self.input.len() {
            self.pos = self.pos + 1;
        }
    }

    /// Reads a closing tag `</name>`; a missing `>` costs one character.
    fn parse_closing_tag(&mut self) -> (r: Vec<char>)
        requires
            old(self).wf(),
            old(self).pos + 2 <= old(self).input@.len(),
        ensures
            final(self).wf(),
            final(self).input == old(self).input,
            final(self).pos == closing_end(old(self).input@, old(self).pos as int),
            final(self).pos > old(self).pos,
    {
        let n = self.input.len();
        self.pos = self.pos + 2;
        let name = self.parse_tag_name();
        self.consume_whitespace();
        if self.pos < self.input.len() {
            self.pos = self.pos + 1;
        }
        name
    }

    /// Whether a closing tag for `expected` (in any ASCII case) is at the
    /// cursor; nothing is read.
    fn check_closing_tag(&self, expected: &[char]) -> (r: bool)
        requires
            self.wf(),
        ensures
            r == closes(self.input@, self.pos as int, expected@),
    {
        let ghost s = self.input@;
        let open = ['<', '/'];
        if !self.starts_with(&open) {
            return false;
        }
        let n = self.input.len();
        let start = self.pos + 2;
        let mut t = start;
        while t < self.input.len() && name_char(self.input[t])
            invariant
                start <= t <= self.input@.len(),
                s == self.input@,
                scan(s, t as int, name_at(s)) == scan(s, start as int, name_at(s)),
            decreases self.input@.len() - t,
        {
            t = t + 1;
        }
        let b = t;
        let actual = sub_vec(self.input.as_slice(), start, t);
        while t < self.input.len() && (self.input[t] == ' ' || self.input[t] == '\t'
            || self.input[t] == '\n' || self.input[t] == '\x0C' || self.input[t] == '\r')
            invariant
                b <= t <= self.input@.len(),
                s == self.input@,
                scan(s, t as int, crate::markup::ascii_ws_at(s)) == scan(
                    s,
                    b as int,
                    crate::markup::ascii_ws_at(s),
                ),
            decreases self.input@.len() - t,
        {
            t = t + 1;
        }
        if t < self.input.len() && self.input[t] == '>' {
            crate::text::same_chars(&to_ascii_lower(&actual), &to_ascii_lower(expected))
        } else {
            false
        }
    }

    /// Reads a run of text up to the next `<`, with its character references
    /// decoded.
    fn parse_text(&mut self) -> (r: HtmlNode)
        requires
            old(self).wf(),
            old(self).pos < old(self).input@.len(),
            old(self).input@[old(self).pos as int] != '<',
        ensures
            final(self).wf(),
            final(self).input == old(self).input,
            final(self).pos == scan(old(self).input@, old(self).pos as int, not_at(old(self).input@, '<')),
            final(self).pos > old(self).pos,
            tree_ok(r),
            r.node_type is Text,
            r.node_type->Text_0@ == decode_entities(
                old(self).input@.subrange(old(self).pos as int, final(self).pos as int),
            ),
    {
        let ghost s = self.input@;
        let start = self.pos;
        while self.pos < self.input.len() && self.input[self.pos] != '<'
            invariant
                self.wf(),
                self.input == old(self).input,
                s == self.input@,
                self.pos >= old(self).pos,
                start == old(self).pos,
                scan(s, self.pos as int, not_at(s, '<')) == scan(s, start as int, not_at(s, '<')),
            decreases self.input@.len() - self.pos,
        {
            self.pos = self.pos + 1;
        }
        let raw = sub_vec(self.input.as_slice(), start, self.pos);
        HtmlNode::new_text(string_from(&decode(&raw)))
    }

    /// Reads the raw content of a script or style element, up to its closing
    /// tag in any ASCII case, as at most one text node.
    fn parse_raw_text_content(&mut self, tag_name: &[char]) -> (r: Vec<HtmlNode>)
        requires
            old(self).wf(),
        ensures
            final(self).wf(),
            final(self).input == old(self).input,
            final(self).pos >= old(self).pos,
            all_ok(r@),
            models_all(r@, raw_content(old(self).input@, old(self).pos as int, tag_name@).0),
            final(self).pos == raw_content(old(self).input@, old(self).pos as int, tag_name@).1,
    {
        let ghost s = self.input@;
        let start = self.pos;
        let mut end_tag: Vec<char> = Vec::new();
        end_tag.push('<');
        end_tag.push('/');
        let lname = to_ascii_lower(tag_name);
        let mut k: usize = 0;
        while k < lname.len()
            invariant
                k <= lname@.len(),
                end_tag@ == seq!['<', '/'] + lname@.take(k as int),
            decreases lname@.len() - k,
        {
            end_tag.push(lname[k]);
            assert(lname@.take(k + 1) =~= lname@.take(k as int).push(lname@[k as int]));
            k = k + 1;
        }
        end_tag.push('>');
        assert(lname@.take(lname@.len() as int) =~= lname@);
        assert(end_tag@ =~= end_tag_of(tag_name@));
        let ghost e = end_tag@;
        while self.pos < self.input.len()
            invariant
                self.wf(),
                self.input == old(self).input,
                s == self.input@,
                end_tag@ == e,
                self.pos >= old(self).pos,
                start == old(self).pos,
                scan(s, self.pos as int, raw_at(s, e)) == scan(s, start as int, raw_at(s, e)),
            ensures
                self.wf(),
                self.input == old(self).input,
                self.pos >= old(self).pos,
                self.pos == scan(s, start as int, raw_at(s, e)),
            decreases self.input@.len() - self.pos,
        {
            if self.input.len() - self.pos >= end_tag.len() {
                let here = to_ascii_lower(
                    &sub_vec(self.input.as_slice(), self.pos, self.pos + end_tag.len()),
                );
                if crate::text::same_chars(&here, &end_tag) {
                    break;
                }
            }
            self.pos = self.pos + 1;
        }
        let mut out: Vec<HtmlNode> = Vec::new();
        if self.pos > start {
            let raw = sub_vec(self.input.as_slice(), start, self.pos);
            let node = HtmlNode::new_text(string_from(&raw));
            out.push(node);
            assert(models(out@[0], NodeV::Text(s.subrange(start as int, self.pos as int))));
        }
        assert(models_all(out@, raw_content(s, start as int, tag_name@).0));
        out
    }

    /// Reads one element, `<` through its closing tag, with its children.
    fn parse_element(&mut self, depth: usize) -> (r: HtmlNode)
        requires
            old(self).wf(),
            old(self).pos < old(self).input@.len(),
            depth <= MAX_DEPTH,
        ensures
            final(self).wf(),
            final(self).input == old(self).input,
            final(self).pos > old(self).pos,
            tree_ok(r),
            r.node_type is Element,
            models(r, element_at(old(self).input@, old(self).pos as int, depth as int).0),
            final(self).pos == element_at(old(self).input@, old(self).pos as int, depth as int).1,
        decreases old(self).input@.len() - old(self).pos, 0int,
    {
        let ghost s = self.input@;
        let ghost p = self.pos as int;
        let n = self.input.len();
        self.pos = self.pos + 1;
        let tag_name = self.parse_tag_name();
        let attributes = self.parse_attributes();
        self.consume_whitespace();
        let close = ['/', '>'];
        let self_closing = self.starts_with(&close);
        if self_closing {
            self.pos = self.pos + 2;
        } else if self.pos < self.input.len() {
            self.pos = self.pos + 1;
        }
        let ghost e = self.pos as int;
        let tag = match_tag(&tag_name);
        if self_closing || is_void_element(&tag) {
            let node = HtmlNode::new_element(tag, attributes, Vec::new());
            assert(node.children@ =~= Seq::<HtmlNode>::empty());
            assert(models(node, element_at(s, p, depth as int).0));
            return node;
        }
        let raw = match tag {
            HtmlTag::Script | HtmlTag::Style => true,
            _ => false,
        };
        let children = if raw {
            self.parse_raw_text_content(&tag_name)
        } else if depth >= MAX_DEPTH {
            Vec::new()
        } else {
            assert(crate::markup::next_pos(s, p, e) == e);
            self.parse_nodes(Some(&tag_name), depth + 1)
        };
        if self.check_closing_tag(&tag_name) {
            self.parse_closing_tag();
        }
        let node = HtmlNode::new_element(tag, attributes, children);
        assert(node.children@ == children@);
        assert(models(node, element_at(s, p, depth as int).0));
        node
    }

    /// Reads nodes up to the end, or, within an element named `end_tag`, up
    /// to a closing tag: its own, which is left for the element to read, or
    /// another one, which closes the element too. Comments, doctype
    /// declarations and whitespace between nodes are dropped.
    fn parse_nodes(&mut self, end_tag: Option<&Vec<char>>, depth: usize) -> (r: Vec<HtmlNode>)
        requires
            old(self).wf(),
            depth <= MAX_DEPTH,
        ensures
            final(self).wf(),
            final(self).input == old(self).input,
            final(self).pos >= old(self).pos,
            all_ok(r@),
            models_all(r@, nodes_at(old(self).input@, old(self).pos as int, end_view(end_tag), depth as int).0),
            final(self).pos == nodes_at(old(self).input@, old(self).pos as int, end_view(end_tag), depth as int).1,
            final(self).pos == final(self).input@.len() || (end_tag is Some && occurs_at(
                final(self).input@,
                final(self).pos as int,
                seq!['<', '/'],
            )),
        decreases old(self).input@.len() - old(self).pos, 1int,
    {
        let ghost s = self.input@;
        let ghost end = end_view(end_tag);
        let ghost p0 = self.pos as int;
        let ghost target = nodes_at(s, p0, end, depth as int);
        let mut nodes: Vec<HtmlNode> = Vec::new();
        let ghost mut vs: Seq<NodeV> = seq![];
        let comment = ['<', '!', '-', '-'];
        assert(vs + target.0 =~= target.0);
        loop
            invariant
                self.wf(),
                self.input == old(self).input,
                s == self.input@,
                end == end_view(end_tag),
                target == nodes_at(s, p0, end, depth as int),
                p0 == old(self).pos,
                self.pos >= old(self).pos,
                all_ok(nodes@),
                models_all(nodes@, vs),
                vs + nodes_at(s, self.pos as int, end, depth as int).0 == target.0,
                nodes_at(s, self.pos as int, end, depth as int).1 == target.1,
                comment@ == seq!['<', '!', '-', '-'],
                depth <= MAX_DEPTH,
            ensures
                self.wf(),
                self.input == old(self).input,
                self.pos >= old(self).pos,
                all_ok(nodes@),
                models_all(nodes@, target.0),
                self.pos == target.1,
                self.pos == self.input@.len() || (end_tag is Some && occurs_at(
                    self.input@,
                    self.pos as int,
                    seq!['<', '/'],
                )),
            decreases self.input@.len() - self.pos,
        {
            let ghost p = self.pos as int;
            let ghost here = nodes_at(s, p, end, depth as int);
            self.consume_whitespace();
            let ghost q = self.pos as int;
            proof {
                lemma_scan(s, p, ws_at(s));
            }
            if self.eof() {
                assert(here == (Seq::<NodeV>::empty(), q));
                assert(vs + Seq::<NodeV>::empty() =~= vs);
                break;
            }
            if let Some(t) = end_tag {
                if self.check_closing_tag(t) {
                    assert(here == (Seq::<NodeV>::empty(), q));
                    assert(vs + Seq::<NodeV>::empty() =~= vs);
                    break;
                }
            }
            let n = self.input.len();
            let start = self.pos;
            let ghost item: Seq<NodeV> = seq![];
            if self.starts_with(&comment) {
                self.parse_comment();
            } else if self.at_doctype() {
                self.parse_doctype();
            } else if self.input[self.pos] == '<' {
                if self.pos + 1 < self.input.len() && self.input[self.pos + 1] == '/' {
                    if end_tag.is_none() {
                        self.parse_closing_tag();
                    } else {
                        assert(here == (Seq::<NodeV>::empty(), q));
                        assert(vs + Seq::<NodeV>::empty() =~= vs);
                        assert(s.subrange(q, q + 2) =~= seq!['<', '/']);
                        break;
                    }
                } else {
                    let e = self.parse_element(depth);
                    proof {
                        item = seq![element_at(s, q, depth as int).0];
                    }
                    let ghost prev = nodes@;
                    nodes.push(e);
                    assert(nodes@ == prev.push(e));
                    assert forall|j: int| #![trigger nodes@[j]] 0 <= j < nodes@.len() implies tree_ok(
                        nodes@[j],
                    ) && models(nodes@[j], (vs + item)[j]) by {
                        if j < prev.len() {
                            assert(prev[j] == nodes@[j]);
                        }
                    }
                }
            } else {
                let text = self.parse_text();
                let blank = match &text.node_type {
                    NodeType::Text(t) => is_blank(&chars_of(t.as_str())),
                    NodeType::Element(_) => false,
                };
                if !blank {
                    proof {
                        item = seq![NodeV::Text(text.node_type->Text_0@)];
                    }
                    let ghost prev = nodes@;
                    nodes.push(text);
                    assert(nodes@ == prev.push(text));
                    assert forall|j: int| #![trigger nodes@[j]] 0 <= j < nodes@.len() implies tree_ok(
                        nodes@[j],
                    ) && models(nodes@[j], (vs + item)[j]) by {
                        if j < prev.len() {
                            assert(prev[j] == nodes@[j]);
                        }
                    }
                }
            }
            if self.pos == start && self.pos < self.input.len() {
                self.consume_char();
            }
            let ghost next = self.pos as int;
            assert(here == (item + nodes_at(s, next, end, depth as int).0, nodes_at(s, next, end, depth as int).1));
            assert(vs + item + nodes_at(s, next, end, depth as int).0 =~= vs + (item + nodes_at(s, next, end, depth as int).0));
            proof {
                vs = vs + item;
            }
        }
        nodes
    }
}

/// No direct child of `n` is a `<style>` element.
pub open spec fn no_style_child(n: HtmlNode) -> bool {
    forall|i: int|
        #![trigger n.children@[i]]
        0 <= i < n.children@.len() ==> n.children@[i].node_type != NodeType::Element(HtmlTag::Style)
}

/// The normalised document shape: an html root whose children are a head
/// and then a body, with the style elements taken out of all three.
pub open spec fn is_document(r: HtmlNode) -> bool {
    &&& r.node_type == NodeType::Element(HtmlTag::Html)
    &&& r.children@.len() == 2
    &&& r.children@[0].node_type == NodeType::Element(HtmlTag::Head)
    &&& r.children@[1].node_type == NodeType::Element(HtmlTag::Body)
    &&& no_style_child(r.children@[0])
    &&& no_style_child(r.children@[1])
}

/// Resolving styles keeps the shape of a tree.
pub proof fn lemma_stylized_keeps_shape(a: HtmlNode, b: HtmlNode, rules: Seq<CssRule>)
    requires
        stylized(a, b, rules),
    ensures
        tree_ok(a) ==> tree_ok(b),
        is_document(a) ==> is_document(b),
    decreases a,
{
    if let NodeType::Element(_) = a.node_type {
        assert forall|i: int|
            #![trigger b.children@[i]]
            0 <= i < b.children@.len() && tree_ok(a) implies tree_ok(b.children@[i]) by {
            assert(decreases_to!(a => a.children@[i]));
            assert(stylized(a.children@[i], b.children@[i], rules));
            assert(tree_ok(a.children@[i]));
            lemma_stylized_keeps_shape(a.children@[i], b.children@[i], rules);
        }
        if tree_ok(a) {
            assert(tree_ok(b));
        }
        if is_document(a) {
            assert(stylized(a.children@[0], b.children@[0], rules));
            assert(stylized(a.children@[1], b.children@[1], rules));
            let h = a.children@[0];
            let y = a.children@[1];
            assert forall|i: int|
                #![trigger b.children@[0].children@[i]]
                0 <= i < b.children@[0].children@.len() implies b.children@[0].children@[i].node_type
                != NodeType::Element(HtmlTag::Style) by {
                assert(stylized(h.children@[i], b.children@[0].children@[i], rules));
                assert(h.children@[i].node_type != NodeType::Element(HtmlTag::Style));
            }
            assert forall|i: int|
                #![trigger b.children@[1].children@[i]]
                0 <= i < b.children@[1].children@.len() implies b.children@[1].children@[i].node_type
                != NodeType::Element(HtmlTag::Style) by {
                assert(stylized(y.children@[i], b.children@[1].children@[i], rules));
                assert(y.children@[i].node_type != NodeType::Element(HtmlTag::Style));
            }
            assert(is_document(b));
        }
    }
}

/// Whether `name` reads `word` (given in lower case) in any ASCII case.
fn is_named(name: &String, word: &[char]) -> (r: bool)
    ensures
        r == (ascii_lower(name@) == word@),
{
    crate::text::same_chars(&to_ascii_lower(&chars_of(name.as_str())), word)
}

/// Where a top-level node goes: 1 the head, 2 the body (a custom tag named
/// head or body in any case counts), 3 the style sheet, 0 the body's
/// content.
fn slot_of(n: &HtmlNode) -> (r: u8)
    ensures
        r <= 3,
        r == 1 <==> n.node_type is Element && names_kind(
            kind_view(n.node_type->Element_0),
            HtmlTag::Head,
            seq!['h', 'e', 'a', 'd'],
        ),
        r == 2 <==> n.node_type is Element && names_kind(
            kind_view(n.node_type->Element_0),
            HtmlTag::Body,
            seq!['b', 'o', 'd', 'y'],
        ),
        r == 3 <==> n.node_type == NodeType::Element(HtmlTag::Style),
{
    let head = ['h', 'e', 'a', 'd'];
    let body = ['b', 'o', 'd', 'y'];
    assert(head@ == seq!['h', 'e', 'a', 'd']);
    assert(body@ == seq!['b', 'o', 'd', 'y']);
    match &n.node_type {
        NodeType::Element(HtmlTag::Head) => 1,
        NodeType::Element(HtmlTag::Body) => 2,
        NodeType::Element(HtmlTag::Style) => 3,
        NodeType::Element(HtmlTag::Custom(name)) => {
            if is_named(name, &head) {
                1
            } else if is_named(name, &body) {
                2
            } else {
                0
            }
        },
        _ => 0,
    }
}

/// The raw text of a style element: its first child, if that is text.
fn style_text(n: &HtmlNode) -> (r: Option<Vec<char>>)
    requires
        n.node_type is Element,
    ensures
        forall|v: NodeV|
            models(*n, v) ==> style_text_of(v) == match r {
                Some(t) => seq![t@],
                None => Seq::<Seq<char>>::empty(),
            },
{
    let r = if n.children.len() > 0 {
        match &n.children[0].node_type {
            NodeType::Text(t) => Some(chars_of(t.as_str())),
            NodeType::Element(_) => None,
        }
    } else {
        None
    };
    assert forall|v: NodeV| models(*n, v) implies style_text_of(v) == match r {
        Some(t) => seq![t@],
        None => Seq::<Seq<char>>::empty(),
    } by {
        let c = children_of(v);
        if n.children@.len() > 0 {
            assert(models(n.children@[0], c[0]));
        }
    }
    r
}

/// `n` as an element of kind `tag`, with its attributes and children.
fn retag(n: HtmlNode, tag: HtmlTag) -> (r: HtmlNode)
    requires
        tree_ok(n),
        n.node_type is Element,
        !is_void(tag),
    ensures
        tree_ok(r),
        r.node_type == NodeType::Element(tag),
        r.attributes == n.attributes,
        r.children == n.children,
        r.style == n.style,
{
    let mut n = n;
    let ghost before = n;
    n.node_type = NodeType::Element(tag);
    assert(n.children == before.children);
    n
}

/// Takes the style elements out of the children of `n`, adding their text to
/// `styles`.
fn strip_styles(n: HtmlNode, styles: &mut Vec<Vec<char>>, mv: Ghost<Option<NodeV>>) -> (r: HtmlNode)
    requires
        tree_ok(n),
        n.node_type is Element,
        !is_void(n.node_type->Element_0),
        mv@ matches Some(v) ==> models(n, v),
    ensures
        tree_ok(r),
        r.node_type == n.node_type,
        no_style_child(r),
        mv@ matches Some(v) ==> models(r, strip_model(v)),
        mv@ matches Some(v) ==> views(final(styles)@) == views(old(styles)@) + styles_in(
            children_of(v),
        ),
{
    let ghost s0 = views(styles@);
    let mut n = n;
    let ghost before = n;
    let ghost all = children_of(mv@->0);
    let mut kids: Vec<HtmlNode> = Vec::new();
    std::mem::swap(&mut kids, &mut n.children);
    let mut kept: Vec<HtmlNode> = Vec::new();
    let ghost mut kv: Seq<NodeV> = all;
    let ghost mut done: Seq<NodeV> = seq![];
    assert(all_ok(kids@)) by {
        assert forall|j: int| #![trigger kids@[j]] 0 <= j < kids@.len() implies tree_ok(kids@[j]) by {
            assert(kids@[j] == before.children@[j]);
        }
    }
    proof {
        if mv@ is Some {
            assert forall|j: int| #![trigger kids@[j]] 0 <= j < kids@.len() implies models(
                kids@[j],
                kv[j],
            ) by {
                assert(kids@[j] == before.children@[j]);
            }
            assert(done + without_styles(kv) =~= without_styles(all));
            assert(views(styles@) + styles_in(kv) =~= s0 + styles_in(all));
        }
    }
    while kids.len() > 0
        invariant
            all_ok(kids@),
            all_ok(kept@),
            forall|j: int|
                #![trigger kept@[j]]
                0 <= j < kept@.len() ==> kept@[j].node_type != NodeType::Element(HtmlTag::Style),
            mv@ is Some ==> models_all(kids@, kv) && models_all(kept@, done) && done
                + without_styles(kv) == without_styles(all) && views(styles@) + styles_in(kv) == s0
                + styles_in(all),
        decreases kids@.len(),
    {
        let ghost k0 = kids@;
        let ghost kv0 = kv;
        let c = kids.remove(0);
        assert(c == k0[0]);
        assert(kids@ =~= k0.drop_first());
        assert forall|j: int| #![trigger kids@[j]] 0 <= j < kids@.len() implies tree_ok(kids@[j]) by {
            assert(kids@[j] == k0[j + 1]);
        }
        proof {
            if mv@ is Some {
                kv = kv0.drop_first();
                assert forall|j: int| #![trigger kids@[j]] 0 <= j < kids@.len() implies models(
                    kids@[j],
                    kv[j],
                ) by {
                    assert(kids@[j] == k0[j + 1]);
                }
            }
        }
        let is_style = match &c.node_type {
            NodeType::Element(HtmlTag::Style) => true,
            _ => false,
        };
        let ghost st0 = views(styles@);
        if is_style {
            proof {
                if mv@ is Some {
                    lemma_known_keys(c, kv0[0]);
                    assert(has_key(kv0[0], style_key()));
                    assert(done + without_styles(kv) =~= done + without_styles(kv0));
                }
            }
            if let Some(t) = style_text(&c) {
                styles.push(t);
            }
            proof {
                if mv@ is Some {
                    assert(views(styles@) =~= st0 + style_text_of(kv0[0]));
                    assert(views(styles@) + styles_in(kv) =~= st0 + styles_in(kv0));
                }
            }
        } else {
            let ghost prev = kept@;
            kept.push(c);
            assert forall|j: int| #![trigger kept@[j]] 0 <= j < kept@.len() implies tree_ok(kept@[j])
                && kept@[j].node_type != NodeType::Element(HtmlTag::Style) by {
                if j < prev.len() {
                    assert(kept@[j] == prev[j]);
                }
            }
            proof {
                if mv@ is Some {
                    assert(!has_key(kv0[0], style_key())) by {
                        lemma_known_keys(c, kv0[0]);
                    }
                    let d0 = done;
                    assert(views(styles@) + styles_in(kv) =~= st0 + styles_in(kv0));
                    done = done.push(kv0[0]);
                    assert(d0 + without_styles(kv0) =~= done + without_styles(kv));
                    assert forall|j: int| #![trigger kept@[j]] 0 <= j < kept@.len() implies models(
                        kept@[j],
                        done[j],
                    ) by {
                        if j < prev.len() {
                            assert(kept@[j] == prev[j]);
                        }
                    }
                }
            }
        }
    }
    n.children = kept;
    proof {
        if mv@ is Some {
            assert(views(styles@) + styles_in(kv) =~= views(styles@));
            assert(done + without_styles(kv) =~= done);
            assert(models(n, strip_model(mv@->0)));
        }
    }
    n
}

/// The kind in a model tells the kinds that normalisation looks for.
proof fn lemma_known_keys(n: HtmlNode, v: NodeV)
    requires
        models(n, v),
    ensures
        has_key(v, style_key()) <==> n.node_type == NodeType::Element(HtmlTag::Style),
        is_head(v) <==> n.node_type is Element && names_kind(
            kind_view(n.node_type->Element_0),
            HtmlTag::Head,
            seq!['h', 'e', 'a', 'd'],
        ),
        is_body(v) <==> n.node_type is Element && names_kind(
            kind_view(n.node_type->Element_0),
            HtmlTag::Body,
            seq!['b', 'o', 'd', 'y'],
        ),
        is_html(v) <==> n.node_type is Element && names_kind(
            kind_view(n.node_type->Element_0),
            HtmlTag::Html,
            seq!['h', 't', 'm', 'l'],
        ),
{
}

/// Resolving styles keeps the shape that a tree denotes.
pub proof fn lemma_stylized_keeps_model(a: HtmlNode, b: HtmlNode, rules: Seq<CssRule>, v: NodeV)
    requires
        stylized(a, b, rules),
        models_shape(a, v),
    ensures
        models_shape(b, v),
    decreases a,
{
    if let NodeType::Element(_) = a.node_type {
        let kids = children_of(v);
        assert forall|i: int| #![trigger b.children@[i]] 0 <= i < b.children@.len() implies models_shape(
            b.children@[i],
            kids[i],
        ) by {
            assert(decreases_to!(a => a.children@[i]));
            assert(stylized(a.children@[i], b.children@[i], rules));
            assert(models_shape(a.children@[i], kids[i]));
            lemma_stylized_keeps_model(a.children@[i], b.children@[i], rules, kids[i]);
        }
        assert(models_shape(b, v));
    }
}

/// Gives the tree an html root whose children are a head and then a body:
/// the first head and the first body among the root's children are kept,
/// other content goes to the start of the body, and whitespace text is
/// dropped; a custom tag named html, head or body in any case counts as one.
/// Style elements among the children of the root, head and body are taken
/// out; if they held any text, it is parsed as one style sheet whose rules are
/// then resolved over the whole tree, and otherwise every node keeps its style
/// map.
pub fn cleanup_tree(root: HtmlNode) -> (r: HtmlNode)
    requires
        tree_ok(root),
    ensures
        is_document(r),
        tree_ok(r),
        forall|v: NodeV| models(root, v) ==> models_shape(r, cleanup_model(v)),
        forall|v: NodeV|
            models(root, v) && document_styles(v).len() == 0 ==> models(r, cleanup_model(v)),
        forall|v: NodeV|
            models(root, v) && document_styles(v).len() > 0 ==> exists|rules: Seq<CssRule>|
                resolved(r, rules) && rules_view(rules) == css_rules(flatten(document_styles(v))),
{
    let ghost mv = if exists|v: NodeV| models(root, v) {
        Some(choose|v: NodeV| models(root, v))
    } else {
        None
    };
    let r = normalize(root, Ghost(mv));
    proof {
        assert forall|v: NodeV| models(root, v) implies models_shape(r, cleanup_model(v)) by {
            lemma_model_unique(root, mv->0, v);
        }
        assert forall|v: NodeV| models(root, v) && document_styles(v).len() == 0 implies models(
            r,
            cleanup_model(v),
        ) by {
            lemma_model_unique(root, mv->0, v);
        }
        assert forall|v: NodeV| models(root, v) && document_styles(v).len() > 0 implies exists|
            rules: Seq<CssRule>,
        | resolved(r, rules) && rules_view(rules) == css_rules(flatten(document_styles(v))) by {
            lemma_model_unique(root, mv->0, v);
        }
    }
    r
}

/// Two trees of the same shape: the same kinds, attributes and texts, and
/// children of the same shape in the same order.
pub open spec fn same_shape(a: HtmlNode, b: HtmlNode) -> bool
    decreases a,
{
    match (a.node_type, b.node_type) {
        (NodeType::Element(t), NodeType::Element(u)) => {
            &&& kind_view(t) == kind_view(u)
            &&& attr_view(a.attributes@) == attr_view(b.attributes@)
            &&& a.children@.len() == b.children@.len()
            &&& forall|i: int|
                #![trigger a.children@[i]]
                0 <= i < a.children@.len() ==> same_shape(a.children@[i], b.children@[i])
        },
        (NodeType::Text(x), NodeType::Text(y)) => x@ == y@,
        _ => false,
    }
}

/// Trees that denote the same document have the same shape.
pub proof fn lemma_same_model_same_shape(a: HtmlNode, b: HtmlNode, v: NodeV)
    requires
        models_shape(a, v),
        models_shape(b, v),
    ensures
        same_shape(a, b),
    decreases a,
{
    if let NodeV::Element(_, _, kids, _) = v {
        assert forall|i: int|
            #![trigger a.children@[i]]
            0 <= i < a.children@.len() implies same_shape(a.children@[i], b.children@[i]) by {
            assert(decreases_to!(a => a.children@[i]));
            lemma_same_model_same_shape(a.children@[i], b.children@[i], kids[i]);
        }
    }
}

/// Two trees of the same shape whose nodes have style maps with the same
/// plain values.
pub open spec fn same_styles_view(a: HtmlNode, b: HtmlNode) -> bool
    decreases a,
{
    &&& props_view(a.style@) == props_view(b.style@)
    &&& a.children@.len() == b.children@.len()
    &&& forall|i: int|
        #![trigger a.children@[i]]
        0 <= i < a.children@.len() ==> same_styles_view(a.children@[i], b.children@[i])
}

proof fn lemma_same_model_same_styles(a: HtmlNode, b: HtmlNode, v: NodeV)
    requires
        models(a, v),
        models(b, v),
        tree_ok(a),
        tree_ok(b),
    ensures
        same_styles_view(a, b),
    decreases a,
{
    if let NodeV::Element(_, _, kids, _) = v {
        assert forall|i: int|
            #![trigger a.children@[i]]
            0 <= i < a.children@.len() implies same_styles_view(a.children@[i], b.children@[i]) by {
            assert(decreases_to!(a => a.children@[i]));
            assert(models(a.children@[i], kids[i]));
            assert(models(b.children@[i], kids[i]));
            assert(tree_ok(a.children@[i]));
            assert(tree_ok(b.children@[i]));
            lemma_same_model_same_styles(a.children@[i], b.children@[i], kids[i]);
        }
    } else {
        assert(props_view(a.style@) =~= props_view(b.style@));
    }
}

proof fn lemma_resolved_same_styles(
    a: HtmlNode,
    b: HtmlNode,
    ra: Seq<CssRule>,
    rb: Seq<CssRule>,
)
    requires
        same_shape(a, b),
        tree_ok(a),
        tree_ok(b),
        resolved(a, ra),
        resolved(b, rb),
        rules_view(ra) == rules_view(rb),
    ensures
        same_styles_view(a, b),
    decreases a,
{
    match (a.node_type, b.node_type) {
        (NodeType::Element(ta), NodeType::Element(tb)) => {
            lemma_cascade_views(ta, tb, a.attributes@, b.attributes@, ra, rb);
            assert forall|i: int|
                #![trigger a.children@[i]]
                0 <= i < a.children@.len() implies same_styles_view(
                a.children@[i],
                b.children@[i],
            ) by {
                assert(decreases_to!(a => a.children@[i]));
                assert(same_shape(a.children@[i], b.children@[i]));
                assert(tree_ok(a.children@[i]));
                assert(tree_ok(b.children@[i]));
                assert(resolved(a.children@[i], ra));
                assert(resolved(b.children@[i], rb));
                lemma_resolved_same_styles(a.children@[i], b.children@[i], ra, rb);
            }
        },
        _ => {
            assert(props_view(a.style@) =~= props_view(b.style@));
        },
    }
}

/// What `parse_html` returns for `input`.
pub open spec fn parsed_from(r: HtmlNode, input: Seq<char>) -> bool {
    &&& is_document(r)
    &&& tree_ok(r)
    &&& models_shape(r, document_of(input))
    &&& document_styles(root_of(input)).len() == 0 ==> models(r, document_of(input))
    &&& document_styles(root_of(input)).len() > 0 ==> exists|rules: Seq<CssRule>|
        resolved(r, rules) && rules_view(rules) == css_rules(style_sheet_of(input))
}

/// Parsing the same markup twice gives trees of the same shape whose style
/// maps hold the same values.
pub proof fn lemma_parse_html_deterministic(input: Seq<char>, a: HtmlNode, b: HtmlNode)
    requires
        parsed_from(a, input),
        parsed_from(b, input),
    ensures
        same_shape(a, b),
        same_styles_view(a, b),
{
    lemma_same_model_same_shape(a, b, document_of(input));
    if document_styles(root_of(input)).len() == 0 {
        lemma_same_model_same_styles(a, b, document_of(input));
    } else {
        let ra = choose|rules: Seq<CssRule>|
            resolved(a, rules) && rules_view(rules) == css_rules(style_sheet_of(input));
        let rb = choose|rules: Seq<CssRule>|
            resolved(b, rules) && rules_view(rules) == css_rules(style_sheet_of(input));
        lemma_resolved_same_styles(a, b, ra, rb);
    }
}

/// A tree denotes one model.
pub proof fn lemma_model_unique(n: HtmlNode, v: NodeV, w: NodeV)
    requires
        models(n, v),
        models(n, w),
    ensures
        v == w,
    decreases n,
{
    match v {
        NodeV::Element(k, a, c, st) => {
            let d = children_of(w);
            assert forall|i: int| 0 <= i < c.len() implies c[i] == d[i] by {
                assert(decreases_to!(n => n.children@[i]));
                lemma_model_unique(n.children@[i], c[i], d[i]);
            }
            assert(c =~= d);
        },
        NodeV::Text(_) => {},
    }
}

fn normalize(root: HtmlNode, mv: Ghost<Option<NodeV>>) -> (r: HtmlNode)
    requires
        tree_ok(root),
        mv@ matches Some(v) ==> models(root, v),
    ensures
        is_document(r),
        tree_ok(r),
        mv@ matches Some(v) ==> models_shape(r, cleanup_model(v)),
        mv@ matches Some(v) ==> (document_styles(v).len() == 0 ==> models(r, cleanup_model(v))),
        mv@ matches Some(v) ==> (document_styles(v).len() > 0 ==> exists|rules: Seq<CssRule>|
            resolved(r, rules) && rules_view(rules) == css_rules(flatten(document_styles(v)))),
{
    let mut root = root;
    let html = ['h', 't', 'm', 'l'];
    assert(html@ == seq!['h', 't', 'm', 'l']);
    let is_html = match &root.node_type {
        NodeType::Element(HtmlTag::Html) => true,
        NodeType::Element(HtmlTag::Custom(name)) => is_named(name, &html),
        _ => false,
    };
    let ghost m0 = mv@->0;
    let ghost rv = crate::markup::html_root(m0);
    proof {
        if mv@ is Some {
            lemma_known_keys(root, m0);
        }
    }
    if !is_html {
        let wrapped = vec![root];
        root = HtmlNode::new_element(HtmlTag::Html, StrMap::new(), wrapped);
        assert(root.children@ == seq![wrapped@[0]]);
        assert(tree_ok(root)) by {
            assert forall|k: Seq<char>| #[trigger] root.attributes@.contains_key(k) implies ascii_lower(
                k,
            ) == k by {}
        }
        proof {
            if mv@ is Some {
                assert(attr_view(root.attributes@) =~= Map::<Seq<char>, Seq<char>>::empty());
                assert(models(root, rv));
            }
        }
    } else {
        proof {
            if mv@ is Some {
                assert(models(root, rv));
            }
        }
    }
    let ghost r0 = root;
    let ghost all = children_of(rv);
    assert(root.node_type is Element);
    let mut kids: Vec<HtmlNode> = Vec::new();
    std::mem::swap(&mut kids, &mut root.children);
    root.node_type = NodeType::Element(HtmlTag::Html);
    assert(all_ok(kids@)) by {
        assert forall|j: int| #![trigger kids@[j]] 0 <= j < kids@.len() implies tree_ok(kids@[j]) by {
            assert(kids@[j] == r0.children@[j]);
        }
    }
    let mut head: Option<HtmlNode> = None;
    let mut body: Option<HtmlNode> = None;
    let mut others: Vec<HtmlNode> = Vec::new();
    let mut styles: Vec<Vec<char>> = Vec::new();
    let ghost mut kv: Seq<NodeV> = all;
    let ghost mut hv: Option<NodeV> = None;
    let ghost mut bv: Option<NodeV> = None;
    let ghost mut ov: Seq<NodeV> = seq![];
    proof {
        if mv@ is Some {
            assert forall|j: int| #![trigger kids@[j]] 0 <= j < kids@.len() implies models(
                kids@[j],
                kv[j],
            ) by {
                assert(kids@[j] == r0.children@[j]);
            }
            assert(views(styles@) + styles_in(kv) =~= styles_in(all));
        }
    }
    while kids.len() > 0
        invariant
            all_ok(kids@),
            all_ok(others@),
            forall|j: int|
                #![trigger others@[j]]
                0 <= j < others@.len() ==> others@[j].node_type != NodeType::Element(HtmlTag::Style),
            head matches Some(h) ==> tree_ok(h) && h.node_type == NodeType::Element(HtmlTag::Head),
            body matches Some(b) ==> tree_ok(b) && b.node_type == NodeType::Element(HtmlTag::Body),
            mv@ is None ==> hv is None && bv is None,
            mv@ is Some ==> {
                &&& models_all(kids@, kv)
                &&& models_all(others@, ov)
                &&& (head is Some <==> hv is Some)
                &&& (head matches Some(h) ==> models(h, hv->0))
                &&& (body is Some <==> bv is Some)
                &&& (body matches Some(b) ==> models(b, bv->0))
                &&& sort_children(kv, hv, bv, ov) == sort_children(all, None, None, seq![])
                &&& views(styles@) + styles_in(kv) == styles_in(all)
            },
        decreases kids@.len(),
    {
        let ghost k0 = kids@;
        let ghost kv0 = kv;
        let c = kids.remove(0);
        assert(c == k0[0]);
        assert(tree_ok(c));
        assert(kids@ =~= k0.drop_first());
        assert forall|j: int| #![trigger kids@[j]] 0 <= j < kids@.len() implies tree_ok(kids@[j]) by {
            assert(kids@[j] == k0[j + 1]);
        }
        proof {
            if mv@ is Some {
                kv = kv0.drop_first();
                assert forall|j: int| #![trigger kids@[j]] 0 <= j < kids@.len() implies models(
                    kids@[j],
                    kv[j],
                ) by {
                    assert(kids@[j] == k0[j + 1]);
                }
                lemma_known_keys(c, kv0[0]);
            }
        }
        let ghost st0 = views(styles@);
        let blank = match &c.node_type {
            NodeType::Text(t) => is_blank(&chars_of(t.as_str())),
            NodeType::Element(_) => false,
        };
        if !blank {
            let slot = slot_of(&c);
            if slot == 1 {
                if head.is_none() {
                    head = Some(retag(c, HtmlTag::Head));
                    proof {
                        if mv@ is Some {
                            hv = Some(crate::markup::rekey(kv0[0], head_key()));
                        }
                    }
                }
            } else if slot == 2 {
                if body.is_none() {
                    body = Some(retag(c, HtmlTag::Body));
                    proof {
                        if mv@ is Some {
                            bv = Some(crate::markup::rekey(kv0[0], body_key()));
                        }
                    }
                }
            } else if slot == 3 {
                if let Some(t) = style_text(&c) {
                    styles.push(t);
                }
                proof {
                    if mv@ is Some {
                        assert(views(styles@) =~= st0 + style_text_of(kv0[0]));
                    }
                }
            } else {
                let ghost prev = others@;
                others.push(c);
                assert forall|j: int| #![trigger others@[j]] 0 <= j < others@.len() implies tree_ok(
                    others@[j],
                ) && others@[j].node_type != NodeType::Element(HtmlTag::Style) by {
                    if j < prev.len() {
                        assert(others@[j] == prev[j]);
                    } else {
                        assert(others@[j] == c);
                    }
                }
                proof {
                    if mv@ is Some {
                        let o0 = ov;
                        ov = ov.push(kv0[0]);
                        assert forall|j: int| #![trigger others@[j]] 0 <= j < others@.len()
                            implies models(others@[j], ov[j]) by {
                            if j < prev.len() {
                                assert(others@[j] == prev[j]);
                            }
                        }
                    }
                }
            }
        }
        proof {
            if mv@ is Some {
                if !has_key(kv0[0], style_key()) {
                    assert(views(styles@) == st0);
                }
                assert(views(styles@) + styles_in(kv) =~= st0 + styles_in(kv0));
            }
        }
    }
    let ghost sorted = sort_children(all, None, None, seq![]);
    let ghost st_root = views(styles@);
    let head_node = match head {
        Some(h) => strip_styles(h, &mut styles, Ghost(hv)),
        None => {
            let h = HtmlNode::new_element(HtmlTag::Head, StrMap::new(), Vec::new());
            assert(h.children@ =~= Seq::<HtmlNode>::empty());
            assert(attr_view(h.attributes@) =~= Map::<Seq<char>, Seq<char>>::empty());
            h
        },
    };
    let ghost st_head = views(styles@);
    let mut body_node = match body {
        Some(b) => strip_styles(b, &mut styles, Ghost(bv)),
        None => {
            let b = HtmlNode::new_element(HtmlTag::Body, StrMap::new(), Vec::new());
            assert(b.children@ =~= Seq::<HtmlNode>::empty());
            assert(attr_view(b.attributes@) =~= Map::<Seq<char>, Seq<char>>::empty());
            b
        },
    };
    let ghost hm = match sorted.0 {
        Some(h) => strip_model(h),
        None => NodeV::Element(head_key(), Map::empty(), seq![], Map::empty()),
    };
    let ghost bm = match sorted.1 {
        Some(b) => strip_model(b),
        None => NodeV::Element(body_key(), Map::empty(), seq![], Map::empty()),
    };
    let ghost bn = body_node;
    let mut own: Vec<HtmlNode> = Vec::new();
    std::mem::swap(&mut own, &mut body_node.children);
    let mut content = others;
    let ghost front = content@;
    let ghost back = own@;
    content.append(&mut own);
    assert(content@ == front + back);
    body_node.children = content;
    assert(tree_ok(body_node) && no_style_child(body_node)) by {
        assert forall|j: int| #![trigger body_node.children@[j]] 0 <= j < body_node.children@.len()
            implies tree_ok(body_node.children@[j]) && body_node.children@[j].node_type
            != NodeType::Element(HtmlTag::Style) by {
            if j < front.len() {
                assert(body_node.children@[j] == front[j]);
            } else {
                assert(body_node.children@[j] == bn.children@[j - front.len()]);
            }
        }
    }
    let ghost bfinal = match bm {
        NodeV::Element(k, a, c, st) => NodeV::Element(k, a, sorted.2 + c, st),
        NodeV::Text(t) => NodeV::Text(t),
    };
    proof {
        if mv@ is Some {
            assert(sort_children(kv, hv, bv, ov) == (hv, bv, ov));
            assert(models(head_node, hm));
            assert(models(bn, bm));
            let bc = children_of(bm);
            assert forall|j: int| #![trigger body_node.children@[j]] 0 <= j < body_node.children@.len()
                implies models(body_node.children@[j], (sorted.2 + bc)[j]) by {
                if j < front.len() {
                    assert(body_node.children@[j] == front[j]);
                } else {
                    assert(body_node.children@[j] == bn.children@[j - front.len()]);
                }
            }
            assert(models(body_node, bfinal));
        }
    }
    root.children = vec![head_node, body_node];
    assert(root.children@ == seq![head_node, body_node]);
    assert(is_document(root));
    assert(tree_ok(root)) by {
        assert forall|j: int| #![trigger root.children@[j]] 0 <= j < root.children@.len() implies tree_ok(
            root.children@[j],
        ) by {
            if j == 0 {
                assert(root.children@[j] == head_node);
            } else {
                assert(root.children@[j] == body_node);
            }
        }
    }
    proof {
        if mv@ is Some {
            assert(cleanup_model(m0) == NodeV::Element(
                html_key(),
                attr_view(r0.attributes@),
                seq![hm, bfinal],
                r0.style@,
            ));
            assert forall|j: int| #![trigger root.children@[j]] 0 <= j < root.children@.len() implies models(
                root.children@[j],
                seq![hm, bfinal][j],
            ) by {
                if j == 0 {
                    assert(root.children@[j] == head_node);
                } else {
                    assert(root.children@[j] == body_node);
                }
            }
            assert(models(root, cleanup_model(m0)));
        }
    }
    proof {
        if mv@ is Some {
            assert(views(styles@) == document_styles(m0));
            lemma_models_shape(root, cleanup_model(m0));
        }
    }
    if styles.len() > 0 {
        let mut sheet: Vec<char> = Vec::new();
        let mut i: usize = 0;
        while i < styles.len()
            invariant
                i <= styles@.len(),
                sheet@ == flatten(views(styles@).take(i as int)),
            decreases styles@.len() - i,
        {
            let t = &styles[i];
            let ghost before = sheet@;
            let mut k: usize = 0;
            while k < t.len()
                invariant
                    k <= t@.len(),
                    sheet@ == before + t@.take(k as int),
                decreases t@.len() - k,
            {
                sheet.push(t[k]);
                assert(t@.take(k + 1) =~= t@.take(k as int).push(t@[k as int]));
                k = k + 1;
            }
            assert(t@.take(t@.len() as int) =~= t@);
            assert(views(styles@).take(i + 1).drop_last() =~= views(styles@).take(i as int));
            i = i + 1;
        }
        assert(views(styles@).take(styles@.len() as int) =~= views(styles@));
        let rules = parse_css(string_from(&sheet).as_str());
        let ghost pre = root;
        root.stylize(&rules);
        proof {
            lemma_stylized_keeps_shape(pre, root, rules@);
            if mv@ is Some {
                lemma_stylized_keeps_model(pre, root, rules@, cleanup_model(m0));
            }
            assert(resolved(root, rules@));
        }
    }
    root
}

/// Parses markup into a document: an html root with a head and a body,
/// styled by the style elements it holds. Parsing never fails; the tree is
/// the document that the markup denotes, and each element has the style that
/// the document's style sheet gives it.
pub fn parse_html(input: &str) -> (r: HtmlNode)
    ensures
        is_document(r),
        tree_ok(r),
        models_shape(r, document_of(input@)),
        document_styles(root_of(input@)).len() == 0 ==> models(r, document_of(input@)),
        document_styles(root_of(input@)).len() > 0 ==> exists|rules: Seq<CssRule>|
            resolved(r, rules) && rules_view(rules) == css_rules(style_sheet_of(input@)),
        parsed_from(r, input@),
{
    let mut parser = Parser::new(input);
    let ghost s = input@;
    let nodes = parser.parse_nodes(None, 0);
    let ghost top = nodes_at(s, 0, None, 0).0;
    assert(end_view(None) == None::<Seq<char>>);
    let mut elements: Vec<HtmlNode> = Vec::new();
    let mut rest = nodes;
    let ghost mut rv: Seq<NodeV> = top;
    let ghost mut ev: Seq<NodeV> = seq![];
    assert(ev + elements_of(rv) =~= elements_of(top));
    while rest.len() > 0
        invariant
            all_ok(rest@),
            all_ok(elements@),
            models_all(rest@, rv),
            models_all(elements@, ev),
            ev + elements_of(rv) == elements_of(top),
        decreases rest@.len(),
    {
        let ghost k0 = rest@;
        let ghost rv0 = rv;
        let c = rest.remove(0);
        assert(c == k0[0]);
        proof {
            rv = rv0.drop_first();
        }
        assert forall|j: int| #![trigger rest@[j]] 0 <= j < rest@.len() implies tree_ok(rest@[j])
            && models(rest@[j], rv[j]) by {
            assert(rest@[j] == k0[j + 1]);
        }
        if let NodeType::Element(_) = &c.node_type {
            let ghost prev = elements@;
            let ghost e0 = ev;
            elements.push(c);
            proof {
                ev = ev.push(rv0[0]);
                assert(e0 + elements_of(rv0) =~= ev + elements_of(rv));
            }
            assert forall|j: int| #![trigger elements@[j]] 0 <= j < elements@.len() implies tree_ok(
                elements@[j],
            ) && models(elements@[j], ev[j]) by {
                if j < prev.len() {
                    assert(elements@[j] == prev[j]);
                }
            }
        } else {
            assert(ev + elements_of(rv0) =~= ev + elements_of(rv));
        }
    }
    assert(ev == elements_of(top)) by {
        assert(ev + elements_of(rv) =~= ev);
    }
    let html = ['h', 't', 'm', 'l'];
    assert(html@ == seq!['h', 't', 'm', 'l']);
    let first_is_html = elements.len() > 0 && match &elements[0].node_type {
        NodeType::Element(HtmlTag::Html) => true,
        NodeType::Element(HtmlTag::Custom(name)) => is_named(name, &html),
        _ => false,
    };
    if elements.len() > 0 {
        proof {
            lemma_known_keys(elements@[0], ev[0]);
        }
    }
    if elements.len() == 1 && first_is_html {
        let ghost k0 = elements@;
        let root = elements.remove(0);
        assert(root == k0[0]);
        assert(root_of(s) == ev[0]);
        normalize(root, Ghost(Some(ev[0])))
    } else {
        let root = HtmlNode::new_element(HtmlTag::Html, StrMap::new(), elements);
        assert(tree_ok(root)) by {
            assert forall|k: Seq<char>| #[trigger] root.attributes@.contains_key(k) implies ascii_lower(
                k,
            ) == k by {}
            assert forall|j: int| #![trigger root.children@[j]] 0 <= j < root.children@.len()
                implies tree_ok(root.children@[j]) by {
                assert(root.children@[j] == elements@[j]);
            }
        }
        assert(attr_view(root.attributes@) =~= Map::<Seq<char>, Seq<char>>::empty());
        assert(models(root, NodeV::Element(html_key(), Map::empty(), ev, Map::empty()))) by {
            assert forall|j: int| #![trigger root.children@[j]] 0 <= j < root.children@.len()
                implies models(root.children@[j], ev[j]) by {
                assert(root.children@[j] == elements@[j]);
            }
        }
        assert(root_of(s) == NodeV::Element(html_key(), Map::empty(), ev, Map::empty()));
        normalize(root, Ghost(Some(NodeV::Element(html_key(), Map::empty(), ev, Map::empty()))))
    }
}

} // verus!
