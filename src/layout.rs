//! The value model shared by the parsers and the cascade: tags, nodes, style
//! values, selectors and rules, and the cascade that resolves each element's
//! style from a rule list.
use crate::strmap::StrMap;
use crate::text::{chars_of, same_chars};
use vstd::prelude::*;

verus! {

/// The next value of an identifier counter, which then moves on by one.
pub fn get_next_id(counter: &mut usize) -> (r: usize)
    requires
        *old(counter) < usize::MAX,
    ensures
        r == *old(counter),
        *final(counter) == *old(counter) + 1,
{
    let r = *counter;
    *counter = r + 1;
    r
}

/// The kind of an element; a tag that is not recognised keeps its name.
#[derive(Debug, Clone, PartialEq, Eq)]
pub enum HtmlTag {
    Div,
    Span,
    P,
    H1,
    H2,
    H3,
    H4,
    H5,
    H6,
    Strong,
    Em,
    Small,
    Big,
    B,
    W,
    U,
    I,
    S,
    Br,
    Hr,
    A,
    Abbr,
    Audio,
    Img,
    Table,
    Thead,
    Tbody,
    Tfoot,
    Th,
    Td,
    Tr,
    Caption,
    Body,
    Head,
    Title,
    Html,
    Script,
    Style,
    Custom(String),
}

/// The canonical lower-case name of each recognised kind; a custom tag's
/// name is the one it was written with.
pub open spec fn tag_name(t: HtmlTag) -> Seq<char> {
    match t {
        HtmlTag::Div => seq!['d', 'i', 'v'],
        HtmlTag::Span => seq!['s', 'p', 'a', 'n'],
        HtmlTag::P => seq!['p'],
        HtmlTag::H1 => seq!['h', '1'],
        HtmlTag::H2 => seq!['h', '2'],
        HtmlTag::H3 => seq!['h', '3'],
        HtmlTag::H4 => seq!['h', '4'],
        HtmlTag::H5 => seq!['h', '5'],
        HtmlTag::H6 => seq!['h', '6'],
        HtmlTag::Strong => seq!['s', 't', 'r', 'o', 'n', 'g'],
        HtmlTag::Em => seq!['e', 'm'],
        HtmlTag::Small => seq!['s', 'm', 'a', 'l', 'l'],
        HtmlTag::Big => seq!['b', 'i', 'g'],
        HtmlTag::B => seq!['b'],
        HtmlTag::W => seq!['w'],
        HtmlTag::U => seq!['u'],
        HtmlTag::I => seq!['i'],
        HtmlTag::S => seq!['s'],
        HtmlTag::Br => seq!['b', 'r'],
        HtmlTag::Hr => seq!['h', 'r'],
        HtmlTag::A => seq!['a'],
        HtmlTag::Abbr => seq!['a', 'b', 'b', 'r'],
        HtmlTag::Audio => seq!['a', 'u', 'd', 'i', 'o'],
        HtmlTag::Img => seq!['i', 'm', 'g'],
        HtmlTag::Table => seq!['t', 'a', 'b', 'l', 'e'],
        HtmlTag::Thead => seq!['t', 'h', 'e', 'a', 'd'],
        HtmlTag::Tbody => seq!['t', 'b', 'o', 'd', 'y'],
        HtmlTag::Tfoot => seq!['t', 'f', 'o', 'o', 't'],
        HtmlTag::Th => seq!['t', 'h'],
        HtmlTag::Td => seq!['t', 'd'],
        HtmlTag::Tr => seq!['t', 'r'],
        HtmlTag::Caption => seq!['c', 'a', 'p', 't', 'i', 'o', 'n'],
        HtmlTag::Body => seq!['b', 'o', 'd', 'y'],
        HtmlTag::Head => seq!['h', 'e', 'a', 'd'],
        HtmlTag::Title => seq!['t', 'i', 't', 'l', 'e'],
        HtmlTag::Html => seq!['h', 't', 'm', 'l'],
        HtmlTag::Script => seq!['s', 'c', 'r', 'i', 'p', 't'],
        HtmlTag::Style => seq!['s', 't', 'y', 'l', 'e'],
        HtmlTag::Custom(n) => n@,
    }
}

pub fn tag_name_chars(t: &HtmlTag) -> (r: Vec<char>)
    ensures
        r@ == tag_name(*t),
{
    match t {
        HtmlTag::Div => vec!['d', 'i', 'v'],
        HtmlTag::Span => vec!['s', 'p', 'a', 'n'],
        HtmlTag::P => vec!['p'],
        HtmlTag::H1 => vec!['h', '1'],
        HtmlTag::H2 => vec!['h', '2'],
        HtmlTag::H3 => vec!['h', '3'],
        HtmlTag::H4 => vec!['h', '4'],
        HtmlTag::H5 => vec!['h', '5'],
        HtmlTag::H6 => vec!['h', '6'],
        HtmlTag::Strong => vec!['s', 't', 'r', 'o', 'n', 'g'],
        HtmlTag::Em => vec!['e', 'm'],
        HtmlTag::Small => vec!['s', 'm', 'a', 'l', 'l'],
        HtmlTag::Big => vec!['b', 'i', 'g'],
        HtmlTag::B => vec!['b'],
        HtmlTag::W => vec!['w'],
        HtmlTag::U => vec!['u'],
        HtmlTag::I => vec!['i'],
        HtmlTag::S => vec!['s'],
        HtmlTag::Br => vec!['b', 'r'],
        HtmlTag::Hr => vec!['h', 'r'],
        HtmlTag::A => vec!['a'],
        HtmlTag::Abbr => vec!['a', 'b', 'b', 'r'],
        HtmlTag::Audio => vec!['a', 'u', 'd', 'i', 'o'],
        HtmlTag::Img => vec!['i', 'm', 'g'],
        HtmlTag::Table => vec!['t', 'a', 'b', 'l', 'e'],
        HtmlTag::Thead => vec!['t', 'h', 'e', 'a', 'd'],
        HtmlTag::Tbody => vec!['t', 'b', 'o', 'd', 'y'],
        HtmlTag::Tfoot => vec!['t', 'f', 'o', 'o', 't'],
        HtmlTag::Th => vec!['t', 'h'],
        HtmlTag::Td => vec!['t', 'd'],
        HtmlTag::Tr => vec!['t', 'r'],
        HtmlTag::Caption => vec!['c', 'a', 'p', 't', 'i', 'o', 'n'],
        HtmlTag::Body => vec!['b', 'o', 'd', 'y'],
        HtmlTag::Head => vec!['h', 'e', 'a', 'd'],
        HtmlTag::Title => vec!['t', 'i', 't', 'l', 'e'],
        HtmlTag::Html => vec!['h', 't', 'm', 'l'],
        HtmlTag::Script => vec!['s', 'c', 'r', 'i', 'p', 't'],
        HtmlTag::Style => vec!['s', 't', 'y', 'l', 'e'],
        HtmlTag::Custom(n) => chars_of(n.as_str()),
    }
}

/// Every recognised kind, once each.
pub open spec fn known_tags() -> Seq<HtmlTag> {
    seq![HtmlTag::Div, HtmlTag::Span, HtmlTag::P, HtmlTag::H1, HtmlTag::H2, HtmlTag::H3, HtmlTag::H4, HtmlTag::H5, HtmlTag::H6, HtmlTag::Strong, HtmlTag::Em, HtmlTag::Small, HtmlTag::Big, HtmlTag::B, HtmlTag::W, HtmlTag::U, HtmlTag::I, HtmlTag::S, HtmlTag::Br, HtmlTag::Hr, HtmlTag::A, HtmlTag::Abbr, HtmlTag::Audio, HtmlTag::Img, HtmlTag::Table, HtmlTag::Thead, HtmlTag::Tbody, HtmlTag::Tfoot, HtmlTag::Th, HtmlTag::Td, HtmlTag::Tr, HtmlTag::Caption, HtmlTag::Body, HtmlTag::Head, HtmlTag::Title, HtmlTag::Html, HtmlTag::Script, HtmlTag::Style]
}

/// The first recognised kind of `tags` whose canonical name is `name`.
pub open spec fn tag_in(tags: Seq<HtmlTag>, name: Seq<char>) -> Option<HtmlTag>
    decreases tags.len(),
{
    if tags.len() == 0 {
        None
    } else if tag_name(tags[0]) == name && !(tags[0] is Custom) {
        Some(tags[0])
    } else {
        tag_in(tags.drop_first(), name)
    }
}

/// The recognised kind whose canonical name is `name`, if there is one.
pub open spec fn known_tag(name: Seq<char>) -> Option<HtmlTag> {
    tag_in(known_tags(), name)
}

pub proof fn lemma_tag_in(tags: Seq<HtmlTag>, name: Seq<char>)
    ensures
        tag_in(tags, name) matches Some(t) ==> tag_name(t) == name && !(t is Custom),
    decreases tags.len(),
{
    if tags.len() > 0 && !(tag_name(tags[0]) == name && !(tags[0] is Custom)) {
        lemma_tag_in(tags.drop_first(), name);
    }
}

/// The recognised kind named `lower` (already in lower case), if any.
pub fn lookup_tag(lower: &Vec<char>) -> (r: Option<HtmlTag>)
    ensures
        r == known_tag(lower@),
{
    let mut all = vec![HtmlTag::Div, HtmlTag::Span, HtmlTag::P, HtmlTag::H1, HtmlTag::H2, HtmlTag::H3, HtmlTag::H4, HtmlTag::H5, HtmlTag::H6, HtmlTag::Strong, HtmlTag::Em, HtmlTag::Small, HtmlTag::Big, HtmlTag::B, HtmlTag::W, HtmlTag::U, HtmlTag::I, HtmlTag::S, HtmlTag::Br, HtmlTag::Hr, HtmlTag::A, HtmlTag::Abbr, HtmlTag::Audio, HtmlTag::Img, HtmlTag::Table, HtmlTag::Thead, HtmlTag::Tbody, HtmlTag::Tfoot, HtmlTag::Th, HtmlTag::Td, HtmlTag::Tr, HtmlTag::Caption, HtmlTag::Body, HtmlTag::Head, HtmlTag::Title, HtmlTag::Html, HtmlTag::Script, HtmlTag::Style];
    assert(all@ == known_tags());
    assert(all@.skip(0) =~= all@);
    let n = all.len();
    let mut i: usize = 0;
    while i < n
        invariant
            n == all@.len(),
            all@ == known_tags(),
            i <= n,
            tag_in(all@.skip(i as int), lower@) == known_tag(lower@),
        decreases n - i,
    {
        assert(all@.skip(i as int).drop_first() =~= all@.skip(i + 1));
        let name = tag_name_chars(&all[i]);
        let custom = match &all[i] {
            HtmlTag::Custom(_) => true,
            _ => false,
        };
        if same_chars(&name, lower) && !custom {
            let t = all.swap_remove(i);
            return Some(t);
        }
        i += 1;
    }
    None
}

/// A void kind never has children.
pub open spec fn is_void(t: HtmlTag) -> bool {
    t is Br || t is Hr
}

pub fn is_void_element(tag: &HtmlTag) -> (r: bool)
    ensures
        r == is_void(*tag),
{
    match tag {
        HtmlTag::Br | HtmlTag::Hr => true,
        _ => false,
    }
}

#[derive(Debug, Clone, PartialEq, Eq)]
pub enum NodeType {
    Element(HtmlTag),
    Text(String),
}

/// A decimal number, `mantissa / 10^scale`, as a style value writes it.
#[derive(Debug, Clone, Copy, PartialEq, Eq, Structural)]
pub struct Decimal {
    pub mantissa: i64,
    pub scale: u32,
}

#[derive(Debug, Clone, Copy, PartialEq, Eq, Structural)]
pub enum Length {
    Px(Decimal),
    Em(Decimal),
    Rem(Decimal),
    Percent(Decimal),
}

#[derive(Debug, Clone, PartialEq, Eq)]
pub enum Color {
    Rgb(u8, u8, u8),
    Rgba(u8, u8, u8, Decimal),
    Hsl(u8, u8, u8),
    Hsla(u8, u8, u8, Decimal),
    /// The digits after `#`, resolved when the colour is painted.
    Hex(String),
}

#[derive(Debug, Clone, PartialEq, Eq)]
pub enum StyleProperty {
    Keyword(String),
    Length(Length),
    Color(Color),
}

#[derive(Debug, Clone, PartialEq, Eq)]
pub enum Selector {
    Universal,
    Class(String),
    Id(String),
    Type(String),
}

pub enum ColorV {
    Rgb(u8, u8, u8),
    Rgba(u8, u8, u8, Decimal),
    Hsl(u8, u8, u8),
    Hsla(u8, u8, u8, Decimal),
    Hex(Seq<char>),
}

pub enum PropV {
    Keyword(Seq<char>),
    Length(Length),
    Color(ColorV),
}

pub enum SelectorV {
    Universal,
    Class(Seq<char>),
    Id(Seq<char>),
    Type(Seq<char>),
}

impl View for Color {
    type V = ColorV;

    open spec fn view(&self) -> ColorV {
        match *self {
            Color::Rgb(r, g, b) => ColorV::Rgb(r, g, b),
            Color::Rgba(r, g, b, a) => ColorV::Rgba(r, g, b, a),
            Color::Hsl(h, s, l) => ColorV::Hsl(h, s, l),
            Color::Hsla(h, s, l, a) => ColorV::Hsla(h, s, l, a),
            Color::Hex(x) => ColorV::Hex(x@),
        }
    }
}

impl View for StyleProperty {
    type V = PropV;

    open spec fn view(&self) -> PropV {
        match *self {
            StyleProperty::Keyword(k) => PropV::Keyword(k@),
            StyleProperty::Length(l) => PropV::Length(l),
            StyleProperty::Color(c) => PropV::Color(c@),
        }
    }
}

impl View for Selector {
    type V = SelectorV;

    open spec fn view(&self) -> SelectorV {
        match *self {
            Selector::Universal => SelectorV::Universal,
            Selector::Class(n) => SelectorV::Class(n@),
            Selector::Id(n) => SelectorV::Id(n@),
            Selector::Type(n) => SelectorV::Type(n@),
        }
    }
}

impl Color {
    /// A copy equal to `self`.
    pub fn duplicate(&self) -> (r: Color)
        ensures
            r == *self,
    {
        match self {
            Color::Rgb(r, g, b) => Color::Rgb(*r, *g, *b),
            Color::Rgba(r, g, b, a) => Color::Rgba(*r, *g, *b, *a),
            Color::Hsl(h, s, l) => Color::Hsl(*h, *s, *l),
            Color::Hsla(h, s, l, a) => Color::Hsla(*h, *s, *l, *a),
            Color::Hex(x) => Color::Hex(x.clone()),
        }
    }
}

impl StyleProperty {
    /// A copy equal to `self`.
    pub fn duplicate(&self) -> (r: StyleProperty)
        ensures
            r == *self,
    {
        match self {
            StyleProperty::Keyword(k) => StyleProperty::Keyword(k.clone()),
            StyleProperty::Length(l) => StyleProperty::Length(*l),
            StyleProperty::Color(c) => StyleProperty::Color(c.duplicate()),
        }
    }
}

/// A rule: it applies where any one of its selectors matches.
#[derive(Debug)]
pub struct CssRule {
    pub selectors: Vec<Selector>,
    pub properties: StrMap<StyleProperty>,
}

/// A node of the document tree. Only elements have attributes, style or
/// children.
#[derive(Debug)]
pub struct HtmlNode {
    pub node_type: NodeType,
    pub attributes: StrMap<String>,
    pub style: StrMap<StyleProperty>,
    pub children: Vec<HtmlNode>,
}

impl HtmlNode {
    pub fn new_element(tag: HtmlTag, attributes: StrMap<String>, children: Vec<HtmlNode>) -> (r:
        Self)
        ensures
            r.node_type == NodeType::Element(tag),
            r.attributes == attributes,
            r.style@ == Map::<Seq<char>, StyleProperty>::empty(),
            r.children == children,
    {
        HtmlNode { node_type: NodeType::Element(tag), attributes, style: StrMap::new(), children }
    }

    pub fn new_text(text: String) -> (r: Self)
        ensures
            r.node_type == NodeType::Text(text),
            r.attributes@ == Map::<Seq<char>, String>::empty(),
            r.style@ == Map::<Seq<char>, StyleProperty>::empty(),
            r.children@ == Seq::<HtmlNode>::empty(),
    {
        HtmlNode {
            node_type: NodeType::Text(text),
            attributes: StrMap::new(),
            style: StrMap::new(),
            children: Vec::new(),
        }
    }
}

} // verus!
