//! A tab's title as it is shown: the document's `<title>` where it has one.
use crate::layout::{HtmlNode, HtmlTag, NodeType};
use crate::text::{chars_of, string_from, trim, trimmed};
use vstd::prelude::*;

verus! {

/// The title that a head child gives: a title element whose first child is
/// text that is not blank, trimmed.
pub open spec fn title_of(n: HtmlNode) -> Option<Seq<char>> {
    if n.node_type == NodeType::Element(HtmlTag::Title) && n.children@.len() > 0
        && n.children@[0].node_type is Text && trim(n.children@[0].node_type->Text_0@).len() > 0 {
        Some(trim(n.children@[0].node_type->Text_0@))
    } else {
        None
    }
}

/// The first title among `nodes`.
pub open spec fn first_title(nodes: Seq<HtmlNode>) -> Option<Seq<char>>
    decreases nodes.len(),
{
    if nodes.len() == 0 {
        None
    } else if title_of(nodes[0]) is Some {
        title_of(nodes[0])
    } else {
        first_title(nodes.drop_first())
    }
}

/// The title of a document: the first title in its head, the head being the
/// root's first child.
pub open spec fn title_spec(root: HtmlNode) -> Option<Seq<char>> {
    if root.children@.len() > 0 && root.children@[0].node_type == NodeType::Element(HtmlTag::Head) {
        first_title(root.children@[0].children@)
    } else {
        None
    }
}

fn node_title(n: &HtmlNode) -> (r: Option<Vec<char>>)
    ensures
        match title_of(*n) {
            Some(t) => r is Some && r->0@ == t,
            None => r is None,
        },
{
    if let NodeType::Element(HtmlTag::Title) = &n.node_type {
        if n.children.len() > 0 {
            if let NodeType::Text(text) = &n.children[0].node_type {
                let t = trimmed(&chars_of(text.as_str()));
                if t.len() > 0 {
                    return Some(t);
                }
            }
        }
    }
    None
}

pub fn document_title(root: &HtmlNode) -> (r: Option<String>)
    ensures
        match title_spec(*root) {
            Some(t) => r is Some && r->0@ == t,
            None => r is None,
        },
{
    if root.children.len() == 0 {
        return None;
    }
    let head = &root.children[0];
    if let NodeType::Element(HtmlTag::Head) = &head.node_type {
        let mut i: usize = 0;
        assert(head.children@.skip(0) =~= head.children@);
        while i < head.children.len()
            invariant
                i <= head.children@.len(),
                first_title(head.children@.skip(i as int)) == first_title(head.children@),
                *head == root.children@[0],
                root.children@.len() > 0,
                head.node_type == NodeType::Element(HtmlTag::Head),
            decreases head.children@.len() - i,
        {
            assert(head.children@.skip(i as int).drop_first() =~= head.children@.skip(i + 1));
            assert(head.children@.skip(i as int)[0] == head.children@[i as int]);
            if let Some(t) = node_title(&head.children[i]) {
                return Some(string_from(&t));
            }
            i += 1;
        }
        None
    } else {
        None
    }
}

/// The decimal digits of `n`, at least two (a leading zero pads one).
pub open spec fn digits_of(n: nat) -> Seq<char>
    decreases n,
{
    if n < 10 {
        seq![((48 + n) as u8) as char]
    } else {
        digits_of(n / 10).push(((48 + n % 10) as u8) as char)
    }
}

pub open spec fn two_digits(n: nat) -> Seq<char> {
    if n < 10 {
        seq!['0'] + digits_of(n)
    } else {
        digits_of(n)
    }
}

fn push_digits(out: &mut Vec<char>, n: u64)
    ensures
        final(out)@ == old(out)@ + digits_of(n as nat),
    decreases n,
{
    if n >= 10 {
        push_digits(out, n / 10);
    }
    out.push((48u8 + (n % 10) as u8) as char);
}

/// A playing time as minutes and seconds, `MM:SS`, each part at least two
/// digits.
pub fn format_duration(secs: u64) -> (r: String)
    ensures
        r@ == two_digits((secs / 60) as nat) + seq![':'] + two_digits((secs % 60) as nat),
{
    let mut out: Vec<char> = Vec::new();
    let minutes = secs / 60;
    let seconds = secs % 60;
    if minutes < 10 {
        out.push('0');
    }
    push_digits(&mut out, minutes);
    out.push(':');
    if seconds < 10 {
        out.push('0');
    }
    push_digits(&mut out, seconds);
    string_from(&out)
}

} // verus!
