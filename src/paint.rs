//! What the painter reads from a styled tree: hex colours as components, and
//! which nodes flow inline.
use crate::layout::{HtmlNode, HtmlTag, NodeType, StyleProperty};
use crate::text::{chars_of, trim, trimmed};
use vstd::prelude::*;

verus! {

/// The value of a hexadecimal digit, in either case.
pub open spec fn hex_val(c: char) -> Option<u8> {
    if '0' <= c && c <= '9' {
        Some(((c as u32) - ('0' as u32)) as u8)
    } else if 'a' <= c && c <= 'f' {
        Some(((c as u32) - ('a' as u32) + 10) as u8)
    } else if 'A' <= c && c <= 'F' {
        Some(((c as u32) - ('A' as u32) + 10) as u8)
    } else {
        None
    }
}

fn hex_digit(c: char) -> (r: Option<u8>)
    ensures
        r == hex_val(c),
{
    if '0' <= c && c <= '9' {
        Some((c as u32 - '0' as u32) as u8)
    } else if 'a' <= c && c <= 'f' {
        Some((c as u32 - 'a' as u32 + 10) as u8)
    } else if 'A' <= c && c <= 'F' {
        Some((c as u32 - 'A' as u32 + 10) as u8)
    } else {
        None
    }
}

/// A two-character component as `u8::from_str_radix(.., 16)` reads it
/// (`+` and a digit, or two digits), or 255 where it reads none.
pub open spec fn component(a: char, b: char) -> u8 {
    if a == '+' && hex_val(b) is Some {
        hex_val(b)->0
    } else if hex_val(a) is Some && hex_val(b) is Some {
        (hex_val(a)->0 * 16 + hex_val(b)->0) as u8
    } else {
        255
    }
}

fn parse_component(a: char, b: char) -> (r: u8)
    ensures
        r == component(a, b),
{
    match (hex_digit(a), hex_digit(b)) {
        (_, Some(y)) if a == '+' => y,
        (Some(x), Some(y)) => x * 16 + y,
        _ => 255,
    }
}

/// `s` without the `#` signs at its start.
pub open spec fn strip_hashes(s: Seq<char>) -> Seq<char>
    decreases s.len(),
{
    if s.len() > 0 && s[0] == '#' {
        strip_hashes(s.drop_first())
    } else {
        s
    }
}

/// The hexadecimal digits of `s`, in order.
pub open spec fn hex_digits_of(s: Seq<char>) -> Seq<char> {
    s.filter(|c: char| hex_val(c) is Some)
}

/// `d` cut or padded with `F` to eight digits.
pub open spec fn eight_digits(d: Seq<char>) -> Seq<char> {
    if d.len() >= 8 {
        d.take(8)
    } else {
        d + Seq::new((8 - d.len()) as nat, |i: int| 'F')
    }
}

/// Red, green, blue and alpha of a hex colour: one digit is a grey repeated,
/// two a grey, three or four one digit per component (doubled), six or eight
/// two digits per component; any other length takes its hex digits, padded
/// with `F` to eight. Alpha is 255 where not given.
pub open spec fn hex_rgba(hex: Seq<char>) -> (u8, u8, u8, u8) {
    let h = trim(strip_hashes(hex));
    if h.len() == 1 {
        let v = component(h[0], h[0]);
        (v, v, v, 255)
    } else if h.len() == 2 {
        let v = component(h[0], h[1]);
        (v, v, v, 255)
    } else if h.len() == 3 {
        (component(h[0], h[0]), component(h[1], h[1]), component(h[2], h[2]), 255)
    } else if h.len() == 4 {
        (
            component(h[0], h[0]),
            component(h[1], h[1]),
            component(h[2], h[2]),
            component(h[3], h[3]),
        )
    } else if h.len() == 6 {
        (component(h[0], h[1]), component(h[2], h[3]), component(h[4], h[5]), 255)
    } else if h.len() == 8 {
        (component(h[0], h[1]), component(h[2], h[3]), component(h[4], h[5]), component(h[6], h[7]))
    } else {
        let d = eight_digits(hex_digits_of(h));
        (component(d[0], d[1]), component(d[2], d[3]), component(d[4], d[5]), component(d[6], d[7]))
    }
}

/// The components of the colour that a hex string (with or without `#`)
/// writes.
pub fn parse_hex_color(hex: &str) -> (r: (u8, u8, u8, u8))
    ensures
        r == hex_rgba(hex@),
{
    let s = chars_of(hex);
    let mut a: usize = 0;
    assert(s@.skip(0) =~= s@);
    while a < s.len() && s[a] == '#'
        invariant
            a <= s@.len(),
            strip_hashes(s@.skip(a as int)) == strip_hashes(hex@),
            s@ == hex@,
        decreases s@.len() - a,
    {
        assert(s@.skip(a as int).drop_first() =~= s@.skip(a + 1));
        a += 1;
    }
    let rest = crate::text::sub_vec(&s, a, s.len());
    assert(rest@ =~= s@.skip(a as int));
    let h = trimmed(&rest);
    let n = h.len();
    if n == 1 {
        let v = parse_component(h[0], h[0]);
        (v, v, v, 255)
    } else if n == 2 {
        let v = parse_component(h[0], h[1]);
        (v, v, v, 255)
    } else if n == 3 {
        (parse_component(h[0], h[0]), parse_component(h[1], h[1]), parse_component(h[2], h[2]), 255)
    } else if n == 4 {
        (
            parse_component(h[0], h[0]),
            parse_component(h[1], h[1]),
            parse_component(h[2], h[2]),
            parse_component(h[3], h[3]),
        )
    } else if n == 6 {
        (parse_component(h[0], h[1]), parse_component(h[2], h[3]), parse_component(h[4], h[5]), 255)
    } else if n == 8 {
        (
            parse_component(h[0], h[1]),
            parse_component(h[2], h[3]),
            parse_component(h[4], h[5]),
            parse_component(h[6], h[7]),
        )
    } else {
        let mut d: Vec<char> = Vec::new();
        let mut i: usize = 0;
        while i < n
            invariant
                i <= n == h@.len(),
                d@ == hex_digits_of(h@.take(i as int)),
            decreases n - i,
        {
            let c = h[i];
            proof {
                reveal(Seq::filter);
                assert(h@.take(i + 1).drop_last() =~= h@.take(i as int));
            }
            if hex_digit(c).is_some() {
                d.push(c);
            }
            i += 1;
        }
        assert(h@.take(n as int) =~= h@);
        let ghost digits = d@;
        while d.len() < 8
            invariant
                d@.len() <= 8 ==> d@ == digits + Seq::new((d@.len() - digits.len()) as nat, |i: int| 'F'),
                digits.len() <= d@.len(),
                digits.len() >= 8 ==> d@ == digits,
                digits.len() < 8 ==> d@.len() <= 8,
            decreases 8 - d@.len(),
        {
            let ghost before = d@;
            d.push('F');
            assert(d@ =~= digits + Seq::new((d@.len() - digits.len()) as nat, |i: int| 'F'));
        }
        assert(d@.take(8) == eight_digits(digits)) by {
            if digits.len() >= 8 {
            } else {
                assert(d@ =~= eight_digits(digits));
                assert(d@.take(8) =~= d@);
            }
        }
        (parse_component(d[0], d[1]), parse_component(d[2], d[3]), parse_component(d[4], d[5]), parse_component(d[6], d[7]))
    }
}

pub open spec fn display_key() -> Seq<char> {
    seq!['d', 'i', 's', 'p', 'l', 'a', 'y']
}

/// The kinds that flow inline unless their style says otherwise.
pub open spec fn inline_kind(t: HtmlTag) -> bool {
    t is B || t is I || t is U || t is S || t is W || t is A || t is Br || t is Span || t is Strong
        || t is Em || t is Abbr || t is Small || t is Big || t is Img
}

/// Whether a node flows inline: text does; an element does where its
/// `display` is the keyword `inline`, does not where it is `block`, and
/// otherwise by its kind.
pub open spec fn inline_node(n: HtmlNode) -> bool {
    match n.node_type {
        NodeType::Text(_) => true,
        NodeType::Element(t) => {
            if n.style@.contains_key(display_key()) && n.style@[display_key()] is Keyword
                && n.style@[display_key()]->Keyword_0@ == seq!['b', 'l', 'o', 'c', 'k'] {
                false
            } else if n.style@.contains_key(display_key()) && n.style@[display_key()] is Keyword
                && n.style@[display_key()]->Keyword_0@ == seq!['i', 'n', 'l', 'i', 'n', 'e'] {
                true
            } else {
                inline_kind(t)
            }
        },
    }
}

pub fn is_inline(node: &HtmlNode) -> (r: bool)
    ensures
        r == inline_node(*node),
{
    match &node.node_type {
        NodeType::Text(_) => true,
        NodeType::Element(tag) => {
            proof {
                reveal_strlit("display");
            }
            assert("display"@ =~= display_key());
            if let Some(StyleProperty::Keyword(display)) = node.style.get("display") {
                let d = chars_of(display.as_str());
                if crate::text::same_chars(&d, &['b', 'l', 'o', 'c', 'k']) {
                    return false;
                } else if crate::text::same_chars(&d, &['i', 'n', 'l', 'i', 'n', 'e']) {
                    return true;
                }
            }
            match tag {
                HtmlTag::B | HtmlTag::I | HtmlTag::U | HtmlTag::S | HtmlTag::W | HtmlTag::A
                | HtmlTag::Br | HtmlTag::Span | HtmlTag::Strong | HtmlTag::Em | HtmlTag::Abbr
                | HtmlTag::Small | HtmlTag::Big | HtmlTag::Img => true,
                _ => false,
            }
        },
    }
}

} // verus!
