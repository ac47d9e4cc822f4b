use minibrowser::html_parser::{cleanup_tree, parse_html};
use minibrowser::strmap::StrMap;
use minibrowser::layout::{HtmlNode, HtmlTag, NodeType, StyleProperty};
use minibrowser::markup::MAX_DEPTH;

fn text_of(n: &HtmlNode) -> String {
    match &n.node_type {
        NodeType::Text(t) => t.clone(),
        NodeType::Element(_) => panic!("not a text node"),
    }
}

fn body(root: &HtmlNode) -> &HtmlNode {
    &root.children[1]
}

fn assert_document(root: &HtmlNode) {
    assert_eq!(root.node_type, NodeType::Element(HtmlTag::Html));
    assert_eq!(root.children.len(), 2);
    assert_eq!(root.children[0].node_type, NodeType::Element(HtmlTag::Head));
    assert_eq!(root.children[1].node_type, NodeType::Element(HtmlTag::Body));
}

fn void_elements_are_empty(n: &HtmlNode) -> bool {
    let void = matches!(n.node_type, NodeType::Element(HtmlTag::Br) | NodeType::Element(HtmlTag::Hr));
    (!void || n.children.is_empty()) && n.children.iter().all(void_elements_are_empty)
}

#[test]
fn bare_paragraph_is_wrapped_in_html_head_body() {
    let root = parse_html("<p>hi</p>");
    assert_document(&root);
    assert!(root.children[0].children.is_empty());
    let b = body(&root);
    assert_eq!(b.children.len(), 1);
    assert_eq!(b.children[0].node_type, NodeType::Element(HtmlTag::P));
    assert_eq!(b.children[0].children.len(), 1);
    assert_eq!(text_of(&b.children[0].children[0]), "hi");
}

#[test]
fn entities_decode_to_literal_text() {
    let root = parse_html("<p>&lt;b&gt;</p>");
    let p = &body(&root).children[0];
    assert_eq!(p.children.len(), 1);
    assert_eq!(text_of(&p.children[0]), "<b>");
}

#[test]
fn entities_decode_in_one_pass() {
    let root = parse_html("<p>&amp;lt; &quot;x&quot; &apos;y&apos;</p>");
    let p = &body(&root).children[0];
    assert_eq!(text_of(&p.children[0]), "&lt; \"x\" 'y'");
}

#[test]
fn line_break_never_has_children() {
    let root = parse_html("<div><br>content</br></div>");
    assert!(void_elements_are_empty(&root));
    let div = &body(&root).children[0];
    assert_eq!(div.children[0].node_type, NodeType::Element(HtmlTag::Br));
    assert!(div.children[0].children.is_empty());
    assert_eq!(text_of(&div.children[1]), "content");
}

#[test]
fn parsing_twice_gives_equal_trees() {
    let input = "<html><head><title>T</title></head><body><div class=\"a b\">x<i>y</i></div><!-- c --></body></html>";
    let a = parse_html(input);
    let b = parse_html(input);
    assert_eq!(format!("{:?}", a), format!("{:?}", b));
}

#[test]
fn malformed_inputs_terminate_with_a_document() {
    let cases = [
        "<<<>>>",
        "<a href=\"x>",
        "<a href='x",
        "</p></div>",
        "<!--",
        "<!doctype",
        "<div><span></div></span>",
        "< / >",
        "<a b c=d e= f=\"g\"h>",
        "\u{0}\u{1}<\u{7f}>\u{ffff}",
        "<script>if (a<b) {",
        "<p/><br/><hr>",
    ];
    for c in cases.iter() {
        let root = parse_html(c);
        assert_document(&root);
        assert!(void_elements_are_empty(&root));
    }
}

#[test]
fn every_short_string_of_markup_characters_parses() {
    let alphabet: Vec<char> = "<>/!-=\"' ab&;".chars().collect();
    let mut count = 0usize;
    let mut stack: Vec<String> = vec![String::new()];
    while let Some(s) = stack.pop() {
        let root = parse_html(&s);
        assert_document(&root);
        assert!(void_elements_are_empty(&root));
        count += 1;
        if s.chars().count() < 4 {
            for c in alphabet.iter() {
                let mut t = s.clone();
                t.push(*c);
                stack.push(t);
            }
        }
    }
    assert!(count > 1000);
}

#[test]
fn doctype_and_comments_are_dropped() {
    let root = parse_html("<!DOCTYPE html><!-- a --><html><body><!-- b --><p>x</p></body></html>");
    assert_document(&root);
    let b = body(&root);
    assert_eq!(b.children.len(), 1);
    assert_eq!(b.children[0].node_type, NodeType::Element(HtmlTag::P));
}

#[test]
fn lower_case_doctype_is_dropped() {
    let root = parse_html("<!DocType html><p>x</p>");
    assert_eq!(body(&root).children.len(), 1);
}

#[test]
fn attributes_are_lower_cased_and_decoded() {
    let root = parse_html("<a HREF=\"/x?a=1&amp;b=2\" Title='t' hidden data-k=v>x</a>");
    let a = &body(&root).children[0];
    assert_eq!(a.node_type, NodeType::Element(HtmlTag::A));
    assert_eq!(a.attributes.get("href").unwrap(), "/x?a=1&b=2");
    assert_eq!(a.attributes.get("title").unwrap(), "t");
    assert_eq!(a.attributes.get("hidden").unwrap(), "");
    assert_eq!(a.attributes.get("data-k").unwrap(), "v");
    assert!(a.attributes.get("HREF").is_none());
}

#[test]
fn script_content_is_raw_text() {
    let root = parse_html("<body><script>if (a < b && c > d) { x = '<p>'; }</SCRIPT><p>after</p></body>");
    let b = body(&root);
    assert_eq!(b.children[0].node_type, NodeType::Element(HtmlTag::Script));
    assert_eq!(text_of(&b.children[0].children[0]), "if (a < b && c > d) { x = '<p>'; }");
    assert_eq!(b.children[1].node_type, NodeType::Element(HtmlTag::P));
}

#[test]
fn mismatched_closing_tag_closes_the_element() {
    let root = parse_html("<div><span>a</div><p>b</p>");
    let b = body(&root);
    assert_eq!(b.children.len(), 2);
    let div = &b.children[0];
    assert_eq!(div.children[0].node_type, NodeType::Element(HtmlTag::Span));
    assert_eq!(text_of(&div.children[0].children[0]), "a");
    assert_eq!(b.children[1].node_type, NodeType::Element(HtmlTag::P));
}

#[test]
fn stray_closing_tag_at_top_level_is_skipped() {
    let root = parse_html("</x><p>y</p>");
    let b = body(&root);
    assert_eq!(b.children.len(), 1);
    assert_eq!(b.children[0].node_type, NodeType::Element(HtmlTag::P));
}

#[test]
fn tag_names_match_in_any_case() {
    let root = parse_html("<DIV><Span>x</SPAN></div>");
    let div = &body(&root).children[0];
    assert_eq!(div.node_type, NodeType::Element(HtmlTag::Div));
    assert_eq!(div.children[0].node_type, NodeType::Element(HtmlTag::Span));
}

#[test]
fn unknown_tags_keep_their_name() {
    let root = parse_html("<my_widget>x</my_widget><table><tr><td>1</td></tr></table>");
    let b = body(&root);
    assert_eq!(b.children[0].node_type, NodeType::Element(HtmlTag::Custom("my_widget".to_string())));
    assert_eq!(b.children[1].node_type, NodeType::Element(HtmlTag::Table));
}

#[test]
fn head_and_body_keep_their_order_and_loose_content_moves_to_body() {
    let root = parse_html("<html><p>loose</p><body><p>own</p></body><head><title>T</title></head></html>");
    assert_document(&root);
    let head = &root.children[0];
    assert_eq!(head.children[0].node_type, NodeType::Element(HtmlTag::Title));
    let b = body(&root);
    assert_eq!(b.children.len(), 2);
    assert_eq!(text_of(&b.children[0].children[0]), "loose");
    assert_eq!(text_of(&b.children[1].children[0]), "own");
}

#[test]
fn empty_input_gives_an_empty_document() {
    let root = parse_html("");
    assert_document(&root);
    assert!(root.children[0].children.is_empty());
    assert!(root.children[1].children.is_empty());
}

#[test]
fn style_elements_are_removed_and_applied() {
    let root = parse_html("<html><head><style>p { color: red; }</style></head><body><p>x</p></body></html>");
    assert!(root.children[0].children.is_empty());
    let p = &body(&root).children[0];
    assert!(p.style.get("color").is_some());
}

#[test]
fn cleanup_wraps_a_bare_element() {
    let p = HtmlNode::new_element(HtmlTag::P, StrMap::new(), vec![HtmlNode::new_text("x".to_string())]);
    let root = cleanup_tree(p);
    assert_document(&root);
    let b = body(&root);
    assert_eq!(b.children.len(), 1);
    assert_eq!(b.children[0].node_type, NodeType::Element(HtmlTag::P));
    assert_eq!(text_of(&b.children[0].children[0]), "x");
}

#[test]
fn style_sheets_of_several_elements_are_read_as_one() {
    let root = parse_html(
        "<html><style>p { color: red; }</style><head><style>.a { margin: 1px; }</style></head>\
         <body><style>#b { margin: 2px; }</style><p class=\"a\" id=\"b\">x</p></body></html>",
    );
    assert!(root.children[0].children.is_empty());
    let p = &body(&root).children[0];
    assert!(p.style.get("color").is_some());
    assert_eq!(format!("{:?}", p.style.get("margin").unwrap()), "Length(Px(Decimal { mantissa: 2, scale: 0 }))");
}

#[test]
fn custom_body_is_taken_as_the_body() {
    let p = HtmlNode::new_element(HtmlTag::P, StrMap::new(), vec![]);
    let custom = HtmlNode::new_element(HtmlTag::Custom("BODY".to_string()), StrMap::new(), vec![p]);
    let root = cleanup_tree(HtmlNode::new_element(HtmlTag::Html, StrMap::new(), vec![custom]));
    assert_document(&root);
    assert!(root.children[0].children.is_empty());
    let b = body(&root);
    assert_eq!(b.children.len(), 1);
    assert_eq!(b.children[0].node_type, NodeType::Element(HtmlTag::P));
}

#[test]
fn custom_html_root_is_kept_as_the_root() {
    let mut attrs = StrMap::new();
    attrs.insert("lang".to_string(), "en".to_string());
    let custom = HtmlNode::new_element(HtmlTag::Custom("Html".to_string()), attrs, vec![]);
    let root = cleanup_tree(custom);
    assert_document(&root);
    assert_eq!(root.attributes.get("lang").unwrap(), "en");
    assert!(root.children[1].children.is_empty());
}

#[test]
fn without_style_text_style_maps_are_kept() {
    let mut root = HtmlNode::new_element(HtmlTag::Html, StrMap::new(), vec![]);
    root.style.insert("color".to_string(), StyleProperty::Keyword("red".to_string()));
    let root = cleanup_tree(root);
    assert_eq!(root.style.get("color").unwrap(), &StyleProperty::Keyword("red".to_string()));
    assert_eq!(root.children[0].style.len(), 0);
    assert_eq!(root.children[1].style.len(), 0);
}

fn text_nodes_unstyled(n: &HtmlNode) -> bool {
    let own = match n.node_type {
        NodeType::Text(_) => n.style.len() == 0,
        NodeType::Element(_) => true,
    };
    own && n.children.iter().all(text_nodes_unstyled)
}

#[test]
fn text_nodes_carry_no_style() {
    let root = parse_html("<html><head><style>* { color: red; }</style></head><body><p>a<b>b</b></p></body></html>");
    assert!(text_nodes_unstyled(&root));
    let p = &body(&root).children[0];
    assert!(p.style.get("color").is_some());
}

fn depth(n: &HtmlNode) -> usize {
    1 + n.children.iter().map(depth).max().unwrap_or(0)
}

#[test]
fn deep_nesting_is_flattened() {
    let n = 5000;
    let input = format!("{}x{}", "<div>".repeat(n), "</div>".repeat(n));
    let root = parse_html(&input);
    assert_document(&root);
    assert!(depth(&root) <= MAX_DEPTH + 4);
}
