use minibrowser::css_parser::parse_css;
use minibrowser::html_parser::parse_html;
use minibrowser::layout::{Color, HtmlNode, StyleProperty};

fn styled(markup: &str, sheet: &str) -> HtmlNode {
    let mut root = parse_html(markup);
    root.stylize(&parse_css(sheet));
    root
}

#[test]
fn id_beats_class_beats_universal() {
    let root = styled(
        "<p class=\"x\" id=\"y\">t</p>",
        "* { color: red; } .x { color: blue; } #y { color: green; }",
    );
    let p = &root.children[1].children[0];
    assert_eq!(p.style.get("color").unwrap(), &StyleProperty::Color(Color::Rgb(0, 128, 0)));
}

#[test]
fn id_wins_whatever_the_order() {
    let root = styled(
        "<p class=\"x\" id=\"y\">t</p>",
        "#y { color: green; } .x { color: blue; } * { color: red; }",
    );
    let p = &root.children[1].children[0];
    assert_eq!(p.style.get("color").unwrap(), &StyleProperty::Color(Color::Rgb(0, 128, 0)));
}

#[test]
fn later_rule_of_equal_specificity_wins() {
    let root = styled("<p class=\"a\">t</p>", ".a { color: red; } .a { color: blue; }");
    let p = &root.children[1].children[0];
    assert_eq!(p.style.get("color").unwrap(), &StyleProperty::Color(Color::Rgb(0, 0, 255)));
}

#[test]
fn class_beats_type_and_nothing_is_inherited() {
    let root = styled(
        "<html><body><div class=\"x\">A<b>B</b></div></body></html>",
        ".x { color: #ff0000; } div { color: blue; }",
    );
    let div = &root.children[1].children[0];
    assert_eq!(div.style.get("color").unwrap(), &StyleProperty::Color(Color::Hex("ff0000".to_string())));
    let b = &div.children[1];
    assert!(b.style.get("color").is_none());
    assert!(div.children[0].style.get("color").is_none());
}

#[test]
fn resolving_twice_changes_nothing() {
    let rules = parse_css(".x { color: blue; } div { margin: 1px; } * { a: b; }");
    let mut root = parse_html("<div class=\"x y\"><span>s</span><p id=\"q\">t</p></div>");
    root.stylize(&rules);
    let once = format!("{:?}", root);
    root.stylize(&rules);
    assert_eq!(format!("{:?}", root), once);
}

#[test]
fn type_selectors_ignore_case_and_class_lists_split_on_whitespace() {
    let root = styled("<DIV class=\"  one\ttwo \">t</DIV>", "Div { a: 1px; } .two { b: 2px; } .tw { c: 3px; }");
    let div = &root.children[1].children[0];
    assert!(div.style.get("a").is_some());
    assert!(div.style.get("b").is_some());
    assert!(div.style.get("c").is_none());
}

#[test]
fn text_nodes_get_no_style() {
    let root = styled("<p>t</p>", "* { color: red; }");
    let p = &root.children[1].children[0];
    assert!(p.style.get("color").is_some());
    assert_eq!(p.children[0].style.len(), 0);
}
