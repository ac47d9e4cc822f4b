use minibrowser::css_parser::{parse_css, CssParser};
use minibrowser::layout::{Color, Decimal, Length, Selector, StyleProperty};

fn value(css: &str, prop: &str) -> StyleProperty {
    let rules = parse_css(css);
    rules[0].properties.get(prop).unwrap().clone()
}

fn dec(mantissa: i64, scale: u32) -> Decimal {
    Decimal { mantissa, scale }
}

#[test]
fn rem_is_not_read_as_em() {
    assert_eq!(value("p { margin: 2rem; }", "margin"), StyleProperty::Length(Length::Rem(dec(2, 0))));
    let v = match value("p { margin: 2rem; }", "margin") {
        StyleProperty::Length(Length::Rem(d)) => d.mantissa as f64 / 10f64.powi(d.scale as i32),
        other => panic!("{:?}", other),
    };
    assert_eq!(v, 2.0);
}

#[test]
fn lengths_of_each_unit() {
    assert_eq!(value("p { a: 1.5em; }", "a"), StyleProperty::Length(Length::Em(dec(15, 1))));
    assert_eq!(value("p { a: 10px; }", "a"), StyleProperty::Length(Length::Px(dec(10, 0))));
    assert_eq!(value("p { a: 50%; }", "a"), StyleProperty::Length(Length::Percent(dec(50, 0))));
    assert_eq!(value("p { a: -0.25px; }", "a"), StyleProperty::Length(Length::Px(dec(-25, 2))));
    assert_eq!(value("p { a: xpx; }", "a"), StyleProperty::Keyword("xpx".to_string()));
}

#[test]
fn colours_of_each_form() {
    assert_eq!(value("p { c: #ff0000; }", "c"), StyleProperty::Color(Color::Hex("ff0000".to_string())));
    assert_eq!(value("p { c: rgb(1, 2, 3); }", "c"), StyleProperty::Color(Color::Rgb(1, 2, 3)));
    assert_eq!(value("p { c: rgba(1,2,3,0.5); }", "c"), StyleProperty::Color(Color::Rgba(1, 2, 3, dec(5, 1))));
    assert_eq!(value("p { c: hsl(120, 50%, 25%); }", "c"), StyleProperty::Color(Color::Hsl(120, 50, 25)));
    assert_eq!(value("p { c: hsla(1, 2%, 3%, 1); }", "c"), StyleProperty::Color(Color::Hsla(1, 2, 3, dec(1, 0))));
    assert_eq!(value("p { c: rebeccapurple; }", "c"), StyleProperty::Color(Color::Rgb(102, 51, 153)));
    assert_eq!(value("p { c: rgb(1, 2, 300); }", "c"), StyleProperty::Keyword("rgb(1, 2, 300)".to_string()));
    assert_eq!(value("p { font-weight: bold; }", "font-weight"), StyleProperty::Keyword("bold".to_string()));
}

#[test]
fn selectors_of_each_kind() {
    let rules = parse_css("h1, .c, #i, * { x: y; }");
    assert_eq!(rules.len(), 1);
    assert_eq!(
        rules[0].selectors,
        vec![
            Selector::Type("h1".to_string()),
            Selector::Class("c".to_string()),
            Selector::Id("i".to_string()),
            Selector::Universal
        ]
    );
}

#[test]
fn a_rule_without_closing_brace_ends_the_list() {
    let rules = parse_css("a { color: red; } b { color: blue;");
    assert_eq!(rules.len(), 1);
    assert_eq!(rules[0].selectors, vec![Selector::Type("a".to_string())]);
    assert!(parse_css("no braces here").is_empty());
    assert!(parse_css("").is_empty());
}

#[test]
fn declarations_without_colon_are_dropped_and_later_ones_win() {
    let rules = parse_css("p { color red; margin: 1px; margin: 2px; ; }");
    assert_eq!(rules[0].properties.len(), 1);
    assert_eq!(rules[0].properties.get("margin").unwrap(), &StyleProperty::Length(Length::Px(dec(2, 0))));
}

#[test]
fn parser_reads_rules_in_order() {
    let mut p = CssParser::new("a{x:1px}\n b { y: 2px }");
    let rules = p.parse_rules();
    assert_eq!(rules.len(), 2);
    assert_eq!(rules[1].selectors, vec![Selector::Type("b".to_string())]);
}
