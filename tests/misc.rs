use minibrowser::html_parser::parse_html;
use minibrowser::layout::{get_next_id, is_void_element, HtmlTag};
use minibrowser::network::check_url;
use minibrowser::paint::{is_inline, parse_hex_color};
use minibrowser::parser::{tag_token, tokenize_html, Token};
use minibrowser::tabs::{document_title, format_duration};

#[test]
fn tokens_are_text_runs_and_lower_case_tags() {
    let tokens = tokenize_html(&"<P class=x>Hi &gt;</P><>tail".to_string());
    assert_eq!(
        tokens,
        vec![
            Token::Tag("p class=x".to_string()),
            Token::Text("Hi &gt;".to_string()),
            Token::Tag("/p".to_string()),
            Token::Text("tail".to_string()),
        ]
    );
    assert_eq!(tokenize_html(&"a > b".to_string()), vec![Token::Text("a > b".to_string())]);
    assert_eq!(tokenize_html(&"x<open".to_string()), vec![Token::Text("x".to_string())]);
}

#[test]
fn only_http_and_https_are_fetched() {
    assert!(check_url("https://example.com/a").is_ok());
    assert!(check_url("HTTP://example.com").is_ok());
    let e = check_url("ftp://example.com").unwrap_err();
    assert_eq!(e.message(), "Unsupported scheme: ftp");
    assert!(check_url("not a url").is_err());
}

#[test]
fn hex_colours_resolve_to_components() {
    assert_eq!(parse_hex_color("#ff8000"), (255, 128, 0, 255));
    assert_eq!(parse_hex_color("abc"), (0xaa, 0xbb, 0xcc, 255));
    assert_eq!(parse_hex_color("#1234"), (0x11, 0x22, 0x33, 0x44));
    assert_eq!(parse_hex_color("7"), (0x77, 0x77, 0x77, 255));
    assert_eq!(parse_hex_color("#12345"), (0x12, 0x34, 0x5f, 0xff));
    assert_eq!(parse_hex_color("##zz"), (255, 255, 255, 255));
    assert_eq!(parse_hex_color("80ff0040"), (0x80, 0xff, 0x00, 0x40));
}

#[test]
fn durations_show_minutes_and_seconds() {
    assert_eq!(format_duration(0), "00:00");
    assert_eq!(format_duration(125), "02:05");
    assert_eq!(format_duration(6000), "100:00");
}

#[test]
fn the_title_comes_from_the_head() {
    let root = parse_html("<html><head><title>  Hello  </title></head><body></body></html>");
    assert_eq!(document_title(&root), Some("Hello".to_string()));
    let none = parse_html("<p>x</p>");
    assert_eq!(document_title(&none), None);
}

#[test]
fn inline_by_kind_or_by_display() {
    let root = parse_html(
        "<html><head><style>.blk { display: block; } .inl { display: inline; }</style></head>\
         <body><b>x</b><div>y</div><b class=\"blk\">z</b><div class=\"inl\">w</div></body></html>",
    );
    let b = &root.children[1];
    assert!(is_inline(&b.children[0]));
    assert!(is_inline(&b.children[0].children[0]));
    assert!(!is_inline(&b.children[1]));
    assert!(!is_inline(&b.children[2]));
    assert!(is_inline(&b.children[3]));
}

#[test]
fn ids_count_up() {
    let mut counter = 1usize;
    assert_eq!(get_next_id(&mut counter), 1);
    assert_eq!(get_next_id(&mut counter), 2);
    assert_eq!(counter, 3);
}

#[test]
fn only_line_breaks_and_rules_are_void() {
    assert!(is_void_element(&HtmlTag::Br));
    assert!(is_void_element(&HtmlTag::Hr));
    assert!(!is_void_element(&HtmlTag::Img));
}

#[test]
fn empty_tag_texts_give_no_token() {
    assert_eq!(tag_token(String::new()), None);
    assert_eq!(tag_token("br".to_string()), Some(Token::Tag("br".to_string())));
    assert_eq!(tokenize_html(&"a<>b< >c".to_string()), vec![
        Token::Text("a".to_string()),
        Token::Text("b".to_string()),
        Token::Text("c".to_string()),
    ]);
}
