use browser_engine::css;
use browser_engine::css::CssError;
use browser_engine::css::Selector;
use browser_engine::css::Unit;
use browser_engine::css::Value;
use browser_engine::dom::NodeType;
use browser_engine::html;
use browser_engine::html::ParseError;
use browser_engine::str_eq;

fn html_err(r: Result<browser_engine::dom::Node, ParseError>) -> ParseError {
    match r {
        Err(e) => e,
        Ok(_) => panic!("expected a parse error"),
    }
}

fn css_err(r: Result<browser_engine::css::StyleSheet, CssError>) -> CssError {
    match r {
        Err(e) => e,
        Ok(_) => panic!("expected a parse error"),
    }
}

#[test]
fn str_eq_basic() {
    assert!(str_eq("abc", "abc"));
    assert!(!str_eq("abc", "abd"));
    assert!(!str_eq("abc", "ab"));
    assert!(str_eq("", ""));
}

#[test]
fn html_single_element() {
    let doc = html::parse("<div></div>".to_string()).unwrap();
    match &doc.node_type {
        NodeType::Element(e) => assert_eq!(e.tag_name, "div"),
        NodeType::Text(_) => panic!("expected an element"),
    }
    assert!(doc.children.is_empty());
}

#[test]
fn html_nested_elements_and_text() {
    let doc = html::parse("<div><p>hello</p></div>".to_string()).unwrap();
    assert_eq!(doc.children.len(), 1);
    let p = &doc.children[0];
    match &p.node_type {
        NodeType::Element(e) => assert_eq!(e.tag_name, "p"),
        NodeType::Text(_) => panic!("expected an element"),
    }
    match &p.children[0].node_type {
        NodeType::Text(t) => assert_eq!(t, "hello"),
        NodeType::Element(_) => panic!("expected text"),
    }
}

#[test]
fn html_attributes() {
    let doc = html::parse("<div id=\"main\" class='a b'></div>".to_string()).unwrap();
    match &doc.node_type {
        NodeType::Element(e) => {
            assert_eq!(e.id().unwrap(), "main");
            let classes = e.classes();
            assert_eq!(classes, vec!["a".to_string(), "b".to_string()]);
        },
        NodeType::Text(_) => panic!("expected an element"),
    }
}

#[test]
fn html_multiple_roots_are_wrapped() {
    let doc = html::parse("<a></a><b></b>".to_string()).unwrap();
    match &doc.node_type {
        NodeType::Element(e) => assert_eq!(e.tag_name, "html"),
        NodeType::Text(_) => panic!("expected an element"),
    }
    assert_eq!(doc.children.len(), 2);
}

#[test]
fn html_missing_equals_is_an_error() {
    let r = html::parse("<div id\"main\"></div>".to_string());
    assert_eq!(html_err(r), ParseError::Expected('='));
}

#[test]
fn html_bad_quote_is_an_error() {
    let r = html::parse("<div id=main></div>".to_string());
    assert_eq!(html_err(r), ParseError::BadQuote);
}

#[test]
fn html_mismatched_close_tag_is_an_error() {
    let r = html::parse("<div></span>".to_string());
    assert_eq!(html_err(r), ParseError::MismatchedCloseTag);
}

#[test]
fn html_unexpected_end_is_an_error() {
    let r = html::parse("<div>".to_string());
    assert_eq!(html_err(r), ParseError::UnexpectedEnd);
}

#[test]
fn css_rule_with_declarations() {
    let sheet = css::parse("div { width: 120px; color: #ff0080; display: block; }".to_string())
        .unwrap();
    assert_eq!(sheet.rules.len(), 1);
    let rule = &sheet.rules[0];
    assert_eq!(rule.selectors.len(), 1);
    let Selector::Simple(sel) = &rule.selectors[0];
    assert_eq!(sel.tag_name.as_deref(), Some("div"));
    assert_eq!(rule.declarations.len(), 3);
    assert_eq!(rule.declarations[0].name, "width");
    assert!(matches!(rule.declarations[0].value, Value::Length(120, Unit::Px)));
    match &rule.declarations[1].value {
        Value::ColorValue(c) => {
            assert_eq!((c.r, c.g, c.b, c.a), (0xff, 0x00, 0x80, 255));
        },
        _ => panic!("expected a color"),
    }
    match &rule.declarations[2].value {
        Value::Keyword(k) => assert_eq!(k, "block"),
        _ => panic!("expected a keyword"),
    }
}

#[test]
fn css_selector_forms() {
    let sheet = css::parse("div.note#main, .wide { width: 1px; }".to_string()).unwrap();
    let rule = &sheet.rules[0];
    assert_eq!(rule.selectors.len(), 2);
    let Selector::Simple(first) = &rule.selectors[0];
    assert_eq!(first.tag_name.as_deref(), Some("div"));
    assert_eq!(first.id.as_deref(), Some("main"));
    assert_eq!(first.class, vec!["note".to_string()]);
    let Selector::Simple(second) = &rule.selectors[1];
    assert_eq!(second.tag_name, None);
    assert_eq!(second.class, vec!["wide".to_string()]);
    // selectors keep their source order
    assert_eq!(rule.selectors[0].specificity(), (1, 1, 1));
    assert_eq!(rule.selectors[1].specificity(), (0, 1, 0));
}

#[test]
fn css_universal_selector() {
    let sheet = css::parse("* { display: block; }".to_string()).unwrap();
    let Selector::Simple(sel) = &sheet.rules[0].selectors[0];
    assert_eq!(sel.tag_name, None);
    assert_eq!(sel.id, None);
    assert!(sel.class.is_empty());
}

#[test]
fn css_fractional_lengths_truncate_to_whole_pixels() {
    let sheet = css::parse("div { width: 12.75px; }".to_string()).unwrap();
    assert!(matches!(sheet.rules[0].declarations[0].value, Value::Length(12, Unit::Px)));
}

#[test]
fn css_unit_is_case_insensitive() {
    let sheet = css::parse("div { width: 5PX; }".to_string()).unwrap();
    assert!(matches!(sheet.rules[0].declarations[0].value, Value::Length(5, Unit::Px)));
}

#[test]
fn css_unknown_unit_is_an_error() {
    let r = css::parse("div { width: 5em; }".to_string());
    assert_eq!(css_err(r), CssError::UnknownUnit);
}

#[test]
fn css_missing_colon_is_an_error() {
    let r = css::parse("div { width 5px; }".to_string());
    assert_eq!(css_err(r), CssError::Expected(':'));
}

#[test]
fn css_missing_semicolon_is_an_error() {
    let r = css::parse("div { width: 5px }".to_string());
    assert_eq!(css_err(r), CssError::Expected(';'));
}

#[test]
fn css_unclosed_block_is_an_error() {
    let r = css::parse("div { width: 5px;".to_string());
    assert_eq!(css_err(r), CssError::UnexpectedEnd);
}

#[test]
fn css_bad_hex_is_an_error() {
    let r = css::parse("div { color: #zz0000; }".to_string());
    assert_eq!(css_err(r), CssError::BadHexDigit);
}

#[test]
fn css_missing_open_brace_is_an_error() {
    let r = css::parse("div ! { width: 5px; }".to_string());
    assert_eq!(css_err(r), CssError::Expected('{'));
}

#[test]
fn css_number_requires_a_digit() {
    let mut p = css::Parser::new("px");
    match p.parse_number() {
        Err(e) => assert_eq!(e, CssError::ExpectedNumber),
        Ok(_) => panic!("expected an error"),
    }
}

#[test]
fn css_number_saturating_digits() {
    let mut p = css::Parser::new("99999999999999999999999999999999");
    assert_eq!(p.parse_number().unwrap(), i64::MAX);
}

#[test]
fn html_close_tag_needs_terminator() {
    let r = html::parse("<div></div >".to_string());
    assert_eq!(html_err(r), ParseError::Expected('>'));
}

#[test]
fn css_empty_stylesheet() {
    let sheet = css::parse("   \n  ".to_string()).unwrap();
    assert!(sheet.rules.is_empty());
}

#[test]
fn end_to_end_pipeline() {
    let doc = html::parse(
        "<root><a></a><b>text</b></root>".to_string(),
    )
    .unwrap();
    let sheet = css::parse(
        "root { display: block; } a { display: block; height: 50px; } b { display: block; height: 30px; }"
            .to_string(),
    )
    .unwrap();
    let styled = browser_engine::style::style_tree(&doc, &sheet);
    let laid = browser_engine::layout::layout_tree(
        &styled,
        browser_engine::layout::Dimensions {
            content: browser_engine::layout::Rect { x: 0, y: 0, width: 800, height: 600 },
            padding: Default::default(),
            border: Default::default(),
            margin: Default::default(),
        },
    )
    .unwrap();
    assert_eq!(laid.dimensions.content.height, 80);
    assert_eq!(laid.children[1].dimensions.content.y, 50);
}
