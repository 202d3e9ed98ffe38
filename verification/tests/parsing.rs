use layoutlib::css::{Color, Declaration, Rule, Selector, SimpleSelector, Unit, Value};
use layoutlib::dom::{AttrMap, Node};
use layoutlib::parser::{parse_css, parse_html, CharTest, ParseError, Parser};

fn parser_on(text: &str) -> Parser {
    Parser { pos: 0, input: text.chars().collect() }
}

#[test]
fn test_parse_text() {
    let mut parser = parser_on("Hello, world!");
    let node = parser.parse_node().unwrap();
    assert_eq!(node, Node::text("Hello, world!".to_string()));
}

#[test]
fn test_parse_comment() {
    let mut parser = parser_on("<!-- This is a comment -->");
    let node = parser.parse_node().unwrap();
    assert_eq!(node, Node::comment(" This is a comment ".to_string()));
}

#[test]
fn test_parse_element() {
    let mut parser = parser_on("<p>Hello, <b>world</b></p>");
    let node = parser.parse_node().unwrap();
    assert_eq!(
        node,
        Node::elem(
            "p".to_string(),
            AttrMap::new(),
            vec![
                Node::text("Hello, ".to_string()),
                Node::elem(
                    "b".to_string(),
                    AttrMap::new(),
                    vec![Node::text("world".to_string())],
                ),
            ]
        )
    );
}

#[test]
fn test_parse_element_attributes() {
    let mut parser = parser_on("<p id=\"test\">Hello, <b id=\"test\">world</b></p>");
    let node = parser.parse_node().unwrap();
    let mut attributes = AttrMap::new();
    attributes.insert("id".to_string(), "test".to_string());
    let mut attributes2 = AttrMap::new();
    attributes2.insert("id".to_string(), "test".to_string());
    assert_eq!(
        node,
        Node::elem(
            "p".to_string(),
            attributes,
            vec![
                Node::text("Hello, ".to_string()),
                Node::elem(
                    "b".to_string(),
                    attributes2,
                    vec![Node::text("world".to_string())],
                ),
            ]
        )
    );
}

#[test]
fn test_parse_complex_element() {
    let mut parser = parser_on(
        "<p id=\"test\">Hello, <!-- This is a comment --><b id=\"test\">world</b></p>",
    );
    let node = parser.parse_node().unwrap();
    let mut attributes = AttrMap::new();
    attributes.insert("id".to_string(), "test".to_string());
    let mut attributes2 = AttrMap::new();
    attributes2.insert("id".to_string(), "test".to_string());
    assert_eq!(
        node,
        Node::elem(
            "p".to_string(),
            attributes,
            vec![
                Node::text("Hello, ".to_string()),
                Node::comment(" This is a comment ".to_string()),
                Node::elem(
                    "b".to_string(),
                    attributes2,
                    vec![Node::text("world".to_string())],
                ),
            ]
        )
    );
}

#[test]
fn test_parse_css() {
    let mut parser = parser_on("p { color: #ff0000; }");
    let rule = parser.parse_rules().unwrap();
    assert_eq!(
        rule,
        vec![Rule {
            selectors: vec![Selector::Simple(SimpleSelector {
                tag_name: Some("p".to_string()),
                id: None,
                class: vec![],
            })],
            declarations: vec![Declaration {
                name: "color".to_string(),
                value: Value::Color(Color { red: 255, green: 0, blue: 0, alpha: 255 })
            }]
        }]
    );
}

#[test]
fn test_parse_css_length() {
    let sheet = parse_css("div { width: 800px; margin-left: 50px; }".to_string()).unwrap();
    assert_eq!(sheet.rules.len(), 1);
    assert_eq!(
        sheet.rules[0].declarations,
        vec![
            Declaration { name: "width".to_string(), value: Value::Length(800, Unit::Px) },
            Declaration { name: "margin-left".to_string(), value: Value::Length(50, Unit::Px) },
        ]
    );
}

#[test]
fn test_parse_css_sorts_selectors_by_specificity() {
    let sheet = parse_css("div, #nav, .item { width: 1px; }".to_string()).unwrap();
    let specs: Vec<(usize, usize, usize)> =
        sheet.rules[0].selectors.iter().map(|s| s.specificity()).collect();
    assert_eq!(specs, vec![(1, 0, 0), (0, 1, 0), (0, 0, 1)]);
}

#[test]
fn test_parse_html_wraps_many_roots() {
    let node = parse_html("<p></p><div></div>".to_string()).unwrap();
    assert_eq!(
        node,
        Node::elem(
            "html".to_string(),
            AttrMap::new(),
            vec![
                Node::elem("p".to_string(), AttrMap::new(), vec![]),
                Node::elem("div".to_string(), AttrMap::new(), vec![]),
            ]
        )
    );
}

#[test]
fn test_parse_unterminated_comment_is_rejected() {
    let r = parse_html("<!-- never closed".to_string());
    assert_eq!(r, Err(ParseError::UnexpectedEnd));
}

#[test]
fn test_parse_css_unexpected_end() {
    assert_eq!(parse_css("p {".to_string()), Err(ParseError::UnexpectedEnd));
}

#[test]
fn test_parse_css_unrecognized_unit() {
    assert_eq!(
        parse_css("p { width: 10em; }".to_string()),
        Err(ParseError::UnrecognizedUnit)
    );
}

#[test]
fn test_parse_css_fractional_length_rejected() {
    assert_eq!(
        parse_css("p { width: 10.5px; }".to_string()),
        Err(ParseError::MalformedNumber)
    );
}

#[test]
fn test_parse_css_unexpected_char() {
    assert_eq!(parse_css("p @ { }".to_string()), Err(ParseError::UnexpectedChar));
}

#[test]
fn test_consume_while_returns_consumed_run() {
    let mut parser = parser_on("abc-def!rest");
    let run = parser.consume_while(CharTest::Identifier);
    assert_eq!(run, "abc-def".to_string());
    assert_eq!(parser.pos, 7);
    assert_eq!(parser.next_char(), '!');
}

#[test]
fn test_parse_hex_pair_values() {
    let mut parser = parser_on("ff00a0");
    assert_eq!(parser.parse_hex_pair(), Ok(255));
    assert_eq!(parser.parse_hex_pair(), Ok(0));
    assert_eq!(parser.parse_hex_pair(), Ok(160));
}
