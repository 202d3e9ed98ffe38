use layoutlib::css::{Declaration, Rule, Selector, SimpleSelector, Stylesheet, Unit, Value};
use layoutlib::dom::{AttrMap, ElementData, Node};
use layoutlib::layout::Display;
use layoutlib::style::{match_rule, specified_values, style_tree};

fn tag_selector(tag: &str) -> Selector {
    Selector::Simple(SimpleSelector { tag_name: Some(tag.to_string()), id: None, class: vec![] })
}

fn decl(name: &str, value: Value) -> Declaration {
    Declaration { name: name.to_string(), value }
}

#[test]
fn test_match_rule() {
    let elem = ElementData {
        tag_name: "div".to_string(),
        attributes: AttrMap::new(),
    };

    let rule = Rule {
        selectors: vec![Selector::Simple(SimpleSelector {
            tag_name: Some("div".to_string()),
            id: None,
            class: vec![],
        })],
        declarations: vec![],
    };

    assert!(match_rule(&elem, &rule).is_some());
}

#[test]
fn test_match_rule_no_match() {
    let elem = ElementData {
        tag_name: "div".to_string(),
        attributes: AttrMap::new(),
    };

    let rule = Rule {
        selectors: vec![Selector::Simple(SimpleSelector {
            tag_name: Some("span".to_string()),
            id: None,
            class: vec![],
        })],
        declarations: vec![],
    };

    assert!(match_rule(&elem, &rule).is_none());
}

#[test]
fn test_match_rule_id_match() {
    let mut attributes = AttrMap::new();
    attributes.insert("id".to_string(), "foo".to_string());
    let elem = ElementData {
        tag_name: "div".to_string(),
        attributes: attributes,
    };

    let rule = Rule {
        selectors: vec![Selector::Simple(SimpleSelector {
            tag_name: Some("div".to_string()),
            id: Some("foo".to_string()),
            class: vec![],
        })],
        declarations: vec![],
    };

    assert!(match_rule(&elem, &rule).is_some());
}

#[test]
fn test_match_rule_requires_all_classes() {
    let mut attributes = AttrMap::new();
    attributes.insert("class".to_string(), "note wide".to_string());
    let elem = ElementData { tag_name: "p".to_string(), attributes };
    let matching = Rule {
        selectors: vec![Selector::Simple(SimpleSelector {
            tag_name: None,
            id: None,
            class: vec!["note".to_string(), "wide".to_string()],
        })],
        declarations: vec![],
    };
    let failing = Rule {
        selectors: vec![Selector::Simple(SimpleSelector {
            tag_name: None,
            id: None,
            class: vec!["note".to_string(), "tall".to_string()],
        })],
        declarations: vec![],
    };
    assert!(match_rule(&elem, &matching).is_some());
    assert!(match_rule(&elem, &failing).is_none());
}

#[test]
fn test_specificity_ordering_example() {
    // #x ranks above .y, which ranks above a bare tag.
    let id_sel = Selector::Simple(SimpleSelector {
        tag_name: None,
        id: Some("x".to_string()),
        class: vec![],
    });
    let class_sel = Selector::Simple(SimpleSelector {
        tag_name: None,
        id: None,
        class: vec!["y".to_string()],
    });
    let tag_sel = tag_selector("div");
    assert_eq!(id_sel.specificity(), (1, 0, 0));
    assert_eq!(class_sel.specificity(), (0, 1, 0));
    assert_eq!(tag_sel.specificity(), (0, 0, 1));
    assert!(id_sel.specificity() > class_sel.specificity());
    assert!(class_sel.specificity() > tag_sel.specificity());
}

#[test]
fn test_cascade_higher_specificity_wins() {
    let mut attributes = AttrMap::new();
    attributes.insert("id".to_string(), "a".to_string());
    let elem = ElementData { tag_name: "p".to_string(), attributes };
    let sheet = Stylesheet {
        rules: vec![
            Rule {
                selectors: vec![Selector::Simple(SimpleSelector {
                    tag_name: None,
                    id: Some("a".to_string()),
                    class: vec![],
                })],
                declarations: vec![decl("width", Value::Length(2, Unit::Px))],
            },
            Rule {
                selectors: vec![tag_selector("p")],
                declarations: vec![decl("width", Value::Length(1, Unit::Px))],
            },
        ],
    };
    let values = specified_values(&elem, &sheet);
    assert_eq!(values.value("width"), Some(Value::Length(2, Unit::Px)));
}

#[test]
fn test_cascade_tie_broken_by_rule_order() {
    let elem = ElementData { tag_name: "p".to_string(), attributes: AttrMap::new() };
    let sheet = Stylesheet {
        rules: vec![
            Rule {
                selectors: vec![tag_selector("p")],
                declarations: vec![decl("width", Value::Length(1, Unit::Px))],
            },
            Rule {
                selectors: vec![tag_selector("p")],
                declarations: vec![decl("width", Value::Length(2, Unit::Px))],
            },
        ],
    };
    let values = specified_values(&elem, &sheet);
    assert_eq!(values.value("width"), Some(Value::Length(2, Unit::Px)));
}

#[test]
fn test_cascade_deterministic() {
    let mut attributes = AttrMap::new();
    attributes.insert("id".to_string(), "a".to_string());
    attributes.insert("class".to_string(), "b c".to_string());
    let elem = ElementData { tag_name: "p".to_string(), attributes };
    let sheet = Stylesheet {
        rules: vec![
            Rule {
                selectors: vec![tag_selector("p")],
                declarations: vec![
                    decl("width", Value::Length(1, Unit::Px)),
                    decl("display", Value::Keyword("block".to_string())),
                ],
            },
            Rule {
                selectors: vec![Selector::Simple(SimpleSelector {
                    tag_name: None,
                    id: None,
                    class: vec!["b".to_string()],
                })],
                declarations: vec![decl("width", Value::Length(7, Unit::Px))],
            },
        ],
    };
    let first = specified_values(&elem, &sheet);
    let second = specified_values(&elem, &sheet);
    assert_eq!(first, second);
    assert_eq!(first.value("width"), Some(Value::Length(7, Unit::Px)));
}

#[test]
fn test_display_classification() {
    let mut block = layoutlib::style::PropertyMap::new();
    block.insert("display".to_string(), Value::Keyword("block".to_string()));
    assert_eq!(block.display(), Display::Block);
    let mut none = layoutlib::style::PropertyMap::new();
    none.insert("display".to_string(), Value::Keyword("none".to_string()));
    assert_eq!(none.display(), Display::NoBox);
    let mut other = layoutlib::style::PropertyMap::new();
    other.insert("display".to_string(), Value::Keyword("flex".to_string()));
    assert_eq!(other.display(), Display::Inline);
    let empty = layoutlib::style::PropertyMap::new();
    assert_eq!(empty.display(), Display::Inline);
}

#[test]
fn test_lookup_falls_back_to_shorthand_then_default() {
    let mut props = layoutlib::style::PropertyMap::new();
    props.insert("margin".to_string(), Value::Length(5, Unit::Px));
    let zero = Value::Length(0, Unit::Px);
    assert_eq!(props.lookup("margin-left", "margin", &zero), Value::Length(5, Unit::Px));
    assert_eq!(props.lookup("padding-left", "padding", &zero), Value::Length(0, Unit::Px));
    props.insert("margin-left".to_string(), Value::Length(9, Unit::Px));
    assert_eq!(props.lookup("margin-left", "margin", &zero), Value::Length(9, Unit::Px));
}

#[test]
fn test_style_tree_attaches_values_per_node() {
    let root = Node::elem(
        "div".to_string(),
        AttrMap::new(),
        vec![Node::text("hi".to_string())],
    );
    let sheet = Stylesheet {
        rules: vec![Rule {
            selectors: vec![tag_selector("div")],
            declarations: vec![decl("display", Value::Keyword("block".to_string()))],
        }],
    };
    let styled = style_tree(&root, &sheet);
    assert_eq!(styled.display(), Display::Block);
    assert_eq!(styled.children.len(), 1);
    assert_eq!(styled.children[0].value("display"), None);
    assert_eq!(styled.children[0].display(), Display::Inline);
}
