use layoutlib::dom::{AttrMap, ElementData, Node, NodeType};

#[test]
fn test_node_text() {
    let node = Node::text("foo".to_string());
    assert_eq!(node.node_type, NodeType::Text("foo".to_string()));
}

#[test]
fn test_node_elem() {
    let node = Node::elem("div".to_string(), AttrMap::new(), vec![]);
    assert_eq!(
        node.node_type,
        NodeType::Element(ElementData {
            tag_name: "div".to_string(),
            attributes: AttrMap::new(),
        })
    );
}

#[test]
fn test_node_comment() {
    let node = Node::comment("foo".to_string());
    assert_eq!(node.node_type, NodeType::Comment("foo".to_string()));
}

#[test]
fn test_elem_id_attribute() {
    let mut attrs = AttrMap::new();
    attrs.insert("id".to_string(), "main".to_string());
    let elem = ElementData { tag_name: "div".to_string(), attributes: attrs };
    assert_eq!(elem.id(), Some(&"main".to_string()));
    let bare = ElementData { tag_name: "div".to_string(), attributes: AttrMap::new() };
    assert_eq!(bare.id(), None);
}

#[test]
fn test_elem_classes_split_at_spaces() {
    let mut attrs = AttrMap::new();
    attrs.insert("class".to_string(), "note wide".to_string());
    let elem = ElementData { tag_name: "p".to_string(), attributes: attrs };
    assert_eq!(elem.classes(), vec!["note".to_string(), "wide".to_string()]);
}

#[test]
fn test_elem_classes_empty_fields() {
    let mut attrs = AttrMap::new();
    attrs.insert("class".to_string(), "a  b".to_string());
    let elem = ElementData { tag_name: "p".to_string(), attributes: attrs };
    assert_eq!(
        elem.classes(),
        vec!["a".to_string(), "".to_string(), "b".to_string()]
    );
    let bare = ElementData { tag_name: "p".to_string(), attributes: AttrMap::new() };
    assert_eq!(bare.classes(), Vec::<String>::new());
}

#[test]
fn test_attr_map_last_insert_wins() {
    let mut attrs = AttrMap::new();
    attrs.insert("id".to_string(), "one".to_string());
    attrs.insert("id".to_string(), "two".to_string());
    assert_eq!(attrs.get("id"), Some(&"two".to_string()));
    assert_eq!(attrs.get("class"), None);
}
