use layoutlib::css::{Unit, Value};
use layoutlib::layout::{
    build_layout_tree, layout_tree, BoxType, Dimensions, EdgeSizes, LayoutError, Rect,
};
use layoutlib::style::{PropertyMap, StyledNode};

fn styled(props: Vec<(&str, Value)>, children: Vec<StyledNode>) -> StyledNode {
    let mut map = PropertyMap::new();
    for (name, value) in props {
        map.insert(name.to_string(), value);
    }
    StyledNode { specified_values: map, children }
}

fn block() -> (&'static str, Value) {
    ("display", Value::Keyword("block".to_string()))
}

fn px(n: i64) -> Value {
    Value::Length(n, Unit::Px)
}

fn viewport() -> Dimensions {
    Dimensions {
        content: Rect { x: 0, y: 0, width: 800, height: 600 },
        padding: EdgeSizes::default(),
        border: EdgeSizes::default(),
        margin: EdgeSizes::default(),
    }
}

#[test]
fn test_expanded_by_grows_outward() {
    let r = Rect { x: 10, y: 20, width: 100, height: 50 };
    let e = EdgeSizes { left: 1, right: 2, top: 3, bottom: 4 };
    let g = r.expanded_by(e);
    assert_eq!((g.x, g.y, g.width, g.height), (9, 17, 103, 57));
}

#[test]
fn test_margin_box_stacks_all_edges() {
    let d = Dimensions {
        content: Rect { x: 0, y: 0, width: 100, height: 10 },
        padding: EdgeSizes { left: 1, right: 1, top: 1, bottom: 1 },
        border: EdgeSizes { left: 2, right: 2, top: 2, bottom: 2 },
        margin: EdgeSizes { left: 4, right: 4, top: 4, bottom: 4 },
    };
    let m = d.margin_box();
    assert_eq!((m.x, m.y, m.width, m.height), (-7, -7, 114, 24));
}

#[test]
fn test_auto_width_fills_containing_block() {
    // Containing width 800, width auto, no edges: the box expands.
    let root = styled(vec![block()], vec![]);
    let laid = layout_tree(root, viewport()).unwrap();
    assert_eq!(laid.dimensions.content.width, 800);
    assert_eq!(laid.dimensions.content.x, 0);
    assert_eq!(laid.dimensions.content.y, 0);
}

#[test]
fn test_overconstrained_margin_right_absorbs() {
    // width=100, margins 50/50 in a container of 800: margin-right
    // absorbs the 600 of underflow and resolves to 650.
    let root = styled(
        vec![block(), ("width", px(100)), ("margin-left", px(50)), ("margin-right", px(50))],
        vec![],
    );
    let laid = layout_tree(root, viewport()).unwrap();
    assert_eq!(laid.dimensions.content.width, 100);
    assert_eq!(laid.dimensions.margin.left, 50);
    assert_eq!(laid.dimensions.margin.right, 650);
    // Width balance: the components fill the containing block exactly.
    assert_eq!(
        laid.dimensions.margin.left + laid.dimensions.content.width
            + laid.dimensions.margin.right,
        800
    );
}

#[test]
fn test_split_auto_margins_evenly() {
    let root = styled(
        vec![
            block(),
            ("width", px(200)),
            ("margin-left", Value::Keyword("auto".to_string())),
            ("margin-right", Value::Keyword("auto".to_string())),
        ],
        vec![],
    );
    let laid = layout_tree(root, viewport()).unwrap();
    assert_eq!(laid.dimensions.content.width, 200);
    assert_eq!(laid.dimensions.margin.left, 300);
    assert_eq!(laid.dimensions.margin.right, 300);
}

#[test]
fn test_auto_width_negative_underflow_clamps_to_zero() {
    // width auto but the edges already overflow the container: the
    // width clamps to zero and margin-right takes the deficit.
    let root = styled(
        vec![block(), ("padding-left", px(500)), ("padding-right", px(500))],
        vec![],
    );
    let laid = layout_tree(root, viewport()).unwrap();
    assert_eq!(laid.dimensions.content.width, 0);
    assert_eq!(laid.dimensions.margin.right, -200);
}

#[test]
fn test_vertical_stacking_accumulates_heights() {
    // Two block children of heights 50 and 70: the first sits at y=0,
    // the second at y=50, and the parent's content height is 120.
    let c1 = styled(vec![block(), ("height", px(50))], vec![]);
    let c2 = styled(vec![block(), ("height", px(70))], vec![]);
    let root = styled(vec![block()], vec![c1, c2]);
    let laid = layout_tree(root, viewport()).unwrap();
    assert_eq!(laid.dimensions.content.height, 120);
    assert_eq!(laid.children.len(), 2);
    assert_eq!(laid.children[0].dimensions.content.y, 0);
    assert_eq!(laid.children[0].dimensions.content.height, 50);
    assert_eq!(laid.children[1].dimensions.content.y, 50);
    assert_eq!(laid.children[1].dimensions.content.height, 70);
}

#[test]
fn test_explicit_height_overrides_children() {
    let c1 = styled(vec![block(), ("height", px(50))], vec![]);
    let root = styled(vec![block(), ("height", px(10))], vec![c1]);
    let laid = layout_tree(root, viewport()).unwrap();
    assert_eq!(laid.dimensions.content.height, 10);
}

#[test]
fn test_consecutive_inline_children_share_one_anonymous_block() {
    // Two inline children under one block parent end up inside a
    // single anonymous block, not two.
    let c1 = styled(vec![], vec![]);
    let c2 = styled(vec![], vec![]);
    let root = styled(vec![block()], vec![c1, c2]);
    let tree = build_layout_tree(root).unwrap();
    assert_eq!(tree.children.len(), 1);
    assert!(matches!(tree.children[0].box_type, BoxType::AnonymousBlock));
    assert_eq!(tree.children[0].children.len(), 2);
    assert!(matches!(tree.children[0].children[0].box_type, BoxType::InlineNode(_)));
    assert!(matches!(tree.children[0].children[1].box_type, BoxType::InlineNode(_)));
}

#[test]
fn test_display_none_children_are_dropped() {
    let hidden = styled(vec![("display", Value::Keyword("none".to_string()))], vec![]);
    let shown = styled(vec![block()], vec![]);
    let root = styled(vec![block()], vec![hidden, shown]);
    let tree = build_layout_tree(root).unwrap();
    assert_eq!(tree.children.len(), 1);
    assert!(matches!(tree.children[0].box_type, BoxType::BlockNode(_)));
}

#[test]
fn test_root_display_none_rejected() {
    // A root whose display resolves to none fails the request rather
    // than yielding an empty tree.
    let root = styled(vec![("display", Value::Keyword("none".to_string()))], vec![]);
    let r = layout_tree(root, viewport());
    assert!(matches!(r, Err(LayoutError::RootDisplayNone)));
    let root2 = styled(vec![("display", Value::Keyword("none".to_string()))], vec![]);
    assert_eq!(build_layout_tree(root2).err(), Some(LayoutError::RootDisplayNone));
}

#[test]
fn test_inline_box_layout_is_a_no_op() {
    // Geometry resolution on an inline box leaves it untouched: a
    // documented scope boundary, not an error.
    let root = styled(vec![("width", px(300))], vec![]);
    let laid = layout_tree(root, viewport()).unwrap();
    assert!(matches!(laid.box_type, BoxType::InlineNode(_)));
    assert_eq!(laid.dimensions.content.width, 0);
    assert_eq!(laid.dimensions.content.height, 0);
}

#[test]
fn test_single_auto_margin_takes_underflow() {
    let root = styled(
        vec![
            block(),
            ("width", px(300)),
            ("margin-left", Value::Keyword("auto".to_string())),
        ],
        vec![],
    );
    let laid = layout_tree(root, viewport()).unwrap();
    assert_eq!(laid.dimensions.margin.left, 500);
    assert_eq!(laid.dimensions.margin.right, 0);
}

#[test]
fn test_to_px_reads_lengths_only() {
    assert_eq!(px(12).to_px(), 12);
    assert_eq!(Value::Keyword("auto".to_string()).to_px(), 0);
}

#[test]
fn test_position_offsets_by_left_and_top_edges() {
    // content x = cb.x + margin-left + border-left + padding-left;
    // content y = cb.y + margin-top + border-top + padding-top.
    let root = styled(
        vec![
            block(),
            ("width", px(100)),
            ("margin-left", px(3)),
            ("border-left-width", px(5)),
            ("padding-left", px(10)),
            ("margin-top", px(7)),
            ("border-top-width", px(2)),
            ("padding-top", px(1)),
        ],
        vec![],
    );
    let laid = layout_tree(root, viewport()).unwrap();
    assert_eq!(laid.dimensions.content.x, 18);
    assert_eq!(laid.dimensions.content.y, 10);
}

#[test]
fn test_inline_root_hosts_inline_children_directly() {
    // An inline container needs no anonymous block: the inline child
    // is a direct child of the inline root.
    let c1 = styled(vec![], vec![]);
    let root = styled(vec![], vec![c1]);
    let tree = build_layout_tree(root).unwrap();
    assert!(matches!(tree.box_type, BoxType::InlineNode(_)));
    assert_eq!(tree.children.len(), 1);
    assert!(matches!(tree.children[0].box_type, BoxType::InlineNode(_)));
}

#[test]
fn test_shorthand_margin_applies_to_all_sides() {
    let root = styled(vec![block(), ("width", px(100)), ("margin", px(10))], vec![]);
    let laid = layout_tree(root, viewport()).unwrap();
    assert_eq!(laid.dimensions.margin.left, 10);
    assert_eq!(laid.dimensions.margin.top, 10);
    assert_eq!(laid.dimensions.margin.bottom, 10);
    // Overconstrained: the right margin absorbs the leftover width.
    assert_eq!(laid.dimensions.margin.right, 800 - 100 - 10);
    assert_eq!(laid.dimensions.content.x, 10);
    assert_eq!(laid.dimensions.content.y, 10);
}

#[test]
fn test_block_child_separates_anonymous_blocks() {
    // inline, inline, block, inline: the first two inline children
    // share one anonymous block, the block child stands on its own,
    // and the trailing inline child opens a fresh anonymous block.
    let children = vec![
        styled(vec![], vec![]),
        styled(vec![], vec![]),
        styled(vec![block()], vec![]),
        styled(vec![], vec![]),
    ];
    let root = styled(vec![block()], children);
    let tree = build_layout_tree(root).unwrap();
    assert_eq!(tree.children.len(), 3);
    assert!(matches!(tree.children[0].box_type, BoxType::AnonymousBlock));
    assert_eq!(tree.children[0].children.len(), 2);
    assert!(matches!(tree.children[1].box_type, BoxType::BlockNode(_)));
    assert!(matches!(tree.children[2].box_type, BoxType::AnonymousBlock));
    assert_eq!(tree.children[2].children.len(), 1);
}
