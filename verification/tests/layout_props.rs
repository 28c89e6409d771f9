use browser_engine::css::Declaration;
use browser_engine::css::Rule;
use browser_engine::css::Selector;
use browser_engine::css::SimpleSelector;
use browser_engine::css::StyleSheet;
use browser_engine::css::Unit;
use browser_engine::css::Value;
use browser_engine::dict::Dict;
use browser_engine::dom::elem;
use browser_engine::dom::Node;
use browser_engine::layout::layout_tree;
use browser_engine::layout::BoxType;
use browser_engine::layout::Dimensions;
use browser_engine::layout::EdgeSizes;
use browser_engine::layout::LayoutBox;
use browser_engine::layout::LayoutError;
use browser_engine::layout::Rect;
use browser_engine::style::style_tree;
use browser_engine::style::StyleNode;

fn keyword(s: &str) -> Value {
    Value::Keyword(s.to_string())
}

fn px(n: i64) -> Value {
    Value::Length(n, Unit::Px)
}

fn tag_rule(tag: &str, decls: &[(&str, Value)]) -> Rule {
    Rule {
        selectors: vec![Selector::Simple(SimpleSelector {
            tag_name: Some(tag.to_string()),
            id: None,
            class: Vec::new(),
        })],
        declarations: decls
            .iter()
            .map(|(n, v)| Declaration { name: n.to_string(), value: v.clone() })
            .collect(),
    }
}

fn div(children: Vec<Node>) -> Node {
    elem("div".to_string(), Dict::new(), children)
}

fn named(tag: &str, children: Vec<Node>) -> Node {
    elem(tag.to_string(), Dict::new(), children)
}

fn viewport() -> Dimensions {
    Dimensions {
        content: Rect { x: 0, y: 0, height: 600, width: 800 },
        padding: EdgeSizes::default(),
        border: EdgeSizes::default(),
        margin: EdgeSizes::default(),
    }
}

fn styled(root: &Node, sheet: &StyleSheet) -> StyleNode {
    style_tree(root, sheet)
}

fn layout_or_panic(styled: &StyleNode) -> LayoutBox {
    match layout_tree(styled, viewport()) {
        Ok(b) => b,
        Err(_) => panic!("layout failed"),
    }
}

#[test]
fn auto_width_fills_containing_block() {
    // containing block width 800, width: auto, everything else 0
    let root = div(vec![]);
    let sheet = StyleSheet { rules: vec![tag_rule("div", &[("display", keyword("block"))])] };
    let s = styled(&root, &sheet);
    let b = layout_or_panic(&s);
    assert_eq!(b.dimensions.content.width, 800);
    assert_eq!(b.dimensions.margin.left, 0);
    assert_eq!(b.dimensions.margin.right, 0);
}

#[test]
fn auto_margins_with_exact_width_resolve_to_zero() {
    // width: 800px, margin-left/right auto, underflow 0 split evenly
    let root = div(vec![]);
    let sheet = StyleSheet {
        rules: vec![tag_rule(
            "div",
            &[
                ("display", keyword("block")),
                ("width", px(800)),
                ("margin-left", keyword("auto")),
                ("margin-right", keyword("auto")),
            ],
        )],
    };
    let s = styled(&root, &sheet);
    let b = layout_or_panic(&s);
    assert_eq!(b.dimensions.content.width, 800);
    assert_eq!(b.dimensions.margin.left, 0);
    assert_eq!(b.dimensions.margin.right, 0);
}

#[test]
fn auto_margins_split_underflow_evenly() {
    let root = div(vec![]);
    let sheet = StyleSheet {
        rules: vec![tag_rule(
            "div",
            &[
                ("display", keyword("block")),
                ("width", px(400)),
                ("margin-left", keyword("auto")),
                ("margin-right", keyword("auto")),
            ],
        )],
    };
    let s = styled(&root, &sheet);
    let b = layout_or_panic(&s);
    assert_eq!(b.dimensions.content.width, 400);
    assert_eq!(b.dimensions.margin.left, 200);
    assert_eq!(b.dimensions.margin.right, 200);
}

#[test]
fn over_constrained_margin_right_absorbs_negative_underflow() {
    // width: 900px in an 800-wide containing block, no auto margins:
    // margin-right takes 800 - 900 = -100
    let root = div(vec![]);
    let sheet = StyleSheet {
        rules: vec![tag_rule(
            "div",
            &[("display", keyword("block")), ("width", px(900))],
        )],
    };
    let s = styled(&root, &sheet);
    let b = layout_or_panic(&s);
    assert_eq!(b.dimensions.content.width, 900);
    assert_eq!(b.dimensions.margin.left, 0);
    assert_eq!(b.dimensions.margin.right, -100);
}

#[test]
fn over_constrained_forces_auto_margins_to_zero() {
    let root = div(vec![]);
    let sheet = StyleSheet {
        rules: vec![tag_rule(
            "div",
            &[
                ("display", keyword("block")),
                ("width", px(900)),
                ("margin-left", keyword("auto")),
            ],
        )],
    };
    let s = styled(&root, &sheet);
    let b = layout_or_panic(&s);
    // margin-left would be auto, but the box is wider than its container:
    // auto margins are forced to 0 and margin-right absorbs the remainder.
    assert_eq!(b.dimensions.margin.left, 0);
    assert_eq!(b.dimensions.margin.right, -100);
}

#[test]
fn single_auto_margin_takes_the_underflow() {
    let root = div(vec![]);
    let sheet = StyleSheet {
        rules: vec![tag_rule(
            "div",
            &[
                ("display", keyword("block")),
                ("width", px(500)),
                ("margin-left", keyword("auto")),
            ],
        )],
    };
    let s = styled(&root, &sheet);
    let b = layout_or_panic(&s);
    assert_eq!(b.dimensions.margin.left, 300);
    assert_eq!(b.dimensions.margin.right, 0);
}

#[test]
fn stacked_blocks_positions_and_auto_height() {
    // two stacked blocks of height 50 and 30: second starts at y = 50,
    // parent's auto height is 80
    let root = named("wrap", vec![named("a", vec![]), named("b", vec![])]);
    let sheet = StyleSheet {
        rules: vec![
            tag_rule("wrap", &[("display", keyword("block"))]),
            tag_rule("a", &[("display", keyword("block")), ("height", px(50))]),
            tag_rule("b", &[("display", keyword("block")), ("height", px(30))]),
        ],
    };
    let s = styled(&root, &sheet);
    let b = layout_or_panic(&s);
    assert_eq!(b.children.len(), 2);
    assert_eq!(b.children[0].dimensions.content.y, 0);
    assert_eq!(b.children[0].dimensions.content.height, 50);
    assert_eq!(b.children[1].dimensions.content.y, 50);
    assert_eq!(b.children[1].dimensions.content.height, 30);
    assert_eq!(b.dimensions.content.height, 80);
}

#[test]
fn explicit_height_overrides_children() {
    let root = named("wrap", vec![named("a", vec![])]);
    let sheet = StyleSheet {
        rules: vec![
            tag_rule("wrap", &[("display", keyword("block")), ("height", px(123))]),
            tag_rule("a", &[("display", keyword("block")), ("height", px(50))]),
        ],
    };
    let s = styled(&root, &sheet);
    let b = layout_or_panic(&s);
    assert_eq!(b.dimensions.content.height, 123);
}

#[test]
fn padding_border_margin_offset_position() {
    let root = named("wrap", vec![named("a", vec![])]);
    let sheet = StyleSheet {
        rules: vec![
            tag_rule("wrap", &[("display", keyword("block"))]),
            tag_rule(
                "a",
                &[
                    ("display", keyword("block")),
                    ("height", px(10)),
                    ("margin", px(5)),
                    ("padding", px(3)),
                    ("border-left-width", px(2)),
                    ("border-top-width", px(2)),
                ],
            ),
        ],
    };
    let s = styled(&root, &sheet);
    let b = layout_or_panic(&s);
    let a = &b.children[0];
    assert_eq!(a.dimensions.content.x, 5 + 2 + 3);
    assert_eq!(a.dimensions.content.y, 5 + 2 + 3);
    assert_eq!(a.dimensions.margin.top, 5);
    assert_eq!(a.dimensions.padding.bottom, 3);
}

#[test]
fn root_display_none_is_rejected() {
    let root = div(vec![]);
    let sheet = StyleSheet { rules: vec![tag_rule("div", &[("display", keyword("none"))])] };
    let s = styled(&root, &sheet);
    match layout_tree(&s, viewport()) {
        Err(e) => assert_eq!(e, LayoutError::RootDisplayNone),
        Ok(_) => panic!("a display: none root must be rejected"),
    }
}

#[test]
fn display_none_child_is_skipped() {
    let root = named("wrap", vec![named("a", vec![]), named("b", vec![])]);
    let sheet = StyleSheet {
        rules: vec![
            tag_rule("wrap", &[("display", keyword("block"))]),
            tag_rule("a", &[("display", keyword("none"))]),
            tag_rule("b", &[("display", keyword("block"))]),
        ],
    };
    let s = styled(&root, &sheet);
    let b = layout_or_panic(&s);
    assert_eq!(b.children.len(), 1);
    assert!(matches!(b.children[0].box_type, BoxType::BlockNode(_)));
}

#[test]
fn anonymous_blocks_wrap_inline_runs() {
    // block parent with children inline, inline, block, inline:
    // consecutive inline runs share one anonymous wrapper, later runs get
    // a fresh one, and no inline box sits directly under the block box
    let root = named(
        "wrap",
        vec![named("i", vec![]), named("i", vec![]), named("blk", vec![]), named("i", vec![])],
    );
    let sheet = StyleSheet {
        rules: vec![
            tag_rule("wrap", &[("display", keyword("block"))]),
            tag_rule("blk", &[("display", keyword("block"))]),
        ],
    };
    let s = styled(&root, &sheet);
    let b = layout_or_panic(&s);
    assert_eq!(b.children.len(), 3);
    assert!(matches!(b.children[0].box_type, BoxType::AnonymousBlock));
    assert_eq!(b.children[0].children.len(), 2);
    assert!(b.children[0]
        .children
        .iter()
        .all(|c| matches!(c.box_type, BoxType::InlineNode(_))));
    assert!(matches!(b.children[1].box_type, BoxType::BlockNode(_)));
    assert!(matches!(b.children[2].box_type, BoxType::AnonymousBlock));
    assert_eq!(b.children[2].children.len(), 1);
}

#[test]
fn relayout_is_idempotent() {
    let root = named("wrap", vec![named("a", vec![]), named("b", vec![])]);
    let sheet = StyleSheet {
        rules: vec![
            tag_rule("wrap", &[("display", keyword("block")), ("padding", px(7))]),
            tag_rule("a", &[("display", keyword("block")), ("height", px(50))]),
            tag_rule("b", &[("display", keyword("block")), ("height", px(30))]),
        ],
    };
    let s = styled(&root, &sheet);
    let once = layout_or_panic(&s);
    // layout_tree starts the viewport's accumulated content height at zero;
    // relaying out against that same containing block must change nothing
    let mut cb = viewport();
    cb.content.height = 0;
    let twice = once.layout(cb);
    assert_eq!(once.dimensions, twice.dimensions);
    assert_eq!(once.children.len(), twice.children.len());
    for (c1, c2) in once.children.iter().zip(twice.children.iter()) {
        assert_eq!(c1.dimensions, c2.dimensions);
    }
}

#[test]
fn box_model_rectangles_nest() {
    let d = Dimensions {
        content: Rect { x: 50, y: 60, height: 100, width: 200 },
        padding: EdgeSizes { left: 1, right: 2, top: 3, bottom: 4 },
        border: EdgeSizes { left: 5, right: 6, top: 7, bottom: 8 },
        margin: EdgeSizes { left: 9, right: 10, top: 11, bottom: 12 },
    };
    let p = d.padding_box();
    assert_eq!((p.x, p.y, p.width, p.height), (49, 57, 203, 107));
    let b = d.border_box();
    assert_eq!((b.x, b.y, b.width, b.height), (44, 50, 214, 122));
    let m = d.margin_box();
    assert_eq!((m.x, m.y, m.width, m.height), (35, 39, 233, 145));
    // containment
    assert!(p.x <= d.content.x && p.y <= d.content.y);
    assert!(d.content.x + d.content.width <= p.x + p.width);
    assert!(b.x <= p.x && p.x + p.width <= b.x + b.width);
    assert!(m.x <= b.x && b.x + b.width <= m.x + m.width);
}

#[test]
fn vertical_stacking_inequality() {
    let root = named(
        "wrap",
        vec![named("a", vec![]), named("b", vec![]), named("c", vec![])],
    );
    let sheet = StyleSheet {
        rules: vec![
            tag_rule("wrap", &[("display", keyword("block"))]),
            tag_rule("a", &[("display", keyword("block")), ("height", px(40))]),
            tag_rule("b", &[("display", keyword("block")), ("height", px(25))]),
            tag_rule("c", &[("display", keyword("block")), ("height", px(10))]),
        ],
    };
    let s = styled(&root, &sheet);
    let b = layout_or_panic(&s);
    for i in 0..b.children.len() - 1 {
        let c0 = &b.children[i];
        let c1 = &b.children[i + 1];
        assert!(c1.dimensions.content.y >= c0.dimensions.content.y + c0.dimensions.margin_box().height);
    }
}

#[test]
fn new_box_starts_at_zero() {
    let b = LayoutBox::new(BoxType::AnonymousBlock);
    assert_eq!(b.dimensions, Dimensions::default());
    assert_eq!(b.children.len(), 0);
}
