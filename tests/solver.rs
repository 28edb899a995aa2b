use robinson::boxmodel::solve_width;
use robinson::css::{Declaration, Rule, Selector, SimpleSelector, Stylesheet, Unit, Value};
use robinson::dom::{elem, Node};
use robinson::layout::{build_layout_tree, Dimensions, EdgeSizes, Rct};
use robinson::style::style_tree;

fn node(tag: &str, children: Vec<Node>) -> Node {
    elem(tag.to_string(), vec![], children)
}

fn px(n: i64) -> Value {
    Value::Length(n, Unit::Px)
}

fn auto() -> Value {
    Value::Keyword("auto".to_string())
}

fn tag_rule(tag: &str, decls: Vec<(&str, Value)>) -> Rule {
    Rule {
        selectors: vec![Selector::Simple(SimpleSelector { tag_name: Some(tag.to_string()), id: None, class: vec![] })],
        declarations: decls.into_iter().map(|(n, v)| Declaration { nam: n.to_string(), val: v }).collect(),
    }
}

fn viewport(width: i64) -> Dimensions {
    let z = EdgeSizes { left: 0, right: 0, top: 0, bottom: 0 };
    Dimensions { content: Rct { x: 0, y: 0, width, height: 0 }, padding: z, border: z, margin: z }
}

fn block(tag: &str, mut decls: Vec<(&str, Value)>) -> Rule {
    decls.push(("display", Value::Keyword("block".to_string())));
    tag_rule(tag, decls)
}

#[test]
fn auto_width_absorbs_everything() {
    let doc = node("root", vec![node("c", vec![])]);
    let s = Stylesheet {
        rules: vec![
            block("root", vec![]),
            block("c", vec![("width", auto()), ("margin-left", auto()), ("margin-right", auto())]),
        ],
    };
    let st = style_tree(&doc, &s);
    let mut b = build_layout_tree(&st).unwrap();
    b.layout(viewport(200));
    let c = &b.children[0].dimensions;
    assert_eq!(b.dimensions.content.width, 200);
    assert_eq!(c.content.width, 200);
    assert_eq!(c.margin.left, 0);
    assert_eq!(c.margin.right, 0);
}

#[test]
fn two_auto_margins_center() {
    let doc = node("root", vec![node("c", vec![])]);
    let s = Stylesheet {
        rules: vec![
            block("root", vec![]),
            block("c", vec![("width", px(100)), ("margin-left", auto()), ("margin-right", auto())]),
        ],
    };
    let st = style_tree(&doc, &s);
    let mut b = build_layout_tree(&st).unwrap();
    b.layout(viewport(200));
    let c = &b.children[0].dimensions;
    assert_eq!(c.content.width, 100);
    assert_eq!(c.margin.left, 50);
    assert_eq!(c.margin.right, 50);
    assert_eq!(c.content.x, 50);
}

#[test]
fn auto_height_sums_children() {
    let doc = node("root", vec![node("c", vec![]), node("c", vec![])]);
    let s = Stylesheet { rules: vec![block("root", vec![]), block("c", vec![("height", px(30))])] };
    let st = style_tree(&doc, &s);
    let mut b = build_layout_tree(&st).unwrap();
    b.layout(viewport(100));
    assert_eq!(b.dimensions.content.height, 60);
    assert_eq!(b.children[0].dimensions.content.y, 0);
    assert_eq!(b.children[1].dimensions.content.y, 30);
}

#[test]
fn edges_count_in_stacking_and_position() {
    let doc = node("root", vec![node("c", vec![]), node("c", vec![])]);
    let s = Stylesheet {
        rules: vec![
            block("root", vec![("padding", px(5))]),
            block("c", vec![("height", px(10)), ("margin", px(2)), ("border-width", px(1)), ("padding-top", px(3))]),
        ],
    };
    let st = style_tree(&doc, &s);
    let mut b = build_layout_tree(&st).unwrap();
    b.layout(viewport(100));
    assert_eq!(b.dimensions.content.x, 5);
    assert_eq!(b.dimensions.content.y, 5);
    assert_eq!(b.dimensions.content.width, 90);
    let c0 = &b.children[0].dimensions;
    assert_eq!(c0.content.x, 5 + 2 + 1);
    assert_eq!(c0.content.y, 5 + 2 + 1 + 3);
    assert_eq!(c0.content.width, 90 - 4 - 2);
    let c1 = &b.children[1].dimensions;
    assert_eq!(c1.content.y, 5 + 19 + 2 + 1 + 3);
    assert_eq!(b.dimensions.content.height, 38);
}

#[test]
fn explicit_height_wins() {
    let doc = node("root", vec![node("c", vec![])]);
    let s = Stylesheet { rules: vec![block("root", vec![("height", px(7))]), block("c", vec![("height", px(30))])] };
    let st = style_tree(&doc, &s);
    let mut b = build_layout_tree(&st).unwrap();
    b.layout(viewport(100));
    assert_eq!(b.dimensions.content.height, 7);
}

#[test]
fn inline_and_anonymous_boxes_stay_zero() {
    let doc = node("root", vec![node("s", vec![])]);
    let s = Stylesheet { rules: vec![block("root", vec![]), tag_rule("s", vec![("width", px(40))])] };
    let st = style_tree(&doc, &s);
    let mut b = build_layout_tree(&st).unwrap();
    b.layout(viewport(100));
    assert_eq!(b.children[0].dimensions.content.width, 0);
    assert_eq!(b.children[0].children[0].dimensions.content.width, 0);
    assert_eq!(b.dimensions.content.height, 0);
}

#[test]
fn solve_fully_auto() {
    assert_eq!(solve_width(true, 0, true, 0, true, 0, 0, 200), (200, 0, 0));
}

#[test]
fn solve_split_margins() {
    assert_eq!(solve_width(false, 100, true, 0, true, 0, 0, 200), (100, 50, 50));
    assert_eq!(solve_width(false, 100, true, 0, true, 0, 0, 201), (100, 50, 51));
}

#[test]
fn solve_one_auto_margin() {
    assert_eq!(solve_width(false, 100, true, 0, false, 10, 0, 200), (100, 90, 10));
    assert_eq!(solve_width(false, 100, false, 10, true, 0, 0, 200), (100, 10, 90));
}

#[test]
fn solve_fully_fixed_right_margin_absorbs() {
    assert_eq!(solve_width(false, 100, false, 10, false, 10, 20, 200), (100, 10, 70));
}

#[test]
fn solve_overwide_drops_auto_margins() {
    assert_eq!(solve_width(false, 300, true, 0, true, 0, 0, 200), (300, 0, -100));
}

#[test]
fn solve_auto_width_never_negative() {
    assert_eq!(solve_width(true, 0, false, 150, false, 100, 0, 200), (0, 150, 50));
}
