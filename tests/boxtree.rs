use robinson::css::{Declaration, Rule, Selector, SimpleSelector, Stylesheet, Unit, Value};
use robinson::dom::{elem, Node};
use robinson::layout::{build_layout_tree, BoxType, Display, LayoutBox, LayoutError};
use robinson::style::style_tree;

fn node(tag: &str, children: Vec<Node>) -> Node {
    elem(tag.to_string(), vec![], children)
}

fn tag_rule(tag: &str, display: &str) -> Rule {
    Rule {
        selectors: vec![Selector::Simple(SimpleSelector { tag_name: Some(tag.to_string()), id: None, class: vec![] })],
        declarations: vec![Declaration { nam: "display".to_string(), val: Value::Keyword(display.to_string()) }],
    }
}

fn sheet() -> Stylesheet {
    Stylesheet { rules: vec![tag_rule("div", "block"), tag_rule("span", "inline"), tag_rule("hide", "none")] }
}

fn kind(b: &LayoutBox) -> &'static str {
    match b.box_type {
        BoxType::BlockNode(_) => "block",
        BoxType::InlineNode(_) => "inline",
        BoxType::AnonymousBlock => "anon",
    }
}

#[test]
fn inline_run_is_wrapped_once() {
    let doc = node("div", vec![node("div", vec![]), node("span", vec![]), node("span", vec![]), node("div", vec![])]);
    let s = sheet();
    let st = style_tree(&doc, &s);
    let b = build_layout_tree(&st).unwrap();
    assert_eq!(kind(&b), "block");
    let kinds: Vec<&str> = b.children.iter().map(kind).collect();
    assert_eq!(kinds, vec!["block", "anon", "block"]);
    assert_eq!(b.children[1].children.len(), 2);
    assert_eq!(kind(&b.children[1].children[0]), "inline");
    assert_eq!(kind(&b.children[1].children[1]), "inline");
}

#[test]
fn separate_runs_get_separate_wrappers() {
    let doc = node("div", vec![node("span", vec![]), node("div", vec![]), node("span", vec![])]);
    let s = sheet();
    let st = style_tree(&doc, &s);
    let b = build_layout_tree(&st).unwrap();
    let kinds: Vec<&str> = b.children.iter().map(kind).collect();
    assert_eq!(kinds, vec!["anon", "block", "anon"]);
}

#[test]
fn hidden_child_and_subtree_are_pruned() {
    let doc = node(
        "div",
        vec![node("div", vec![]), node("hide", vec![node("div", vec![node("div", vec![])])]), node("div", vec![])],
    );
    let s = sheet();
    let st = style_tree(&doc, &s);
    let b = build_layout_tree(&st).unwrap();
    assert_eq!(b.children.len(), 2);
    assert_eq!(kind(&b.children[0]), "block");
    assert_eq!(kind(&b.children[1]), "block");
    assert_eq!(b.children[0].children.len(), 0);
    assert_eq!(b.children[1].children.len(), 0);
}

#[test]
fn hidden_between_inlines_keeps_one_wrapper() {
    let doc = node("div", vec![node("span", vec![]), node("hide", vec![]), node("span", vec![])]);
    let s = sheet();
    let st = style_tree(&doc, &s);
    let b = build_layout_tree(&st).unwrap();
    assert_eq!(b.children.len(), 1);
    assert_eq!(kind(&b.children[0]), "anon");
    assert_eq!(b.children[0].children.len(), 2);
}

#[test]
fn root_display_none_fails() {
    let doc = node("hide", vec![node("div", vec![])]);
    let s = sheet();
    let st = style_tree(&doc, &s);
    assert!(matches!(build_layout_tree(&st), Err(LayoutError::RootDisplayNone)));
}

#[test]
fn unstyled_root_is_block_and_children_inline() {
    let doc = node("p", vec![node("q", vec![]), node("div", vec![])]);
    let s = sheet();
    let st = style_tree(&doc, &s);
    assert_eq!(st.display(), Display::Inline);
    assert_eq!(st.display_or(Display::Block), Display::Block);
    let b = build_layout_tree(&st).unwrap();
    assert_eq!(kind(&b), "block");
    let kinds: Vec<&str> = b.children.iter().map(kind).collect();
    assert_eq!(kinds, vec!["anon", "block"]);
}

#[test]
fn inline_box_holds_children_directly() {
    let doc = node("span", vec![node("span", vec![]), node("div", vec![]), node("span", vec![])]);
    let s = sheet();
    let st = style_tree(&doc, &s);
    let b = build_layout_tree(&st).unwrap();
    assert_eq!(kind(&b), "inline");
    let kinds: Vec<&str> = b.children.iter().map(kind).collect();
    assert_eq!(kinds, vec!["inline", "block", "inline"]);
    assert_eq!(b.dimensions.content.width, 0);
    let _ = Unit::Px;
}
