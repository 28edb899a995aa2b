use robinson::css::{Color, Declaration, Rule, Selector, SimpleSelector, Specificity, Stylesheet, Unit, Value};
use robinson::dom::{elem, text, ElementData, Node, NodeType};
use robinson::style::{match_rule, matching_rules, specified_values, style_tree};

fn element(tag: &str, attrs: &[(&str, &str)]) -> ElementData {
    ElementData {
        tag_name: tag.to_string(),
        attributes: attrs.iter().map(|(k, v)| (k.to_string(), v.to_string())).collect(),
    }
}

fn sel(tag: Option<&str>, id: Option<&str>, classes: &[&str]) -> Selector {
    Selector::Simple(SimpleSelector {
        tag_name: tag.map(|t| t.to_string()),
        id: id.map(|t| t.to_string()),
        class: classes.iter().map(|c| c.to_string()).collect(),
    })
}

fn decl(name: &str, val: Value) -> Declaration {
    Declaration { nam: name.to_string(), val }
}

fn kw(s: &str) -> Value {
    Value::Keyword(s.to_string())
}

fn is_kw(v: &Option<Value>, s: &str) -> bool {
    matches!(v, Some(Value::Keyword(k)) if k == s)
}

fn rule(selectors: Vec<Selector>, declarations: Vec<Declaration>) -> Rule {
    Rule { selectors, declarations }
}

#[test]
fn selector_parts_must_all_match() {
    let e = element("div", &[("id", "main"), ("class", "a  b\tc")]);
    assert!(robinson::style::matches(&e, &sel(None, None, &[])));
    assert!(robinson::style::matches(&e, &sel(Some("div"), Some("main"), &["a", "c"])));
    assert!(!robinson::style::matches(&e, &sel(Some("p"), None, &[])));
    assert!(!robinson::style::matches(&e, &sel(None, Some("other"), &[])));
    assert!(!robinson::style::matches(&e, &sel(None, None, &["a", "d"])));
    assert!(!robinson::style::matches(&e, &sel(None, None, &["b\tc"])));
    assert!(!robinson::style::matches(&element("div", &[]), &sel(None, Some("main"), &[])));
}

#[test]
fn class_must_be_a_whole_token() {
    let e = element("div", &[("class", "alpha beta")]);
    assert!(robinson::style::matches(&e, &sel(None, None, &["beta"])));
    assert!(!robinson::style::matches(&e, &sel(None, None, &["alp"])));
    assert!(!robinson::style::matches(&e, &sel(None, None, &["ta"])));
    assert!(!robinson::style::matches(&e, &sel(None, None, &[""])));
}

#[test]
fn rule_takes_highest_matching_specificity() {
    let e = element("div", &[("id", "x"), ("class", "c")]);
    let r = rule(vec![sel(Some("div"), None, &[]), sel(None, Some("x"), &[]), sel(Some("p"), Some("x"), &["c"])], vec![]);
    assert_eq!(match_rule(&e, &r), Some(Specificity { ids: 1, classes: 0, tags: 0 }));
    let none = rule(vec![sel(Some("p"), None, &[])], vec![]);
    assert_eq!(match_rule(&e, &none), None);
}

#[test]
fn matching_rules_in_source_order() {
    let e = element("div", &[("class", "c")]);
    let sheet = Stylesheet {
        rules: vec![
            rule(vec![sel(None, None, &["c"])], vec![]),
            rule(vec![sel(Some("p"), None, &[])], vec![]),
            rule(vec![sel(Some("div"), None, &[])], vec![]),
        ],
    };
    let m = matching_rules(&e, &sheet);
    assert_eq!(m.len(), 2);
    assert_eq!(m[0].1, 0);
    assert_eq!(m[1].1, 2);
    assert_eq!(m[1].0, Specificity { ids: 0, classes: 0, tags: 1 });
}

#[test]
fn id_outranks_class_in_either_order() {
    let e = element("div", &[("id", "x"), ("class", "c")]);
    let by_class = || rule(vec![sel(None, None, &["c"])], vec![decl("color", kw("red"))]);
    let by_id = || rule(vec![sel(None, Some("x"), &[])], vec![decl("color", kw("blue"))]);
    let a = Stylesheet { rules: vec![by_class(), by_id()] };
    let b = Stylesheet { rules: vec![by_id(), by_class()] };
    assert!(is_kw(&specified_values(&e, &a).val("color"), "blue"));
    assert!(is_kw(&specified_values(&e, &b).val("color"), "blue"));
}

#[test]
fn later_rule_wins_a_tie() {
    let e = element("p", &[]);
    let sheet = Stylesheet {
        rules: vec![
            rule(vec![sel(Some("p"), None, &[])], vec![decl("color", kw("red"))]),
            rule(vec![sel(Some("p"), None, &[])], vec![decl("color", kw("green"))]),
        ],
    };
    assert!(is_kw(&specified_values(&e, &sheet).val("color"), "green"));
}

#[test]
fn later_declaration_in_a_rule_wins() {
    let e = element("p", &[]);
    let sheet = Stylesheet {
        rules: vec![rule(vec![sel(None, None, &[])], vec![decl("color", kw("red")), decl("color", kw("teal"))])],
    };
    let m = specified_values(&e, &sheet);
    assert_eq!(m.entries.len(), 1);
    assert!(is_kw(&m.val("color"), "teal"));
}

#[test]
fn lower_specificity_later_does_not_override() {
    let e = element("p", &[("class", "k")]);
    let sheet = Stylesheet {
        rules: vec![
            rule(vec![sel(Some("p"), None, &["k"])], vec![decl("color", kw("red"))]),
            rule(vec![sel(Some("p"), None, &[])], vec![decl("color", kw("green"))]),
        ],
    };
    assert!(is_kw(&specified_values(&e, &sheet).val("color"), "red"));
}

#[test]
fn disjoint_properties_are_united() {
    let e = element("p", &[("class", "k")]);
    let sheet = Stylesheet {
        rules: vec![
            rule(vec![sel(Some("p"), None, &[])], vec![decl("color", kw("red"))]),
            rule(vec![sel(None, None, &["k"])], vec![decl("width", Value::Length(10, Unit::Px))]),
            rule(vec![sel(Some("div"), None, &[])], vec![decl("height", Value::Length(5, Unit::Px))]),
            rule(vec![sel(None, None, &[])], vec![decl("background", Value::ColorValue(Color { r: 1, g: 2, b: 3, a: 4 }))]),
        ],
    };
    let m = specified_values(&e, &sheet);
    assert_eq!(m.entries.len(), 3);
    assert!(is_kw(&m.val("color"), "red"));
    assert!(matches!(m.val("width"), Some(Value::Length(10, Unit::Px))));
    assert!(matches!(m.val("background"), Some(Value::ColorValue(Color { r: 1, g: 2, b: 3, a: 4 }))));
    assert!(m.val("height").is_none());
}

#[test]
fn unmatched_element_has_no_values() {
    let e = element("p", &[]);
    let sheet = Stylesheet { rules: vec![rule(vec![sel(Some("div"), None, &[])], vec![decl("color", kw("red"))])] };
    assert_eq!(specified_values(&e, &sheet).entries.len(), 0);
}

#[test]
fn style_tree_mirrors_the_document() {
    let doc = elem(
        "div".to_string(),
        vec![],
        vec![text("hello".to_string()), elem("p".to_string(), vec![], vec![])],
    );
    let sheet = Stylesheet {
        rules: vec![rule(vec![sel(None, None, &[])], vec![decl("display", kw("block"))])],
    };
    let st = style_tree(&doc, &sheet);
    assert_eq!(st.children.len(), 2);
    assert!(is_kw(&st.val("display"), "block"));
    assert_eq!(st.children[0].specified_values.entries.len(), 0);
    assert!(matches!(st.children[0].node.node_type, NodeType::Text(_)));
    assert!(is_kw(&st.children[1].val("display"), "block"));
    assert_eq!(st.children[1].children.len(), 0);
    let _: &Node = st.node;
}
