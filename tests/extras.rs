use robinson::css::{Color, Declaration, Rule, Selector, SimpleSelector, Stylesheet, Unit, Value};
use robinson::dom::{elem, Node};
use robinson::layout::{build_layout_tree, Dimensions, EdgeSizes, Rct};
use robinson::painting::{build_display_list, get_color, Canvas, DisplayCommand};
use robinson::parser::Parser;
use robinson::style::style_tree;

fn node(tag: &str, children: Vec<Node>) -> Node {
    elem(tag.to_string(), vec![], children)
}

fn tag_rule(tag: &str, decls: Vec<(&str, Value)>) -> Rule {
    Rule {
        selectors: vec![Selector::Simple(SimpleSelector { tag_name: Some(tag.to_string()), id: None, class: vec![] })],
        declarations: decls.into_iter().map(|(n, v)| Declaration { nam: n.to_string(), val: v }).collect(),
    }
}

fn viewport(width: i64) -> Dimensions {
    let z = EdgeSizes { left: 0, right: 0, top: 0, bottom: 0 };
    Dimensions { content: Rct { x: 0, y: 0, width, height: 0 }, padding: z, border: z, margin: z }
}

#[test]
fn parser_reads_and_consumes() {
    let mut p = Parser::new("  ab1c".to_string());
    assert!(!p.eof());
    assert!(p.starts_with("  a"));
    assert!(!p.starts_with("ab"));
    p.cnsm_whitespace();
    assert_eq!(p.next_char(), 'a');
    assert!(p.starts_with("ab"));
    let word = p.cnsm_while(|c: char| c.is_alphabetic());
    assert_eq!(word, "ab");
    assert_eq!(p.cnsm_chr(), '1');
    assert_eq!(p.cnsm_chr(), 'c');
    assert!(p.eof());
    assert!(!p.starts_with("x"));
    assert!(p.starts_with(""));
}

#[test]
fn parser_handles_multibyte() {
    let mut p = Parser::new("é\u{3000}z".to_string());
    assert_eq!(p.cnsm_chr(), 'é');
    p.cnsm_whitespace();
    assert_eq!(p.next_char(), 'z');
}

#[test]
fn canvas_starts_white() {
    let c = Canvas::new(3, 2);
    assert_eq!(c.pixels.len(), 6);
    assert!(c.pixels.iter().all(|p| *p == Color { r: 255, g: 255, b: 255, a: 255 }));
    assert_eq!((c.width, c.height), (3, 2));
}

#[test]
fn display_list_has_background_and_borders() {
    let red = Color { r: 255, g: 0, b: 0, a: 255 };
    let blue = Color { r: 0, g: 0, b: 255, a: 255 };
    let doc = node("root", vec![node("c", vec![]), node("s", vec![])]);
    let s = Stylesheet {
        rules: vec![
            tag_rule("root", vec![("display", Value::Keyword("block".to_string())), ("background", Value::ColorValue(red))]),
            tag_rule(
                "c",
                vec![
                    ("display", Value::Keyword("block".to_string())),
                    ("height", Value::Length(10, Unit::Px)),
                    ("border-width", Value::Length(2, Unit::Px)),
                    ("border-color", Value::ColorValue(blue)),
                ],
            ),
        ],
    };
    let st = style_tree(&doc, &s);
    let mut b = build_layout_tree(&st).unwrap();
    b.layout(viewport(50));
    assert_eq!(get_color(&b, "background"), Some(red));
    assert_eq!(get_color(&b.children[1], "background"), None);
    let list = build_display_list(&b);
    assert_eq!(list.len(), 5);
    let DisplayCommand::SolidColor(c0, r0) = &list[0];
    assert_eq!(*c0, red);
    assert_eq!(*r0, Rct { x: 0, y: 0, width: 50, height: 14 });
    let rects: Vec<Rct> = list[1..].iter().map(|DisplayCommand::SolidColor(c, r)| {
        assert_eq!(*c, blue);
        *r
    }).collect();
    assert_eq!(rects[0], Rct { x: 0, y: 0, width: 2, height: 14 });
    assert_eq!(rects[1], Rct { x: 48, y: 0, width: 2, height: 14 });
    assert_eq!(rects[2], Rct { x: 0, y: 0, width: 50, height: 2 });
    assert_eq!(rects[3], Rct { x: 0, y: 12, width: 50, height: 2 });
}
