use pentas::css::cssom::{ComponentValue, StyleSheet};
use pentas::css::parser::parse;
use pentas::css::selector::{Selector, SimpleSelector};
use pentas::css::token::{CssToken, CssTokenizer, NumericType};
use pentas::html::dom::{DomNode, Element, NodeType};
use pentas::style::{CascadedStyle, DeclaredStyle, apply_filtering};

fn sheet(css: &str) -> StyleSheet {
    parse(&CssTokenizer::new(css).tokenize().unwrap()).unwrap()
}

fn element(tag: &str, attrs: &[(&str, &str)]) -> DomNode {
    DomNode::new(NodeType::Element(Element {
        tag_name: tag.to_string(),
        attributes: attrs.iter().map(|(k, v)| (k.to_string(), v.to_string())).collect(),
    }))
}

/// document > html > body > p#x.a
fn page() -> (Vec<DomNode>, usize, usize) {
    let mut nodes = vec![DomNode::new(NodeType::Document)];
    let html = DomNode::append_child(&mut nodes, 0, element("html", &[]));
    let body = DomNode::append_child(&mut nodes, html, element("body", &[]));
    let p = DomNode::append_child(&mut nodes, body, element("p", &[("id", "x"), ("class", "a")]));
    (nodes, body, p)
}

fn ident(s: &str) -> ComponentValue {
    ComponentValue::PreservedToken(CssToken::Ident(s.to_string()))
}

fn entries(c: &CascadedStyle) -> Vec<(String, Vec<ComponentValue>)> {
    c.values.iter().map(|(k, v)| (k.clone(), v.iter().map(|x| x.copy()).collect())).collect()
}

#[test]
fn filtering_keeps_the_order_of_the_sheets() {
    let (nodes, body, p) = page();
    let sheets = vec![
        sheet("p { color: red; margin: 1px; } #x { color: blue; } h1 { color: gray; }"),
        sheet("p, .a { color: green; } ul { color: black; }"),
    ];
    let declared = apply_filtering(&nodes, p, &sheets);
    let selectors: Vec<&Selector> = declared.values.iter().map(|(s, _)| s).collect();
    assert_eq!(
        selectors,
        vec![
            &Selector::Simple(vec![SimpleSelector::Type { namespace_prefix: None, name: "p".to_string() }]),
            &Selector::Simple(vec![SimpleSelector::Id("x".to_string())]),
            &Selector::Simple(vec![SimpleSelector::Type { namespace_prefix: None, name: "p".to_string() }]),
            &Selector::Simple(vec![SimpleSelector::Class("a".to_string())]),
        ]
    );
    assert_eq!(declared.values[0].1.len(), 2);
    assert_eq!(declared.values[1].1[0].value, vec![ident("blue")]);
    assert_eq!(declared.values[3].1[0].value, vec![ident("green")]);
    assert_eq!(apply_filtering(&nodes, body, &sheets).values.len(), 0);
}

#[test]
fn cascade_prefers_specific_then_later() {
    let (nodes, _, p) = page();
    let sheets = vec![sheet("p { color: red; margin: 1px; } #x { color: blue; } p { color: green; } .a { margin: 2px; }")];
    let cascaded = apply_filtering(&nodes, p, &sheets).apply_cascading();
    assert_eq!(
        entries(&cascaded),
        vec![
            ("color".to_string(), vec![ident("blue")]),
            (
                "margin".to_string(),
                vec![ComponentValue::PreservedToken(CssToken::Dimension(NumericType::Integer(2), "px".to_string()))]
            ),
        ]
    );
    // Among equally specific selectors the later one wins.
    let sheets = vec![sheet("p { color: red; } p { color: green; width: auto; }")];
    let cascaded = apply_filtering(&nodes, p, &sheets).apply_cascading();
    assert_eq!(
        entries(&cascaded),
        vec![("color".to_string(), vec![ident("green")]), ("width".to_string(), vec![ident("auto")])]
    );
}

#[test]
fn cascaded_style_keeps_the_first_value() {
    let mut c = CascadedStyle::new();
    c.add("color", &[ident("red")]);
    c.add("margin", &[ident("auto")]);
    c.add("color", &[ident("blue")]);
    assert_eq!(
        entries(&c),
        vec![("color".to_string(), vec![ident("red")]), ("margin".to_string(), vec![ident("auto")])]
    );
    let mut d = DeclaredStyle::new();
    assert_eq!(d.values.len(), 0);
    d.add(Selector::Simple(vec![SimpleSelector::Universal(None)]), &[]);
    assert_eq!(d.values.len(), 1);
    assert!(entries(&d.apply_cascading()).is_empty());
}

#[test]
fn one_id_outranks_ten_classes() {
    let mut nodes = vec![DomNode::new(NodeType::Document)];
    let html = DomNode::append_child(&mut nodes, 0, element("html", &[]));
    let p = DomNode::append_child(&mut nodes, html, element("p", &[("id", "x"), ("class", "a")]));
    // `.a` ten times: (0, 10, 0); `#x`: (1, 0, 0), declared first.
    let sheets = vec![sheet("#x { color: blue; } .a.a.a.a.a.a.a.a.a.a { color: red; }")];
    let cascaded = apply_filtering(&nodes, p, &sheets).apply_cascading();
    assert_eq!(entries(&cascaded), vec![("color".to_string(), vec![ident("blue")])]);
}
