use pentas::css::cssom::{AtRule, Rule, StyleRule};
use pentas::css::selector::{Combinator, Selector, SimpleSelector};
use pentas::html::dom::{DomNode, Element, NodeType};

fn type_sel(name: &str) -> SimpleSelector {
    SimpleSelector::Type { namespace_prefix: None, name: name.to_string() }
}

#[test]
fn calculate_specificity() {
    // *
    let selector = Selector::Simple(vec![SimpleSelector::Universal(None)]);
    assert_eq!(selector.calc_specificity(), 0);

    // LI
    let selector = Selector::Simple(vec![SimpleSelector::Type {
        namespace_prefix: None,
        name: "LI".to_string(),
    }]);
    assert_eq!(selector.calc_specificity(), 1);

    // UL LI
    let selector = Selector::Complex(
        Box::new(Selector::Simple(vec![SimpleSelector::Type {
            namespace_prefix: None,
            name: "UL".to_string(),
        }])),
        Combinator::Whitespace,
        Box::new(Selector::Simple(vec![SimpleSelector::Type {
            namespace_prefix: None,
            name: "LI".to_string(),
        }])),
    );
    assert_eq!(selector.calc_specificity(), 2);

    // UL OL + LI
    let selector = Selector::Complex(
        Box::new(Selector::Simple(vec![SimpleSelector::Type {
            namespace_prefix: None,
            name: "UL".to_string(),
        }])),
        Combinator::Whitespace,
        Box::new(Selector::Complex(
            Box::new(Selector::Simple(vec![SimpleSelector::Type {
                namespace_prefix: None,
                name: "LI".to_string(),
            }])),
            Combinator::Plus,
            Box::new(Selector::Simple(vec![SimpleSelector::Type {
                namespace_prefix: None,
                name: "LI".to_string(),
            }])),
        )),
    );
    assert_eq!(selector.calc_specificity(), 3);

    // H1 + *[REL=up]
    let selector = Selector::Complex(
        Box::new(Selector::Simple(vec![SimpleSelector::Type {
            namespace_prefix: None,
            name: "H1".to_string(),
        }])),
        Combinator::Plus,
        Box::new(Selector::Simple(vec![
            SimpleSelector::Universal(None),
            SimpleSelector::Attribute {
                namespace_prefix: None,
                name: "REL".to_string(),
                op: Some("=".to_string()),
                value: Some("up".to_string()),
            },
        ])),
    );
    assert_eq!(selector.calc_specificity(), 11);

    // UL OL LI.red
    let selector = Selector::Complex(
        Box::new(Selector::Simple(vec![SimpleSelector::Type {
            namespace_prefix: None,
            name: "UL".to_string(),
        }])),
        Combinator::Whitespace,
        Box::new(Selector::Complex(
            Box::new(Selector::Simple(vec![SimpleSelector::Type {
                namespace_prefix: None,
                name: "OL".to_string(),
            }])),
            Combinator::Whitespace,
            Box::new(Selector::Simple(vec![
                SimpleSelector::Type {
                    namespace_prefix: None,
                    name: "LI".to_string(),
                },
                SimpleSelector::Class("red".to_string()),
            ])),
        )),
    );
    assert_eq!(selector.calc_specificity(), 13);

    // LI.red.level
    let selector = Selector::Simple(vec![
        SimpleSelector::Type {
            namespace_prefix: None,
            name: "LI".to_string(),
        },
        SimpleSelector::Class("red".to_string()),
        SimpleSelector::Class("level".to_string()),
    ]);
    assert_eq!(selector.calc_specificity(), 21);

    // #x34y
    let selector = Selector::Simple(vec![SimpleSelector::Id("x34y".to_string())]);
    assert_eq!(selector.calc_specificity(), 100);
}

fn element(tag: &str, attrs: &[(&str, &str)]) -> DomNode {
    DomNode::new(NodeType::Element(Element {
        tag_name: tag.to_string(),
        attributes: attrs.iter().map(|(k, v)| (k.to_string(), v.to_string())).collect(),
    }))
}

/// document > html > body > [div#main.a.b > [p, "text", span], a[href]]
fn sample() -> (Vec<DomNode>, [usize; 6]) {
    let mut nodes = vec![DomNode::new(NodeType::Document)];
    let html = DomNode::append_child(&mut nodes, 0, element("html", &[]));
    let body = DomNode::append_child(&mut nodes, html, element("body", &[]));
    let div = DomNode::append_child(&mut nodes, body, element("div", &[("id", "main"), ("class", "a  b")]));
    let p = DomNode::append_child(&mut nodes, div, element("p", &[]));
    DomNode::append_child(&mut nodes, div, DomNode::new(NodeType::Text("text".to_string())));
    let span = DomNode::append_child(&mut nodes, div, element("span", &[]));
    let a = DomNode::append_child(&mut nodes, body, element("a", &[("href", "x")]));
    (nodes, [html, body, div, p, span, a])
}

#[test]
fn simple_selectors_match_elements() {
    let (nodes, [_, _, div, p, _, a]) = sample();
    assert!(type_sel("div").matches(&nodes[div]));
    assert!(!type_sel("div").matches(&nodes[p]));
    assert!(SimpleSelector::Class("a".to_string()).matches(&nodes[div]));
    assert!(SimpleSelector::Class("b".to_string()).matches(&nodes[div]));
    // "a  b" splits into "a", "", "b"
    assert!(SimpleSelector::Class("".to_string()).matches(&nodes[div]));
    assert!(!SimpleSelector::Class("a b".to_string()).matches(&nodes[div]));
    assert!(!SimpleSelector::Class("c".to_string()).matches(&nodes[div]));
    assert!(SimpleSelector::Id("main".to_string()).matches(&nodes[div]));
    assert!(!SimpleSelector::Id("mai".to_string()).matches(&nodes[div]));
    assert!(SimpleSelector::PseudoClass("link".to_string()).matches(&nodes[a]));
    assert!(!SimpleSelector::PseudoClass("link".to_string()).matches(&nodes[div]));
    assert!(!SimpleSelector::PseudoClass("hover".to_string()).matches(&nodes[a]));
    assert!(!type_sel("div").matches(&nodes[0]));
}

#[test]
fn combinators_walk_the_tree() {
    let (nodes, [_, _, div, p, span, a]) = sample();
    let desc = Selector::Complex(
        Box::new(Selector::Simple(vec![type_sel("body")])),
        Combinator::Whitespace,
        Box::new(Selector::Simple(vec![type_sel("span")])),
    );
    assert!(desc.matches(&nodes, span));
    assert!(!desc.matches(&nodes, div));
    let child = Selector::Complex(
        Box::new(Selector::Simple(vec![type_sel("body")])),
        Combinator::GreaterThan,
        Box::new(Selector::Simple(vec![type_sel("span")])),
    );
    assert!(!child.matches(&nodes, span));
    let child_div = Selector::Complex(
        Box::new(Selector::Simple(vec![type_sel("body")])),
        Combinator::GreaterThan,
        Box::new(Selector::Simple(vec![type_sel("div")])),
    );
    assert!(child_div.matches(&nodes, div));
    // the text node between p and span is passed over
    let adjacent = Selector::Complex(
        Box::new(Selector::Simple(vec![type_sel("p")])),
        Combinator::Plus,
        Box::new(Selector::Simple(vec![type_sel("span")])),
    );
    assert!(adjacent.matches(&nodes, span));
    assert!(!adjacent.matches(&nodes, p));
    let general = Selector::Complex(
        Box::new(Selector::Simple(vec![type_sel("div")])),
        Combinator::Tilde,
        Box::new(Selector::Simple(vec![type_sel("a")])),
    );
    assert!(general.matches(&nodes, a));
    let not_adjacent = Selector::Complex(
        Box::new(Selector::Simple(vec![type_sel("span")])),
        Combinator::Plus,
        Box::new(Selector::Simple(vec![type_sel("a")])),
    );
    assert!(!not_adjacent.matches(&nodes, a));
}

#[test]
fn simple_sequence_needs_every_selector() {
    let (nodes, [_, _, div, _, _, _]) = sample();
    let both = Selector::Simple(vec![type_sel("div"), SimpleSelector::Class("b".to_string())]);
    assert!(both.matches(&nodes, div));
    let one_fails = Selector::Simple(vec![type_sel("div"), SimpleSelector::Class("z".to_string())]);
    assert!(!one_fails.matches(&nodes, div));
}

#[test]
fn rule_gives_the_matching_selectors_in_order() {
    let (nodes, [_, _, div, p, _, _]) = sample();
    let rule = StyleRule {
        selectors: vec![
            Selector::Simple(vec![type_sel("p")]),
            Selector::Simple(vec![type_sel("div")]),
            Selector::Simple(vec![SimpleSelector::Id("main".to_string())]),
        ],
        declarations: vec![],
    };
    assert_eq!(
        rule.get_matched_selectors(&nodes, div),
        Some(vec![
            Selector::Simple(vec![type_sel("div")]),
            Selector::Simple(vec![SimpleSelector::Id("main".to_string())]),
        ])
    );
    assert_eq!(rule.get_matched_selectors(&nodes, p), Some(vec![Selector::Simple(vec![type_sel("p")])]));
    assert_eq!(rule.get_matched_selectors(&nodes, 0), None);
    let qualified = Rule::QualifiedRule(rule);
    assert_eq!(qualified.get_matched_selectors(&nodes, p), Some(vec![Selector::Simple(vec![type_sel("p")])]));
    let at = Rule::AtRule(AtRule { name: "media".to_string(), prelude: vec![], block: None });
    assert_eq!(at.get_matched_selectors(&nodes, p), None);
}

#[test]
fn selector_copy_is_equal() {
    let sel = Selector::Complex(
        Box::new(Selector::Simple(vec![type_sel("div"), SimpleSelector::Class("a".to_string())])),
        Combinator::GreaterThan,
        Box::new(Selector::Simple(vec![SimpleSelector::Attribute {
            namespace_prefix: Some("ns".to_string()),
            name: "href".to_string(),
            op: Some("^=".to_string()),
            value: Some("x".to_string()),
        }])),
    );
    assert_eq!(sel.copy(), sel);
}

#[test]
fn complex_specificity_is_the_sum_of_its_sides() {
    let left = Selector::Simple(vec![type_sel("div"), SimpleSelector::Class("a".to_string())]);
    let right = Selector::Simple(vec![SimpleSelector::Id("x".to_string()), type_sel("p")]);
    assert_eq!(left.calc_specificity(), 11);
    assert_eq!(right.calc_specificity(), 101);
    let both = Selector::Complex(Box::new(left), Combinator::Plus, Box::new(right));
    assert_eq!(both.calc_specificity(), 112);
}

#[test]
fn left_compound_of_a_combinator_must_match_wholly() {
    let (nodes, [_, body, div, p, _, _]) = sample();
    // the body has no class `foo`
    let child = Selector::Complex(
        Box::new(Selector::Simple(vec![type_sel("body"), SimpleSelector::Class("foo".to_string())])),
        Combinator::GreaterThan,
        Box::new(Selector::Simple(vec![type_sel("div")])),
    );
    assert!(!child.matches(&nodes, div));
    let desc = Selector::Complex(
        Box::new(Selector::Simple(vec![type_sel("div"), SimpleSelector::Class("c".to_string())])),
        Combinator::Whitespace,
        Box::new(Selector::Simple(vec![type_sel("p")])),
    );
    assert!(!desc.matches(&nodes, p));
    let desc_ok = Selector::Complex(
        Box::new(Selector::Simple(vec![type_sel("div"), SimpleSelector::Class("a".to_string())])),
        Combinator::Whitespace,
        Box::new(Selector::Simple(vec![type_sel("p")])),
    );
    assert!(desc_ok.matches(&nodes, p));
    let _ = body;
}

#[test]
fn one_id_outranks_ten_classes_in_the_number() {
    let id = Selector::Simple(vec![SimpleSelector::Id("x".to_string())]);
    let classes = Selector::Simple(vec![SimpleSelector::Class("c".to_string()); 10]);
    assert_eq!(id.calc_specificity(), 100);
    assert_eq!(classes.calc_specificity(), 99);
    assert!(id.calc_specificity() > classes.calc_specificity());
    // (0, 2, 12) gives 029: more type selectors than 9 cannot pass a class selector.
    let mut l = vec![SimpleSelector::Class("c".to_string()); 2];
    l.extend(vec![type_sel("p"); 12]);
    assert_eq!(Selector::Simple(l).calc_specificity(), 29);
}
