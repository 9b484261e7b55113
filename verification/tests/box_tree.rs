use pentas::box_tree::{BoxShape, StyleKind, StyleNode};
use pentas::style::property::display::DisplayOutside;
use pentas::style::property::display::DisplayOutside::{Block, Inline};

fn node(kind: StyleKind, display: DisplayOutside, children: Vec<usize>) -> StyleNode {
    StyleNode { kind, display, children }
}

#[test]
fn inline_runs_in_a_block_are_wrapped_in_anonymous_boxes() {
    // document > html > body > ["a", span, div, "b"]
    let tree = vec![
        node(StyleKind::Document, Block, vec![1]),
        node(StyleKind::Element, Block, vec![2]),
        node(StyleKind::Element, Block, vec![3, 4, 5, 6]),
        node(StyleKind::Text, Inline, vec![]),
        node(StyleKind::Element, Inline, vec![]),
        node(StyleKind::Element, Block, vec![]),
        node(StyleKind::Text, Inline, vec![]),
    ];
    assert_eq!(BoxShape::build(&tree, 0, false), None);
    assert_eq!(
        BoxShape::build(&tree, 1, true),
        Some(BoxShape::Block(
            1,
            vec![BoxShape::Block(
                2,
                vec![
                    BoxShape::Anonymous(vec![BoxShape::Text(3), BoxShape::Inline(4, vec![])]),
                    BoxShape::Block(5, vec![]),
                    BoxShape::Anonymous(vec![BoxShape::Text(6)]),
                ]
            )]
        ))
    );
}

#[test]
fn a_single_inline_child_or_an_inline_parent_is_not_wrapped() {
    // p > "x";  span > ["y", em, comment]
    let tree = vec![
        node(StyleKind::Element, Block, vec![1]),
        node(StyleKind::Text, Inline, vec![]),
        node(StyleKind::Element, Inline, vec![3, 4, 5]),
        node(StyleKind::Text, Inline, vec![]),
        node(StyleKind::Element, Inline, vec![]),
        node(StyleKind::Other, Inline, vec![]),
    ];
    assert_eq!(BoxShape::build(&tree, 0, true), Some(BoxShape::Block(0, vec![BoxShape::Text(1)])));
    assert_eq!(
        BoxShape::build(&tree, 2, true),
        Some(BoxShape::Inline(2, vec![BoxShape::Text(3), BoxShape::Inline(4, vec![])]))
    );
}
