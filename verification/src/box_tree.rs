//! The shape of the box tree: which boxes the nodes of the render tree generate, and
//! where anonymous boxes wrap inline-level contents.
//!
//! - https://www.w3.org/TR/css-display-3/#box-generation
//! - https://www.w3.org/TR/css-display-3/#anonymous
//!
//! The sizes and positions of the boxes are not part of the shape.
use vstd::prelude::*;

use crate::style::property::display::DisplayOutside;

verus! {

broadcast use vstd::seq::group_seq_axioms;

/// What kind of node of the document a node of the render tree stands for.
#[derive(Clone, Copy, Debug, PartialEq, Eq, Structural)]
pub enum StyleKind {
    Document,
    Element,
    Text,
    /// A comment or a document type: it generates no box.
    Other,
}

/// A node of the render tree as box building reads it: the kind of its document node,
/// the outer display type of its style, and its children, as indices into the arena.
#[derive(Clone, Debug)]
pub struct StyleNode {
    pub kind: StyleKind,
    pub display: DisplayOutside,
    pub children: Vec<usize>,
}

/// A box, with the index of the render node that generates it.
#[derive(Debug, PartialEq)]
pub enum BoxShape {
    Block(usize, Vec<BoxShape>),
    Inline(usize, Vec<BoxShape>),
    /// https://www.w3.org/TR/css-display-3/#anonymous
    Anonymous(Vec<BoxShape>),
    Text(usize),
}

/// A box as a mathematical value.
pub enum BoxModel {
    Block(usize, Seq<BoxModel>),
    Inline(usize, Seq<BoxModel>),
    Anonymous(Seq<BoxModel>),
    Text(usize),
}

/// The mathematical value of a box.
pub open spec fn shape_view(b: BoxShape) -> BoxModel
    decreases b, 0int,
{
    match b {
        BoxShape::Block(n, c) => BoxModel::Block(n, shapes_view(c@)),
        BoxShape::Inline(n, c) => BoxModel::Inline(n, shapes_view(c@)),
        BoxShape::Anonymous(c) => BoxModel::Anonymous(shapes_view(c@)),
        BoxShape::Text(n) => BoxModel::Text(n),
    }
}

/// The mathematical values of a list of boxes.
pub open spec fn shapes_view(s: Seq<BoxShape>) -> Seq<BoxModel>
    decreases s, 1int,
{
    if s.len() == 0 {
        Seq::empty()
    } else {
        seq![shape_view(s[0])] + shapes_view(s.drop_first())
    }
}

proof fn lemma_shapes_view_push(s: Seq<BoxShape>, b: BoxShape)
    ensures
        shapes_view(s.push(b)) == shapes_view(s).push(shape_view(b)),
    decreases s.len(),
{
    if s.len() > 0 {
        assert(s.push(b).drop_first() =~= s.drop_first().push(b));
        lemma_shapes_view_push(s.drop_first(), b);
        assert(shapes_view(s.push(b)) =~= shapes_view(s).push(shape_view(b)));
    } else {
        assert(s.push(b).drop_first() =~= Seq::<BoxShape>::empty());
        assert(shapes_view(Seq::<BoxShape>::empty()) == Seq::<BoxModel>::empty());
        assert(s.push(b)[0] == b);
        assert(shapes_view(s.push(b)) =~= seq![shape_view(b)]);
    }
}

/// The boxes of an anonymous box being filled, as mathematical values.
pub open spec fn open_view(o: Option<Vec<BoxShape>>) -> Option<Seq<BoxModel>> {
    match o {
        Some(a) => Some(shapes_view(a@)),
        None => None,
    }
}

/// Every child of a node comes after it in the arena.
pub open spec fn tree_ok(t: Seq<StyleNode>) -> bool {
    forall|i: int, k: int|
        0 <= i < t.len() && 0 <= k < t[i].children@.len() ==> i < #[trigger] t[i].children@[k] < t.len()
}

/// `Some(b)` pushed onto `s`; `s` for `None`.
pub open spec fn push_opt(s: Seq<BoxModel>, b: Option<BoxModel>) -> Seq<BoxModel> {
    match b {
        Some(x) => s.push(x),
        None => s,
    }
}

/// The anonymous box of `open`, if one is open.
pub open spec fn closed(open: Option<Seq<BoxModel>>) -> Seq<BoxModel> {
    match open {
        Some(a) => seq![BoxModel::Anonymous(a)],
        None => Seq::empty(),
    }
}

/// The box that node `i` generates (https://www.w3.org/TR/css-display-3/#box-generation):
/// none for the document node, comments and document types; a text box for text; a
/// block or inline box, by its outer display type, for an element, holding the boxes
/// of its children. `None` where building does not come to a result: a text node
/// without a parent, or a block-level child of an inline box, which is not supported.
pub open spec fn box_of(t: Seq<StyleNode>, i: int, has_parent: bool) -> Option<Option<BoxModel>>
    decreases t.len() - i, 1int, 0int,
{
    if !(0 <= i < t.len()) {
        Some(None)
    } else {
        match t[i].kind {
            StyleKind::Document | StyleKind::Other => Some(None),
            StyleKind::Text => if has_parent {
                Some(Some(BoxModel::Text(i as usize)))
            } else {
                None
            },
            StyleKind::Element => match children_boxes(t, i, 0, None) {
                None => None,
                Some(c) => Some(Some(
                    match t[i].display {
                        DisplayOutside::Block => BoxModel::Block(i as usize, c),
                        DisplayOutside::Inline => BoxModel::Inline(i as usize, c),
                    },
                )),
            },
        }
    }
}

/// The boxes of the children of element `i` from the `k`-th on, `open` holding the
/// boxes of the anonymous box being filled, if any. Where `i` is a block box with more
/// than one child, each run of inline-level children is wrapped in one anonymous box
/// (https://www.w3.org/TR/css-inline-3/#root-inline-box).
pub open spec fn children_boxes(t: Seq<StyleNode>, i: int, k: int, open: Option<Seq<BoxModel>>) -> Option<Seq<BoxModel>>
    decreases t.len() - i, 0int, t[i].children@.len() - k,
{
    let cs = t[i].children@;
    if !(0 <= i < t.len()) || k < 0 || k >= cs.len() {
        Some(closed(open))
    } else {
        let c = cs[k] as int;
        if !(i < c < t.len()) {
            None
        } else {
            let wrap = t[i].display == DisplayOutside::Block && cs.len() > 1;
            match t[c].display {
                DisplayOutside::Block => if t[i].display == DisplayOutside::Inline {
                    None
                } else {
                    match (box_of(t, c, true), children_boxes(t, i, k + 1, None)) {
                        (Some(b), Some(rest)) => Some(push_opt(closed(open), b) + rest),
                        _ => None,
                    }
                },
                DisplayOutside::Inline => if wrap {
                    match box_of(t, c, true) {
                        Some(b) => {
                            let acc = match open {
                                Some(a) => a,
                                None => Seq::empty(),
                            };
                            children_boxes(t, i, k + 1, Some(push_opt(acc, b)))
                        },
                        None => None,
                    }
                } else {
                    match (box_of(t, c, true), children_boxes(t, i, k + 1, None)) {
                        (Some(b), Some(rest)) => Some(push_opt(closed(open), b) + rest),
                        _ => None,
                    }
                },
            }
        }
    }
}

impl BoxShape {
    /// https://www.w3.org/TR/css-display-3/#box-generation: the box that node `node` of
    /// the render tree `tree` generates, with the boxes of its children; `None` for a
    /// node that generates no box. `has_parent` tells whether the node has a parent.
    pub fn build(tree: &Vec<StyleNode>, node: usize, has_parent: bool) -> (r: Option<BoxShape>)
        requires
            tree_ok(tree@),
            box_of(tree@, node as int, has_parent) is Some,
        ensures
            match box_of(tree@, node as int, has_parent) {
                Some(Some(m)) => r matches Some(b) && shape_view(b) == m,
                Some(None) => r is None,
                None => false,
            },
        decreases tree@.len() - node, 1int, 0int,
    {
        if node >= tree.len() {
            return None;
        }
        let n = &tree[node];
        match n.kind {
            StyleKind::Document | StyleKind::Other => None,
            StyleKind::Text => Some(BoxShape::Text(node)),
            StyleKind::Element => {
                let children = Self::build_children(tree, node);
                match n.display {
                    DisplayOutside::Block => Some(BoxShape::Block(node, children)),
                    DisplayOutside::Inline => Some(BoxShape::Inline(node, children)),
                }
            },
        }
    }

    /// The boxes of the children of element `node`.
    fn build_children(tree: &Vec<StyleNode>, node: usize) -> (r: Vec<BoxShape>)
        requires
            tree_ok(tree@),
            node < tree@.len(),
            children_boxes(tree@, node as int, 0, None) is Some,
        ensures
            children_boxes(tree@, node as int, 0, None) == Some(shapes_view(r@)),
        decreases tree@.len() - node, 0int, tree@[node as int].children@.len() + 1,
    {
        let ghost t = tree@;
        let cs = &tree[node].children;
        let parent_display = tree[node].display;
        let wrap = parent_display == DisplayOutside::Block && cs.len() > 1;
        let mut out: Vec<BoxShape> = Vec::new();
        let mut open: Option<Vec<BoxShape>> = None;
        let mut k: usize = 0;
        while k < cs.len()
            invariant
                t == tree@,
                tree_ok(t),
                node < t.len(),
                cs@ == t[node as int].children@,
                parent_display == t[node as int].display,
                wrap == (parent_display == DisplayOutside::Block && cs@.len() > 1),
                k <= cs@.len(),
                open is Some ==> wrap,
                children_boxes(t, node as int, 0, None) matches Some(all) && children_boxes(
                    t,
                    node as int,
                    k as int,
                    open_view(open),
                ) matches Some(rest) && all == shapes_view(out@) + rest,
            decreases cs@.len() - k,
        {
            let c = cs[k];
            assert(node < c < t.len());
            let ghost ov = open_view(open);
            if tree[c].display == DisplayOutside::Inline && wrap {
                let b = Self::build(tree, c, true);
                let mut acc = match open.take() {
                    Some(a) => a,
                    None => Vec::new(),
                };
                let ghost before = acc@;
                proof {
                    assert(ov is None ==> shapes_view(before) =~= Seq::<BoxModel>::empty());
                }
                match b {
                    Some(x) => {
                        acc.push(x);
                        proof {
                            lemma_shapes_view_push(before, x);
                        }
                    },
                    None => {},
                }
                open = Some(acc);
            } else {
                let b = Self::build(tree, c, true);
                let ghost before = out@;
                match open.take() {
                    Some(a) => {
                        out.push(BoxShape::Anonymous(a));
                        proof {
                            lemma_shapes_view_push(before, BoxShape::Anonymous(a));
                        }
                    },
                    None => {},
                }
                let ghost mid = out@;
                match b {
                    Some(x) => {
                        out.push(x);
                        proof {
                            lemma_shapes_view_push(mid, x);
                        }
                    },
                    None => {},
                }
                proof {
                    let rest1 = children_boxes(t, node as int, k + 1, None)->Some_0;
                    assert(shapes_view(out@) + rest1 =~= shapes_view(before) + (push_opt(closed(ov), box_of(t, c as int, true)->Some_0) + rest1));
                }
            }
            k = k + 1;
        }
        match open.take() {
            Some(a) => {
                let ghost before = out@;
                out.push(BoxShape::Anonymous(a));
                proof {
                    lemma_shapes_view_push(before, BoxShape::Anonymous(a));
                }
            },
            None => {},
        }
        proof {
            let all = children_boxes(t, node as int, 0, None)->Some_0;
            assert(all =~= shapes_view(out@));
        }
        out
    }
}


/// The boxes of a block element's children: a single inline-level child (here a text
/// node) is not wrapped; where there is more than one child, each run of inline-level
/// children is wrapped in one anonymous box and block-level children are not, in the
/// order of the children.
pub proof fn lemma_block_children(t: Seq<StyleNode>, i: int, has_parent: bool)
    requires
        tree_ok(t),
        0 <= i < t.len(),
        t[i].kind == StyleKind::Element,
        t[i].display == DisplayOutside::Block,
    ensures
        ({
            let cs = t[i].children@;
            (cs.len() == 1 && t[cs[0] as int].kind == StyleKind::Text && t[cs[0] as int].display
                == DisplayOutside::Inline) ==> box_of(t, i, has_parent) == Some(
                Some(BoxModel::Block(i as usize, seq![BoxModel::Text(cs[0])])),
            )
        }),
        ({
            let cs = t[i].children@;
            (cs.len() == 2 && t[cs[0] as int].kind == StyleKind::Text && t[cs[0] as int].display
                == DisplayOutside::Inline && t[cs[1] as int].kind == StyleKind::Text && t[cs[1] as int].display
                == DisplayOutside::Inline) ==> box_of(t, i, has_parent) == Some(
                Some(
                    BoxModel::Block(
                        i as usize,
                        seq![BoxModel::Anonymous(seq![BoxModel::Text(cs[0]), BoxModel::Text(cs[1])])],
                    ),
                ),
            )
        }),
        ({
            let cs = t[i].children@;
            (cs.len() == 2 && t[cs[0] as int].kind == StyleKind::Text && t[cs[0] as int].display
                == DisplayOutside::Inline && t[cs[1] as int].kind == StyleKind::Element && t[cs[1] as int].display
                == DisplayOutside::Block && t[cs[1] as int].children@.len() == 0) ==> box_of(t, i, has_parent)
                == Some(
                Some(
                    BoxModel::Block(
                        i as usize,
                        seq![
                            BoxModel::Anonymous(seq![BoxModel::Text(cs[0])]),
                            BoxModel::Block(cs[1], Seq::empty()),
                        ],
                    ),
                ),
            )
        }),
{
    let cs = t[i].children@;
    if cs.len() >= 1 {
        assert(i < cs[0] < t.len());
    }
    if cs.len() == 1 && t[cs[0] as int].kind == StyleKind::Text && t[cs[0] as int].display == DisplayOutside::Inline {
        let c0 = cs[0] as int;
        assert(box_of(t, c0, true) == Some(Some(BoxModel::Text(cs[0]))));
        assert(children_boxes(t, i, 1, None) == Some(Seq::<BoxModel>::empty()));
        assert(children_boxes(t, i, 0, None) == Some(seq![BoxModel::Text(cs[0])]));
    }
    if cs.len() == 2 {
        let c0 = cs[0] as int;
        let c1 = cs[1] as int;
        assert(i < c1 < t.len());
        if t[c0].kind == StyleKind::Text && t[c0].display == DisplayOutside::Inline {
            assert(box_of(t, c0, true) == Some(Some(BoxModel::Text(cs[0]))));
            let a0 = seq![BoxModel::Text(cs[0])];
            assert(Seq::<BoxModel>::empty().push(BoxModel::Text(cs[0])) =~= a0);
            if t[c1].kind == StyleKind::Text && t[c1].display == DisplayOutside::Inline {
                assert(box_of(t, c1, true) == Some(Some(BoxModel::Text(cs[1]))));
                let a1 = seq![BoxModel::Text(cs[0]), BoxModel::Text(cs[1])];
                assert(a0.push(BoxModel::Text(cs[1])) =~= a1);
                assert(children_boxes(t, i, 2, Some(a1)) == Some(seq![BoxModel::Anonymous(a1)]));
                assert(children_boxes(t, i, 1, Some(a0)) == children_boxes(t, i, 2, Some(a1)));
                assert(children_boxes(t, i, 0, None) == children_boxes(t, i, 1, Some(a0)));
            }
            if t[c1].kind == StyleKind::Element && t[c1].display == DisplayOutside::Block && t[c1].children@.len() == 0 {
                assert(children_boxes(t, c1, 0, None) == Some(Seq::<BoxModel>::empty()));
                assert(box_of(t, c1, true) == Some(Some(BoxModel::Block(cs[1], Seq::empty()))));
                assert(children_boxes(t, i, 2, None) == Some(Seq::<BoxModel>::empty()));
                assert(children_boxes(t, i, 1, Some(a0)) == Some(
                    seq![BoxModel::Anonymous(a0), BoxModel::Block(cs[1], Seq::empty())],
                )) by {
                    assert(push_opt(closed(Some(a0)), Some(BoxModel::Block(cs[1], Seq::empty())))
                        + Seq::<BoxModel>::empty() =~= seq![BoxModel::Anonymous(a0), BoxModel::Block(cs[1], Seq::empty())]);
                }
                assert(children_boxes(t, i, 0, None) == children_boxes(t, i, 1, Some(a0)));
            }
        }
    }
}

/// A block-level element inside an inline box is not supported: box building does
/// not come to a result.
pub proof fn lemma_block_in_inline(t: Seq<StyleNode>, i: int, k: int, has_parent: bool)
    requires
        tree_ok(t),
        0 <= i < t.len(),
        t[i].kind == StyleKind::Element,
        t[i].display == DisplayOutside::Inline,
        0 <= k < t[i].children@.len(),
        t[t[i].children@[k] as int].display == DisplayOutside::Block,
    ensures
        box_of(t, i, has_parent) is None,
{
    lemma_children_fail_from(t, i, 0, k);
}

/// Where an inline element's `k`-th child is block-level, reading its children from
/// any earlier child on fails.
proof fn lemma_children_fail_from(t: Seq<StyleNode>, i: int, j: int, k: int)
    requires
        tree_ok(t),
        0 <= i < t.len(),
        t[i].display == DisplayOutside::Inline,
        0 <= j <= k < t[i].children@.len(),
        t[t[i].children@[k] as int].display == DisplayOutside::Block,
    ensures
        children_boxes(t, i, j, None) is None,
    decreases k - j,
{
    let cs = t[i].children@;
    assert(i < cs[j] < t.len());
    if j < k {
        lemma_children_fail_from(t, i, j + 1, k);
    }
}
} // verus!
