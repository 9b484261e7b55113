//! The document tree: https://dom.spec.whatwg.org/#document-trees
//!
//! The nodes of a document live in one vector, its arena. A node names its
//! parent, children and siblings by their index in that vector; a node is
//! always appended after its parent and after its earlier siblings.
use vstd::prelude::*;

use crate::error::Error;
use crate::html::token::attrs_view;
use crate::text::{pop_last, push_str};

verus! {

broadcast use vstd::seq::group_seq_axioms;

/// https://dom.spec.whatwg.org/#node
#[derive(Debug, Clone)]
pub struct DomNode {
    pub node_type: NodeType,
    pub children: Vec<usize>,
    pub parent: Option<usize>,
    pub prev_sibling: Option<usize>,
    pub next_sibling: Option<usize>,
}

/// https://dom.spec.whatwg.org/#dom-node-nodetype
#[derive(Debug, Clone, PartialEq, Eq)]
pub enum NodeType {
    Comment(String),
    Document,
    DocumentType(String),
    Element(Element),
    Text(String),
}

/// https://dom.spec.whatwg.org/#element
#[derive(Debug, Clone, PartialEq, Eq)]
pub struct Element {
    pub tag_name: String,
    pub attributes: Vec<(String, String)>,
}

/// https://dom.spec.whatwg.org/#document-trees
#[derive(Debug, Clone)]
pub struct DocumentTree {
    pub root: usize,
    pub nodes: Vec<DomNode>,
}

/// The last entry of `s`, if any.
pub open spec fn last_of(s: Seq<usize>) -> Option<usize> {
    if s.len() == 0 {
        None
    } else {
        Some(s.last())
    }
}

/// The `k`-th child of node `i` is linked back to `i` and to its neighbours in the child list.
pub open spec fn child_linked(t: Seq<DomNode>, i: int, k: int) -> bool {
    let cs = t[i].children@;
    let c = cs[k] as int;
    &&& i < c < t.len()
    &&& t[c].parent == Some(i as usize)
    &&& t[c].prev_sibling == (if k == 0 { None } else { Some(cs[k - 1]) })
    &&& t[c].next_sibling == (if k + 1 == cs.len() { None } else { Some(cs[k + 1]) })
}

/// Node `i` of the arena `t` is consistent with the nodes that it names.
pub open spec fn node_linked(t: Seq<DomNode>, i: int) -> bool {
    let n = t[i];
    &&& (n.parent matches Some(p) ==> p < i && t[p as int].children@.contains(i as usize))
    &&& (n.parent is None ==> n.prev_sibling is None && n.next_sibling is None)
    &&& (n.prev_sibling matches Some(s) ==> s < i)
    &&& (n.next_sibling matches Some(s) ==> i < s < t.len())
    &&& forall|k: int| 0 <= k < n.children@.len() ==> #[trigger] child_linked(t, i, k)
}

/// The arena `t` is a forest: every link points to a node of the arena and is
/// mirrored by the node it points to, and parents and earlier siblings come first.
pub open spec fn well_linked(t: Seq<DomNode>) -> bool {
    forall|i: int| 0 <= i < t.len() ==> #[trigger] node_linked(t, i)
}

/// The nodes of the subtree at `i`, in depth-first pre-order.
pub open spec fn preorder(t: Seq<DomNode>, i: int) -> Seq<usize>
    decreases t.len() - i, t[i].children@.len() + 1,
{
    if 0 <= i < t.len() {
        seq![i as usize] + preorder_from(t, i, 0)
    } else {
        seq![]
    }
}

/// The pre-orders of the children of `i` from the `k`-th on, one after the other.
pub open spec fn preorder_from(t: Seq<DomNode>, i: int, k: int) -> Seq<usize>
    decreases t.len() - i, t[i].children@.len() - k,
{
    if 0 <= i < t.len() && 0 <= k < t[i].children@.len() && i < t[i].children@[k] < t.len() {
        preorder(t, t[i].children@[k] as int) + preorder_from(t, i, k + 1)
    } else {
        seq![]
    }
}

/// The pre-orders of the nodes of a stack, the top (last) one first.
pub open spec fn preorder_stack(t: Seq<DomNode>, s: Seq<usize>) -> Seq<usize>
    decreases s.len(),
{
    if s.len() == 0 {
        seq![]
    } else {
        preorder(t, s.last() as int) + preorder_stack(t, s.drop_last())
    }
}

/// What a node is, as a mathematical value.
pub enum KindView {
    Comment(Seq<char>),
    Document,
    DocumentType(Seq<char>),
    Element(Seq<char>, Seq<(Seq<char>, Seq<char>)>),
    Text(Seq<char>),
}

/// A node as a mathematical value.
pub struct NodeView {
    pub kind: KindView,
    pub children: Seq<usize>,
    pub parent: Option<usize>,
    pub prev_sibling: Option<usize>,
    pub next_sibling: Option<usize>,
}

/// The mathematical value of a node type.
pub open spec fn kind_view(t: NodeType) -> KindView {
    match t {
        NodeType::Comment(s) => KindView::Comment(s@),
        NodeType::Document => KindView::Document,
        NodeType::DocumentType(s) => KindView::DocumentType(s@),
        NodeType::Element(e) => KindView::Element(e.tag_name@, attrs_view(e.attributes@)),
        NodeType::Text(s) => KindView::Text(s@),
    }
}

/// The mathematical value of a node.
pub open spec fn node_view(n: DomNode) -> NodeView {
    NodeView {
        kind: kind_view(n.node_type),
        children: n.children@,
        parent: n.parent,
        prev_sibling: n.prev_sibling,
        next_sibling: n.next_sibling,
    }
}

/// The mathematical values of the nodes of an arena.
pub open spec fn arena_view(t: Seq<DomNode>) -> Seq<NodeView> {
    t.map_values(|n: DomNode| node_view(n))
}

/// The arena `t` with a fresh node of kind `k` appended as the last child of node `node`.
pub open spec fn append_view(t: Seq<NodeView>, node: int, k: KindView) -> Seq<NodeView> {
    let r = t.len() as usize;
    let cs = t[node].children;
    let t1 = if cs.len() > 0 {
        t.update(cs.last() as int, NodeView { next_sibling: Some(r), ..t[cs.last() as int] })
    } else {
        t
    };
    let t2 = t1.update(node, NodeView { children: cs.push(r), ..t1[node] });
    t2.push(
        NodeView {
            kind: k,
            children: Seq::empty(),
            parent: Some(node as usize),
            prev_sibling: last_of(cs),
            next_sibling: None,
        },
    )
}

impl Default for DomNode {
    /// A document node with no links.
    fn default() -> (n: Self)
        ensures
            n.node_type == NodeType::Document,
            n.children@.len() == 0,
            n.parent is None,
            n.prev_sibling is None,
            n.next_sibling is None,
    {
        Self {
            node_type: NodeType::Document,
            children: Vec::new(),
            parent: None,
            prev_sibling: None,
            next_sibling: None,
        }
    }
}

impl DomNode {
    /// A node of the given type, not yet linked to any other.
    pub fn new(node_type: NodeType) -> (n: Self)
        ensures
            n.node_type == node_type,
            n.children@.len() == 0,
            n.parent is None,
            n.prev_sibling is None,
            n.next_sibling is None,
    {
        Self { node_type, children: Vec::new(), parent: None, prev_sibling: None, next_sibling: None }
    }

    /// Appends `child` to the arena as the last child of node `node`, and returns its index.
    pub fn append_child(nodes: &mut Vec<DomNode>, node: usize, child: Self) -> (r: usize)
        requires
            well_linked(old(nodes)@),
            node < old(nodes)@.len(),
            old(nodes)@.len() < usize::MAX,
        ensures
            r == old(nodes)@.len(),
            final(nodes)@.len() == r + 1,
            final(nodes)@[r as int].node_type == child.node_type,
            final(nodes)@[r as int].children == child.children,
            final(nodes)@[r as int].parent == Some(node),
            final(nodes)@[r as int].prev_sibling == last_of(old(nodes)@[node as int].children@),
            final(nodes)@[r as int].next_sibling == (if old(nodes)@[node as int].children@.len() == 0 {
                None
            } else {
                child.next_sibling
            }),
            final(nodes)@[node as int].children@ == old(nodes)@[node as int].children@.push(r),
            final(nodes)@[node as int].node_type == old(nodes)@[node as int].node_type,
            final(nodes)@[node as int].parent == old(nodes)@[node as int].parent,
            final(nodes)@[node as int].prev_sibling == old(nodes)@[node as int].prev_sibling,
            final(nodes)@[node as int].next_sibling == old(nodes)@[node as int].next_sibling,
            last_of(old(nodes)@[node as int].children@) matches Some(l) ==> final(nodes)@[l as int]
                == (DomNode { next_sibling: Some(r), ..old(nodes)@[l as int] }),
            forall|i: int|
                0 <= i < r && i != node && Some(i as usize) != last_of(
                    old(nodes)@[node as int].children@,
                ) ==> final(nodes)@[i] == old(nodes)@[i],
            child.children@.len() == 0 && child.next_sibling is None ==> well_linked(final(nodes)@),
            child.children@.len() == 0 && child.next_sibling is None ==> arena_view(final(nodes)@)
                == append_view(arena_view(old(nodes)@), node as int, kind_view(child.node_type)),
    {
        let r = nodes.len();
        let mut child = child;
        child.parent = Some(node);
        let n = nodes[node].children.len();
        if n == 0 {
            child.prev_sibling = None;
            child.next_sibling = None;
        } else {
            let last = nodes[node].children[n - 1];
            assert(node_linked(old(nodes)@, node as int));
            assert(child_linked(old(nodes)@, node as int, n - 1));
            child.prev_sibling = Some(last);
            nodes[last].next_sibling = Some(r);
        }
        nodes[node].children.push(r);
        nodes.push(child);
        proof {
            if child.children@.len() == 0 && child.next_sibling is None {
                lemma_append_keeps_links(old(nodes)@, nodes@, node as int);
                let t = arena_view(old(nodes)@);
                let u = append_view(t, node as int, kind_view(child.node_type));
                assert(node_linked(old(nodes)@, node as int));
                if n > 0 {
                    assert(child_linked(old(nodes)@, node as int, n - 1));
                }
                assert forall|i: int| 0 <= i < nodes@.len() implies #[trigger] arena_view(nodes@)[i] == u[i] by {
                    if i == r as int {
                        assert(nodes@[i].children@ =~= Seq::<usize>::empty());
                    } else if i == node as int {
                        assert(node_view(nodes@[i]).children == u[i].children);
                    } else if n > 0 && i == old(nodes)@[node as int].children@.last() as int {
                    } else {
                        assert(nodes@[i] == old(nodes)@[i]);
                    }
                }
                assert(arena_view(nodes@) =~= u);
            }
        }
        r
    }

    /// The text that a comment, document type or text node holds.
    pub fn get_inside_text(&self) -> (r: Option<String>)
        ensures
            match self.node_type {
                NodeType::Comment(t) | NodeType::DocumentType(t) | NodeType::Text(t) => r is Some
                    && r->0@ == t@,
                _ => r is None,
            },
    {
        match &self.node_type {
            NodeType::Comment(text) | NodeType::DocumentType(text) | NodeType::Text(text) => {
                Some(text.clone())
            },
            _ => None,
        }
    }

    /// Replaces the text of a text node; other nodes are left as they are.
    pub fn set_inside_text(&mut self, text: &str)
        ensures
            final(self).children == old(self).children,
            final(self).parent == old(self).parent,
            final(self).prev_sibling == old(self).prev_sibling,
            final(self).next_sibling == old(self).next_sibling,
            old(self).node_type is Text ==> final(self).node_type is Text
                && final(self).node_type->Text_0@ == text@,
            !(old(self).node_type is Text) ==> final(self).node_type == old(self).node_type,
    {
        if let NodeType::Text(t) = &mut self.node_type {
            *t = text.to_string();
        }
    }

    /// The tag name of an element node.
    pub fn get_tag_name(&self) -> (r: Option<String>)
        ensures
            match self.node_type {
                NodeType::Element(e) => r is Some && r->0@ == e.tag_name@,
                _ => r is None,
            },
    {
        if let NodeType::Element(elm) = &self.node_type {
            Some(elm.tag_name.clone())
        } else {
            None
        }
    }
}

/// Appending a fresh node as the last child of `node` keeps the arena well linked.
proof fn lemma_append_keeps_links(t: Seq<DomNode>, u: Seq<DomNode>, node: int)
    requires
        well_linked(t),
        0 <= node < t.len(),
        t.len() < usize::MAX,
        u.len() == t.len() + 1,
        u[t.len() as int].children@.len() == 0,
        u[t.len() as int].parent == Some(node as usize),
        u[t.len() as int].prev_sibling == last_of(t[node].children@),
        u[t.len() as int].next_sibling is None,
        u[node].children@ == t[node].children@.push(t.len() as usize),
        u[node].parent == t[node].parent,
        u[node].prev_sibling == t[node].prev_sibling,
        u[node].next_sibling == t[node].next_sibling,
        last_of(t[node].children@) matches Some(l) ==> u[l as int].children == t[l as int].children
            && u[l as int].parent == t[l as int].parent && u[l as int].prev_sibling == t[
            l as int].prev_sibling && u[l as int].next_sibling == Some(t.len() as usize),
        forall|i: int|
            0 <= i < t.len() && i != node && Some(i as usize) != last_of(t[node].children@) ==> u[i]
                == t[i],
    ensures
        well_linked(u),
{
    let r = t.len() as int;
    let cs = t[node].children@;
    assert(node_linked(t, node));
    assert forall|i: int| 0 <= i < u.len() implies #[trigger] node_linked(u, i) by {
        if i == r {
            assert(u[node].children@[cs.len() as int] == r);
            assert(u[node].children@.contains(r as usize));
            if cs.len() > 0 {
                assert(child_linked(t, node, cs.len() - 1));
            }
        } else {
            assert(node_linked(t, i));
            let n = t[i];
            if cs.len() > 0 {
                assert(child_linked(t, node, cs.len() - 1));
            }
            assert(u[i].parent == t[i].parent);
            assert(u[i].prev_sibling == t[i].prev_sibling);
            if let Some(p) = n.parent {
                assert(node_linked(t, p as int));
                let j = choose|j: int| 0 <= j < t[p as int].children@.len() && t[p as int].children@[j] == i;
                if p as int == node {
                    assert(u[p as int].children@[j] == i);
                } else if Some(p) == last_of(cs) {
                    assert(u[p as int].children@ == t[p as int].children@);
                    assert(u[p as int].children@[j] == i);
                } else {
                    assert(u[p as int].children@[j] == i);
                }
            }
            assert forall|k: int| 0 <= k < u[i].children@.len() implies #[trigger] child_linked(u, i, k) by {
                if i == node && k == cs.len() {
                } else {
                    assert(child_linked(t, i, k));
                    let c = t[i].children@[k] as int;
                    assert(node_linked(t, c));
                    if i == node {
                        if k + 1 == cs.len() {
                            assert(last_of(cs) == Some(c as usize));
                        } else {
                            assert(child_linked(t, node, cs.len() - 1));
                            assert(c != cs.last());
                        }
                    } else {
                        if Some(c as usize) == last_of(cs) {
                            assert(child_linked(t, node, cs.len() - 1));
                            assert(t[c].parent == Some(node as usize));
                        }
                    }
                }
            }
        }
    }
}

/// A depth-first walk visits the root of the subtree first, and after it only nodes
/// that come later in the arena.
pub proof fn lemma_preorder_root_first(t: Seq<DomNode>, i: int)
    requires
        0 <= i < t.len() <= usize::MAX,
    ensures
        preorder(t, i).len() >= 1,
        preorder(t, i)[0] == i,
        forall|k: int| 1 <= k < preorder(t, i).len() ==> #[trigger] preorder(t, i)[k] > i,
    decreases t.len() - i, t[i].children@.len() + 1,
{
    lemma_preorder_from_later(t, i, 0);
    let p = preorder(t, i);
    let f = preorder_from(t, i, 0);
    assert(p == seq![i as usize] + f);
    assert forall|k: int| 1 <= k < p.len() implies #[trigger] p[k] > i by {
        assert(p[k] == f[k - 1]);
    }
}

/// The walks below the children of `i` from the `k`-th on visit only nodes after `i`.
proof fn lemma_preorder_from_later(t: Seq<DomNode>, i: int, k: int)
    requires
        0 <= i < t.len() <= usize::MAX,
        0 <= k,
    ensures
        forall|j: int| 0 <= j < preorder_from(t, i, k).len() ==> #[trigger] preorder_from(t, i, k)[j] > i,
    decreases t.len() - i, t[i].children@.len() - k,
{
    if k < t[i].children@.len() && i < t[i].children@[k] < t.len() {
        let c = t[i].children@[k] as int;
        lemma_preorder_root_first(t, c);
        lemma_preorder_from_later(t, i, k + 1);
        let a = preorder(t, c);
        let b = preorder_from(t, i, k + 1);
        let f = preorder_from(t, i, k);
        assert(f == a + b);
        assert forall|j: int| 0 <= j < f.len() implies #[trigger] f[j] > i by {
            if j < a.len() {
                assert(f[j] == a[j]);
            } else {
                assert(f[j] == b[j - a.len()]);
            }
        }
    }
}

/// Node `a` is node `x` or one of its ancestors, following the parent links.
pub open spec fn at_or_above(t: Seq<DomNode>, a: int, x: int) -> bool
    decreases x,
{
    if !(0 <= x < t.len()) {
        false
    } else if a == x {
        true
    } else {
        match t[x].parent {
            Some(p) => if p < x {
                at_or_above(t, a, p as int)
            } else {
                false
            },
            None => false,
        }
    }
}

proof fn lemma_above_le(t: Seq<DomNode>, a: int, x: int)
    requires
        at_or_above(t, a, x),
    ensures
        a <= x,
    decreases x,
{
    if a != x {
        if let Some(p) = t[x].parent {
            lemma_above_le(t, a, p as int);
        }
    }
}

/// What lies below a child lies below its parent.
proof fn lemma_above_parent(t: Seq<DomNode>, c: int, i: int, x: int)
    requires
        0 <= i < c < t.len() <= usize::MAX,
        t[c].parent == Some(i as usize),
        at_or_above(t, c, x),
    ensures
        at_or_above(t, i, x),
    decreases x,
{
    if x != c {
        if let Some(p) = t[x].parent {
            lemma_above_parent(t, c, i, p as int);
        }
    } else {
        assert(at_or_above(t, i, i));
    }
}

/// Nothing lies below two different children of one node.
proof fn lemma_above_disjoint(t: Seq<DomNode>, c1: int, c2: int, i: int, x: int)
    requires
        c1 != c2,
        0 <= i < c1 < t.len() <= usize::MAX,
        i < c2 < t.len(),
        t[c1].parent == Some(i as usize),
        t[c2].parent == Some(i as usize),
    ensures
        !(at_or_above(t, c1, x) && at_or_above(t, c2, x)),
    decreases x,
{
    if at_or_above(t, c1, x) && at_or_above(t, c2, x) {
        if x == c1 {
            assert(at_or_above(t, c2, i));
            lemma_above_le(t, c2, i);
        } else if x == c2 {
            assert(at_or_above(t, c1, i));
            lemma_above_le(t, c1, i);
        } else {
            let p = t[x].parent.unwrap() as int;
            lemma_above_disjoint(t, c1, c2, i, p);
        }
    }
}

/// The children of a node are distinct.
proof fn lemma_children_distinct(t: Seq<DomNode>, i: int, k: int, m: int)
    requires
        well_linked(t),
        0 <= i < t.len(),
        0 <= k < m < t[i].children@.len(),
    ensures
        t[i].children@[k] != t[i].children@[m],
    decreases k,
{
    assert(node_linked(t, i));
    assert(child_linked(t, i, k));
    assert(child_linked(t, i, m));
    if k > 0 {
        lemma_children_distinct(t, i, k - 1, m - 1);
    }
}

/// A node below a child of `i` other than the root of the walk.
proof fn lemma_child_on_chain(t: Seq<DomNode>, i: int, x: int) -> (c: int)
    requires
        t.len() <= usize::MAX,
        0 <= i,
        at_or_above(t, i, x),
        x != i,
    ensures
        0 <= c < t.len(),
        t[c].parent == Some(i as usize),
        i < c,
        at_or_above(t, c, x),
    decreases x,
{
    let p = t[x].parent.unwrap() as int;
    if p == i {
        x
    } else {
        let c = lemma_child_on_chain(t, i, p);
        c
    }
}

/// The walk below `i` visits only nodes below `i`, each once.
proof fn lemma_preorder_below(t: Seq<DomNode>, i: int)
    requires
        well_linked(t),
        0 <= i < t.len() <= usize::MAX,
    ensures
        forall|j: int| 0 <= j < preorder(t, i).len() ==> at_or_above(t, i, #[trigger] preorder(t, i)[j] as int),
        preorder(t, i).no_duplicates(),
    decreases t.len() - i, t[i].children@.len() + 1,
{
    lemma_preorder_from_below(t, i, 0);
    lemma_preorder_from_later(t, i, 0);
    let f = preorder_from(t, i, 0);
    let p = preorder(t, i);
    assert(p == seq![i as usize] + f);
    assert forall|j: int| 0 <= j < p.len() implies at_or_above(t, i, #[trigger] p[j] as int) by {
        if j > 0 {
            assert(p[j] == f[j - 1]);
            let m = choose|m: int|
                0 <= m < t[i].children@.len() && at_or_above(t, t[i].children@[m] as int, f[j - 1] as int);
            assert(node_linked(t, i));
            assert(child_linked(t, i, m));
            lemma_above_parent(t, t[i].children@[m] as int, i, f[j - 1] as int);
        }
    }
    assert forall|a: int, b: int| 0 <= a < b < p.len() implies p[a] != p[b] by {
        if a == 0 {
            assert(p[b] == f[b - 1]);
        } else {
            assert(p[a] == f[a - 1] && p[b] == f[b - 1]);
        }
    }
}

/// The walks below the children of `i` from the `k`-th on visit only nodes below
/// those children, each once.
proof fn lemma_preorder_from_below(t: Seq<DomNode>, i: int, k: int)
    requires
        well_linked(t),
        0 <= i < t.len() <= usize::MAX,
        0 <= k,
    ensures
        forall|j: int|
            0 <= j < preorder_from(t, i, k).len() ==> exists|m: int|
                k <= m < t[i].children@.len() && at_or_above(
                    t,
                    t[i].children@[m] as int,
                    #[trigger] preorder_from(t, i, k)[j] as int,
                ),
        preorder_from(t, i, k).no_duplicates(),
    decreases t.len() - i, t[i].children@.len() - k,
{
    assert(node_linked(t, i));
    if k < t[i].children@.len() {
        assert(child_linked(t, i, k));
        let c = t[i].children@[k] as int;
        lemma_preorder_below(t, c);
        lemma_preorder_from_below(t, i, k + 1);
        let a = preorder(t, c);
        let b = preorder_from(t, i, k + 1);
        let f = preorder_from(t, i, k);
        assert(f == a + b);
        assert forall|j: int| 0 <= j < f.len() implies exists|m: int|
            k <= m < t[i].children@.len() && at_or_above(t, t[i].children@[m] as int, #[trigger] f[j] as int) by {
            if j < a.len() {
                assert(f[j] == a[j]);
                assert(at_or_above(t, t[i].children@[k] as int, f[j] as int));
            } else {
                assert(f[j] == b[j - a.len()]);
            }
        }
        assert forall|x: int, y: int| 0 <= x < y < f.len() implies f[x] != f[y] by {
            if x < a.len() && y >= a.len() {
                assert(f[x] == a[x] && f[y] == b[y - a.len()]);
                let m = choose|m: int|
                    k + 1 <= m < t[i].children@.len() && at_or_above(t, t[i].children@[m] as int, b[y - a.len()] as int);
                lemma_children_distinct(t, i, k, m);
                assert(child_linked(t, i, m));
                if f[x] == f[y] {
                    lemma_above_disjoint(t, c, t[i].children@[m] as int, i, f[x] as int);
                }
            } else if x < a.len() {
                assert(f[x] == a[x] && f[y] == a[y]);
            } else {
                assert(f[x] == b[x - a.len()] && f[y] == b[y - a.len()]);
            }
        }
    }
}

/// The walks below the children of `i` from the `k`-th on visit every node of the
/// walk below each of those children.
proof fn lemma_preorder_from_covers(t: Seq<DomNode>, i: int, k: int, m: int, x: usize)
    requires
        well_linked(t),
        0 <= i < t.len() <= usize::MAX,
        0 <= k <= m < t[i].children@.len(),
        preorder(t, t[i].children@[m] as int).contains(x),
    ensures
        preorder_from(t, i, k).contains(x),
    decreases m - k,
{
    assert(node_linked(t, i));
    assert(child_linked(t, i, k));
    let a = preorder(t, t[i].children@[k] as int);
    let b = preorder_from(t, i, k + 1);
    assert(preorder_from(t, i, k) == a + b);
    if m == k {
        let j = choose|j: int| 0 <= j < a.len() && a[j] == x;
        assert((a + b)[j] == x);
    } else {
        lemma_preorder_from_covers(t, i, k + 1, m, x);
        let j = choose|j: int| 0 <= j < b.len() && b[j] == x;
        assert((a + b)[a.len() + j] == x);
    }
}

/// The walk below `i` visits every node below `i`.
proof fn lemma_preorder_covers(t: Seq<DomNode>, i: int, x: int)
    requires
        well_linked(t),
        0 <= i < t.len() <= usize::MAX,
        at_or_above(t, i, x),
    ensures
        preorder(t, i).contains(x as usize),
    decreases t.len() - i,
{
    let p = preorder(t, i);
    assert(p == seq![i as usize] + preorder_from(t, i, 0));
    if x == i {
        assert(p[0] == x as usize);
    } else {
        let c = lemma_child_on_chain(t, i, x);
        assert(node_linked(t, c));
        assert(t[i].children@.contains(c as usize));
        let m = choose|m: int| 0 <= m < t[i].children@.len() && t[i].children@[m] == c as usize;
        lemma_preorder_covers(t, c, x);
        lemma_preorder_from_covers(t, i, 0, m, x as usize);
        let f = preorder_from(t, i, 0);
        let j = choose|j: int| 0 <= j < f.len() && f[j] == x as usize;
        assert(p[j + 1] == x as usize);
    }
}

/// A depth-first walk of the subtree at `i` visits each node of the subtree exactly
/// once and no other node: the root first, each node before the nodes below it, and
/// the subtree of each child after those of the children before it.
pub proof fn lemma_preorder_once(t: Seq<DomNode>, i: int)
    requires
        well_linked(t),
        0 <= i < t.len() <= usize::MAX,
    ensures
        preorder(t, i)[0] == i,
        preorder(t, i).no_duplicates(),
        forall|x: int| 0 <= x < t.len() ==> (preorder(t, i).contains(x as usize) <==> at_or_above(t, i, x)),
        preorder(t, i) == seq![i as usize] + preorder_from(t, i, 0),
{
    lemma_preorder_root_first(t, i);
    lemma_preorder_below(t, i);
    assert forall|x: int| 0 <= x < t.len() implies (preorder(t, i).contains(x as usize) <==> at_or_above(t, i, x)) by {
        if at_or_above(t, i, x) {
            lemma_preorder_covers(t, i, x);
        }
        if preorder(t, i).contains(x as usize) {
            let j = choose|j: int| 0 <= j < preorder(t, i).len() && preorder(t, i)[j] == x as usize;
            assert(at_or_above(t, i, preorder(t, i)[j] as int));
        }
    }
}

/// Changing what a node is, and nothing else, keeps the arena well linked.
pub proof fn lemma_retype_keeps_links(t: Seq<DomNode>, u: Seq<DomNode>, l: int)
    requires
        well_linked(t),
        u.len() == t.len(),
        0 <= l < t.len(),
        u[l].children == t[l].children,
        u[l].parent == t[l].parent,
        u[l].prev_sibling == t[l].prev_sibling,
        u[l].next_sibling == t[l].next_sibling,
        forall|i: int| 0 <= i < t.len() && i != l ==> u[i] == t[i],
    ensures
        well_linked(u),
{
    assert forall|i: int| 0 <= i < u.len() implies #[trigger] node_linked(u, i) by {
        assert(node_linked(t, i));
        if let Some(p) = t[i].parent {
            assert(u[p as int].children == t[p as int].children);
        }
        assert forall|k: int| 0 <= k < u[i].children@.len() implies #[trigger] child_linked(u, i, k) by {
            assert(child_linked(t, i, k));
            let c = t[i].children@[k] as int;
            assert(u[c].parent == t[c].parent);
        }
    }
}

impl DocumentTree {
    /// A document tree whose root is node `root` of the arena; the root must be a document node.
    pub fn build(nodes: Vec<DomNode>, root: usize) -> (r: Result<Self, Error>)
        requires
            root < nodes@.len(),
        ensures
            nodes@[root as int].node_type is Document <==> r is Ok,
            r matches Ok(tree) ==> tree.root == root && tree.nodes@ == nodes@,
            r matches Err(e) ==> e == Error::InvalidDocumentRoot,
    {
        if let NodeType::Document = &nodes[root].node_type {
            Ok(Self { root, nodes })
        } else {
            Err(Error::InvalidDocumentRoot)
        }
    }

    /// The indices of the nodes of the tree, in depth-first pre-order.
    pub fn get_dfs_iter(&self) -> (r: Vec<usize>)
        requires
            well_linked(self.nodes@),
            self.root < self.nodes@.len(),
        ensures
            r@ == preorder(self.nodes@, self.root as int),
    {
        let ghost t = self.nodes@;
        let ghost whole = preorder(t, self.root as int);
        let mut out: Vec<usize> = Vec::new();
        let mut stack: Vec<usize> = vec![self.root];
        assert(preorder_stack(t, stack@) == whole) by {
            assert(stack@.drop_last() =~= Seq::<usize>::empty());
            assert(stack@.last() == self.root);
            assert(preorder_stack(t, stack@.drop_last()) == Seq::<usize>::empty());
            assert(whole + Seq::<usize>::empty() =~= whole);
        }
        while stack.len() > 0
            invariant
                t == self.nodes@,
                well_linked(t),
                whole == preorder(t, self.root as int),
                out@ + preorder_stack(t, stack@) == whole,
                forall|j: int| 0 <= j < stack@.len() ==> stack@[j] < t.len(),
            decreases whole.len() - out@.len(),
        {
            let i = stack.pop().unwrap();
            let ghost below = stack@;
            assert(preorder_stack(t, below.push(i)) == preorder(t, i as int) + preorder_stack(t, below)) by {
                assert(below.push(i).drop_last() == below);
            }
            out.push(i);
            assert(node_linked(t, i as int));
            let n = self.nodes[i].children.len();
            let mut k = n;
            assert(preorder_from(t, i as int, n as int) == Seq::<usize>::empty());
            while k > 0
                invariant
                    t == self.nodes@,
                    well_linked(t),
                    node_linked(t, i as int),
                    i < t.len(),
                    n == t[i as int].children@.len(),
                    k <= n,
                    preorder_stack(t, stack@) == preorder_from(t, i as int, k as int) + preorder_stack(t, below),
                    forall|j: int| 0 <= j < stack@.len() ==> stack@[j] < t.len(),
                decreases k,
            {
                k = k - 1;
                let c = self.nodes[i].children[k];
                assert(child_linked(t, i as int, k as int));
                let ghost before = stack@;
                stack.push(c);
                assert(stack@.drop_last() == before);
                assert(preorder_from(t, i as int, k as int) == preorder(t, c as int) + preorder_from(t, i as int, k + 1));
            }
            assert(preorder(t, i as int) == seq![i] + preorder_from(t, i as int, 0));
            assert(out@ + preorder_stack(t, stack@) == whole);
        }
        assert(preorder_stack(t, stack@) == Seq::<usize>::empty());
        out
    }
}

/// What `{:?}` writes for the text `s`: the text in double quotes, with the
/// characters that need it escaped.
pub uninterp spec fn debug_text(s: Seq<char>) -> Seq<char>;

/// The text `s` as `{:?}` writes it.
///
/// Calls `<str as Debug>::fmt` through `format!`. The result is named
/// `debug_text(s@)`; which characters are escaped, and how, is left unsaid.
#[verifier::external_body]
fn debug_text_of(s: &str) -> (r: String)
    ensures
        r@ == debug_text(s@),
{
    format!("{:?}", s)
}

/// An attribute as a dump writes it: `"name"="value"`.
pub open spec fn attr_text(a: (String, String)) -> Seq<char> {
    "\""@ + a.0@ + "\"=\""@ + a.1@ + "\""@
}

/// The attributes as a dump writes them, separated by `; `.
pub open spec fn attrs_text(l: Seq<(String, String)>) -> Seq<char>
    decreases l.len(),
{
    if l.len() == 0 {
        Seq::empty()
    } else if l.len() == 1 {
        attr_text(l[0])
    } else {
        attrs_text(l.drop_last()) + "; "@ + attr_text(l.last())
    }
}

/// An element as a dump writes it: its tag name, and its attributes where it has any.
pub open spec fn element_text(e: Element) -> Seq<char> {
    if e.attributes@.len() == 0 {
        "Elem( tag: <"@ + e.tag_name@ + "> )"@
    } else {
        "Elem( tag: <"@ + e.tag_name@ + ">, attr: ["@ + attrs_text(e.attributes@) + "] )"@
    }
}

/// A node type as a dump writes it.
pub open spec fn node_type_text(n: NodeType) -> Seq<char> {
    match n {
        NodeType::Comment(t) => "Comment( "@ + t@ + " )"@,
        NodeType::Document => "Document"@,
        NodeType::DocumentType(t) => "DocumentType( "@ + t@ + " )"@,
        NodeType::Element(e) => element_text(e),
        NodeType::Text(t) => "Text( "@ + t@ + " )"@,
    }
}

/// A node as a tree dump writes it, given `quoted`, the text it holds as `{:?}` writes
/// it: an element as `element_text`, another node as `{:?}` writes its type.
pub open spec fn node_text_with(n: NodeType, quoted: Seq<char>) -> Seq<char> {
    match n {
        NodeType::Comment(_) => "Comment("@ + quoted + ")"@,
        NodeType::Document => "Document"@,
        NodeType::DocumentType(_) => "DocumentType("@ + quoted + ")"@,
        NodeType::Element(e) => element_text(e),
        NodeType::Text(_) => "Text("@ + quoted + ")"@,
    }
}

/// The text that a node holds, where it holds one.
pub open spec fn held_text(n: NodeType) -> Seq<char> {
    match n {
        NodeType::Comment(t) | NodeType::DocumentType(t) | NodeType::Text(t) => t@,
        _ => Seq::empty(),
    }
}

/// A node as a tree dump writes it.
pub open spec fn node_text(n: NodeType) -> Seq<char> {
    node_text_with(n, debug_text(held_text(n)))
}

/// The indentation before a node at depth `depth`: a bar for each level above it
/// whose branch goes on, blanks for those in `excluded`.
pub open spec fn branches(depth: nat, excluded: Seq<usize>) -> Seq<char>
    decreases depth,
{
    if depth == 0 {
        Seq::empty()
    } else {
        branches((depth - 1) as nat, excluded) + (if excluded.contains((depth - 1) as usize) {
            "  "@
        } else {
            "│ "@
        })
    }
}

/// The levels whose branch ends, seen from the children of a node at depth `depth`.
pub open spec fn excluded_below(excluded: Seq<usize>, depth: nat, last: bool) -> Seq<usize> {
    if last {
        excluded.push(depth as usize)
    } else {
        excluded
    }
}

/// The lines of the subtree at `i`, drawn at depth `depth`: its own line, then those
/// of its children.
pub open spec fn tree_text(t: Seq<DomNode>, i: int, depth: nat, last: bool, excluded: Seq<usize>) -> Seq<char>
    decreases t.len() - i, t[i].children@.len() + 1,
{
    if 0 <= i < t.len() {
        let ex = excluded_below(excluded, depth, last);
        branches(depth, ex) + (if last {
            "└─"@
        } else {
            "├─"@
        }) + node_text(t[i].node_type) + "\n"@ + children_text(t, i, 0, depth + 1, ex)
    } else {
        Seq::empty()
    }
}

/// The lines of the subtrees of the children of `i` from the `k`-th on.
pub open spec fn children_text(t: Seq<DomNode>, i: int, k: int, depth: nat, excluded: Seq<usize>) -> Seq<char>
    decreases t.len() - i, t[i].children@.len() - k,
{
    if 0 <= i < t.len() && 0 <= k < t[i].children@.len() && i < t[i].children@[k] < t.len() {
        tree_text(t, t[i].children@[k] as int, depth, k + 1 == t[i].children@.len(), excluded)
            + children_text(t, i, k + 1, depth, excluded)
    } else {
        Seq::empty()
    }
}

impl Element {
    /// The element as a dump writes it: see `element_text`.
    pub fn to_string(&self) -> (s: String)
        ensures
            s@ == element_text(*self),
    {
        let mut s = String::new();
        push_str(&mut s, "Elem( tag: <");
        push_str(&mut s, self.tag_name.as_str());
        if self.attributes.len() == 0 {
            push_str(&mut s, "> )");
            return s;
        }
        push_str(&mut s, ">, attr: [");
        let ghost start = s@;
        let mut k: usize = 0;
        while k < self.attributes.len()
            invariant
                k <= self.attributes@.len(),
                s@ == start + attrs_text(self.attributes@.take(k as int)),
            decreases self.attributes.len() - k,
        {
            let ghost before = s@;
            if k > 0 {
                push_str(&mut s, "; ");
            }
            let (name, value) = &self.attributes[k];
            push_str(&mut s, "\"");
            push_str(&mut s, name.as_str());
            push_str(&mut s, "\"=\"");
            push_str(&mut s, value.as_str());
            push_str(&mut s, "\"");
            proof {
                let l = self.attributes@.take(k + 1);
                assert(l.drop_last() =~= self.attributes@.take(k as int));
                assert(l.last() == self.attributes@[k as int]);
                if k == 0 {
                    assert(attrs_text(self.attributes@.take(0)) =~= Seq::<char>::empty());
                    assert(s@ =~= start + attrs_text(l));
                } else {
                    assert(s@ =~= start + attrs_text(l));
                }
            }
            k = k + 1;
        }
        assert(self.attributes@.take(self.attributes@.len() as int) =~= self.attributes@);
        push_str(&mut s, "] )");
        s
    }
}

impl NodeType {
    /// The node type as a dump writes it: see `node_type_text`.
    pub fn to_string(&self) -> (s: String)
        ensures
            s@ == node_type_text(*self),
    {
        let mut s = String::new();
        match self {
            NodeType::Comment(t) => {
                push_str(&mut s, "Comment( ");
                push_str(&mut s, t.as_str());
                push_str(&mut s, " )");
            },
            NodeType::Document => push_str(&mut s, "Document"),
            NodeType::DocumentType(t) => {
                push_str(&mut s, "DocumentType( ");
                push_str(&mut s, t.as_str());
                push_str(&mut s, " )");
            },
            NodeType::Element(e) => {
                return e.to_string();
            },
            NodeType::Text(t) => {
                push_str(&mut s, "Text( ");
                push_str(&mut s, t.as_str());
                push_str(&mut s, " )");
            },
        }
        s
    }
}

/// A node as a tree dump writes it, given the text it holds as `{:?}` writes it: see
/// `node_text_with`.
pub fn node_text_of(node_type: &NodeType, quoted: &str) -> (s: String)
    ensures
        s@ == node_text_with(*node_type, quoted@),
{
    let mut s = String::new();
    match node_type {
        NodeType::Comment(_) => {
            push_str(&mut s, "Comment(");
            push_str(&mut s, quoted);
            push_str(&mut s, ")");
        },
        NodeType::Document => push_str(&mut s, "Document"),
        NodeType::DocumentType(_) => {
            push_str(&mut s, "DocumentType(");
            push_str(&mut s, quoted);
            push_str(&mut s, ")");
        },
        NodeType::Element(e) => {
            return e.to_string();
        },
        NodeType::Text(_) => {
            push_str(&mut s, "Text(");
            push_str(&mut s, quoted);
            push_str(&mut s, ")");
        },
    }
    s
}

impl DomNode {
    /// The node as a tree dump writes it: see `node_text`.
    pub fn to_string(&self) -> (s: String)
        ensures
            s@ == node_text(self.node_type),
    {
        let quoted = match &self.node_type {
            NodeType::Comment(t) | NodeType::DocumentType(t) | NodeType::Text(t) => debug_text_of(t.as_str()),
            _ => String::new(),
        };
        node_text_of(&self.node_type, quoted.as_str())
    }
}

/// Whether `x` is one of `v`.
fn contains_index(v: &Vec<usize>, x: usize) -> (r: bool)
    ensures
        r == v@.contains(x),
{
    let mut k: usize = 0;
    while k < v.len()
        invariant
            k <= v@.len(),
            forall|j: int| 0 <= j < k ==> v@[j] != x,
        decreases v.len() - k,
    {
        if v[k] == x {
            return true;
        }
        k = k + 1;
    }
    false
}

/// Appends the lines of the subtree at `i`, drawn at depth `depth`, to `out`.
fn write_subtree(t: &Vec<DomNode>, i: usize, depth: usize, last: bool, excluded: &Vec<usize>, out: &mut String)
    requires
        well_linked(t@),
        i < t@.len(),
        depth <= i,
    ensures
        final(out)@ == old(out)@ + tree_text(t@, i as int, depth as nat, last, excluded@),
    decreases t@.len() - i, t@[i as int].children@.len() + 1,
{
    let mut ex: Vec<usize> = Vec::new();
    let mut k: usize = 0;
    while k < excluded.len()
        invariant
            k <= excluded@.len(),
            ex@ == excluded@.take(k as int),
        decreases excluded.len() - k,
    {
        ex.push(excluded[k]);
        assert(excluded@.take(k + 1) =~= excluded@.take(k as int).push(excluded@[k as int]));
        k = k + 1;
    }
    assert(excluded@.take(excluded@.len() as int) =~= excluded@);
    if last {
        ex.push(depth);
    }
    assert(ex@ == excluded_below(excluded@, depth as nat, last));
    let ghost start = out@;
    let mut j: usize = 0;
    while j < depth
        invariant
            j <= depth,
            out@ == start + branches(j as nat, ex@),
        decreases depth - j,
    {
        let ghost before = out@;
        if contains_index(&ex, j) {
            push_str(out, "  ");
        } else {
            push_str(out, "│ ");
        }
        assert(out@ =~= start + branches((j + 1) as nat, ex@));
        j = j + 1;
    }
    push_str(out, if last { "└─" } else { "├─" });
    push_str(out, t[i].to_string().as_str());
    push_str(out, "\n");
    let ghost line = out@;
    let ghost whole = tree_text(t@, i as int, depth as nat, last, excluded@);
    assert(line + children_text(t@, i as int, 0, (depth + 1) as nat, ex@) =~= start + whole);
    assert(node_linked(t@, i as int));
    let n = t[i].children.len();
    let mut k: usize = 0;
    while k < n
        invariant
            well_linked(t@),
            i < t@.len(),
            depth <= i,
            node_linked(t@, i as int),
            n == t@[i as int].children@.len(),
            k <= n,
            ex@ == excluded_below(excluded@, depth as nat, last),
            out@ + children_text(t@, i as int, k as int, (depth + 1) as nat, ex@) == start + whole,
        decreases n - k,
    {
        let c = t[i].children[k];
        assert(child_linked(t@, i as int, k as int));
        let ghost before = out@;
        write_subtree(t, c, depth + 1, k + 1 == n, &ex, out);
        assert(children_text(t@, i as int, k as int, (depth + 1) as nat, ex@) == tree_text(t@, c as int, (depth + 1) as nat, k + 1 == n, ex@) + children_text(t@, i as int, k + 1, (depth + 1) as nat, ex@));
        assert(out@ + children_text(t@, i as int, k + 1, (depth + 1) as nat, ex@) =~= before + children_text(t@, i as int, k as int, (depth + 1) as nat, ex@));
        k = k + 1;
    }
    assert(children_text(t@, i as int, n as int, (depth + 1) as nat, ex@) =~= Seq::<char>::empty());
    assert(out@ =~= start + whole);
}

/// The lines of a whole tree, drawn from its root, without the last line break.
pub open spec fn document_text(t: Seq<DomNode>, root: int) -> Seq<char> {
    tree_text(t, root, 0, true, Seq::empty()).drop_last()
}

impl DocumentTree {
    /// The tree as a dump draws it: a line for each node in depth-first pre-order,
    /// indented by its depth with branches to its siblings.
    pub fn to_string(&self) -> (s: String)
        requires
            well_linked(self.nodes@),
            self.root < self.nodes@.len(),
        ensures
            s@ == document_text(self.nodes@, self.root as int),
    {
        let mut out = String::new();
        let excluded: Vec<usize> = Vec::new();
        write_subtree(&self.nodes, self.root, 0, true, &excluded, &mut out);
        assert(excluded@ =~= Seq::<usize>::empty());
        proof {
            reveal_strlit("\n");
            assert(out@.len() > 0);
        }
        pop_last(&mut out);
        out
    }
}

} // verus!
