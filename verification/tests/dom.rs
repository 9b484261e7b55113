use pentas::error::Error;
use pentas::html::dom::{DocumentTree, DomNode, Element, NodeType, node_text_of};

fn element(tag: &str) -> DomNode {
    DomNode::new(NodeType::Element(Element { tag_name: tag.to_string(), attributes: vec![] }))
}

#[test]
fn append_child_links_siblings() {
    let mut nodes = vec![DomNode::new(NodeType::Document)];
    let a = DomNode::append_child(&mut nodes, 0, element("a"));
    let b = DomNode::append_child(&mut nodes, 0, element("b"));
    let c = DomNode::append_child(&mut nodes, a, DomNode::new(NodeType::Text("t".to_string())));
    assert_eq!((a, b, c), (1, 2, 3));
    assert_eq!(nodes[0].children, vec![1, 2]);
    assert_eq!(nodes[a].parent, Some(0));
    assert_eq!(nodes[a].prev_sibling, None);
    assert_eq!(nodes[a].next_sibling, Some(b));
    assert_eq!(nodes[b].prev_sibling, Some(a));
    assert_eq!(nodes[b].next_sibling, None);
    assert_eq!(nodes[c].parent, Some(a));
    assert_eq!(nodes[a].children, vec![c]);
}

#[test]
fn inside_text_and_tag_name() {
    let mut text = DomNode::new(NodeType::Text("hello".to_string()));
    assert_eq!(text.get_inside_text(), Some("hello".to_string()));
    text.set_inside_text("bye");
    assert_eq!(text.get_inside_text(), Some("bye".to_string()));
    assert_eq!(text.get_tag_name(), None);
    let mut comment = DomNode::new(NodeType::Comment("c".to_string()));
    comment.set_inside_text("ignored");
    assert_eq!(comment.get_inside_text(), Some("c".to_string()));
    let doctype = DomNode::new(NodeType::DocumentType("html".to_string()));
    assert_eq!(doctype.get_inside_text(), Some("html".to_string()));
    let elm = element("p");
    assert_eq!(elm.get_tag_name(), Some("p".to_string()));
    assert_eq!(elm.get_inside_text(), None);
    assert_eq!(DomNode::new(NodeType::Document).get_inside_text(), None);
}

#[test]
fn document_tree_root_must_be_document() {
    let nodes = vec![element("html")];
    assert_eq!(DocumentTree::build(nodes, 0).err(), Some(Error::InvalidDocumentRoot));
    let nodes = vec![DomNode::new(NodeType::Document)];
    assert!(DocumentTree::build(nodes, 0).is_ok());
}

#[test]
fn dfs_visits_in_pre_order() {
    let mut nodes = vec![DomNode::new(NodeType::Document)];
    let html = DomNode::append_child(&mut nodes, 0, element("html"));
    let head = DomNode::append_child(&mut nodes, html, element("head"));
    let body = DomNode::append_child(&mut nodes, html, element("body"));
    let title = DomNode::append_child(&mut nodes, head, element("title"));
    let p = DomNode::append_child(&mut nodes, body, element("p"));
    let tree = DocumentTree::build(nodes, 0).unwrap();
    assert_eq!(tree.get_dfs_iter(), vec![0, html, head, title, body, p]);
}

#[test]
fn tree_dump_draws_branches() {
    let mut nodes = vec![DomNode::new(NodeType::Document)];
    let html = DomNode::append_child(
        &mut nodes,
        0,
        DomNode::new(NodeType::Element(Element {
            tag_name: "html".to_string(),
            attributes: vec![("lang".to_string(), "en".to_string())],
        })),
    );
    let head = DomNode::append_child(&mut nodes, html, element("head"));
    DomNode::append_child(&mut nodes, head, element("title"));
    let body = DomNode::append_child(&mut nodes, html, element("body"));
    let p = DomNode::append_child(&mut nodes, body, element("p"));
    DomNode::append_child(&mut nodes, p, DomNode::new(NodeType::Text("hi\n".to_string())));
    let tree = DocumentTree::build(nodes, 0).unwrap();
    let expected = [
        "└─Document",
        "  └─Elem( tag: <html>, attr: [\"lang\"=\"en\"] )",
        "    ├─Elem( tag: <head> )",
        "    │ └─Elem( tag: <title> )",
        "    └─Elem( tag: <body> )",
        "      └─Elem( tag: <p> )",
        "        └─Text(\"hi\\n\")",
    ]
    .join("\n");
    assert_eq!(tree.to_string(), expected);
}

#[test]
fn node_and_element_text() {
    let e = Element {
        tag_name: "a".to_string(),
        attributes: vec![("href".to_string(), "x".to_string()), ("id".to_string(), "y".to_string())],
    };
    assert_eq!(e.to_string(), "Elem( tag: <a>, attr: [\"href\"=\"x\"; \"id\"=\"y\"] )");
    assert_eq!(element("p").node_type.to_string(), "Elem( tag: <p> )");
    assert_eq!(NodeType::Comment("c".to_string()).to_string(), "Comment( c )");
    assert_eq!(NodeType::Document.to_string(), "Document");
    assert_eq!(NodeType::DocumentType("html".to_string()).to_string(), "DocumentType( html )");
    assert_eq!(NodeType::Text("t".to_string()).to_string(), "Text( t )");
    assert_eq!(DomNode::new(NodeType::Text("a\"b".to_string())).to_string(), "Text(\"a\\\"b\")");
    assert_eq!(DomNode::new(NodeType::Comment("c".to_string())).to_string(), "Comment(\"c\")");
    assert_eq!(DomNode::new(NodeType::Document).to_string(), "Document");
    assert_eq!(element("p").to_string(), "Elem( tag: <p> )");
}

#[test]
fn node_text_from_quoted_text() {
    assert_eq!(node_text_of(&NodeType::Text("x".to_string()), "\"q\""), "Text(\"q\")");
    assert_eq!(node_text_of(&NodeType::DocumentType("html".to_string()), "Q"), "DocumentType(Q)");
    assert_eq!(node_text_of(&NodeType::Document, "ignored"), "Document");
    assert_eq!(node_text_of(&element("b").node_type, "ignored"), "Elem( tag: <b> )");
}
