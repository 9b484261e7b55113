use pentas::error::Error;
use pentas::html::dom::{DocumentTree, Element, NodeType};
use pentas::html::parser::HtmlParser;

fn elm(tag: &str, attributes: &[(&str, &str)]) -> NodeType {
    NodeType::Element(Element {
        tag_name: tag.to_string(),
        attributes: attributes.iter().map(|(k, v)| (k.to_string(), v.to_string())).collect(),
    })
}

fn text(s: &str) -> NodeType {
    NodeType::Text(s.to_string())
}

fn node_types(html: &str) -> Vec<NodeType> {
    let mut parser = HtmlParser::new(html);
    let parsed = parser.parse().unwrap();
    let tree = DocumentTree::build(parsed.nodes, parsed.dom_root).unwrap();
    tree.get_dfs_iter().iter().map(|&i| tree.nodes[i].node_type.clone()).collect()
}

#[test]
fn parse_simple_html() {
    let html = "<!DOCTYPE html>\n<html class=e>\n\t<head><title>Aliens?</title></head>\n\t<body>Why yes.</body>\n</html>";
    let actual = node_types(html);
    let expected = vec![
        NodeType::Document,
        NodeType::DocumentType("html".to_string()),
        elm("html", &[("class", "e")]),
        elm("head", &[]),
        elm("title", &[]),
        text("Aliens?"),
        text("\n\t"),
        elm("body", &[]),
        text("Why yes.\n"),
    ];
    assert_eq!(actual, expected);
}

#[test]
fn parse_li_without_end_tag() {
    let html = "<!DOCTYPE html>\n<html>\n\t<head><title>Lists</title></head>\n\t<body>\n\t\t<ul>\n\t\t\t<li>Item1\n\t\t\t\t\
    <p class=\"foo\">Paragraph1\n\t\t\t<li>Item2</li>\n\t\t\t<li>Item3\n\t\t</ul>\n\t</body>\n</html>";
    let actual = node_types(html);
    let expected = vec![
        NodeType::Document,
        NodeType::DocumentType("html".to_string()),
        elm("html", &[]),
        elm("head", &[]),
        elm("title", &[]),
        text("Lists"),
        text("\n\t"),
        elm("body", &[]),
        text("\n\t\t"),
        elm("ul", &[]),
        text("\n\t\t\t"),
        elm("li", &[]),
        text("Item1\n\t\t\t\t"),
        elm("p", &[("class", "foo")]),
        text("Paragraph1\n\t\t\t"),
        elm("li", &[]),
        text("Item2"),
        text("\n\t\t\t"),
        elm("li", &[]),
        text("Item3\n\t\t"),
        text("\n\t\n"),
    ];
    assert_eq!(actual, expected);
}

#[test]
fn parse_incomplete_html() {
    let html = "<h1>heading</h1>\n<p>paragraph</p>";
    let actual = node_types(html);
    let expected = vec![
        NodeType::Document,
        elm("html", &[]),
        elm("head", &[]),
        elm("body", &[]),
        elm("h1", &[]),
        text("heading"),
        text("\n"),
        elm("p", &[]),
        text("paragraph"),
    ];
    assert_eq!(actual, expected);
}

#[test]
fn style_and_title_are_collected() {
    let html = "<html><head><title>T</title><style>p { color: red; }</style></head><body><p>x</p></body></html>";
    let mut parser = HtmlParser::new(html);
    let parsed = parser.parse().unwrap();
    assert_eq!(parsed.title, Some("T".to_string()));
    assert_eq!(parsed.style_sheets.len(), 1);
    assert_eq!(parsed.style_sheets[0].rules.len(), 1);
    assert_eq!(parsed.dom_root, 0);
}

#[test]
fn bad_doctype_is_a_parse_error() {
    let mut parser = HtmlParser::new("<!DOCTYPE svg><html></html>");
    assert!(matches!(parser.parse(), Err(Error::HtmlParse(_))));
}

#[test]
fn unterminated_comment_in_style_is_an_error() {
    let mut parser = HtmlParser::new("<html><head><style>/* open</style></head><body></body></html>");
    assert!(matches!(parser.parse(), Err(Error::UnterminatedComment)));
}

#[test]
fn invalid_selector_in_style_is_an_error() {
    let mut parser = HtmlParser::new("<html><head><style>p > > q { color: red; }</style></head><body></body></html>");
    assert!(matches!(parser.parse(), Err(Error::InvalidSelector)));
}

#[test]
fn end_of_input_in_body_finishes_the_document() {
    let actual = node_types("<p>a");
    let expected = vec![
        NodeType::Document,
        elm("html", &[]),
        elm("head", &[]),
        elm("body", &[]),
        elm("p", &[]),
        text("a"),
    ];
    assert_eq!(actual, expected);
}
