//! The errors that the library reports.
use vstd::prelude::*;

verus! {

/// Why an operation of the library failed.
#[derive(Debug, Clone, PartialEq, Eq)]
pub enum Error {
    /// The root node of a document tree is not a document node.
    InvalidDocumentRoot,
    /// The HTML does not fit the tree construction rules that are supported; the text says where.
    HtmlParse(String),
    /// A colour keyword that is not known.
    InvalidColorName,
    /// A hexadecimal colour that does not have 3, 4, 6 or 8 hexadecimal digits.
    InvalidHexColor,
    /// A CSS comment is not closed before the end of the input.
    UnterminatedComment,
    /// A selector does not fit the selector grammar that is supported.
    InvalidSelector,
    /// The CSS does not fit the grammar that is supported; the text says where.
    CssParse(String),
}

} // verus!
