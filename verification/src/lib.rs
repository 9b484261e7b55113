//! pentas: the document-processing core of a small educational browser.
//!
//! HTML tokenization and tree construction, CSS tokenization and selector
//! matching, and colour parsing, each with its behaviour stated as a contract.

pub mod text;
pub mod color;
pub mod error;
pub mod html;
pub mod style;
pub mod utils;
pub mod css;
pub mod render_tree;
pub mod text_decoration;
pub mod box_tree;
