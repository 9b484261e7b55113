//! HTML: tokenization, the document tree, and tree construction.

pub mod construction;
pub mod dom;
pub mod parser;
pub mod token;
pub mod tokenizer;
pub mod tokenization;
