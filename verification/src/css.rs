//! CSS: value types, selectors and tokenization.

pub mod cssom;
pub mod dtype;
pub mod parser;
pub mod parsing;
pub mod selector;
pub mod selector_syntax;
pub mod token;
pub mod tokenization;
