//! A grammar-driven recognizer: decides whether a classified token stream is
//! derivable from the start symbol of a user-supplied grammar, using ordered
//! choice over alternative productions.

pub mod rule_parser;
pub mod rules;
pub mod text;
pub mod tokenizer;
