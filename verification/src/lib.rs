//! Handlebars-compatible template syntax: a verified token-stream parser
//! producing an abstract syntax tree whose nodes reference byte spans of
//! the template source.
use vstd::prelude::*;

pub mod trim;
pub mod text;
pub mod lexer;
pub mod error;
pub mod parser;
pub mod render;
pub mod registry;

verus! {

} // verus!
