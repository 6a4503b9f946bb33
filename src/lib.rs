//! Front end of a small scripting language: a tokenizer and a Pratt parser
//! that turns source text into a syntax tree.

pub mod ast;
pub mod lex;
pub mod parse;
pub mod pratt;
