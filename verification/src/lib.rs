//! A small compiler-compiler: a grammar description is lexed, parsed, lowered to a
//! semantic model and rendered as tree types and traversal interfaces.

pub mod span;
pub mod text;
pub mod token;
pub mod ast_meta;
pub mod ast;
pub mod lexer;
pub mod parse_spec;
pub mod parser;
pub mod parse_laws;
pub mod name_set;
pub mod mir;
pub mod visit;
pub mod code_gen;
pub mod util;
