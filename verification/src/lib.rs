//! Front end of a small expression-oriented language: a precedence-climbing
//! parser that turns a token stream into an abstract syntax tree, and a
//! scope-chain resolver that checks names and types over that tree.

pub mod ast;
pub mod digits;
pub mod error;
pub mod parser;
pub mod symtab;
pub mod text;
pub mod token;
pub mod types;
pub mod typetab;
pub mod visitor;
