//! A small expression language: a lexer, a Pratt parser producing an AST,
//! a tree-walking interpreter and a compiler to WebAssembly text.

pub mod arith;
pub mod ast;
pub mod evali32;
pub mod interpreter;
pub mod parser;
pub mod text;
pub mod tokens;
pub mod tree;
pub mod types;
pub mod wasm;

