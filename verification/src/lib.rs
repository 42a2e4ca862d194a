//! A small interpreted language: a lexer, a recursive-descent parser and a
//! tree-walking virtual machine.
pub mod text;
pub mod token;
pub mod floats;
pub mod lexer;
pub mod ast;
pub mod parser;
pub mod table;
pub mod value;
pub mod vm;
pub mod laws;
