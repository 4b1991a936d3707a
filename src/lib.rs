//! Lexer and recursive-descent parser for FabricLang, a small imperative
//! language whose keyword spellings come from configuration.

pub mod chars;
pub mod token;
pub mod config;
pub mod syntax;
pub mod lexer;
pub mod ast;
pub mod parser;
pub mod lexemes;
