//! Declaration scanner for a small class-oriented language.
//!
//! Raw text is split into words, and the words are read front to back into
//! class, property and function declarations.

pub mod decl;
pub mod pattern;
pub mod model;
pub mod lexer;
pub mod tokenizer;
pub mod laws;
