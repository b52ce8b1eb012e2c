//! A compiler for a Wirth-style imperative language that produces x86-64
//! assembly: tokenizer, recursive-descent parser and the type rules, constant
//! folding and frame layout of the code generator.
pub mod ast;
pub mod definitions;
pub mod diagnostics;
pub mod tokenizer;
pub mod x86_64_compiler;
