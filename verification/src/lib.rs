//! The Coda language: syntax tree, parser, Hindley–Milner type inference with
//! row-polymorphic records and unions and shape-checked arrays, and an LLVM IR
//! code generator.

pub mod ast;
pub mod names;
pub mod text;
pub mod lex;
pub mod grammar;
pub mod expr_grammar;
pub mod parser;
pub mod eval;
pub mod types;
pub mod codegen_model;
pub mod emit_model;
pub mod codegen;
pub mod imports;
pub mod arrays;
