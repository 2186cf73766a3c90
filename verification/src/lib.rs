//! A compiler for the algorithmic language of BetterAlgoPapier: it turns
//! algorithmic statements into executable Python.
//!
//! The stages are:
//! 1. [`lexer`]: source text to located tokens;
//! 2. [`parser`]: tokens to a [`parser::Program`];
//! 3. [`codegen`]: program to Python code.
//!
//! Every stage reports problems as an [`errors::CompileError`] instead of
//! panicking.
pub mod text;
pub mod errors;
pub mod lexer;
pub mod parser;
pub mod codegen;
