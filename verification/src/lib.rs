//! A source-to-source transpiler that lowers an extended, class-based
//! dialect of C (classes with fields, methods and operator overloads,
//! single-level namespaces, and a file-import directive) into plain C text.
//!
//! The pipeline per compilation unit: lex, seed the class-name registry,
//! resolve imports recursively against a caller-supplied set of source
//! files, extract structured class entities, lower object-oriented call
//! and operator syntax to flat C calls, substitute generated struct and
//! function text for class blocks, and print the token stream back out.

pub mod ast;
pub mod classes;
pub mod driver;
pub mod emit;
pub mod lexer;
pub mod lower;
pub mod printer;
pub mod roundtrip;
pub mod strmap;
pub mod text;
pub mod token;

pub use ast::{operator_suffix, Class, Node, Variable};
pub use driver::{compile, CompileError};
pub use lexer::tokenize;
pub use printer::detokenize;
pub use strmap::StrMap;
pub use token::Token;
