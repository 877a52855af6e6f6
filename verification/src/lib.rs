//! Sovereign: the front end, analyses, native code generation and build
//! planning of the Sovereign compiler, as a verified library.
pub mod ast;
pub mod blockchain;
pub mod cache;
pub mod closures;
pub mod codegen;
pub mod cross_compile;
pub mod driver;
pub mod generics;
pub mod http;
pub mod infer;
pub mod lexer;
pub mod lto;
pub mod parser;
pub mod safety;
pub mod self_hosting;
pub mod semantic;
pub mod sha256;
pub mod page_syntax;
pub mod stdlib_c;
pub mod text;
pub mod testing;
pub mod token;
pub mod web;
