pub mod abi;
pub mod ast;
pub mod bytes;
pub mod cli;
pub mod codegen;
pub mod comptime;
pub mod debug;
pub mod ffi;
pub mod hir;
pub mod incremental;
pub mod lexer;
pub mod mir;
pub mod text;
pub mod types;
