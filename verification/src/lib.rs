//! A small scripting language toolchain: syntax tree, variable resolution
//! with closure capture analysis, and bytecode chunks.

pub mod ast;
pub mod chunk;
pub mod parser;
pub mod resolve;
pub mod source;
pub mod symbol;
pub mod value;
