//! The compiler: the syntax tree and its translation into bytecode.

pub mod ast;
pub mod declarations;
pub mod freshness;
pub mod labels;
pub mod laws;
pub mod lowering;
pub mod output;
pub mod parser;
pub mod translation;
