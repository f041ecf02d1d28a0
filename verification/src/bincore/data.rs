//! The data that a program and a running machine are made of.

pub mod function;
pub mod ieee;
pub mod object;
pub mod program_file;
pub mod value;
