//! The bytecode: values, instructions, the program record and the machine.

pub mod data;
pub mod executable;
pub mod object;
