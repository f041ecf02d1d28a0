//! Instructions and the machine that executes them.

pub mod alu;
pub mod laws;
pub mod machine;
pub mod runnable;
pub mod runtime;
