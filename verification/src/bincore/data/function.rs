//! Functions as a program may list them.

use vstd::prelude::*;
use crate::bincore::executable::runnable::Instruction;

verus! {

/// A named function: its parameter names and its body.
#[derive(Debug, Clone)]
pub struct Function {
    pub name: String,
    pub args: Vec<String>,
    pub instructions: Vec<Instruction>,
}

/// What the machine knows of a host function: the handle under which the host
/// registered it. The host keeps the callback itself.
pub type FunctionSignature = usize;

} // verus!
