//! A small imperative language: its front end, its bytecode translator and the
//! stack machine that runs the bytecode.
//!
//! * `bincompiler` builds the syntax tree from the parse tree and translates
//!   it: first into intermediate code with labels, then into instructions.
//! * `bincore` holds the values, the instructions, the program record and the
//!   machine. The machine leaves two things to its host: the functions that
//!   programs call by name, and the arithmetic on floats, which it knows only
//!   by their bit patterns.
//! * `binrunner` is the reference host: printing, lists and lengths.
//! * `arg_reader` reads command lines.
//! * `names` and `text` are what the others share: tables keyed by names, and
//!   numerals.
//!
//! Every function states what it returns; what holds of the machine and of
//! the translation in general stands in the `laws` modules.

pub mod text;
pub mod names;
pub mod arg_reader;
pub mod bincore;
pub mod bincompiler;
pub mod binrunner;
