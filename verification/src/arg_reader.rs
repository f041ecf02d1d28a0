//! Command-line arguments: flags, options with a value, and positional
//! arguments, read into a map from argument names to typed values.

pub mod arg_map;
pub mod arg_reader;
pub mod arg_value;

pub use arg_map::ArgMap;
pub use arg_reader::ArgReader;
pub use arg_value::ArgValue;
