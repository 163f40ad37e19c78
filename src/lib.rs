//! Declarative command-line flags: typed flag descriptors, an explicit
//! registry of them, and a parser that resolves their values from the
//! process arguments.

pub mod number;
pub mod value;
pub mod flag;
pub mod registry;
pub mod options;
pub mod parse;
