//! The types of the declaration files that inferred types are exported to.
pub mod ast;
pub mod convert;
