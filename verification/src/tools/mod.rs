//! Tools: the registry pipeline and the built-in tools.

pub mod builtin;
pub mod matcher;
pub mod registry;
pub mod walk;
