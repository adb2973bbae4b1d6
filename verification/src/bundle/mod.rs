//! Composition of the base bundle: the plugins that every profile stacks first.

pub mod config;
pub mod dynamic;
pub mod plan;
