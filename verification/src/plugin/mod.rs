//! The plugin's side of dynamic loading.

pub mod contract;
pub mod hello;
