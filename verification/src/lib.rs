//! The dsh agent harness.

pub mod agent;
pub mod api;
pub mod bundle;
pub mod cli;
pub mod json;
pub mod llm;
pub mod ordered_map;
pub mod paths;
pub mod plugin;
pub mod session;
pub mod text;
pub mod tools;
pub mod types;
