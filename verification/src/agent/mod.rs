//! Agents: system-prompt assembly, the inbox and registry, and the turn loop.

pub mod handle;
pub mod prompt;
pub mod turn;
