//! The shared vocabulary: messages, streams, session events, tool results,
//! agent options.

pub mod agent;
pub mod llm;
pub mod session;
pub mod tools;
