//! The event-sourced session model: an append-only log, the store of live
//! sessions, rendering and durable logs.

pub mod log;
pub mod persistence;
pub mod render;
pub mod store;
