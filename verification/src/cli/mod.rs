//! What the command line runs on.

pub mod args;
pub mod chat;
pub mod tui;
pub mod view;
