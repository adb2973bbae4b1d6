//! The model seam: stream assembly, providers and routing.

pub mod assembler;
pub mod mock;
pub mod openai;
pub mod providers;
pub mod runtime;
pub mod sse;
