//! The interface layer: services, typed events and plugin manifests.

pub mod events;
pub mod manifest;
pub mod services;
