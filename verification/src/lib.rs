//! Core of a per-branch development-sandbox daemon: a verified environment
//! store, a pure host-port allocator, the container-command vocabulary, and
//! the lifecycle orchestration that ties them together.

pub mod agent;
pub mod environment;
mod host;
pub mod idea;
pub mod orchestrator;
pub mod podman;
pub mod project;
