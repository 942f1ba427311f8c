//! Deterministic time and event foundations for Minecraft physics.

pub mod builtin;
pub mod engine;
pub mod event;
pub mod queue;
pub mod scheduler;
pub mod trace;
pub mod transition;
