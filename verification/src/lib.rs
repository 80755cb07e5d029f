//! A deferred command buffer for an entity-component runtime.
//!
//! Systems queue mutation intents — spawning and despawning entities,
//! attaching components, writing singleton resources — instead of touching
//! shared state directly.  A coordinator later drains the queue exactly once,
//! in enqueue order, against the live world and resource state.

pub mod buffer;
pub mod command;
pub mod commands;
pub mod component;
pub mod entity;
pub mod error;
pub mod kvlist;
pub mod laws;
pub mod resources;
pub mod world;
