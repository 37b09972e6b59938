//! Agents that are spoken to over the agent client protocol.

pub mod client;
pub mod events;
pub mod permission;
pub mod tools;
