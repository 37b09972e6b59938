//! What the application decides as it starts, runs and ends.

pub mod events;
pub mod language_server;
pub mod saving;
pub mod startup;
pub mod typing;
