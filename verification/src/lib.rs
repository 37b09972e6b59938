//! Verified core of the terminal front end's panels and agent integration.

pub mod acp;
pub mod application;
pub mod claude_ide;
pub mod editor;
pub mod graphics;
pub mod input;
pub mod json;
pub mod mcp;
pub mod rope;
pub mod rounding;
pub mod session;
pub mod text;
pub mod ui;
pub mod unicode;
