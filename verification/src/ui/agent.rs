//! The panel that shows the conversation with an agent.

pub mod border;
pub mod lines;
pub mod menus;
pub mod panel;
pub mod title;
pub mod tokens;
pub mod window;

pub use panel::AgentPanel;
