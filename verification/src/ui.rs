//! The panels and widgets of the terminal front end.

pub mod agent;
pub mod button;
pub mod diff_base;
pub mod markdown;
pub mod markdown_preview;
pub mod multi_menu;
pub mod prompt;
pub mod scrollbar;
pub mod select;
pub mod spans;
pub mod textarea;
pub mod wrap;

pub use agent::AgentPanel;
pub use button::ButtonGroup;
pub use diff_base::{DiffBaseView, DiffHunkView};
pub use markdown::Markdown;
pub use markdown_preview::MarkdownPreview;
pub use multi_menu::{MultiMenu, MultiMenuItem};
pub use select::Select;
pub use textarea::TextArea;
