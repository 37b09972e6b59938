//! What an agent can ask of the editor.

pub mod approval;
pub mod buffers;
pub mod debug;
pub mod edit;
pub mod lsp;
pub mod positions;
pub mod queries;
pub mod symbols;
pub mod writes;
