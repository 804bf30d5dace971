//! `pgsafe lsp` — what a synchronous stdio Language Server shows of pgsafe findings: editor
//! diagnostics, hovers and quickfix code actions, and how it answers each message.
pub mod actions;
pub mod diagnostics;
pub mod fixall;
pub mod hover;
pub mod laws;
pub mod position;
pub mod server;
