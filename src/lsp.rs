pub mod dispatch;
pub mod document_sync;
pub mod language_features;
pub mod lifecycle;

pub use lifecycle::{ClientCapabilities, InitializeResult, ServerCapabilities, ServerInfo};
