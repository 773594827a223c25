//! Scope-aware symbol resolution for a language server: symbol and reference
//! records, the reference graph that resolves references to declarations, a
//! per-document store that memoizes derived results, and the go-to-definition
//! query built on them.

pub mod analysis;
pub mod lsp;
pub mod parser;
pub mod semantics;
pub mod storage;
