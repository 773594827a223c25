//! The records that the scope-keyed graph works on: those of the parser.

pub use crate::parser::symbol::{Location, Reference, Symbol, SymbolKind, SyntaxError};
