use vstd::prelude::*;

use super::document_sync::{Position, Range, TextDocumentIdentifier};

verus! {

/// Parameters of a go-to-definition request.
#[derive(Debug, Clone)]
pub struct GotoDefinitionParams {
    pub text_document: TextDocumentIdentifier,
    pub position: Position,
}

#[derive(Debug, Clone)]
pub struct TextDocumentPositionParams {
    pub text_document: TextDocumentIdentifier,
    pub position: Position,
}

/// A range in a named document.
#[derive(Debug, Clone)]
pub struct Location {
    pub uri: String,
    pub range: Range,
}

} // verus!
