use vstd::prelude::*;

verus! {

/// A document version as the editor numbers it.
pub type Version = i32;

/// Parameters of the notification that a document was opened.
#[derive(Debug, Clone)]
pub struct DidOpenTextDocumentParams {
    pub text_document: TextDocumentItem,
}

/// A document with its identifier, language, version and full text.
#[derive(Debug, Clone)]
pub struct TextDocumentItem {
    pub uri: String,
    pub language_id: String,
    pub version: Version,
    pub text: String,
}

/// Parameters of the notification that a document changed.
#[derive(Debug, Clone)]
pub struct DidChangeTextDocumentParams {
    pub text_document: VersionedTextDocumentIdentifier,
    pub content_changes: Vec<TextDocumentContentChangeEvent>,
}

#[derive(Debug, Clone)]
pub struct VersionedTextDocumentIdentifier {
    pub uri: String,
    pub version: Version,
}

/// One change of a document; without a range, `text` is the whole new text.
#[derive(Debug, Clone)]
pub struct TextDocumentContentChangeEvent {
    pub range: Option<Range>,
    pub range_length: Option<i64>,
    pub text: String,
}

#[derive(Debug, Clone, Copy, PartialEq, Eq, Structural)]
pub struct Range {
    pub start: Position,
    pub end: Position,
}

/// A zero-based line and column in a document.
#[derive(Debug, Clone, Copy, PartialEq, Eq, Structural)]
pub struct Position {
    pub line: usize,
    pub character: usize,
}

/// Parameters of the notification that a document was closed.
#[derive(Debug, Clone)]
pub struct DidCloseTextDocumentParams {
    pub text_document: TextDocumentIdentifier,
}

#[derive(Debug, Clone)]
pub struct TextDocumentIdentifier {
    pub uri: String,
}

} // verus!
