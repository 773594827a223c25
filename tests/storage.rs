use std::cell::Cell;
use std::rc::Rc;

use scope_server::lsp::document_sync::{
    DidChangeTextDocumentParams, DidCloseTextDocumentParams, DidOpenTextDocumentParams, Position,
    Range, TextDocumentContentChangeEvent, TextDocumentIdentifier, TextDocumentItem,
    VersionedTextDocumentIdentifier,
};
use scope_server::lsp::language_features::GotoDefinitionParams;
use scope_server::parser::parser::{Parser, ParserInitError, TreeSitterParser};
use scope_server::parser::symbol::{Reference, Symbol, SyntaxError};
use scope_server::storage::db::{document_declaration, document_reference_graph, LspDatabase};
use scope_server::storage::state::{LspState, StateError};

/// Counts how often it is asked to extract, and extracts with tree-sitter.
struct CountingParser {
    inner: TreeSitterParser,
    calls: Rc<Cell<usize>>,
}

impl Parser for CountingParser {
    fn new() -> Result<Self, ParserInitError> {
        Ok(CountingParser { inner: TreeSitterParser::new()?, calls: Rc::new(Cell::new(0)) })
    }

    fn parse(&mut self, source: &str) -> Result<(Vec<Symbol>, Vec<Reference>), Vec<SyntaxError>> {
        self.calls.set(self.calls.get() + 1);
        self.inner.parse(source)
    }

    fn _get_errors(&self) -> Vec<SyntaxError> {
        Vec::new()
    }
}

/// Fails every extraction.
struct FailingParser;

impl Parser for FailingParser {
    fn new() -> Result<Self, ParserInitError> {
        Ok(FailingParser)
    }

    fn parse(&mut self, _source: &str) -> Result<(Vec<Symbol>, Vec<Reference>), Vec<SyntaxError>> {
        Err(vec![SyntaxError { message: "no".to_string(), line: 0, column: 0 }])
    }

    fn _get_errors(&self) -> Vec<SyntaxError> {
        Vec::new()
    }
}

fn at(line: usize, character: usize) -> Position {
    Position { line, character }
}

#[test]
fn repeated_graph_query_uses_memo() {
    let parser = CountingParser::new().unwrap();
    let calls = parser.calls.clone();
    let mut db = LspDatabase::new(parser);
    let uri = "file:///a.py".to_string();
    db.set_document(uri.clone(), "x = 1\ny = x\n".to_string(), 1);
    let first = document_reference_graph(&mut db, uri.clone()).unwrap();
    let second = document_reference_graph(&mut db, uri.clone()).unwrap();
    assert_eq!(calls.get(), 1);
    assert_eq!(first.find_definition(at(1, 4)), second.find_definition(at(1, 4)));
    assert_eq!(first.find_definition(at(1, 4)).unwrap().location.start, (0, 0));
}

#[test]
fn new_text_invalidates_derived_values() {
    let parser = CountingParser::new().unwrap();
    let calls = parser.calls.clone();
    let mut db = LspDatabase::new(parser);
    let uri = "file:///a.py".to_string();
    db.set_document(uri.clone(), "x = 1\nx\n".to_string(), 1);
    let old_graph = document_reference_graph(&mut db, uri.clone()).unwrap();
    assert_eq!(old_graph.find_definition(at(1, 0)).unwrap().location.start, (0, 0));

    db.set_document(uri.clone(), "\nx = 2\nx\n".to_string(), 2);
    let (symbols, _) = document_declaration(&mut db, uri.clone()).unwrap();
    assert_eq!(symbols.len(), 1);
    assert_eq!(symbols[0].location.start, (1, 0));
    let graph = document_reference_graph(&mut db, uri.clone()).unwrap();
    assert_eq!(calls.get(), 2);
    assert!(graph.find_definition(at(1, 0)).is_none());
    assert_eq!(graph.find_definition(at(2, 0)).unwrap().location.start, (1, 0));
}

#[test]
fn documents_are_isolated() {
    let parser = CountingParser::new().unwrap();
    let calls = parser.calls.clone();
    let mut db = LspDatabase::new(parser);
    db.set_document("a".to_string(), "a = 1\n".to_string(), 1);
    db.set_document("b".to_string(), "b = 1\n".to_string(), 1);
    document_reference_graph(&mut db, "a".to_string()).unwrap();
    document_reference_graph(&mut db, "b".to_string()).unwrap();
    db.set_document("b".to_string(), "c = 1\n".to_string(), 2);
    document_reference_graph(&mut db, "a".to_string()).unwrap();
    assert_eq!(calls.get(), 2);
    let (symbols, _) = document_declaration(&mut db, "b".to_string()).unwrap();
    assert_eq!(symbols[0].name, "c");
    assert_eq!(calls.get(), 3);
}

#[test]
fn missing_and_closed_documents_give_nothing() {
    let parser = CountingParser::new().unwrap();
    let calls = parser.calls.clone();
    let mut db = LspDatabase::new(parser);
    assert!(document_reference_graph(&mut db, "nope".to_string()).is_none());
    db.set_document("a".to_string(), "a = 1\n".to_string(), 1);
    assert!(document_declaration(&mut db, "a".to_string()).is_some());
    db.remove_document(&"a".to_string());
    assert!(document_declaration(&mut db, "a".to_string()).is_none());
    assert!(document_reference_graph(&mut db, "a".to_string()).is_none());
    assert_eq!(calls.get(), 1);
}

#[test]
fn failed_extraction_gives_nothing() {
    let mut db = LspDatabase::new(FailingParser);
    db.set_document("a".to_string(), "a = 1\n".to_string(), 1);
    assert!(document_declaration(&mut db, "a".to_string()).is_none());
    assert!(document_reference_graph(&mut db, "a".to_string()).is_none());
}

fn open_params(uri: &str, text: &str) -> DidOpenTextDocumentParams {
    DidOpenTextDocumentParams {
        text_document: TextDocumentItem {
            uri: uri.to_string(),
            language_id: "python".to_string(),
            version: 1,
            text: text.to_string(),
        },
    }
}

fn definition_params(uri: &str, line: usize, character: usize) -> GotoDefinitionParams {
    GotoDefinitionParams {
        text_document: TextDocumentIdentifier { uri: uri.to_string() },
        position: at(line, character),
    }
}

#[test]
fn go_to_definition_in_open_document() {
    let mut state = LspState::new(TreeSitterParser::new().unwrap());
    state.open_document(open_params("file:///m.py", "def foo(a, b):\n    return a + b\n"));
    let location = state.get_definition(definition_params("file:///m.py", 1, 11)).unwrap().unwrap();
    assert_eq!(location.uri, "file:///m.py");
    assert_eq!(location.range, Range { start: at(0, 8), end: at(0, 9) });
    assert!(state.get_definition(definition_params("file:///m.py", 1, 13)).unwrap().is_none());
}

#[test]
fn go_to_definition_without_open_document_fails() {
    let mut state = LspState::new(TreeSitterParser::new().unwrap());
    assert_eq!(
        state.get_definition(definition_params("file:///m.py", 0, 0)).unwrap_err(),
        StateError::NoActiveDocument
    );
    state.open_document(open_params("file:///m.py", "x = 1\n"));
    state.close_document(DidCloseTextDocumentParams {
        text_document: TextDocumentIdentifier { uri: "file:///m.py".to_string() },
    });
    assert_eq!(
        state.get_definition(definition_params("file:///m.py", 0, 0)).unwrap_err(),
        StateError::NoActiveDocument
    );
}

#[test]
fn change_takes_last_content() {
    let mut state = LspState::new(TreeSitterParser::new().unwrap());
    state.open_document(open_params("u", "x = 1\nx\n"));
    state.update_document(DidChangeTextDocumentParams {
        text_document: VersionedTextDocumentIdentifier { uri: "u".to_string(), version: 2 },
        content_changes: vec![
            TextDocumentContentChangeEvent { range: None, range_length: None, text: "y = 1\n".to_string() },
            TextDocumentContentChangeEvent { range: None, range_length: None, text: "\nx = 1\nx\n".to_string() },
        ],
    });
    let location = state.get_definition(definition_params("u", 2, 0)).unwrap().unwrap();
    assert_eq!(location.range.start, at(1, 0));
    state.update_document(DidChangeTextDocumentParams {
        text_document: VersionedTextDocumentIdentifier { uri: "u".to_string(), version: 3 },
        content_changes: Vec::new(),
    });
    assert!(state.get_definition(definition_params("u", 2, 0)).unwrap().is_some());
}
