use vstd::prelude::*;

use super::db::{
    document_reference_graph, graph_query_post, graph_result_view, fresh_document, DocumentView,
    LspDatabase,
};
use crate::analysis::reference::{definition_in, ReferenceGraphView};
use crate::lsp::document_sync::{
    DidChangeTextDocumentParams, DidCloseTextDocumentParams, DidOpenTextDocumentParams, Position,
    Range,
};
use crate::lsp::language_features::{GotoDefinitionParams, Location};
use crate::parser::parser::Parser;
use crate::parser::symbol::SymbolView;

verus! {

/// Why a definition request could not be served at all.
#[derive(Debug, Clone, Copy, PartialEq, Eq, Structural)]
pub enum StateError {
    /// The request came while no document was open.
    NoActiveDocument,
}

/// The server's documents and which of them is open.
pub ghost struct LspStateView {
    pub documents: Map<Seq<char>, DocumentView>,
    pub opened_uri: Option<Seq<char>>,
}

/// The range of a declaration's location, in the editor's terms.
pub open spec fn range_of(d: SymbolView) -> Range {
    Range {
        start: Position { line: d.location.start.0, character: d.location.start.1 },
        end: Position { line: d.location.end.0, character: d.location.end.1 },
    }
}

/// The answer that graph `g` of document `uri` gives at `p`.
pub open spec fn definition_answer(uri: Seq<char>, g: Option<ReferenceGraphView>, p: Position) -> Option<
    (Seq<char>, Range),
> {
    match g {
        Some(gv) => match definition_in(gv, p) {
            Some(d) => Some((uri, range_of(d))),
            None => None,
        },
        None => None,
    }
}

/// What a definition query on open document `uri` does: the store answers a
/// reference-graph query, and the answer is that graph's at `p`.
pub open spec fn definition_query_post<P: Parser>(
    old: Map<Seq<char>, DocumentView>,
    new: Map<Seq<char>, DocumentView>,
    uri: Seq<char>,
    p: Position,
    answer: Option<(Seq<char>, Range)>,
) -> bool {
    exists|g: Option<ReferenceGraphView>|
        graph_query_post::<P>(old, new, uri, g) && answer == definition_answer(uri, g, p)
}

/// The view of an optional location: its URI and range.
pub open spec fn location_view(r: Option<Location>) -> Option<(Seq<char>, Range)> {
    match r {
        Some(l) => Some((l.uri@, l.range)),
        None => None,
    }
}

/// Session state: the document store, the open document and the extractor.
pub struct LspState<P: Parser> {
    db: LspDatabase<P>,
    opened_uri: Option<String>,
}

impl<P: Parser> LspState<P> {
    /// The documents and the open URI.
    pub closed spec fn view(&self) -> LspStateView {
        LspStateView {
            documents: self.db.view(),
            opened_uri: match self.opened_uri {
                Some(u) => Some(u@),
                None => None,
            },
        }
    }

    /// The invariant: the store is well formed.
    pub closed spec fn well_formed(&self) -> bool {
        self.db.well_formed()
    }

    /// A session with no documents, extracting with `parser`.
    pub fn new(parser: P) -> (s: Self)
        ensures
            s.well_formed(),
            s.view().documents == Map::<Seq<char>, DocumentView>::empty(),
            s.view().opened_uri is None,
    {
        LspState { db: LspDatabase::new(parser), opened_uri: None }
    }

    /// Records an opened document's text and version and makes it the open one.
    pub fn open_document(&mut self, params: DidOpenTextDocumentParams)
        requires
            old(self).well_formed(),
        ensures
            final(self).well_formed(),
            final(self).view().documents == old(self).view().documents.insert(
                params.text_document.uri@,
                fresh_document(params.text_document.text@, params.text_document.version),
            ),
            final(self).view().opened_uri == Some(params.text_document.uri@),
    {
        let item = params.text_document;
        let uri = item.uri;
        self.db.set_document(uri.clone(), item.text, item.version);
        self.opened_uri = Some(uri);
    }

    /// Takes the last of the changes as the document's new full text, with
    /// the new version; with no change, nothing happens.
    pub fn update_document(&mut self, params: DidChangeTextDocumentParams)
        requires
            old(self).well_formed(),
        ensures
            final(self).well_formed(),
            final(self).view().opened_uri == old(self).view().opened_uri,
            params.content_changes@.len() == 0 ==> final(self).view() == old(self).view(),
            params.content_changes@.len() > 0 ==> final(self).view().documents == old(
                self,
            ).view().documents.insert(
                params.text_document.uri@,
                fresh_document(
                    params.content_changes@.last().text@,
                    params.text_document.version,
                ),
            ),
    {
        let DidChangeTextDocumentParams { text_document, mut content_changes } = params;
        match content_changes.pop() {
            Some(change) => {
                self.db.set_document(text_document.uri, change.text, text_document.version);
            },
            None => {},
        }
    }

    /// Forgets a closed document and leaves no document open.
    pub fn close_document(&mut self, params: DidCloseTextDocumentParams)
        requires
            old(self).well_formed(),
        ensures
            final(self).well_formed(),
            final(self).view().documents == old(self).view().documents.remove(
                params.text_document.uri@,
            ),
            final(self).view().opened_uri is None,
    {
        self.db.remove_document(&params.text_document.uri);
        self.opened_uri = None;
    }

    /// Go to definition in the open document: the location of the declaration
    /// that the reference at `params.position` resolves to, if any. Fails only
    /// when no document is open.
    pub fn get_definition(&mut self, params: GotoDefinitionParams) -> (r: Result<
        Option<Location>,
        StateError,
    >)
        requires
            old(self).well_formed(),
        ensures
            final(self).well_formed(),
            final(self).view().opened_uri == old(self).view().opened_uri,
            old(self).view().opened_uri is None ==> r == Err::<Option<Location>, StateError>(
                StateError::NoActiveDocument,
            ) && final(self).view() == old(self).view(),
            old(self).view().opened_uri is Some ==> r is Ok,
            old(self).view().opened_uri is Some ==> definition_query_post::<P>(
                old(self).view().documents,
                final(self).view().documents,
                old(self).view().opened_uri->0,
                params.position,
                location_view(r->Ok_0),
            ),
    {
        let uri = match &self.opened_uri {
            Some(uri) => uri.clone(),
            None => return Err(StateError::NoActiveDocument),
        };
        let graph = document_reference_graph(&mut self.db, uri.clone());
        let ghost g = graph_result_view(graph);
        let answer = match graph {
            Some(graph) => match graph.find_definition(params.position) {
                Some(definition) => Some(
                    Location {
                        uri,
                        range: Range {
                            start: Position {
                                line: definition.location.start.0,
                                character: definition.location.start.1,
                            },
                            end: Position {
                                line: definition.location.end.0,
                                character: definition.location.end.1,
                            },
                        },
                    },
                ),
                None => None,
            },
            None => None,
        };
        assert(graph_query_post::<P>(old(self).view().documents, self.view().documents, uri@, g)
            && location_view(answer) == definition_answer(uri@, g, params.position));
        assert(definition_query_post::<P>(
            old(self).view().documents,
            self.view().documents,
            uri@,
            params.position,
            location_view(answer),
        ));
        Ok(answer)
    }
}

} // verus!
