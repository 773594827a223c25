use vstd::prelude::*;

use crate::analysis::reference::{resolved_map, ReferenceGraph, ReferenceGraphView};
use crate::lsp::document_sync::Version;
use crate::parser::parser::Parser;
use crate::parser::symbol::{
    copy_references, copy_symbols, references_view, symbols_view, Reference, ReferenceView, Symbol,
    SymbolView,
};

verus! {

/// The declarations and references extracted from one text.
pub ghost struct ExtractionView {
    pub declarations: Seq<SymbolView>,
    pub references: Seq<ReferenceView>,
}

/// One document: its text and version, and what has been derived from the
/// text so far.
pub ghost struct DocumentView {
    pub text: Seq<char>,
    pub version: Version,
    pub extraction: Option<ExtractionView>,
    pub graph: Option<ReferenceGraphView>,
}

/// The graph that building from an extraction gives.
pub open spec fn graph_of(e: ExtractionView) -> ReferenceGraphView {
    ReferenceGraphView {
        declarations: e.declarations,
        references: e.references,
        resolved: resolved_map(e.declarations, e.references),
    }
}

/// A document as just set: nothing derived yet.
pub open spec fn fresh_document(text: Seq<char>, version: Version) -> DocumentView {
    DocumentView { text, version, extraction: None, graph: None }
}

/// The extraction view of what extractor `P` gives for `text`.
pub open spec fn extraction_for<P: Parser>(text: Seq<char>) -> Option<ExtractionView> {
    match P::extraction_of(text) {
        Some(e) => Some(ExtractionView { declarations: e.0, references: e.1 }),
        None => None,
    }
}

/// The graph of what extractor `P` gives for `text`, if it gives anything.
pub open spec fn graph_for<P: Parser>(text: Seq<char>) -> Option<ReferenceGraphView> {
    match extraction_for::<P>(text) {
        Some(e) => Some(graph_of(e)),
        None => None,
    }
}

/// Derived values are never stale: a memoized extraction is what `P` gives
/// for the current text, and a memoized graph is built from it.
pub open spec fn document_consistent<P: Parser>(d: DocumentView) -> bool {
    &&& d.extraction is Some ==> extraction_for::<P>(d.text) == d.extraction
    &&& d.graph is Some ==> d.extraction is Some && d.graph->0 == graph_of(d.extraction->0)
}

/// Whether every document of `m` is consistent.
pub open spec fn store_consistent<P: Parser>(m: Map<Seq<char>, DocumentView>) -> bool {
    forall|k: Seq<char>| m.contains_key(k) ==> document_consistent::<P>(#[trigger] m[k])
}

/// The view of a declarations query's result.
pub open spec fn extraction_result_view(r: Option<(Vec<Symbol>, Vec<Reference>)>) -> Option<
    (Seq<SymbolView>, Seq<ReferenceView>),
> {
    match r {
        Some(p) => Some((symbols_view(p.0@), references_view(p.1@))),
        None => None,
    }
}

/// The view of a reference-graph query's result.
pub open spec fn graph_result_view(r: Option<ReferenceGraph>) -> Option<ReferenceGraphView> {
    match r {
        Some(g) => Some(g.view()),
        None => None,
    }
}

/// What a declarations query does to the store `old`, giving `new` and `r`:
/// for a tracked URI, `r` is what extractor `P` gives for the current text,
/// taken from the memo when there is one, else extracted now and memoized if
/// extraction succeeds; otherwise nothing changes.
pub open spec fn declaration_query_post<P: Parser>(
    old: Map<Seq<char>, DocumentView>,
    new: Map<Seq<char>, DocumentView>,
    uri: Seq<char>,
    r: Option<(Seq<SymbolView>, Seq<ReferenceView>)>,
) -> bool {
    if !old.contains_key(uri) {
        r is None && new == old
    } else {
        &&& r == P::extraction_of(old[uri].text)
        &&& old[uri].extraction is Some || r is None ==> new == old
        &&& old[uri].extraction is None && r is Some ==> new == old.insert(
            uri,
            DocumentView {
                text: old[uri].text,
                version: old[uri].version,
                extraction: extraction_for::<P>(old[uri].text),
                graph: old[uri].graph,
            },
        )
    }
}

/// What a reference-graph query does to the store `old`, giving `new` and
/// `r`: for a tracked URI, `r` is the graph built from what extractor `P`
/// gives for the current text, or nothing when extraction fails; it is taken
/// from the memo when there is one, else built now and memoized with the
/// extraction.
pub open spec fn graph_query_post<P: Parser>(
    old: Map<Seq<char>, DocumentView>,
    new: Map<Seq<char>, DocumentView>,
    uri: Seq<char>,
    r: Option<ReferenceGraphView>,
) -> bool {
    if !old.contains_key(uri) {
        r is None && new == old
    } else {
        &&& r == graph_for::<P>(old[uri].text)
        &&& old[uri].graph is Some || r is None ==> new == old
        &&& old[uri].graph is None && r is Some ==> new == old.insert(
            uri,
            DocumentView {
                text: old[uri].text,
                version: old[uri].version,
                extraction: extraction_for::<P>(old[uri].text),
                graph: r,
            },
        )
    }
}

/// An extraction held in the store.
struct Extraction {
    declarations: Vec<Symbol>,
    references: Vec<Reference>,
}

/// One tracked document with its memoized derived values.
struct DocumentSlot {
    uri: String,
    text: String,
    version: Version,
    extraction: Option<Extraction>,
    graph: Option<ReferenceGraph>,
}

impl DocumentSlot {
    spec fn view(&self) -> DocumentView {
        DocumentView {
            text: self.text@,
            version: self.version,
            extraction: match self.extraction {
                Some(e) => Some(
                    ExtractionView {
                        declarations: symbols_view(e.declarations@),
                        references: references_view(e.references@),
                    },
                ),
                None => None,
            },
            graph: match self.graph {
                Some(g) => Some(g.view()),
                None => None,
            },
        }
    }

    spec fn slot_wf<P: Parser>(&self) -> bool {
        &&& document_consistent::<P>(self.view())
        &&& self.graph matches Some(g) ==> g.well_formed()
    }
}

spec fn slots_map(s: Seq<DocumentSlot>) -> Map<Seq<char>, DocumentView>
    decreases s.len(),
{
    if s.len() == 0 {
        Map::empty()
    } else {
        slots_map(s.drop_last()).insert(s.last().uri@, s.last().view())
    }
}

spec fn uris_unique(s: Seq<DocumentSlot>) -> bool {
    forall|i: int, j: int|
        0 <= i < s.len() && 0 <= j < s.len() && i != j ==> (#[trigger] s[i]).uri@ != (
        #[trigger] s[j]).uri@
}

proof fn lemma_slots_absent(s: Seq<DocumentSlot>, k: Seq<char>)
    requires
        forall|i: int| 0 <= i < s.len() ==> (#[trigger] s[i]).uri@ != k,
    ensures
        !slots_map(s).contains_key(k),
    decreases s.len(),
{
    if s.len() > 0 {
        lemma_slots_absent(s.drop_last(), k);
    }
}

proof fn lemma_slots_lookup(s: Seq<DocumentSlot>, i: int)
    requires
        uris_unique(s),
        0 <= i < s.len(),
    ensures
        slots_map(s).contains_key(s[i].uri@),
        slots_map(s)[s[i].uri@] == s[i].view(),
    decreases s.len(),
{
    if i < s.len() - 1 {
        let p = s.drop_last();
        assert(uris_unique(p)) by {
            assert forall|a: int, b: int|
                0 <= a < p.len() && 0 <= b < p.len() && a != b implies (#[trigger] p[a]).uri@ != (
                #[trigger] p[b]).uri@ by {
                assert(p[a] == s[a] && p[b] == s[b]);
            }
        }
        lemma_slots_lookup(p, i);
        assert(s[s.len() - 1].uri@ != s[i].uri@);
    }
}

proof fn lemma_slots_update(s: Seq<DocumentSlot>, i: int, x: DocumentSlot)
    requires
        uris_unique(s),
        0 <= i < s.len(),
        x.uri@ == s[i].uri@,
    ensures
        slots_map(s.update(i, x)) == slots_map(s).insert(x.uri@, x.view()),
    decreases s.len(),
{
    let p = s.drop_last();
    let t = s.update(i, x);
    if i == s.len() - 1 {
        assert(t.drop_last() =~= p);
        assert(slots_map(t) =~= slots_map(s).insert(x.uri@, x.view()));
    } else {
        assert(uris_unique(p)) by {
            assert forall|a: int, b: int|
                0 <= a < p.len() && 0 <= b < p.len() && a != b implies (#[trigger] p[a]).uri@ != (
                #[trigger] p[b]).uri@ by {
                assert(p[a] == s[a] && p[b] == s[b]);
            }
        }
        lemma_slots_update(p, i, x);
        assert(t.drop_last() =~= p.update(i, x));
        assert(s.last().uri@ != x.uri@);
        assert(slots_map(t) =~= slots_map(s).insert(x.uri@, x.view()));
    }
}

proof fn lemma_slots_remove(s: Seq<DocumentSlot>, i: int)
    requires
        uris_unique(s),
        0 <= i < s.len(),
    ensures
        slots_map(s.remove(i)) == slots_map(s).remove(s[i].uri@),
    decreases s.len(),
{
    let p = s.drop_last();
    let k = s[i].uri@;
    if i == s.len() - 1 {
        assert(s.remove(i) =~= p);
        assert forall|j: int| 0 <= j < p.len() implies (#[trigger] p[j]).uri@ != k by {
            assert(p[j] == s[j]);
        }
        lemma_slots_absent(p, k);
        assert(slots_map(s.remove(i)) =~= slots_map(s).remove(k));
    } else {
        assert(uris_unique(p)) by {
            assert forall|a: int, b: int|
                0 <= a < p.len() && 0 <= b < p.len() && a != b implies (#[trigger] p[a]).uri@ != (
                #[trigger] p[b]).uri@ by {
                assert(p[a] == s[a] && p[b] == s[b]);
            }
        }
        lemma_slots_remove(p, i);
        assert(p[i] == s[i]);
        let t = s.remove(i);
        assert(t.drop_last() =~= p.remove(i));
        assert(t.last() == s.last());
        assert(s.last().uri@ != k);
        assert(slots_map(t) =~= slots_map(s).remove(k));
    }
}

/// The documents the server tracks, each with its text, version and memoized
/// extraction and reference graph.
pub struct LspDatabase<P: Parser> {
    documents: Vec<DocumentSlot>,
    parser: P,
}

impl<P: Parser> LspDatabase<P> {
    /// Each tracked URI with its document.
    pub closed spec fn view(&self) -> Map<Seq<char>, DocumentView> {
        slots_map(self.documents@)
    }

    /// The invariant: one slot per URI, each consistent, each memoized graph
    /// well formed.
    pub closed spec fn well_formed(&self) -> bool {
        &&& uris_unique(self.documents@)
        &&& forall|i: int| 0 <= i < self.documents@.len() ==> (#[trigger] self.documents@[i]).slot_wf::<P>()
    }

    /// Every well-formed store holds only consistent documents.
    pub proof fn lemma_consistent(&self)
        requires
            self.well_formed(),
        ensures
            store_consistent::<P>(self.view()),
    {
        assert forall|k: Seq<char>| self.view().contains_key(k) implies document_consistent::<P>(
            #[trigger] self.view()[k],
        ) by {
            if forall|i: int| 0 <= i < self.documents@.len() ==> (#[trigger] self.documents@[i]).uri@ != k {
                lemma_slots_absent(self.documents@, k);
            } else {
                let i = choose|i: int| 0 <= i < self.documents@.len() && (#[trigger] self.documents@[i]).uri@ == k;
                lemma_slots_lookup(self.documents@, i);
            }
        }
    }

    /// A store that tracks no document and extracts with `parser`.
    pub fn new(parser: P) -> (db: Self)
        ensures
            db.well_formed(),
            db.view() == Map::<Seq<char>, DocumentView>::empty(),
    {
        LspDatabase { documents: Vec::new(), parser }
    }

    fn find_slot(&self, uri: &String) -> (r: Option<usize>)
        requires
            self.well_formed(),
        ensures
            match r {
                Some(i) => i < self.documents.len() && self.documents@[i as int].uri@ == uri@
                    && self.view().contains_key(uri@) && self.view()[uri@]
                    == self.documents@[i as int].view(),
                None => !self.view().contains_key(uri@),
            },
    {
        let mut i: usize = 0;
        while i < self.documents.len()
            invariant
                i <= self.documents.len(),
                uris_unique(self.documents@),
                forall|j: int| 0 <= j < i ==> (#[trigger] self.documents@[j]).uri@ != uri@,
            decreases self.documents.len() - i,
        {
            if self.documents[i].uri == *uri {
                proof {
                    lemma_slots_lookup(self.documents@, i as int);
                }
                return Some(i);
            }
            i = i + 1;
        }
        proof {
            lemma_slots_absent(self.documents@, uri@);
        }
        None
    }

    /// The current text of `uri`, if it is tracked.
    pub fn document_text(&self, uri: &String) -> (r: Option<String>)
        requires
            self.well_formed(),
        ensures
            match r {
                Some(t) => self.view().contains_key(uri@) && t@ == self.view()[uri@].text,
                None => !self.view().contains_key(uri@),
            },
    {
        match self.find_slot(uri) {
            Some(i) => Some(self.documents[i].text.clone()),
            None => None,
        }
    }

    /// The current version of `uri`, if it is tracked.
    pub fn document_version(&self, uri: &String) -> (r: Option<Version>)
        requires
            self.well_formed(),
        ensures
            match r {
                Some(v) => self.view().contains_key(uri@) && v == self.view()[uri@].version,
                None => !self.view().contains_key(uri@),
            },
    {
        match self.find_slot(uri) {
            Some(i) => Some(self.documents[i].version),
            None => None,
        }
    }

    /// Sets the text and version of `uri`, dropping whatever was derived from
    /// its earlier text; other documents are left as they are.
    pub fn set_document(&mut self, uri: String, text: String, version: Version)
        requires
            old(self).well_formed(),
        ensures
            final(self).well_formed(),
            final(self).view() == old(self).view().insert(uri@, fresh_document(text@, version)),
    {
        let slot = DocumentSlot { uri, text, version, extraction: None, graph: None };
        match self.find_slot(&slot.uri) {
            Some(i) => {
                let ghost before = self.documents@;
                proof {
                    lemma_slots_update(before, i as int, slot);
                }
                self.documents.set(i, slot);
                assert(uris_unique(self.documents@)) by {
                    assert forall|a: int, b: int|
                        0 <= a < self.documents@.len() && 0 <= b < self.documents@.len() && a != b implies (
                        #[trigger] self.documents@[a]).uri@ != (#[trigger] self.documents@[b]).uri@ by {
                        assert(before[a].uri@ != before[b].uri@);
                    }
                }
            },
            None => {
                let ghost before = self.documents@;
                let ghost k = slot.uri@;
                assert(uris_unique(before));
                proof {
                    assert forall|j: int| 0 <= j < before.len() implies (#[trigger] before[j]).uri@ != k by {
                        if before[j].uri@ == k {
                            lemma_slots_lookup(before, j);
                        }
                    }
                }
                self.documents.push(slot);
                assert(self.documents@.drop_last() =~= before);
                assert(uris_unique(self.documents@)) by {
                    assert forall|a: int, b: int|
                        0 <= a < self.documents@.len() && 0 <= b < self.documents@.len() && a != b implies (
                        #[trigger] self.documents@[a]).uri@ != (#[trigger] self.documents@[b]).uri@ by {
                        if a < before.len() && b < before.len() {
                            assert(before[a].uri@ != before[b].uri@);
                        } else if a < before.len() {
                            assert(before[a].uri@ != k);
                        } else {
                            assert(before[b].uri@ != k);
                        }
                    }
                }
            },
        }
    }

    /// Stops tracking `uri`, dropping its text and everything derived from it.
    pub fn remove_document(&mut self, uri: &String)
        requires
            old(self).well_formed(),
        ensures
            final(self).well_formed(),
            final(self).view() == old(self).view().remove(uri@),
    {
        match self.find_slot(uri) {
            Some(i) => {
                let ghost before = self.documents@;
                proof {
                    lemma_slots_remove(before, i as int);
                }
                self.documents.remove(i);
                assert forall|a: int| 0 <= a < self.documents@.len() implies (
                #[trigger] self.documents@[a]).slot_wf::<P>() by {
                    if a < i {
                        assert(self.documents@[a] == before[a]);
                    } else {
                        assert(self.documents@[a] == before[a + 1]);
                    }
                }
                assert(uris_unique(self.documents@)) by {
                    assert forall|a: int, b: int|
                        0 <= a < self.documents@.len() && 0 <= b < self.documents@.len() && a != b implies (
                        #[trigger] self.documents@[a]).uri@ != (#[trigger] self.documents@[b]).uri@ by {
                        let a2 = if a < i { a } else { a + 1 };
                        let b2 = if b < i { b } else { b + 1 };
                        assert(self.documents@[a] == before[a2]);
                        assert(self.documents@[b] == before[b2]);
                    }
                }
            },
            None => {
                assert(self.view() =~= self.view().remove(uri@));
            },
        }
    }
}

/// The declarations and references of `uri`'s current text: the memoized
/// extraction if there is one, else what the store's parser extracts from the
/// text now, which is then memoized. Nothing when `uri` is not tracked or
/// extraction fails.
pub fn document_declaration<P: Parser>(db: &mut LspDatabase<P>, uri: String) -> (r: Option<
    (Vec<Symbol>, Vec<Reference>),
>)
    requires
        old(db).well_formed(),
    ensures
        final(db).well_formed(),
        declaration_query_post::<P>(old(db).view(), final(db).view(), uri@, extraction_result_view(r)),
{
    let i = match db.find_slot(&uri) {
        Some(i) => i,
        None => return None,
    };
    proof {
        assert(db.documents@[i as int].slot_wf::<P>());
    }
    if let Some(e) = &db.documents[i].extraction {
        return Some((copy_symbols(&e.declarations), copy_references(&e.references)));
    }
    let parsed = db.parser.parse(db.documents[i].text.as_str());
    match parsed {
        Ok((declarations, references)) => {
            let out = (copy_symbols(&declarations), copy_references(&references));
            let ghost before = db.documents@;
            db.documents[i].extraction = Some(Extraction { declarations, references });
            proof {
                let after = db.documents@;
                assert(after == before.update(i as int, after[i as int]));
                lemma_slots_update(before, i as int, after[i as int]);
                assert(uris_unique(after)) by {
                    assert forall|a: int, b: int|
                        0 <= a < after.len() && 0 <= b < after.len() && a != b implies (
                        #[trigger] after[a]).uri@ != (#[trigger] after[b]).uri@ by {
                        assert(before[a].uri@ != before[b].uri@);
                    }
                }
                assert forall|a: int| 0 <= a < after.len() implies (#[trigger] after[a]).slot_wf::<P>() by {
                    if a != i {
                        assert(after[a] == before[a]);
                    }
                }
                assert(db.view() =~= old(db).view().insert(uri@, after[i as int].view()));
            }
            Some(out)
        },
        Err(_) => None,
    }
}

/// The reference graph of `uri`'s current text: the memoized graph if there
/// is one, else one built from the document's declarations and references
/// (see [`document_declaration`]), which is then memoized. Nothing when `uri`
/// is not tracked or extraction fails.
pub fn document_reference_graph<P: Parser>(db: &mut LspDatabase<P>, uri: String) -> (r: Option<
    ReferenceGraph,
>)
    requires
        old(db).well_formed(),
    ensures
        final(db).well_formed(),
        r matches Some(g) ==> g.well_formed(),
        graph_query_post::<P>(old(db).view(), final(db).view(), uri@, graph_result_view(r)),
{
    let i = match db.find_slot(&uri) {
        Some(i) => i,
        None => return None,
    };
    proof {
        assert(db.documents@[i as int].slot_wf::<P>());
    }
    if let Some(g) = &db.documents[i].graph {
        return Some(g.duplicate());
    }
    let ghost uri_view = uri@;
    let key = uri.clone();
    let extracted = document_declaration(db, uri);
    let (declarations, references) = match extracted {
        Some(pair) => pair,
        None => return None,
    };
    let i = match db.find_slot(&key) {
        Some(i) => i,
        None => return None,
    };
    let graph = ReferenceGraph::build(declarations, references);
    let out = graph.duplicate();
    let ghost before = db.documents@;
    db.documents[i].graph = Some(graph);
    proof {
        let after = db.documents@;
        assert(after == before.update(i as int, after[i as int]));
        lemma_slots_update(before, i as int, after[i as int]);
        assert(uris_unique(after)) by {
            assert forall|a: int, b: int|
                0 <= a < after.len() && 0 <= b < after.len() && a != b implies (
                #[trigger] after[a]).uri@ != (#[trigger] after[b]).uri@ by {
                assert(before[a].uri@ != before[b].uri@);
            }
        }
        assert forall|a: int| 0 <= a < after.len() implies (#[trigger] after[a]).slot_wf::<P>() by {
            if a != i {
                assert(after[a] == before[a]);
            }
        }
        assert(db.view() =~= old(db).view().insert(uri_view, db.view()[uri_view]));
    }
    Some(out)
}

/// Memoization does not change results: once a reference-graph query has
/// answered, asking again with no change to the store in between answers the
/// same graph and leaves the store as it is.
pub proof fn lemma_graph_query_repeats<P: Parser>(
    s0: Map<Seq<char>, DocumentView>,
    s1: Map<Seq<char>, DocumentView>,
    s2: Map<Seq<char>, DocumentView>,
    uri: Seq<char>,
    r1: Option<ReferenceGraphView>,
    r2: Option<ReferenceGraphView>,
)
    requires
        graph_query_post::<P>(s0, s1, uri, r1),
        graph_query_post::<P>(s1, s2, uri, r2),
        r1 is Some,
    ensures
        r2 == r1,
        s2 == s1,
{
}

/// Setting a document's text invalidates what was derived from the earlier
/// text: the next reference-graph query answers the graph built from what the
/// extractor gives for the new text, and nothing when it fails on it.
pub proof fn lemma_set_document_invalidates<P: Parser>(
    s0: Map<Seq<char>, DocumentView>,
    s2: Map<Seq<char>, DocumentView>,
    uri: Seq<char>,
    text: Seq<char>,
    version: Version,
    r: Option<ReferenceGraphView>,
)
    requires
        graph_query_post::<P>(s0.insert(uri, fresh_document(text, version)), s2, uri, r),
    ensures
        r == graph_for::<P>(text),
        P::extraction_of(text) is None ==> r is None,
        P::extraction_of(text) matches Some(e) ==> r == Some(
            ReferenceGraphView {
                declarations: e.0,
                references: e.1,
                resolved: resolved_map(e.0, e.1),
            },
        ),
{
}

/// Whatever the history of the store, a reference-graph query on a tracked
/// document answers exactly the graph that building from the extractor's
/// output on the current text gives.
pub proof fn lemma_graph_query_is_fresh_build<P: Parser>(
    s0: Map<Seq<char>, DocumentView>,
    s1: Map<Seq<char>, DocumentView>,
    uri: Seq<char>,
    r: Option<ReferenceGraphView>,
    declarations: Seq<SymbolView>,
    references: Seq<ReferenceView>,
)
    requires
        graph_query_post::<P>(s0, s1, uri, r),
        s0.contains_key(uri),
        P::extraction_of(s0[uri].text) == Some((declarations, references)),
    ensures
        r == Some(
            ReferenceGraphView {
                declarations,
                references,
                resolved: resolved_map(declarations, references),
            },
        ),
{
}

} // verus!
