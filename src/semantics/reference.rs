use vstd::prelude::*;

use crate::analysis::reference::module_scope;
use crate::parser::symbol::{
    copy_names, names_view, references_view, symbols_view, Reference, ReferenceView, Symbol,
    SymbolView,
};

verus! {

/// Scope names joined by `::`.
pub open spec fn joined(scope: Seq<Seq<char>>) -> Seq<char>
    decreases scope.len(),
{
    if scope.len() == 0 {
        Seq::empty()
    } else if scope.len() == 1 {
        scope[0]
    } else {
        joined(scope.drop_last()) + "::"@ + scope.last()
    }
}

/// The identifier of a declaration named `name` in `scope`: the joined scope
/// names, a colon, and the name.
pub open spec fn symbol_id(scope: Seq<Seq<char>>, name: Seq<char>) -> Seq<char> {
    joined(scope) + ":"@ + name
}

/// Each identifier with its declaration; of declarations sharing an
/// identifier, the last one stays.
pub open spec fn symbol_table(syms: Seq<SymbolView>) -> Map<Seq<char>, SymbolView>
    decreases syms.len(),
{
    if syms.len() == 0 {
        Map::empty()
    } else {
        symbol_table(syms.drop_last()).insert(
            symbol_id(syms.last().scope_path, syms.last().name),
            syms.last(),
        )
    }
}

/// The identifier that `name`, used in `scope`, resolves to: the innermost
/// prefix of `scope` under which the name is declared, else the module scope.
pub open spec fn resolve_id(table: Map<Seq<char>, SymbolView>, name: Seq<char>, scope: Seq<Seq<char>>) -> Option<
    Seq<char>,
>
    decreases scope.len(),
{
    if scope.len() == 0 {
        if table.contains_key(symbol_id(module_scope(), name)) {
            Some(symbol_id(module_scope(), name))
        } else {
            None
        }
    } else if table.contains_key(symbol_id(scope, name)) {
        Some(symbol_id(scope, name))
    } else {
        resolve_id(table, name, scope.drop_last())
    }
}

/// The references of `refs` that resolve to `id`, in order.
pub open spec fn uses_of(table: Map<Seq<char>, SymbolView>, refs: Seq<ReferenceView>, id: Seq<char>) -> Seq<
    ReferenceView,
>
    decreases refs.len(),
{
    if refs.len() == 0 {
        Seq::empty()
    } else {
        let rest = uses_of(table, refs.drop_last(), id);
        if resolve_id(table, refs.last().name, refs.last().scope_path) == Some(id) {
            rest.push(refs.last())
        } else {
            rest
        }
    }
}

/// A declaration filed under its identifier.
#[derive(Debug, Clone)]
struct IdentifiedSymbol {
    id: String,
    symbol: Symbol,
}

/// A reference filed under the identifier it resolves to.
#[derive(Debug, Clone)]
struct ResolvedUse {
    id: String,
    reference: Reference,
}

spec fn table_of(log: Seq<IdentifiedSymbol>) -> Map<Seq<char>, SymbolView>
    decreases log.len(),
{
    if log.len() == 0 {
        Map::empty()
    } else {
        table_of(log.drop_last()).insert(log.last().id@, log.last().symbol@)
    }
}

spec fn uses_in(log: Seq<ResolvedUse>, id: Seq<char>) -> Seq<ReferenceView>
    decreases log.len(),
{
    if log.len() == 0 {
        Seq::empty()
    } else {
        let rest = uses_in(log.drop_last(), id);
        if log.last().id@ == id {
            rest.push(log.last().reference@)
        } else {
            rest
        }
    }
}

proof fn lemma_table_found(log: Seq<IdentifiedSymbol>, k: Seq<char>, j: int)
    requires
        0 <= j < log.len(),
        log[j].id@ == k,
        forall|m: int| j < m < log.len() ==> (#[trigger] log[m]).id@ != k,
    ensures
        table_of(log).contains_key(k),
        table_of(log)[k] == log[j].symbol@,
    decreases log.len(),
{
    if j < log.len() - 1 {
        lemma_table_found(log.drop_last(), k, j);
    }
}

proof fn lemma_table_has(log: Seq<IdentifiedSymbol>, k: Seq<char>, j: int)
    requires
        0 <= j < log.len(),
        log[j].id@ == k,
    ensures
        table_of(log).contains_key(k),
    decreases log.len(),
{
    if j < log.len() - 1 {
        lemma_table_has(log.drop_last(), k, j);
    }
}

proof fn lemma_table_absent(log: Seq<IdentifiedSymbol>, k: Seq<char>)
    requires
        forall|m: int| 0 <= m < log.len() ==> (#[trigger] log[m]).id@ != k,
    ensures
        !table_of(log).contains_key(k),
    decreases log.len(),
{
    if log.len() > 0 {
        lemma_table_absent(log.drop_last(), k);
    }
}

/// Declarations keyed by identifier, and the references that resolve to each.
#[derive(Clone)]
pub struct ReferenceGraph {
    symbols: Vec<IdentifiedSymbol>,
    references: Vec<ResolvedUse>,
    declarations: Ghost<Seq<SymbolView>>,
    occurrences: Ghost<Seq<ReferenceView>>,
}

impl ReferenceGraph {
    /// The declarations that the graph was built from.
    pub closed spec fn declarations(&self) -> Seq<SymbolView> {
        self.declarations@
    }

    /// The references that the graph was built from.
    pub closed spec fn occurrences(&self) -> Seq<ReferenceView> {
        self.occurrences@
    }

    /// The invariant: the filed declarations are the table of the
    /// declarations, and the filed references those that resolve, by identifier.
    pub closed spec fn well_formed(&self) -> bool {
        &&& table_of(self.symbols@) == symbol_table(self.declarations@)
        &&& forall|id: Seq<char>|
            #![trigger uses_in(self.references@, id)]
            uses_in(self.references@, id) == uses_of(
                symbol_table(self.declarations@),
                self.occurrences@,
                id,
            )
    }

    /// An empty graph.
    pub fn new() -> (g: Self)
        ensures
            g.well_formed(),
            g.declarations() == Seq::<SymbolView>::empty(),
            g.occurrences() == Seq::<ReferenceView>::empty(),
    {
        ReferenceGraph {
            symbols: Vec::new(),
            references: Vec::new(),
            declarations: Ghost(Seq::empty()),
            occurrences: Ghost(Seq::empty()),
        }
    }

    /// The identifier of a declaration named `name` in `scope_path`.
    fn create_symbol_id(&self, name: &str, scope_path: &Vec<String>) -> (r: String)
        ensures
            r@ == symbol_id(names_view(scope_path@), name@),
    {
        let ghost scope = names_view(scope_path@);
        let mut id = String::new();
        let mut i: usize = 0;
        while i < scope_path.len()
            invariant
                i <= scope_path.len(),
                scope == names_view(scope_path@),
                id@ == joined(scope.take(i as int)),
            decreases scope_path.len() - i,
        {
            if i > 0 {
                id.append("::");
            }
            id.append(scope_path[i].as_str());
            proof {
                let t = scope.take(i + 1);
                assert(t.drop_last() =~= scope.take(i as int));
                assert(t.last() == scope_path@[i as int]@);
                if i == 0 {
                    assert(joined(scope.take(0)) =~= Seq::<char>::empty());
                    assert(id@ =~= joined(t));
                }
            }
            i = i + 1;
        }
        assert(scope.take(scope_path.len() as int) =~= scope);
        id.append(":");
        id.append(name);
        id
    }

    /// Whether some declaration is filed under `id`.
    fn has_symbol(&self, id: &String) -> (r: bool)
        ensures
            r == table_of(self.symbols@).contains_key(id@),
    {
        let mut m: usize = 0;
        while m < self.symbols.len()
            invariant
                m <= self.symbols.len(),
                forall|q: int| 0 <= q < m ==> (#[trigger] self.symbols@[q]).id@ != id@,
            decreases self.symbols.len() - m,
        {
            if self.symbols[m].id == *id {
                proof {
                    lemma_table_has(self.symbols@, id@, m as int);
                }
                return true;
            }
            m = m + 1;
        }
        proof {
            lemma_table_absent(self.symbols@, id@);
        }
        false
    }

    /// The identifier `reference` resolves to, if any.
    fn resolve_reference(&self, reference: &Reference) -> (r: Option<String>)
        ensures
            match r {
                Some(id) => resolve_id(
                    table_of(self.symbols@),
                    reference@.name,
                    reference@.scope_path,
                ) == Some(id@),
                None => resolve_id(
                    table_of(self.symbols@),
                    reference@.name,
                    reference@.scope_path,
                ) is None,
            },
    {
        let ghost table = table_of(self.symbols@);
        let mut current_scope = copy_names(&reference.scope_path);
        while current_scope.len() > 0
            invariant
                table == table_of(self.symbols@),
                resolve_id(table, reference@.name, reference@.scope_path) == resolve_id(
                    table,
                    reference@.name,
                    names_view(current_scope@),
                ),
            decreases current_scope.len(),
        {
            let id = self.create_symbol_id(reference.name.as_str(), &current_scope);
            if self.has_symbol(&id) {
                return Some(id);
            }
            let ghost before = current_scope@;
            current_scope.pop();
            assert(names_view(current_scope@) =~= names_view(before).drop_last());
        }
        let mut global: Vec<String> = Vec::new();
        global.push(String::from_str("module"));
        assert(names_view(global@) =~= module_scope());
        let id = self.create_symbol_id(reference.name.as_str(), &global);
        if self.has_symbol(&id) {
            Some(id)
        } else {
            None
        }
    }

    /// Builds the graph: files every declaration under its identifier (a later
    /// one replacing an earlier one with the same identifier), then files
    /// every reference that resolves under the identifier it resolves to.
    pub fn build(symbols: Vec<Symbol>, references: Vec<Reference>) -> (g: Self)
        ensures
            g.well_formed(),
            g.declarations() == symbols_view(symbols@),
            g.occurrences() == references_view(references@),
    {
        let ghost syms = symbols_view(symbols@);
        let ghost refs = references_view(references@);
        let mut graph = ReferenceGraph {
            symbols: Vec::new(),
            references: Vec::new(),
            declarations: Ghost(syms),
            occurrences: Ghost(refs),
        };
        assert(table_of(graph.symbols@) =~= symbol_table(syms.take(0)));
        let mut i: usize = 0;
        while i < symbols.len()
            invariant
                i <= symbols.len(),
                syms == symbols_view(symbols@),
                refs == references_view(references@),
                graph.declarations@ == syms,
                graph.occurrences@ == refs,
                graph.references@.len() == 0,
                table_of(graph.symbols@) == symbol_table(syms.take(i as int)),
            decreases symbols.len() - i,
        {
            let symbol = symbols[i].duplicate();
            let id = graph.create_symbol_id(symbol.name.as_str(), &symbol.scope_path);
            let ghost before = graph.symbols@;
            graph.symbols.push(IdentifiedSymbol { id, symbol });
            proof {
                assert(graph.symbols@.drop_last() =~= before);
                let t = syms.take(i + 1);
                assert(t.drop_last() =~= syms.take(i as int));
                assert(t.last() == symbols@[i as int]@);
            }
            i = i + 1;
        }
        assert(syms.take(symbols.len() as int) =~= syms);
        let ghost table = symbol_table(syms);
        proof {
            assert forall|id: Seq<char>| #![trigger uses_in(graph.references@, id)]
                uses_in(graph.references@, id) == uses_of(table, refs.take(0), id) by {
                assert(refs.take(0) =~= Seq::<ReferenceView>::empty());
            }
        }
        let mut j: usize = 0;
        while j < references.len()
            invariant
                j <= references.len(),
                refs == references_view(references@),
                graph.declarations@ == syms,
                graph.occurrences@ == refs,
                table == symbol_table(syms),
                table_of(graph.symbols@) == table,
                forall|id: Seq<char>|
                    #![trigger uses_in(graph.references@, id)]
                    uses_in(graph.references@, id) == uses_of(table, refs.take(j as int), id),
            decreases references.len() - j,
        {
            let reference = &references[j];
            let ghost before = graph.references@;
            let resolved = graph.resolve_reference(reference);
            if let Some(id) = resolved {
                graph.references.push(ResolvedUse { id, reference: reference.duplicate() });
            }
            proof {
                let t = refs.take(j + 1);
                assert(t.drop_last() =~= refs.take(j as int));
                assert(t.last() == reference@);
                assert forall|id: Seq<char>| #![trigger uses_in(graph.references@, id)]
                    uses_in(graph.references@, id) == uses_of(table, t, id) by {
                    if graph.references@.len() > before.len() {
                        assert(graph.references@.drop_last() =~= before);
                        assert(uses_in(before, id) == uses_of(table, refs.take(j as int), id));
                    } else {
                        assert(uses_in(before, id) == uses_of(table, refs.take(j as int), id));
                    }
                }
            }
            j = j + 1;
        }
        assert(refs.take(references.len() as int) =~= refs);
        graph
    }

    /// The declaration filed under `symbol_id`, if any.
    pub fn get_symbol(&self, symbol_id: &str) -> (r: Option<&Symbol>)
        requires
            self.well_formed(),
        ensures
            match r {
                Some(s) => symbol_table(self.declarations()).contains_key(symbol_id@) && s@
                    == symbol_table(self.declarations())[symbol_id@],
                None => !symbol_table(self.declarations()).contains_key(symbol_id@),
            },
    {
        let id = String::from_str(symbol_id);
        let mut m: usize = self.symbols.len();
        while m > 0
            invariant
                m <= self.symbols.len(),
                self.well_formed(),
                id@ == symbol_id@,
                forall|q: int| m <= q < self.symbols@.len() ==> (#[trigger] self.symbols@[q]).id@ != id@,
            decreases m,
        {
            let entry = &self.symbols[m - 1];
            if entry.id == id {
                proof {
                    lemma_table_found(self.symbols@, id@, m - 1);
                }
                return Some(&entry.symbol);
            }
            m = m - 1;
        }
        proof {
            lemma_table_absent(self.symbols@, id@);
        }
        None
    }

    /// The references that resolve to `symbol_id`, in order.
    pub fn get_references(&self, symbol_id: &str) -> (r: Vec<&Reference>)
        requires
            self.well_formed(),
        ensures
            r@.len() == uses_of(symbol_table(self.declarations()), self.occurrences(), symbol_id@).len(),
            forall|i: int|
                0 <= i < r@.len() ==> (#[trigger] r@[i])@ == uses_of(
                    symbol_table(self.declarations()),
                    self.occurrences(),
                    symbol_id@,
                )[i],
    {
        let id = String::from_str(symbol_id);
        let ghost log = self.references@;
        let mut out: Vec<&Reference> = Vec::new();
        let mut m: usize = 0;
        while m < self.references.len()
            invariant
                m <= self.references.len(),
                log == self.references@,
                id@ == symbol_id@,
                out@.len() == uses_in(log.take(m as int), id@).len(),
                forall|i: int| 0 <= i < out@.len() ==> (#[trigger] out@[i])@ == uses_in(log.take(m as int), id@)[i],
            decreases self.references.len() - m,
        {
            let entry = &self.references[m];
            proof {
                let t = log.take(m + 1);
                assert(t.drop_last() =~= log.take(m as int));
                assert(t.last() == *entry);
            }
            if entry.id == id {
                out.push(&entry.reference);
            }
            m = m + 1;
        }
        assert(log.take(self.references.len() as int) =~= log);
        assert(uses_in(log, id@) == uses_of(symbol_table(self.declarations()), self.occurrences(), id@));
        out
    }
}

} // verus!
