use vstd::prelude::*;

use crate::lsp::document_sync::Position;
use crate::parser::symbol::{
    copy_names, copy_references, copy_symbols, names_equal, names_view, references_view,
    symbols_view, Location, Reference, ReferenceView, Symbol, SymbolView,
};

verus! {

/// The scope path of module-level declarations.
pub open spec fn module_scope() -> Seq<Seq<char>> {
    seq!["module"@]
}

/// The key under which declaration `d` is indexed.
pub open spec fn scope_key(d: SymbolView) -> (Seq<Seq<char>>, Seq<char>) {
    (d.scope_path, d.name)
}

/// Whether declaration `d` is indexed under the key `(scope, name)`.
pub open spec fn filed_under(d: SymbolView, scope: Seq<Seq<char>>, name: Seq<char>) -> bool {
    d.scope_path == scope && d.name == name
}

/// The declarations of `decls` indexed under `(scope, name)`, in their order.
pub open spec fn candidates(decls: Seq<SymbolView>, scope: Seq<Seq<char>>, name: Seq<char>) -> Seq<
    SymbolView,
>
    decreases decls.len(),
{
    if decls.len() == 0 {
        Seq::empty()
    } else {
        let rest = candidates(decls.drop_last(), scope, name);
        if filed_under(decls.last(), scope, name) {
            rest.push(decls.last())
        } else {
            rest
        }
    }
}

/// How far a declaration starting on `decl_line` lies before a reference on
/// `ref_line`; a declaration after the reference counts as `usize::MAX` away.
pub open spec fn line_distance(decl_line: usize, ref_line: usize) -> int {
    if decl_line <= ref_line {
        ref_line - decl_line
    } else {
        usize::MAX as int
    }
}

/// The line distance from declaration `d` to a reference on `line`.
pub open spec fn distance_to(d: SymbolView, line: usize) -> int {
    line_distance(d.location.start.0, line)
}

/// The index of the first declaration of `c` at the least distance from `line`.
pub open spec fn nearest_index(c: Seq<SymbolView>, line: usize) -> int
    decreases c.len(),
{
    if c.len() <= 1 {
        0
    } else {
        let k = nearest_index(c.drop_last(), line);
        if distance_to(c.last(), line) < distance_to(c[k], line) {
            c.len() - 1
        } else {
            k
        }
    }
}

/// The declaration of `c` nearest to `line`, if `c` holds any.
pub open spec fn nearest(c: Seq<SymbolView>, line: usize) -> Option<SymbolView> {
    if c.len() == 0 {
        None
    } else {
        Some(c[nearest_index(c, line)])
    }
}

/// Resolution of `name` used on `line`: the innermost prefix of `scope` that
/// declares the name wins; with none, the module scope is tried last.
pub open spec fn resolve_in_scopes(
    decls: Seq<SymbolView>,
    name: Seq<char>,
    line: usize,
    scope: Seq<Seq<char>>,
) -> Option<SymbolView>
    decreases scope.len(),
{
    if scope.len() == 0 {
        nearest(candidates(decls, module_scope(), name), line)
    } else if candidates(decls, scope, name).len() > 0 {
        nearest(candidates(decls, scope, name), line)
    } else {
        resolve_in_scopes(decls, name, line, scope.drop_last())
    }
}

/// The declaration that reference `r` denotes among `decls`, if any.
pub open spec fn resolve(decls: Seq<SymbolView>, r: ReferenceView) -> Option<SymbolView> {
    resolve_in_scopes(decls, r.name, r.location.start.0, r.scope_path)
}

/// A reference occurrence's key: its name and the position of its first character.
pub type ReferenceKey = (Seq<char>, usize, usize);

/// The key of reference `r`.
pub open spec fn reference_key(r: ReferenceView) -> ReferenceKey {
    (r.name, r.location.start.0, r.location.start.1)
}

/// The resolved references: each resolved reference's key mapped to its
/// declaration, a later reference with the same key replacing an earlier one.
pub open spec fn resolved_map(decls: Seq<SymbolView>, refs: Seq<ReferenceView>) -> Map<
    ReferenceKey,
    SymbolView,
>
    decreases refs.len(),
{
    if refs.len() == 0 {
        Map::empty()
    } else {
        let m = resolved_map(decls, refs.drop_last());
        match resolve(decls, refs.last()) {
            Some(s) => m.insert(reference_key(refs.last()), s),
            None => m,
        }
    }
}

/// Whether `loc` contains `p`, both ends included on both axes.
pub open spec fn covers(loc: Location, p: Position) -> bool {
    &&& loc.start.0 <= p.line
    &&& loc.end.0 >= p.line
    &&& loc.start.1 <= p.character
    &&& loc.end.1 >= p.character
}

/// Whether reference `i` covers `p` and no earlier reference does.
pub open spec fn is_first_covering(refs: Seq<ReferenceView>, p: Position, i: int) -> bool {
    &&& 0 <= i < refs.len()
    &&& covers(refs[i].location, p)
    &&& forall|j: int| 0 <= j < i ==> !covers(#[trigger] refs[j].location, p)
}

/// The index of the first reference that covers `p`, if one does.
pub open spec fn first_covering(refs: Seq<ReferenceView>, p: Position) -> Option<int> {
    if exists|i: int| is_first_covering(refs, p, i) {
        Some(choose|i: int| is_first_covering(refs, p, i))
    } else {
        None
    }
}

/// The view of an optional declaration.
pub open spec fn symbol_option_view(o: Option<&Symbol>) -> Option<SymbolView> {
    match o {
        Some(s) => Some(s@),
        None => None,
    }
}

/// The declaration that graph `g` gives for the first reference covering `p`:
/// that reference's key looked up among the resolutions.
pub open spec fn definition_in(g: ReferenceGraphView, p: Position) -> Option<SymbolView> {
    match first_covering(g.references, p) {
        Some(i) => {
            let k = reference_key(g.references[i]);
            if g.resolved.contains_key(k) {
                Some(g.resolved[k])
            } else {
                None
            }
        },
        None => None,
    }
}

/// What a reference graph states: the declarations and references it was
/// built from, and the resolution of each reference key.
pub ghost struct ReferenceGraphView {
    pub declarations: Seq<SymbolView>,
    pub references: Seq<ReferenceView>,
    pub resolved: Map<ReferenceKey, SymbolView>,
}

/// The declarations that share one key `(scope_path, name)`, in order.
#[derive(Debug, Clone)]
struct DefinitionGroup {
    scope_path: Vec<String>,
    name: String,
    symbols: Vec<Symbol>,
}

impl DefinitionGroup {
    spec fn key(&self) -> (Seq<Seq<char>>, Seq<char>) {
        (names_view(self.scope_path@), self.name@)
    }
}

/// One resolution, recorded under the reference's key.
#[derive(Debug, Clone)]
struct ResolvedReference {
    name: String,
    line: usize,
    column: usize,
    definition: Symbol,
}

impl ResolvedReference {
    spec fn key(&self) -> ReferenceKey {
        (self.name@, self.line, self.column)
    }
}

/// The map that a list of resolutions records, a later entry replacing an
/// earlier one with the same key.
spec fn entries_map(es: Seq<ResolvedReference>) -> Map<ReferenceKey, SymbolView>
    decreases es.len(),
{
    if es.len() == 0 {
        Map::empty()
    } else {
        entries_map(es.drop_last()).insert(es.last().key(), es.last().definition@)
    }
}

/// The resolved references of one document snapshot.
#[derive(Clone)]
pub struct ReferenceGraph {
    definitions: Vec<DefinitionGroup>,
    references: Vec<Reference>,
    resolved_references: Vec<ResolvedReference>,
    declarations: Ghost<Seq<SymbolView>>,
}

spec fn groups_wf(groups: Seq<DefinitionGroup>, decls: Seq<SymbolView>) -> bool {
    &&& forall|g: int|
        0 <= g < groups.len() ==> symbols_view(#[trigger] groups[g].symbols@) == candidates(
            decls,
            groups[g].key().0,
            groups[g].key().1,
        )
    &&& forall|g: int| 0 <= g < groups.len() ==> (#[trigger] groups[g]).symbols@.len() > 0
    &&& forall|g: int, h: int|
        0 <= g < groups.len() && 0 <= h < groups.len() && g != h ==> (#[trigger] groups[g]).key()
            != (#[trigger] groups[h]).key()
    &&& forall|i: int|
        0 <= i < decls.len() ==> exists|g: int|
            0 <= g < groups.len() && (#[trigger] groups[g]).key() == scope_key(
                #[trigger] decls[i],
            )
}

proof fn lemma_candidates_push(
    decls: Seq<SymbolView>,
    d: SymbolView,
    scope: Seq<Seq<char>>,
    name: Seq<char>,
)
    ensures
        candidates(decls.push(d), scope, name) == if filed_under(d, scope, name) {
            candidates(decls, scope, name).push(d)
        } else {
            candidates(decls, scope, name)
        },
{
    assert(decls.push(d).drop_last() =~= decls);
}

proof fn lemma_candidates_nonempty(decls: Seq<SymbolView>, scope: Seq<Seq<char>>, name: Seq<char>)
    requires
        candidates(decls, scope, name).len() > 0,
    ensures
        exists|i: int| 0 <= i < decls.len() && filed_under(decls[i], scope, name),
    decreases decls.len(),
{
    if !filed_under(decls.last(), scope, name) {
        lemma_candidates_nonempty(decls.drop_last(), scope, name);
        let i = choose|i: int|
            0 <= i < decls.drop_last().len() && filed_under(decls.drop_last()[i], scope, name);
        assert(filed_under(decls[i], scope, name));
    }
}

proof fn lemma_entries_map_same(a: Seq<ResolvedReference>, b: Seq<ResolvedReference>)
    requires
        a.len() == b.len(),
        forall|m: int|
            0 <= m < a.len() ==> (#[trigger] a[m]).key() == b[m].key() && a[m].definition@
                == b[m].definition@,
    ensures
        entries_map(a) == entries_map(b),
    decreases a.len(),
{
    if a.len() > 0 {
        lemma_entries_map_same(a.drop_last(), b.drop_last());
    }
}

proof fn lemma_entries_found(es: Seq<ResolvedReference>, k: ReferenceKey, j: int)
    requires
        0 <= j < es.len(),
        es[j].key() == k,
        forall|m: int| j < m < es.len() ==> (#[trigger] es[m]).key() != k,
    ensures
        entries_map(es).contains_key(k),
        entries_map(es)[k] == es[j].definition@,
    decreases es.len(),
{
    if j < es.len() - 1 {
        lemma_entries_found(es.drop_last(), k, j);
    }
}

proof fn lemma_entries_absent(es: Seq<ResolvedReference>, k: ReferenceKey)
    requires
        forall|m: int| 0 <= m < es.len() ==> (#[trigger] es[m]).key() != k,
    ensures
        !entries_map(es).contains_key(k),
    decreases es.len(),
{
    if es.len() > 0 {
        lemma_entries_absent(es.drop_last(), k);
    }
}

/// The index of the first declaration of `c` nearest to `line`.
fn nearest_in(c: &Vec<Symbol>, line: usize) -> (r: usize)
    requires
        c.len() > 0,
    ensures
        r < c.len(),
        r == nearest_index(symbols_view(c@), line),
{
    let ghost cv = symbols_view(c@);
    let mut best: usize = 0;
    let mut i: usize = 1;
    while i < c.len()
        invariant
            1 <= i <= c.len(),
            cv == symbols_view(c@),
            best < i,
            best == nearest_index(cv.take(i as int), line),
        decreases c.len() - i,
    {
        let d_line = c[i].location.start.0;
        let b_line = c[best].location.start.0;
        let d_dist: usize = if d_line <= line {
            line - d_line
        } else {
            usize::MAX
        };
        let b_dist: usize = if b_line <= line {
            line - b_line
        } else {
            usize::MAX
        };
        proof {
            let t = cv.take(i + 1);
            assert(t.drop_last() =~= cv.take(i as int));
            assert(t.last() == cv[i as int]);
            assert(t[best as int] == cv[best as int]);
        }
        if d_dist < b_dist {
            best = i;
        }
        i = i + 1;
    }
    assert(cv.take(c.len() as int) =~= cv);
    best
}

impl ReferenceGraph {
    /// The declarations, references and resolutions that this graph holds.
    pub closed spec fn view(&self) -> ReferenceGraphView {
        ReferenceGraphView {
            declarations: self.declarations@,
            references: references_view(self.references@),
            resolved: entries_map(self.resolved_references@),
        }
    }

    /// The invariant of a graph: the index agrees with the declarations, and
    /// the recorded resolutions are those of the references.
    pub closed spec fn well_formed(&self) -> bool {
        &&& groups_wf(self.definitions@, self.declarations@)
        &&& entries_map(self.resolved_references@) == resolved_map(
            self.declarations@,
            references_view(self.references@),
        )
    }

    /// What the view states of the resolutions, in terms of the invariant.
    pub proof fn lemma_view_resolved(g: ReferenceGraph)
        requires
            g.well_formed(),
        ensures
            g.view().resolved == resolved_map(g.view().declarations, g.view().references),
    {
    }

    /// The declaration found for the reference under `p`, if any.
    pub open spec fn definition_at(&self, p: Position) -> Option<SymbolView> {
        definition_in(self.view(), p)
    }

    /// An empty graph.
    pub fn new() -> (g: Self)
        ensures
            g.well_formed(),
            g.view().declarations == Seq::<SymbolView>::empty(),
            g.view().references == Seq::<ReferenceView>::empty(),
            g.view().resolved == Map::<ReferenceKey, SymbolView>::empty(),
    {
        let g = ReferenceGraph {
            definitions: Vec::new(),
            references: Vec::new(),
            resolved_references: Vec::new(),
            declarations: Ghost(Seq::empty()),
        };
        assert(references_view(g.references@) =~= Seq::<ReferenceView>::empty());
        g
    }

    /// A copy of this graph with the same view.
    pub fn duplicate(&self) -> (r: Self)
        requires
            self.well_formed(),
        ensures
            r.well_formed(),
            r.view() == self.view(),
    {
        let mut definitions: Vec<DefinitionGroup> = Vec::new();
        let mut i: usize = 0;
        while i < self.definitions.len()
            invariant
                i <= self.definitions.len(),
                definitions@.len() == i,
                forall|j: int|
                    0 <= j < i ==> (#[trigger] definitions@[j]).key() == self.definitions@[j].key()
                        && symbols_view(definitions@[j].symbols@) == symbols_view(
                        self.definitions@[j].symbols@,
                    ),
            decreases self.definitions.len() - i,
        {
            let group = &self.definitions[i];
            definitions.push(
                DefinitionGroup {
                    scope_path: copy_names(&group.scope_path),
                    name: group.name.clone(),
                    symbols: copy_symbols(&group.symbols),
                },
            );
            i = i + 1;
        }
        let mut resolved_references: Vec<ResolvedReference> = Vec::new();
        let mut i: usize = 0;
        while i < self.resolved_references.len()
            invariant
                i <= self.resolved_references.len(),
                resolved_references@.len() == i,
                forall|j: int|
                    0 <= j < i ==> (#[trigger] resolved_references@[j]).key()
                        == self.resolved_references@[j].key()
                        && resolved_references@[j].definition@
                        == self.resolved_references@[j].definition@,
            decreases self.resolved_references.len() - i,
        {
            let entry = &self.resolved_references[i];
            resolved_references.push(
                ResolvedReference {
                    name: entry.name.clone(),
                    line: entry.line,
                    column: entry.column,
                    definition: entry.definition.duplicate(),
                },
            );
            i = i + 1;
        }
        let r = ReferenceGraph {
            definitions,
            references: copy_references(&self.references),
            resolved_references,
            declarations: Ghost(self.declarations@),
        };
        proof {
            lemma_entries_map_same(r.resolved_references@, self.resolved_references@);
            let groups = r.definitions@;
            let decls = r.declarations@;
            assert forall|g: int| 0 <= g < groups.len() implies (#[trigger] groups[g]).symbols@.len()
                > 0 by {
                assert(symbols_view(groups[g].symbols@).len() == symbols_view(
                    self.definitions@[g].symbols@,
                ).len());
            }
            assert forall|g: int, h: int|
                0 <= g < groups.len() && 0 <= h < groups.len() && g != h implies (
                #[trigger] groups[g]).key() != (#[trigger] groups[h]).key() by {
                assert(self.definitions@[g].key() != self.definitions@[h].key());
            }
            assert forall|i: int| 0 <= i < decls.len() implies exists|g: int|
                0 <= g < groups.len() && (#[trigger] groups[g]).key() == scope_key(
                    #[trigger] decls[i],
                ) by {
                let g = choose|g: int|
                    0 <= g < self.definitions@.len() && (#[trigger] self.definitions@[g]).key()
                        == scope_key(decls[i]);
                assert(groups[g].key() == scope_key(decls[i]));
            }
        }
        r
    }

    /// The index of the group under `(scope, name)`, if there is one.
    fn find_group(&self, scope: &Vec<String>, name: &String) -> (r: Option<usize>)
        requires
            groups_wf(self.definitions@, self.declarations@),
        ensures
            match r {
                Some(g) => g < self.definitions.len() && self.definitions@[g as int].key() == (
                    names_view(scope@),
                    name@,
                ),
                None => candidates(self.declarations@, names_view(scope@), name@).len() == 0,
            },
    {
        let mut g: usize = 0;
        while g < self.definitions.len()
            invariant
                g <= self.definitions.len(),
                forall|h: int|
                    0 <= h < g ==> (#[trigger] self.definitions@[h]).key() != (
                        names_view(scope@),
                        name@,
                    ),
            decreases self.definitions.len() - g,
        {
            let group = &self.definitions[g];
            if group.name == *name && names_equal(&group.scope_path, scope) {
                return Some(g);
            }
            g = g + 1;
        }
        proof {
            if candidates(self.declarations@, names_view(scope@), name@).len() > 0 {
                lemma_candidates_nonempty(self.declarations@, names_view(scope@), name@);
                let i = choose|i: int|
                    0 <= i < self.declarations@.len() && filed_under(
                        self.declarations@[i],
                        names_view(scope@),
                        name@,
                    );
                let d = self.declarations@[i];
                let h = choose|h: int|
                    0 <= h < self.definitions@.len() && (#[trigger] self.definitions@[h]).key()
                        == scope_key(d);
                assert(self.definitions@[h].key() == (names_view(scope@), name@));
            }
        }
        None
    }

    /// Files `definition` under its key, keeping the index consistent.
    fn index_definition(&mut self, definition: Symbol)
        requires
            groups_wf(old(self).definitions@, old(self).declarations@),
        ensures
            groups_wf(final(self).definitions@, final(self).declarations@),
            final(self).declarations@ == old(self).declarations@.push(definition@),
            final(self).references == old(self).references,
            final(self).resolved_references == old(self).resolved_references,
    {
        let ghost old_decls = self.declarations@;
        let ghost old_groups = self.definitions@;
        let ghost d = definition@;
        let ghost new_decls = old_decls.push(d);
        proof {
            assert forall|s: Seq<Seq<char>>, n: Seq<char>|
                #![trigger candidates(new_decls, s, n)]
                candidates(new_decls, s, n) == if filed_under(d, s, n) {
                    candidates(old_decls, s, n).push(d)
                } else {
                    candidates(old_decls, s, n)
                } by {
                lemma_candidates_push(old_decls, d, s, n);
            }
        }
        match self.find_group(&definition.scope_path, &definition.name) {
            Some(g) => {
                self.definitions[g].symbols.push(definition);
                self.declarations = Ghost(new_decls);
                proof {
                    let groups = self.definitions@;
                    assert forall|h: int| 0 <= h < groups.len() implies symbols_view(
                        #[trigger] groups[h].symbols@,
                    ) == candidates(new_decls, groups[h].key().0, groups[h].key().1) by {
                        if h == g {
                            assert(symbols_view(groups[h].symbols@) =~= symbols_view(
                                old_groups[h].symbols@,
                            ).push(d));
                        } else {
                            assert(old_groups[h].key() != old_groups[g as int].key());
                            assert(groups[h] == old_groups[h]);
                        }
                    }
                    assert forall|h: int, k: int|
                        0 <= h < groups.len() && 0 <= k < groups.len() && h != k implies (
                        #[trigger] groups[h]).key() != (#[trigger] groups[k]).key() by {
                        assert(groups[h].key() == old_groups[h].key());
                        assert(groups[k].key() == old_groups[k].key());
                    }
                    assert forall|i: int| 0 <= i < new_decls.len() implies exists|h: int|
                        0 <= h < groups.len() && (#[trigger] groups[h]).key() == scope_key(
                            #[trigger] new_decls[i],
                        ) by {
                        if i == old_decls.len() {
                            assert(groups[g as int].key() == (d.scope_path, d.name));
                        } else {
                            assert(new_decls[i] == old_decls[i]);
                            let h = choose|h: int|
                                0 <= h < old_groups.len() && (#[trigger] old_groups[h]).key()
                                    == scope_key(old_decls[i]);
                            assert(groups[h].key() == old_groups[h].key());
                        }
                    }
                    assert forall|h: int| 0 <= h < groups.len() implies (
                    #[trigger] groups[h]).symbols@.len() > 0 by {
                        if h != g {
                            assert(groups[h] == old_groups[h]);
                        }
                    }
                }
            },
            None => {
                let scope_path = copy_names(&definition.scope_path);
                let name = definition.name.clone();
                let mut symbols: Vec<Symbol> = Vec::new();
                symbols.push(definition);
                let group = DefinitionGroup { scope_path, name, symbols };
                self.definitions.push(group);
                self.declarations = Ghost(new_decls);
                proof {
                    let groups = self.definitions@;
                    let g = old_groups.len() as int;
                    assert(candidates(old_decls, d.scope_path, d.name).len() == 0);
                    assert(symbols_view(groups[g].symbols@) =~= seq![d]);
                    assert(candidates(new_decls, d.scope_path, d.name) =~= seq![d]);
                    assert forall|h: int| 0 <= h < groups.len() implies symbols_view(
                        #[trigger] groups[h].symbols@,
                    ) == candidates(new_decls, groups[h].key().0, groups[h].key().1) by {
                        if h != g {
                            assert(groups[h] == old_groups[h]);
                            if filed_under(d, groups[h].key().0, groups[h].key().1) {
                                assert(false);
                            }
                        }
                    }
                    assert forall|h: int, k: int|
                        0 <= h < groups.len() && 0 <= k < groups.len() && h != k implies (
                        #[trigger] groups[h]).key() != (#[trigger] groups[k]).key() by {
                        if h != g && k != g {
                            assert(groups[h] == old_groups[h]);
                            assert(groups[k] == old_groups[k]);
                        } else if h != g {
                            assert(groups[h] == old_groups[h]);
                        } else {
                            assert(groups[k] == old_groups[k]);
                        }
                    }
                    assert forall|i: int| 0 <= i < new_decls.len() implies exists|h: int|
                        0 <= h < groups.len() && (#[trigger] groups[h]).key() == scope_key(
                            #[trigger] new_decls[i],
                        ) by {
                        if i == old_decls.len() {
                            assert(groups[g].key() == (d.scope_path, d.name));
                        } else {
                            assert(new_decls[i] == old_decls[i]);
                            let h = choose|h: int|
                                0 <= h < old_groups.len() && (#[trigger] old_groups[h]).key()
                                    == scope_key(old_decls[i]);
                            assert(groups[h] == old_groups[h]);
                        }
                    }
                    assert forall|h: int| 0 <= h < groups.len() implies (
                    #[trigger] groups[h]).symbols@.len() > 0 by {
                        if h != g {
                            assert(groups[h] == old_groups[h]);
                        }
                    }
                }
            },
        }
    }

    /// The declaration that `reference` denotes: the nearest one in the
    /// innermost enclosing scope that declares its name, else in module scope.
    fn resolve_reference(&self, reference: &Reference) -> (r: Option<Symbol>)
        requires
            groups_wf(self.definitions@, self.declarations@),
        ensures
            match r {
                Some(s) => resolve(self.declarations@, reference@) == Some(s@),
                None => resolve(self.declarations@, reference@) is None,
            },
    {
        let ghost decls = self.declarations@;
        let line = reference.location.start.0;
        let mut current_scope = copy_names(&reference.scope_path);
        while current_scope.len() > 0
            invariant
                groups_wf(self.definitions@, self.declarations@),
                decls == self.declarations@,
                line == reference.location.start.0,
                resolve(decls, reference@) == resolve_in_scopes(
                    decls,
                    reference@.name,
                    line,
                    names_view(current_scope@),
                ),
            decreases current_scope.len(),
        {
            if let Some(g) = self.find_group(&current_scope, &reference.name) {
                let symbols = &self.definitions[g].symbols;
                let best = nearest_in(symbols, line);
                return Some(symbols[best].duplicate());
            }
            let ghost before = current_scope@;
            current_scope.pop();
            assert(names_view(current_scope@) =~= names_view(before).drop_last());
        }
        let mut global: Vec<String> = Vec::new();
        global.push(String::from_str("module"));
        assert(names_view(global@) =~= module_scope());
        if let Some(g) = self.find_group(&global, &reference.name) {
            let symbols = &self.definitions[g].symbols;
            let best = nearest_in(symbols, line);
            return Some(symbols[best].duplicate());
        }
        None
    }

    /// Builds the graph of one document snapshot: indexes every declaration
    /// under its scope and name, then records the resolution of every reference
    /// that resolves.
    pub fn build(definitions: Vec<Symbol>, references: Vec<Reference>) -> (g: Self)
        ensures
            g.well_formed(),
            g.view().declarations == symbols_view(definitions@),
            g.view().references == references_view(references@),
            g.view().resolved == resolved_map(
                symbols_view(definitions@),
                references_view(references@),
            ),
    {
        let mut graph = ReferenceGraph {
            definitions: Vec::new(),
            references: Vec::new(),
            resolved_references: Vec::new(),
            declarations: Ghost(Seq::empty()),
        };
        assert(symbols_view(definitions@).take(0) =~= Seq::<SymbolView>::empty());
        let mut i: usize = 0;
        while i < definitions.len()
            invariant
                i <= definitions.len(),
                groups_wf(graph.definitions@, graph.declarations@),
                graph.declarations@ == symbols_view(definitions@).take(i as int),
                graph.resolved_references@.len() == 0,
            decreases definitions.len() - i,
        {
            let definition = definitions[i].duplicate();
            graph.index_definition(definition);
            assert(symbols_view(definitions@).take(i + 1) =~= symbols_view(definitions@).take(
                i as int,
            ).push(definitions@[i as int]@));
            i = i + 1;
        }
        assert(symbols_view(definitions@).take(definitions.len() as int) =~= symbols_view(
            definitions@,
        ));
        graph.references = references;
        let ghost decls = graph.declarations@;
        let ghost refs = references_view(graph.references@);
        assert(entries_map(graph.resolved_references@) =~= resolved_map(decls, refs.take(0)));
        let mut j: usize = 0;
        while j < graph.references.len()
            invariant
                j <= graph.references.len(),
                groups_wf(graph.definitions@, graph.declarations@),
                decls == graph.declarations@,
                refs == references_view(graph.references@),
                entries_map(graph.resolved_references@) == resolved_map(
                    decls,
                    refs.take(j as int),
                ),
            decreases graph.references.len() - j,
        {
            let reference = &graph.references[j];
            proof {
                let t = refs.take(j + 1);
                assert(t.drop_last() =~= refs.take(j as int));
                assert(t.last() == reference@);
            }
            if let Some(definition) = graph.resolve_reference(reference) {
                let entry = ResolvedReference {
                    name: reference.name.clone(),
                    line: reference.location.start.0,
                    column: reference.location.start.1,
                    definition,
                };
                let ghost before = graph.resolved_references@;
                graph.resolved_references.push(entry);
                assert(graph.resolved_references@.drop_last() =~= before);
            }
            j = j + 1;
        }
        assert(refs.take(graph.references.len() as int) =~= refs);
        graph
    }

    /// The first reference whose range contains `position`, if any.
    pub fn get_symbol_by_location(&self, position: Position) -> (r: Option<&Reference>)
        ensures
            match first_covering(self.view().references, position) {
                Some(i) => r is Some && r->0@ == self.view().references[i],
                None => r is None,
            },
    {
        let ghost refs = references_view(self.references@);
        let mut i: usize = 0;
        while i < self.references.len()
            invariant
                i <= self.references.len(),
                refs == references_view(self.references@),
                forall|j: int| 0 <= j < i ==> !covers(#[trigger] refs[j].location, position),
            decreases self.references.len() - i,
        {
            let reference = &self.references[i];
            let start = reference.location.start;
            let end = reference.location.end;
            if start.0 <= position.line && end.0 >= position.line && start.1 <= position.character
                && end.1 >= position.character {
                proof {
                    assert(is_first_covering(refs, position, i as int));
                    let k = choose|k: int| is_first_covering(refs, position, k);
                    if k < i {
                        assert(!covers(refs[k].location, position));
                    } else if k > i {
                        assert(!covers(refs[i as int].location, position));
                    }
                }
                return Some(reference);
            }
            i = i + 1;
        }
        proof {
            if exists|k: int| is_first_covering(refs, position, k) {
                let k = choose|k: int| is_first_covering(refs, position, k);
                assert(!covers(refs[k].location, position));
            }
        }
        None
    }

    /// The declaration that the reference under `position` resolves to, if a
    /// reference covers it and was resolved.
    pub fn find_definition(&self, position: Position) -> (r: Option<&Symbol>)
        requires
            self.well_formed(),
        ensures
            symbol_option_view(r) == self.definition_at(position),
    {
        let found = self.get_symbol_by_location(position);
        let reference = match found {
            Some(reference) => reference,
            None => return None,
        };
        let ghost i = first_covering(self.view().references, position)->0;
        let ghost k = reference_key(reference@);
        let ghost es = self.resolved_references@;
        let mut m: usize = self.resolved_references.len();
        while m > 0
            invariant
                m <= self.resolved_references.len(),
                es == self.resolved_references@,
                k == reference_key(reference@),
                first_covering(self.view().references, position) == Some(i),
                self.view().references[i] == reference@,
                forall|q: int| m <= q < es.len() ==> (#[trigger] es[q]).key() != k,
            decreases m,
        {
            let entry = &self.resolved_references[m - 1];
            if entry.line == reference.location.start.0 && entry.column
                == reference.location.start.1 && entry.name == reference.name {
                proof {
                    lemma_entries_found(es, k, m - 1);
                }
                return Some(&entry.definition);
            }
            m = m - 1;
        }
        proof {
            lemma_entries_absent(es, k);
        }
        None
    }
}

} // verus!
