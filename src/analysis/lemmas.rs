use vstd::prelude::*;

use crate::analysis::reference::{
    candidates, covers, distance_to, filed_under, is_first_covering, nearest, nearest_index,
    reference_key, resolve, resolve_in_scopes, resolved_map, ReferenceGraph,
};
use crate::lsp::document_sync::Position;
use crate::parser::symbol::{ReferenceView, SymbolView};

verus! {

/// Every declaration in a candidate list is one of the declarations, filed
/// under the list's key.
pub proof fn lemma_candidates_members(
    decls: Seq<SymbolView>,
    scope: Seq<Seq<char>>,
    name: Seq<char>,
    idx: int,
)
    requires
        0 <= idx < candidates(decls, scope, name).len(),
    ensures
        filed_under(candidates(decls, scope, name)[idx], scope, name),
        exists|j: int| 0 <= j < decls.len() && decls[j] == candidates(decls, scope, name)[idx],
    decreases decls.len(),
{
    let rest = candidates(decls.drop_last(), scope, name);
    if idx < rest.len() {
        lemma_candidates_members(decls.drop_last(), scope, name, idx);
        let j = choose|j: int| 0 <= j < decls.drop_last().len() && decls.drop_last()[j] == rest[idx];
        assert(decls[j] == rest[idx]);
    } else {
        assert(decls[decls.len() - 1] == candidates(decls, scope, name)[idx]);
    }
}

/// Every declaration filed under a key appears in that key's candidate list.
pub proof fn lemma_candidates_contain(decls: Seq<SymbolView>, k: int)
    requires
        0 <= k < decls.len(),
    ensures
        exists|idx: int|
            0 <= idx < candidates(decls, decls[k].scope_path, decls[k].name).len()
                && candidates(decls, decls[k].scope_path, decls[k].name)[idx] == decls[k],
    decreases decls.len(),
{
    let d = decls[k];
    let c = candidates(decls, d.scope_path, d.name);
    if k == decls.len() - 1 {
        assert(c[c.len() - 1] == d);
    } else {
        lemma_candidates_contain(decls.drop_last(), k);
        let rest = candidates(decls.drop_last(), d.scope_path, d.name);
        let idx = choose|idx: int| 0 <= idx < rest.len() && rest[idx] == decls.drop_last()[k];
        assert(c[idx] == d);
    }
}

/// Among several declarations under one key, the one chosen lies at the least
/// line distance from the reference, and every declaration before it lies
/// farther away: the nearest preceding declaration wins, the first of equals.
pub proof fn lemma_nearest_is_closest(c: Seq<SymbolView>, line: usize)
    requires
        c.len() > 0,
    ensures
        0 <= nearest_index(c, line) < c.len(),
        forall|j: int|
            0 <= j < c.len() ==> distance_to(c[nearest_index(c, line)], line) <= distance_to(
                #[trigger] c[j],
                line,
            ),
        forall|j: int|
            0 <= j < nearest_index(c, line) ==> distance_to(#[trigger] c[j], line) > distance_to(
                c[nearest_index(c, line)],
                line,
            ),
    decreases c.len(),
{
    if c.len() > 1 {
        let p = c.drop_last();
        lemma_nearest_is_closest(p, line);
        let k = nearest_index(p, line);
        let n = nearest_index(c, line);
        assert(c[k] == p[k]);
        assert forall|j: int| 0 <= j < c.len() implies distance_to(c[n], line) <= distance_to(
            #[trigger] c[j],
            line,
        ) by {
            if j < c.len() - 1 {
                assert(c[j] == p[j]);
            }
        }
        assert forall|j: int| 0 <= j < n implies distance_to(#[trigger] c[j], line) > distance_to(
            c[n],
            line,
        ) by {
            assert(c[j] == p[j]);
        }
    }
}

/// Shadowing: when the reference's own scope declares its name, resolution
/// picks among those declarations, whatever the enclosing scopes declare.
pub proof fn lemma_innermost_scope_wins(decls: Seq<SymbolView>, r: ReferenceView)
    requires
        r.scope_path.len() > 0,
        candidates(decls, r.scope_path, r.name).len() > 0,
    ensures
        resolve(decls, r) == nearest(candidates(decls, r.scope_path, r.name), r.location.start.0),
        resolve(decls, r) is Some,
        resolve(decls, r)->0.scope_path == r.scope_path,
        resolve(decls, r)->0.name == r.name,
{
    let c = candidates(decls, r.scope_path, r.name);
    lemma_nearest_is_closest(c, r.location.start.0);
    lemma_candidates_members(decls, r.scope_path, r.name, nearest_index(c, r.location.start.0));
}

/// A name that nothing declares stays unresolved.
pub proof fn lemma_undeclared_name_unresolved(decls: Seq<SymbolView>, r: ReferenceView)
    requires
        forall|i: int| 0 <= i < decls.len() ==> (#[trigger] decls[i]).name != r.name,
    ensures
        resolve(decls, r) is None,
{
    lemma_unresolved_in_scopes(decls, r.name, r.location.start.0, r.scope_path);
}

proof fn lemma_no_candidates(decls: Seq<SymbolView>, scope: Seq<Seq<char>>, name: Seq<char>)
    requires
        forall|i: int| 0 <= i < decls.len() ==> (#[trigger] decls[i]).name != name,
    ensures
        candidates(decls, scope, name).len() == 0,
{
    if candidates(decls, scope, name).len() > 0 {
        lemma_candidates_members(decls, scope, name, 0);
    }
}

proof fn lemma_unresolved_in_scopes(
    decls: Seq<SymbolView>,
    name: Seq<char>,
    line: usize,
    scope: Seq<Seq<char>>,
)
    requires
        forall|i: int| 0 <= i < decls.len() ==> (#[trigger] decls[i]).name != name,
    ensures
        resolve_in_scopes(decls, name, line, scope) is None,
    decreases scope.len(),
{
    lemma_no_candidates(decls, scope, name);
    lemma_no_candidates(decls, crate::analysis::reference::module_scope(), name);
    if scope.len() > 0 {
        lemma_unresolved_in_scopes(decls, name, line, scope.drop_last());
    }
}

proof fn lemma_resolved_map_absent(
    decls: Seq<SymbolView>,
    refs: Seq<ReferenceView>,
    k: (Seq<char>, usize, usize),
)
    requires
        forall|j: int| 0 <= j < refs.len() ==> reference_key(#[trigger] refs[j]) != k,
    ensures
        !resolved_map(decls, refs).contains_key(k),
    decreases refs.len(),
{
    if refs.len() > 0 {
        lemma_resolved_map_absent(decls, refs.drop_last(), k);
    }
}

/// A reference whose key no other reference shares is recorded with exactly
/// its own resolution.
pub proof fn lemma_resolved_map_at(decls: Seq<SymbolView>, refs: Seq<ReferenceView>, i: int)
    requires
        0 <= i < refs.len(),
        forall|j: int|
            0 <= j < refs.len() && j != i ==> reference_key(#[trigger] refs[j]) != reference_key(
                refs[i],
            ),
    ensures
        resolved_map(decls, refs).contains_key(reference_key(refs[i])) == resolve(
            decls,
            refs[i],
        ) is Some,
        resolve(decls, refs[i]) is Some ==> resolved_map(decls, refs)[reference_key(refs[i])]
            == resolve(decls, refs[i])->0,
    decreases refs.len(),
{
    let p = refs.drop_last();
    if i == refs.len() - 1 {
        assert forall|j: int| 0 <= j < p.len() implies reference_key(#[trigger] p[j])
            != reference_key(refs[i]) by {
            assert(p[j] == refs[j]);
        }
        lemma_resolved_map_absent(decls, p, reference_key(refs[i]));
    } else {
        assert forall|j: int| 0 <= j < p.len() && j != i implies reference_key(#[trigger] p[j])
            != reference_key(p[i]) by {
            assert(p[j] == refs[j]);
        }
        lemma_resolved_map_at(decls, p, i);
        assert(p[i] == refs[i]);
    }
}

/// Go-to-definition answers with the resolution of the reference under the
/// cursor, when no other reference shares that reference's key.
pub proof fn lemma_definition_at_resolves(g: ReferenceGraph, p: Position, i: int)
    requires
        g.well_formed(),
        is_first_covering(g.view().references, p, i),
        forall|j: int|
            0 <= j < g.view().references.len() && j != i ==> reference_key(
                #[trigger] g.view().references[j],
            ) != reference_key(g.view().references[i]),
    ensures
        g.definition_at(p) == resolve(g.view().declarations, g.view().references[i]),
{
    let refs = g.view().references;
    ReferenceGraph::lemma_view_resolved(g);
    lemma_resolved_map_at(g.view().declarations, refs, i);
    let k = choose|k: int| is_first_covering(refs, p, k);
    if k < i {
        assert(!covers(refs[k].location, p));
    } else if k > i {
        assert(!covers(refs[i].location, p));
    }
}

/// A declaration's own occurrence, recorded as a reference and looked up at
/// its first character, leads back to that declaration, when it is the only
/// declaration of its name and scope on its line, no earlier reference covers
/// that character, and no other reference shares its key.
pub proof fn lemma_self_reference_finds_declaration(g: ReferenceGraph, k: int, i: int)
    requires
        g.well_formed(),
        0 <= k < g.view().declarations.len(),
        0 <= i < g.view().references.len(),
        g.view().references[i].name == g.view().declarations[k].name,
        g.view().references[i].location == g.view().declarations[k].location,
        g.view().references[i].scope_path == g.view().declarations[k].scope_path,
        g.view().declarations[k].scope_path.len() > 0,
        g.view().declarations[k].location.start.0 <= g.view().declarations[k].location.end.0,
        g.view().declarations[k].location.start.1 <= g.view().declarations[k].location.end.1,
        forall|j: int|
            0 <= j < g.view().declarations.len() && j != k && filed_under(
                #[trigger] g.view().declarations[j],
                g.view().declarations[k].scope_path,
                g.view().declarations[k].name,
            ) ==> g.view().declarations[j].location.start.0
                != g.view().declarations[k].location.start.0,
        forall|j: int|
            0 <= j < i ==> !covers(
                #[trigger] g.view().references[j].location,
                Position {
                    line: g.view().declarations[k].location.start.0,
                    character: g.view().declarations[k].location.start.1,
                },
            ),
        forall|j: int|
            0 <= j < g.view().references.len() && j != i ==> reference_key(
                #[trigger] g.view().references[j],
            ) != reference_key(g.view().references[i]),
    ensures
        g.definition_at(
            Position {
                line: g.view().declarations[k].location.start.0,
                character: g.view().declarations[k].location.start.1,
            },
        ) == Some(g.view().declarations[k]),
{
    let decls = g.view().declarations;
    let d = decls[k];
    let r = g.view().references[i];
    let p = Position { line: d.location.start.0, character: d.location.start.1 };
    lemma_definition_at_resolves(g, p, i);
    lemma_candidates_contain(decls, k);
    let c = candidates(decls, d.scope_path, d.name);
    let line = d.location.start.0;
    lemma_innermost_scope_wins(decls, r);
    lemma_nearest_is_closest(c, line);
    let n = nearest_index(c, line);
    let idx = choose|idx: int| 0 <= idx < c.len() && c[idx] == d;
    assert(distance_to(c[idx], line) == 0);
    lemma_candidates_members(decls, d.scope_path, d.name, n);
    let j = choose|j: int| 0 <= j < decls.len() && decls[j] == c[n];
    assert(decls[j].location.start.0 == line);
    assert(j == k);
}

/// Go-to-definition at the first character of a reference answers the
/// declaration that the reference resolves to, when no earlier reference
/// covers that character and no other reference shares its key.
pub proof fn lemma_reference_start_finds_resolution(g: ReferenceGraph, i: int)
    requires
        g.well_formed(),
        0 <= i < g.view().references.len(),
        g.view().references[i].location.start.0 <= g.view().references[i].location.end.0,
        g.view().references[i].location.start.1 <= g.view().references[i].location.end.1,
        forall|j: int|
            0 <= j < i ==> !covers(
                #[trigger] g.view().references[j].location,
                Position {
                    line: g.view().references[i].location.start.0,
                    character: g.view().references[i].location.start.1,
                },
            ),
        forall|j: int|
            0 <= j < g.view().references.len() && j != i ==> reference_key(
                #[trigger] g.view().references[j],
            ) != reference_key(g.view().references[i]),
    ensures
        g.definition_at(
            Position {
                line: g.view().references[i].location.start.0,
                character: g.view().references[i].location.start.1,
            },
        ) == resolve(g.view().declarations, g.view().references[i]),
{
    let r = g.view().references[i];
    let p = Position { line: r.location.start.0, character: r.location.start.1 };
    assert(is_first_covering(g.view().references, p, i));
    lemma_definition_at_resolves(g, p, i);
}

/// Go-to-definition at the first character of a reference answers the one
/// declaration of the reference's name in the reference's own scope, under
/// the conditions of `lemma_reference_start_finds_resolution`.
pub proof fn lemma_reference_start_finds_declaration(g: ReferenceGraph, i: int, k: int)
    requires
        g.well_formed(),
        0 <= i < g.view().references.len(),
        0 <= k < g.view().declarations.len(),
        g.view().references[i].scope_path.len() > 0,
        filed_under(
            g.view().declarations[k],
            g.view().references[i].scope_path,
            g.view().references[i].name,
        ),
        forall|j: int|
            0 <= j < g.view().declarations.len() && j != k ==> !filed_under(
                #[trigger] g.view().declarations[j],
                g.view().references[i].scope_path,
                g.view().references[i].name,
            ),
        g.view().references[i].location.start.0 <= g.view().references[i].location.end.0,
        g.view().references[i].location.start.1 <= g.view().references[i].location.end.1,
        forall|j: int|
            0 <= j < i ==> !covers(
                #[trigger] g.view().references[j].location,
                Position {
                    line: g.view().references[i].location.start.0,
                    character: g.view().references[i].location.start.1,
                },
            ),
        forall|j: int|
            0 <= j < g.view().references.len() && j != i ==> reference_key(
                #[trigger] g.view().references[j],
            ) != reference_key(g.view().references[i]),
    ensures
        g.definition_at(
            Position {
                line: g.view().references[i].location.start.0,
                character: g.view().references[i].location.start.1,
            },
        ) == Some(g.view().declarations[k]),
{
    let decls = g.view().declarations;
    let r = g.view().references[i];
    lemma_reference_start_finds_resolution(g, i);
    lemma_candidates_contain(decls, k);
    lemma_innermost_scope_wins(decls, r);
    let c = candidates(decls, r.scope_path, r.name);
    let n = nearest_index(c, r.location.start.0);
    lemma_nearest_is_closest(c, r.location.start.0);
    lemma_candidates_members(decls, r.scope_path, r.name, n);
    let j = choose|j: int| 0 <= j < decls.len() && decls[j] == c[n];
    assert(j == k);
}

} // verus!
