use scope_server::semantics::reference::ReferenceGraph;
use scope_server::semantics::symbol::{Location, Reference, Symbol, SymbolKind};

fn path(names: &[&str]) -> Vec<String> {
    names.iter().map(|n| n.to_string()).collect()
}

fn decl(name: &str, line: usize, scope: &[&str]) -> Symbol {
    Symbol {
        name: name.to_string(),
        kind: SymbolKind::Variable,
        location: Location { start: (line, 0), end: (line, name.len()) },
        scope_path: path(scope),
    }
}

fn use_of(name: &str, line: usize, scope: &[&str]) -> Reference {
    Reference {
        name: name.to_string(),
        location: Location { start: (line, 4), end: (line, 4 + name.len()) },
        scope_path: path(scope),
    }
}

#[test]
fn symbols_are_keyed_by_scope_and_name() {
    let graph = ReferenceGraph::build(
        vec![decl("x", 0, &["module"]), decl("y", 2, &["module", "foo"])],
        Vec::new(),
    );
    assert_eq!(graph.get_symbol("module:x").unwrap().location.start, (0, 0));
    assert_eq!(graph.get_symbol("module::foo:y").unwrap().location.start, (2, 0));
    assert!(graph.get_symbol("module:y").is_none());
    assert!(graph.get_symbol("x").is_none());
}

#[test]
fn later_declaration_replaces_earlier_one() {
    let graph = ReferenceGraph::build(vec![decl("x", 0, &["module"]), decl("x", 4, &["module"])], Vec::new());
    assert_eq!(graph.get_symbol("module:x").unwrap().location.start, (4, 0));
}

#[test]
fn references_are_filed_under_their_resolution() {
    let graph = ReferenceGraph::build(
        vec![decl("x", 0, &["module"]), decl("x", 2, &["module", "foo"])],
        vec![
            use_of("x", 3, &["module", "foo"]),
            use_of("x", 5, &["module"]),
            use_of("x", 6, &["module", "bar", "baz"]),
            use_of("z", 7, &["module"]),
            use_of("x", 8, &["elsewhere"]),
        ],
    );
    let inner = graph.get_references("module::foo:x");
    assert_eq!(inner.len(), 1);
    assert_eq!(inner[0].location.start, (3, 4));
    let outer: Vec<usize> = graph.get_references("module:x").iter().map(|r| r.location.start.0).collect();
    assert_eq!(outer, vec![5, 6, 8]);
    assert!(graph.get_references("module:z").is_empty());
}

#[test]
fn empty_scope_graph() {
    let graph = ReferenceGraph::new();
    assert!(graph.get_symbol("module:x").is_none());
    assert!(graph.get_references("module:x").is_empty());
}
