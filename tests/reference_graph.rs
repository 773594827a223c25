use scope_server::analysis::reference::ReferenceGraph;
use scope_server::lsp::document_sync::Position;
use scope_server::parser::parser::{Parser, TreeSitterParser};
use scope_server::parser::symbol::{Location, Reference, Symbol, SymbolKind};

fn path(names: &[&str]) -> Vec<String> {
    names.iter().map(|n| n.to_string()).collect()
}

fn decl(name: &str, line: usize, col: usize, scope: &[&str]) -> Symbol {
    Symbol {
        name: name.to_string(),
        kind: SymbolKind::Variable,
        location: Location { start: (line, col), end: (line, col + name.len()) },
        scope_path: path(scope),
    }
}

fn use_of(name: &str, line: usize, col: usize, scope: &[&str]) -> Reference {
    Reference {
        name: name.to_string(),
        location: Location { start: (line, col), end: (line, col + name.len()) },
        scope_path: path(scope),
    }
}

fn at(line: usize, character: usize) -> Position {
    Position { line, character }
}

#[test]
fn inner_scope_shadows_module_scope() {
    let defs = vec![decl("x", 0, 0, &["module"]), decl("x", 2, 4, &["module", "foo"])];
    let refs = vec![use_of("x", 3, 11, &["module", "foo"])];
    let graph = ReferenceGraph::build(defs, refs);
    let found = graph.find_definition(at(3, 11)).unwrap();
    assert_eq!(found.location.start, (2, 4));
    assert_eq!(found.scope_path, path(&["module", "foo"]));
}

#[test]
fn nearest_preceding_declaration_wins() {
    let defs = vec![decl("y", 2, 0, &["module"]), decl("y", 5, 0, &["module"])];
    let refs = vec![use_of("y", 6, 4, &["module"])];
    let graph = ReferenceGraph::build(defs, refs);
    assert_eq!(graph.find_definition(at(6, 4)).unwrap().location.start, (5, 0));
}

#[test]
fn earlier_declaration_when_later_one_follows_reference() {
    let defs = vec![decl("y", 2, 0, &["module"]), decl("y", 5, 0, &["module"])];
    let refs = vec![use_of("y", 3, 4, &["module"])];
    let graph = ReferenceGraph::build(defs, refs);
    assert_eq!(graph.find_definition(at(3, 4)).unwrap().location.start, (2, 0));
}

#[test]
fn forward_reference_takes_first_declaration() {
    let defs = vec![decl("g", 7, 4, &["module"]), decl("g", 9, 4, &["module"])];
    let refs = vec![use_of("g", 1, 4, &["module"])];
    let graph = ReferenceGraph::build(defs, refs);
    assert_eq!(graph.find_definition(at(1, 4)).unwrap().location.start, (7, 4));
}

#[test]
fn equal_distance_takes_first_declaration() {
    let defs = vec![decl("y", 4, 0, &["module"]), decl("y", 4, 8, &["module"])];
    let refs = vec![use_of("y", 6, 0, &["module"])];
    let graph = ReferenceGraph::build(defs, refs);
    assert_eq!(graph.find_definition(at(6, 0)).unwrap().location.start, (4, 0));
}

#[test]
fn undeclared_name_is_not_found() {
    let defs = vec![decl("x", 0, 0, &["module"])];
    let refs = vec![use_of("z", 1, 0, &["module", "foo"])];
    let graph = ReferenceGraph::build(defs, refs);
    assert!(graph.get_symbol_by_location(at(1, 0)).is_some());
    assert!(graph.find_definition(at(1, 0)).is_none());
}

#[test]
fn outer_scope_found_by_popping() {
    let defs = vec![decl("v", 1, 4, &["module", "outer"])];
    let refs = vec![use_of("v", 3, 8, &["module", "outer", "inner"])];
    let graph = ReferenceGraph::build(defs, refs);
    assert_eq!(graph.find_definition(at(3, 8)).unwrap().location.start, (1, 4));
}

#[test]
fn module_scope_is_the_last_resort() {
    let defs = vec![decl("m", 0, 0, &["module"])];
    let refs = vec![use_of("m", 2, 4, &["other"])];
    let graph = ReferenceGraph::build(defs, refs);
    assert_eq!(graph.find_definition(at(2, 4)).unwrap().location.start, (0, 0));
    let graph = ReferenceGraph::build(vec![decl("m", 0, 0, &["module"])], vec![use_of("m", 2, 4, &[])]);
    assert_eq!(graph.find_definition(at(2, 4)).unwrap().location.start, (0, 0));
}

#[test]
fn position_outside_every_reference_is_not_found() {
    let defs = vec![decl("x", 0, 0, &["module"])];
    let refs = vec![use_of("x", 1, 4, &["module"])];
    let graph = ReferenceGraph::build(defs, refs);
    assert!(graph.get_symbol_by_location(at(1, 3)).is_none());
    assert!(graph.get_symbol_by_location(at(2, 4)).is_none());
    assert!(graph.find_definition(at(1, 6)).is_none());
    assert!(graph.find_definition(at(1, 4)).is_some());
    assert!(graph.find_definition(at(1, 5)).is_some());
}

#[test]
fn first_covering_reference_is_located() {
    let refs = vec![
        Reference { name: "a".to_string(), location: Location { start: (0, 0), end: (0, 9) }, scope_path: path(&["module"]) },
        use_of("b", 0, 2, &["module"]),
    ];
    let graph = ReferenceGraph::build(Vec::new(), refs);
    assert_eq!(graph.get_symbol_by_location(at(0, 2)).unwrap().name, "a");
}

#[test]
fn empty_graph_finds_nothing() {
    let graph = ReferenceGraph::new();
    assert!(graph.get_symbol_by_location(at(0, 0)).is_none());
    assert!(graph.find_definition(at(0, 0)).is_none());
}

#[test]
fn self_reference_finds_its_declaration() {
    let d = decl("x", 1, 8, &["module"]);
    let r = use_of("x", 1, 8, &["module"]);
    let graph = ReferenceGraph::build(vec![d.clone()], vec![r]);
    assert_eq!(graph.find_definition(at(1, 8)), Some(&d));
}

#[test]
fn single_assignment_end_to_end() {
    let source = "x = 42\n";
    let mut parser = TreeSitterParser::new().unwrap();
    let (symbols, references) = parser.parse(source).unwrap();
    assert_eq!(
        symbols,
        vec![Symbol {
            name: "x".to_string(),
            kind: SymbolKind::Variable,
            location: Location { start: (0, 0), end: (0, 1) },
            scope_path: path(&["module"]),
        }]
    );
    assert!(references.is_empty());

    let self_ref = use_of("x", 0, 0, &["module"]);
    let graph = ReferenceGraph::build(symbols.clone(), vec![self_ref]);
    assert_eq!(graph.find_definition(at(0, 0)), Some(&symbols[0]));

    let (symbols, references) = parser.parse("x = 42\nprint(x)\n").unwrap();
    let graph = ReferenceGraph::build(symbols.clone(), references);
    assert_eq!(graph.find_definition(at(1, 6)), Some(&symbols[0]));
}

#[test]
fn parameters_resolve_end_to_end() {
    let source = "def foo(a, b): return a + b\n";
    let mut parser = TreeSitterParser::new().unwrap();
    let (symbols, references) = parser.parse(source).unwrap();
    let names: Vec<&str> = symbols.iter().map(|s| s.name.as_str()).collect();
    assert_eq!(names, vec!["foo", "a", "b"]);
    for s in &symbols {
        assert_eq!(s.scope_path, path(&["module", "foo"]));
    }
    assert_eq!(references.len(), 2);
    let graph = ReferenceGraph::build(symbols.clone(), references);
    assert_eq!(graph.find_definition(at(0, 22)), Some(&symbols[1]));
    assert_eq!(graph.find_definition(at(0, 26)), Some(&symbols[2]));
}

#[test]
fn later_reference_with_same_key_replaces_resolution() {
    let defs = vec![decl("x", 0, 0, &["module"]), decl("x", 0, 0, &["module", "f"])];
    let refs = vec![use_of("x", 5, 0, &["module"]), use_of("x", 5, 0, &["module", "f"])];
    let graph = ReferenceGraph::build(defs, refs);
    assert_eq!(graph.find_definition(at(5, 0)).unwrap().scope_path, path(&["module", "f"]));
}
