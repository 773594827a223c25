use scope_server::parser::parser::{
    extract_python, kind_of_capture, scope_path_from_frames, CollectError, Parser, ScopeFrame,
    SymbolCollector, TreeSitterParser,
};
use scope_server::parser::symbol::{Location, Symbol, SymbolKind};

#[test]
fn basic_variable_test() {
    let source_code = r#"
        x = 42
        "#;

    let mut parser = TreeSitterParser::new().unwrap();
    let (symbols, references) = parser.parse(source_code).unwrap();

    // Account for some extra indentation to the start column
    // to make the test code more readable
    let ident_length = 8;

    let expected_symbols = vec![Symbol {
        name: "x".to_string(),
        kind: SymbolKind::Variable,
        location: Location {
            start: (1, ident_length),
            end: (1, 1 + ident_length),
        },
        scope_path: vec!["module".to_string()],
    }];

    assert_eq!(symbols, expected_symbols);
    assert!(references.is_empty());
}

#[test]
fn basic_function_test() {
    let source_code = r#"
        def foo():
            pass
        "#;

    let mut parser = TreeSitterParser::new().unwrap();
    let (symbols, references) = parser.parse(source_code).unwrap();

    let ident_length = 8;

    let expected_symbols = vec![Symbol {
        name: "foo".to_string(),
        kind: SymbolKind::Function,
        location: Location {
            start: (1, 4 + ident_length),
            end: (1, 7 + ident_length),
        },
        scope_path: vec!["module".to_string(), "foo".to_string()],
    }];

    assert_eq!(symbols, expected_symbols);
    assert!(references.is_empty());
}

#[test]
fn function_with_parameters() {
    let source_code = r#"
        def foo(a,b):
            return a + b
        "#;

    let mut parser = TreeSitterParser::new().unwrap();
    let (symbols, _) = parser.parse(source_code).unwrap();

    let ident_length = 8;

    let expected_symbols = vec![
        Symbol {
            name: "foo".to_string(),
            kind: SymbolKind::Function,
            location: Location {
                start: (1, 4 + ident_length),
                end: (1, 7 + ident_length),
            },
            scope_path: vec!["module".to_string(), "foo".to_string()],
        },
        Symbol {
            name: "a".to_string(),
            kind: SymbolKind::Variable,
            location: Location {
                start: (1, 8 + ident_length),
                end: (1, 9 + ident_length),
            },
            scope_path: vec!["module".to_string(), "foo".to_string()],
        },
        Symbol {
            name: "b".to_string(),
            kind: SymbolKind::Variable,
            location: Location {
                start: (1, 10 + ident_length),
                end: (1, 11 + ident_length),
            },
            scope_path: vec!["module".to_string(), "foo".to_string()],
        },
    ];
    assert_eq!(symbols, expected_symbols);
}

#[test]
fn parameter_uses_are_references_in_function_scope() {
    let source_code = "def foo(a, b):\n    return a + b\n";
    let mut parser = TreeSitterParser::new().unwrap();
    let (symbols, references) = parser.parse(source_code).unwrap();
    assert_eq!(symbols.len(), 3);
    assert_eq!(references.len(), 2);
    assert_eq!(references[0].name, "a");
    assert_eq!(references[0].location, Location { start: (1, 11), end: (1, 12) });
    assert_eq!(references[0].scope_path, vec!["module".to_string(), "foo".to_string()]);
    assert_eq!(references[1].name, "b");
    assert_eq!(references[1].location, Location { start: (1, 15), end: (1, 16) });
}

#[test]
fn class_and_method_scopes() {
    let source_code = "class A:\n    def m(self):\n        y = 1\n";
    let mut parser = TreeSitterParser::new().unwrap();
    let (symbols, references) = parser.parse(source_code).unwrap();
    let names: Vec<&str> = symbols.iter().map(|s| s.name.as_str()).collect();
    assert_eq!(names, vec!["A", "m", "self", "y"]);
    assert_eq!(symbols[0].kind, SymbolKind::Class);
    assert_eq!(symbols[1].kind, SymbolKind::Function);
    assert_eq!(symbols[3].kind, SymbolKind::Variable);
    assert_eq!(
        symbols[3].scope_path,
        vec!["module".to_string(), "A".to_string(), "m".to_string()]
    );
    assert!(references.is_empty());
}

#[test]
fn non_ascii_names_are_extracted_as_text() {
    let source_code = "é = 1\n";
    let mut parser = TreeSitterParser::new().unwrap();
    let (symbols, _) = parser.parse(source_code).unwrap();
    assert_eq!(symbols.len(), 1);
    assert_eq!(symbols[0].name, "é");
}

#[test]
fn no_reference_shares_a_declaration_range() {
    let source_code = "x = 1\ny = x\ndef f(x):\n    return x + y\n";
    let mut parser = TreeSitterParser::new().unwrap();
    let (symbols, references) = parser.parse(source_code).unwrap();
    for r in &references {
        assert!(symbols.iter().all(|d| d.location != r.location));
    }
    assert_eq!(references.len(), 3);
}

#[test]
fn capture_indices_map_to_kinds() {
    assert_eq!(kind_of_capture(0), SymbolKind::Function);
    assert_eq!(kind_of_capture(1), SymbolKind::Class);
    assert_eq!(kind_of_capture(2), SymbolKind::Variable);
    assert_eq!(kind_of_capture(3), SymbolKind::Parameter);
    assert_eq!(kind_of_capture(4), SymbolKind::Module);
    assert_eq!(kind_of_capture(9), SymbolKind::Unknown);
}

#[test]
fn scope_path_lists_definitions_outermost_first() {
    let frames = vec![
        ScopeFrame { kind: "block".to_string(), name: None },
        ScopeFrame { kind: "function_definition".to_string(), name: Some("inner".to_string()) },
        ScopeFrame { kind: "class_definition".to_string(), name: Some("C".to_string()) },
        ScopeFrame { kind: "function_definition".to_string(), name: None },
        ScopeFrame { kind: "module".to_string(), name: Some("ignored".to_string()) },
    ];
    assert_eq!(
        scope_path_from_frames(&frames),
        vec!["module".to_string(), "C".to_string(), "inner".to_string()]
    );
    assert!(scope_path_from_frames(&Vec::new()).is_empty());
}

#[test]
fn extraction_matches_parser() {
    let source = "def foo(a, b):\n    return a + b\n";
    let mut parser = TreeSitterParser::new().unwrap();
    assert_eq!(extract_python(source).unwrap(), parser.parse(source).unwrap());
}

#[test]
fn collector_appends_and_suppresses_against_all_declarations() {
    let mut collector = SymbolCollector::new("y = x\n");
    collector.declarations.push(Symbol {
        name: "x".to_string(),
        kind: SymbolKind::Variable,
        location: Location { start: (0, 4), end: (0, 5) },
        scope_path: vec!["module".to_string()],
    });
    assert_eq!(collector.collect_symbols(), Ok(()));
    let names: Vec<&str> = collector.declarations.iter().map(|s| s.name.as_str()).collect();
    assert_eq!(names, vec!["x", "y"]);
    assert!(collector.references.is_empty());
}

#[test]
fn collect_error_messages() {
    assert_eq!(CollectError::Unparsed.message(), "Failed to parse");
    assert_eq!(
        CollectError::InvalidText.message(),
        "Failed to collect symbols: node text is not valid UTF-8"
    );
}
