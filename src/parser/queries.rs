use vstd::prelude::*;

verus! {

#[verifier::external_type_specification]
#[verifier::external_body]
pub struct ExQuery(tree_sitter::Query);

#[verifier::external_type_specification]
#[verifier::external_body]
pub struct ExQueryError(tree_sitter::QueryError);

/// Patterns whose captures are declarations. Capture indices follow the
/// order in which capture names first appear: function names are 0, class
/// names 1, and assigned variables and parameters 2.
pub const DECLARATION_PATTERNS: &'static str = "
    (function_definition
      name: (identifier) @function.def)
    (class_definition
      name: (identifier) @class.def)
    (assignment
      left: (identifier) @variable.def)
    (parameters
      (identifier) @variable.def)
";

/// A pattern that captures every identifier.
pub const REFERENCE_PATTERNS: &'static str = "
    (identifier) @reference
";

/// Relies on tree_sitter::Query::new, with the Python grammar of
/// tree_sitter_python: the compiled query, or why `patterns` do not compile.
#[verifier::external_body]
fn python_query(patterns: &str) -> Result<tree_sitter::Query, tree_sitter::QueryError> {
    tree_sitter::Query::new(&tree_sitter_python::LANGUAGE.into(), patterns)
}

/// The query that finds declarations in Python source.
pub fn get_declaration_query() -> Result<tree_sitter::Query, tree_sitter::QueryError> {
    python_query(DECLARATION_PATTERNS)
}

/// The query that finds identifier occurrences in Python source.
pub fn get_reference_query() -> Result<tree_sitter::Query, tree_sitter::QueryError> {
    python_query(REFERENCE_PATTERNS)
}

} // verus!
