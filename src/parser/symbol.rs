use vstd::prelude::*;

verus! {

/// A syntax error reported by an extractor.
#[derive(Debug)]
pub struct SyntaxError {
    pub message: String,
    pub line: usize,
    pub column: usize,
}

/// A source range: `(line, column)` of the first character and of the end.
#[derive(Debug, Clone, Copy)]
pub struct Location {
    pub start: (usize, usize),
    pub end: (usize, usize),
}

#[derive(Debug, Clone, Copy, PartialEq, Eq, Structural)]
pub enum SymbolKind {
    Function,
    Variable,
    Class,
    Parameter,
    Module,
    Unknown,
    Reference,
}

/// A declaration: its name, kind, range and the names of its enclosing scopes,
/// outermost first.
#[derive(Debug, Clone)]
pub struct Symbol {
    pub name: String,
    pub kind: SymbolKind,
    pub location: Location,
    pub scope_path: Vec<String>,
}

/// An identifier occurrence to be resolved.
#[derive(Debug, Clone)]
pub struct Reference {
    pub name: String,
    pub location: Location,
    pub scope_path: Vec<String>,
}

pub ghost struct SymbolView {
    pub name: Seq<char>,
    pub kind: SymbolKind,
    pub location: Location,
    pub scope_path: Seq<Seq<char>>,
}

pub ghost struct ReferenceView {
    pub name: Seq<char>,
    pub location: Location,
    pub scope_path: Seq<Seq<char>>,
}

/// The characters of each name in a list of names.
pub open spec fn names_view(v: Seq<String>) -> Seq<Seq<char>> {
    v.map_values(|s: String| s@)
}

/// The views of a list of declarations.
pub open spec fn symbols_view(v: Seq<Symbol>) -> Seq<SymbolView> {
    v.map_values(|s: Symbol| s@)
}

/// The views of a list of references.
pub open spec fn references_view(v: Seq<Reference>) -> Seq<ReferenceView> {
    v.map_values(|r: Reference| r@)
}

impl View for Symbol {
    type V = SymbolView;

    open spec fn view(&self) -> SymbolView {
        SymbolView {
            name: self.name@,
            kind: self.kind,
            location: self.location,
            scope_path: names_view(self.scope_path@),
        }
    }
}

impl View for Reference {
    type V = ReferenceView;

    open spec fn view(&self) -> ReferenceView {
        ReferenceView {
            name: self.name@,
            location: self.location,
            scope_path: names_view(self.scope_path@),
        }
    }
}

/// Copies a list of names.
pub fn copy_names(v: &Vec<String>) -> (r: Vec<String>)
    ensures
        names_view(r@) == names_view(v@),
{
    let mut r: Vec<String> = Vec::new();
    let mut i: usize = 0;
    while i < v.len()
        invariant
            i <= v.len(),
            r@.len() == i,
            names_view(r@) == names_view(v@.take(i as int)),
        decreases v.len() - i,
    {
        let ghost prev = r@;
        let name = v[i].clone();
        r.push(name);
        assert(r@ == prev.push(v@[i as int]));
        assert(v@.take(i + 1) == v@.take(i as int).push(v@[i as int]));
        i = i + 1;
        assert forall|j: int| 0 <= j < i implies names_view(r@)[j] == names_view(v@.take(i as int))[j] by {
            if j < i - 1 {
                assert(names_view(prev)[j] == names_view(v@.take(i - 1))[j]);
            }
        }
        assert(names_view(r@) =~= names_view(v@.take(i as int)));
    }
    assert(v@.take(v.len() as int) =~= v@);
    r
}

/// Whether two lists of names are equal, name by name.
pub fn names_equal(a: &Vec<String>, b: &Vec<String>) -> (r: bool)
    ensures
        r == (names_view(a@) == names_view(b@)),
{
    if a.len() != b.len() {
        assert(names_view(a@).len() != names_view(b@).len());
        return false;
    }
    let mut i: usize = 0;
    while i < a.len()
        invariant
            i <= a.len(),
            a.len() == b.len(),
            forall|j: int| 0 <= j < i ==> a@[j]@ == b@[j]@,
        decreases a.len() - i,
    {
        if a[i] != b[i] {
            assert(names_view(a@)[i as int] != names_view(b@)[i as int]);
            return false;
        }
        i = i + 1;
    }
    assert(names_view(a@) =~= names_view(b@));
    true
}

impl Symbol {
    /// A copy of this declaration with the same view.
    pub fn duplicate(&self) -> (r: Symbol)
        ensures
            r@ == self@,
    {
        Symbol {
            name: self.name.clone(),
            kind: self.kind,
            location: self.location,
            scope_path: copy_names(&self.scope_path),
        }
    }
}

impl Reference {
    /// A copy of this reference with the same view.
    pub fn duplicate(&self) -> (r: Reference)
        ensures
            r@ == self@,
    {
        Reference {
            name: self.name.clone(),
            location: self.location,
            scope_path: copy_names(&self.scope_path),
        }
    }
}

/// Copies a list of declarations.
pub fn copy_symbols(v: &Vec<Symbol>) -> (r: Vec<Symbol>)
    ensures
        symbols_view(r@) == symbols_view(v@),
{
    let mut r: Vec<Symbol> = Vec::new();
    let mut i: usize = 0;
    while i < v.len()
        invariant
            i <= v.len(),
            r@.len() == i,
            forall|j: int| 0 <= j < i ==> (#[trigger] r@[j])@ == v@[j]@,
        decreases v.len() - i,
    {
        r.push(v[i].duplicate());
        i = i + 1;
    }
    assert(symbols_view(r@) =~= symbols_view(v@));
    r
}

/// Copies a list of references.
pub fn copy_references(v: &Vec<Reference>) -> (r: Vec<Reference>)
    ensures
        references_view(r@) == references_view(v@),
{
    let mut r: Vec<Reference> = Vec::new();
    let mut i: usize = 0;
    while i < v.len()
        invariant
            i <= v.len(),
            r@.len() == i,
            forall|j: int| 0 <= j < i ==> (#[trigger] r@[j])@ == v@[j]@,
        decreases v.len() - i,
    {
        r.push(v[i].duplicate());
        i = i + 1;
    }
    assert(references_view(r@) =~= references_view(v@));
    r
}

impl PartialEq for Symbol {
    fn eq(&self, other: &Symbol) -> (r: bool) {
        self.name == other.name && self.kind == other.kind && self.location == other.location
            && names_equal(&self.scope_path, &other.scope_path)
    }
}

impl vstd::std_specs::cmp::PartialEqSpecImpl for Symbol {
    open spec fn obeys_eq_spec() -> bool {
        true
    }

    open spec fn eq_spec(&self, other: &Symbol) -> bool {
        self@ == other@
    }
}

impl Eq for Symbol {}

impl PartialEq for Reference {
    fn eq(&self, other: &Reference) -> (r: bool) {
        self.name == other.name && self.location == other.location && names_equal(
            &self.scope_path,
            &other.scope_path,
        )
    }
}

impl vstd::std_specs::cmp::PartialEqSpecImpl for Reference {
    open spec fn obeys_eq_spec() -> bool {
        true
    }

    open spec fn eq_spec(&self, other: &Reference) -> bool {
        self@ == other@
    }
}

impl Eq for Reference {}

impl PartialEq for Location {
    fn eq(&self, other: &Location) -> (r: bool) {
        self.start.0 == other.start.0 && self.start.1 == other.start.1 && self.end.0 == other.end.0
            && self.end.1 == other.end.1
    }
}

impl vstd::std_specs::cmp::PartialEqSpecImpl for Location {
    open spec fn obeys_eq_spec() -> bool {
        true
    }

    open spec fn eq_spec(&self, other: &Location) -> bool {
        *self == *other
    }
}

impl Eq for Location {}

} // verus!
