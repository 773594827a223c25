use vstd::prelude::*;

use streaming_iterator::StreamingIterator;
use tree_sitter::Parser as SyntaxParser;

use super::queries::{DECLARATION_PATTERNS, REFERENCE_PATTERNS};
use super::symbol::{
    names_view, references_view, symbols_view, Location, Reference, ReferenceView, Symbol,
    SymbolKind, SymbolView, SyntaxError,
};

verus! {

#[verifier::external_type_specification]
#[verifier::external_body]
pub struct ExSyntaxParser(SyntaxParser);

#[verifier::external_type_specification]
#[verifier::external_body]
pub struct ExNode<'tree>(tree_sitter::Node<'tree>);

#[verifier::external_type_specification]
#[verifier::external_body]
pub struct ExLanguageError(tree_sitter::LanguageError);

/// A child of a node that encloses a capture: its kind and its text.
pub struct ChildRecord {
    pub kind: String,
    pub text: Option<String>,
}

/// A node that encloses a capture: its kind and its children, in order.
pub struct AncestorRecord {
    pub kind: String,
    pub children: Vec<ChildRecord>,
}

/// One capture of a query: its capture index, the captured node's text and
/// range, and the nodes that enclose it, innermost first.
pub struct CaptureRecord {
    pub index: u32,
    pub text: Option<String>,
    pub location: Location,
    pub ancestors: Vec<AncestorRecord>,
}

/// What a capture record holds, as plain values.
pub ghost struct CaptureView {
    pub index: u32,
    pub text: Option<Seq<char>>,
    pub location: Location,
    pub ancestors: Seq<(Seq<char>, Seq<(Seq<char>, Option<Seq<char>>)>)>,
}

pub open spec fn text_view(o: Option<String>) -> Option<Seq<char>> {
    match o {
        Some(s) => Some(s@),
        None => None,
    }
}

pub open spec fn child_view(c: ChildRecord) -> (Seq<char>, Option<Seq<char>>) {
    (c.kind@, text_view(c.text))
}

pub open spec fn ancestor_view(a: AncestorRecord) -> (Seq<char>, Seq<(Seq<char>, Option<Seq<char>>)>) {
    (a.kind@, a.children@.map_values(|c: ChildRecord| child_view(c)))
}

pub open spec fn capture_view(c: CaptureRecord) -> CaptureView {
    CaptureView {
        index: c.index,
        text: text_view(c.text),
        location: c.location,
        ancestors: c.ancestors@.map_values(|a: AncestorRecord| ancestor_view(a)),
    }
}

pub open spec fn captures_view(v: Seq<CaptureRecord>) -> Seq<CaptureView> {
    v.map_values(|c: CaptureRecord| capture_view(c))
}

/// The captures that tree-sitter's Python grammar gives for query `patterns`
/// on `source`, or nothing when it gives no tree or the patterns do not
/// compile.
pub uninterp spec fn python_captures(source: Seq<char>, patterns: Seq<char>) -> Option<Seq<CaptureView>>;

/// Relies on tree_sitter::Parser::new and Parser::set_language with the
/// grammar of tree_sitter_python: a Python parser, or the error that the
/// grammar's version is not supported.
#[verifier::external_body]
fn python_parser() -> Result<SyntaxParser, tree_sitter::LanguageError> {
    let mut parser = SyntaxParser::new();
    match parser.set_language(&tree_sitter_python::LANGUAGE.into()) {
        Ok(()) => Ok(parser),
        Err(e) => Err(e),
    }
}

/// Relies on tree_sitter's Parser::new, Parser::set_language with
/// tree_sitter_python's grammar, Parser::parse (no timeout or cancellation is
/// set), Query::new and QueryCursor::matches run to its end: each capture of
/// each match of `patterns` in the tree of `source`, in the order the matches
/// are found. The outcome depends on `source` and `patterns` alone.
#[verifier::external_body]
fn python_captures_of(source: &str, patterns: &str) -> (r: Option<Vec<CaptureRecord>>)
    ensures
        r is Some <==> python_captures(source@, patterns@) is Some,
        r is Some ==> captures_view(r->0@) == python_captures(source@, patterns@)->0,
{
    let language: tree_sitter::Language = tree_sitter_python::LANGUAGE.into();
    let mut parser = SyntaxParser::new();
    parser.set_language(&language).ok()?;
    let tree = parser.parse(source, None)?;
    let query = tree_sitter::Query::new(&language, patterns).ok()?;
    let mut cursor = tree_sitter::QueryCursor::new();
    let mut matches = cursor.matches(&query, tree.root_node(), source.as_bytes());
    let mut out = Vec::new();
    while let Some(m) = matches.next() {
        for c in m.captures {
            out.push(capture_record(c.index, c.node, source.as_bytes()));
        }
    }
    Some(out)
}

/// Relies on tree_sitter::Node::parent (followed to the root),
/// start_position and end_position: a capture as a plain record.
#[verifier::external_body]
fn capture_record(index: u32, node: tree_sitter::Node, source: &[u8]) -> CaptureRecord {
    let mut ancestors = Vec::new();
    let mut current = node.parent();
    while let Some(parent) = current {
        ancestors.push(ancestor_record(parent, source));
        current = parent.parent();
    }
    let (start, end) = (node.start_position(), node.end_position());
    let location = Location { start: (start.row, start.column), end: (end.row, end.column) };
    CaptureRecord { index, text: node_text(node, source), location, ancestors }
}

/// Relies on tree_sitter::Node::kind, child_count and child: an enclosing
/// node's kind and its children's kinds and texts.
#[verifier::external_body]
fn ancestor_record(node: tree_sitter::Node, source: &[u8]) -> AncestorRecord {
    let mut children = Vec::new();
    for i in 0..node.child_count() {
        if let Some(child) = node.child(i) {
            children.push(ChildRecord { kind: child.kind().to_string(), text: node_text(child, source) });
        }
    }
    AncestorRecord { kind: node.kind().to_string(), children }
}

/// Relies on tree_sitter::Node::start_byte and end_byte and on
/// std::str::from_utf8: the node's text, if its bytes lie in `source` and are
/// UTF-8.
#[verifier::external_body]
fn node_text(node: tree_sitter::Node, source: &[u8]) -> Option<String> {
    let bytes = source.get(node.start_byte()..node.end_byte())?;
    std::str::from_utf8(bytes).ok().map(|t| t.to_string())
}

/// Why a parser could not be set up.
#[derive(Debug, Clone, Copy, PartialEq, Eq, Structural)]
pub enum ParserInitError {
    /// The grammar's version is not one the parsing library supports.
    IncompatibleLanguage,
}

/// An extractor of declarations and references from source text: a function
/// of the text alone.
pub trait Parser {
    /// What the extractor gives for `source`: its declarations and
    /// references, or nothing when extraction fails. An extractor that does
    /// not say fails on every source.
    open spec fn extraction_of(source: Seq<char>) -> Option<(Seq<SymbolView>, Seq<ReferenceView>)> {
        None
    }

    /// A ready parser, or why one cannot be made.
    fn new() -> Result<Self, ParserInitError> where Self: Sized;

    /// The declarations and references of `source`, in source order, or the
    /// errors that kept them from being extracted. No reference has the same
    /// range as a declaration: a declaration is never its own use.
    fn parse(&mut self, source: &str) -> (r: Result<(Vec<Symbol>, Vec<Reference>), Vec<SyntaxError>>)
        ensures
            r is Ok <==> Self::extraction_of(source@) is Some,
            r matches Ok(p) ==> Self::extraction_of(source@) == Some(
                (symbols_view(p.0@), references_view(p.1@)),
            ),
            r matches Ok(p) ==> distinct_from_declarations(
                symbols_view(p.0@),
                references_view(p.1@),
            ),
    ;

    /// The syntax errors of the last parse.
    fn _get_errors(&self) -> Vec<SyntaxError>;
}

/// Whether no reference of `refs` has the same range as a declaration of `decls`.
pub open spec fn distinct_from_declarations(decls: Seq<SymbolView>, refs: Seq<ReferenceView>) -> bool {
    forall|i: int, j: int|
        0 <= i < refs.len() && 0 <= j < decls.len() ==> (#[trigger] refs[i]).location != (
        #[trigger] decls[j]).location
}

/// The kind of declaration that a capture of the declaration patterns stands
/// for, by its capture index.
pub open spec fn capture_kind(index: u32) -> SymbolKind {
    if index == 0 {
        SymbolKind::Function
    } else if index == 1 {
        SymbolKind::Class
    } else if index == 2 {
        SymbolKind::Variable
    } else if index == 3 {
        SymbolKind::Parameter
    } else if index == 4 {
        SymbolKind::Module
    } else {
        SymbolKind::Unknown
    }
}

/// The declaration kind for a capture index.
pub fn kind_of_capture(index: u32) -> (k: SymbolKind)
    ensures
        k == capture_kind(index),
{
    match index {
        0 => SymbolKind::Function,
        1 => SymbolKind::Class,
        2 => SymbolKind::Variable,
        3 => SymbolKind::Parameter,
        4 => SymbolKind::Module,
        _ => SymbolKind::Unknown,
    }
}

/// A node that encloses an occurrence: its kind and, where it has one, the
/// text of its first identifier child.
pub struct ScopeFrame {
    pub kind: String,
    pub name: Option<String>,
}

pub open spec fn frames_view(v: Seq<ScopeFrame>) -> Seq<(Seq<char>, Option<Seq<char>>)> {
    v.map_values(|f: ScopeFrame| (f.kind@, text_view(f.name)))
}

/// The scope name that an enclosing node contributes: a function or class
/// definition its name, the module `module`, any other node none.
pub open spec fn frame_scope(kind: Seq<char>, name: Option<Seq<char>>) -> Option<Seq<char>> {
    if kind == "function_definition"@ || kind == "class_definition"@ {
        name
    } else if kind == "module"@ {
        Some("module"@)
    } else {
        None
    }
}

/// The scope path for enclosing nodes listed innermost first, each with its
/// kind and name: their scope names, outermost first.
pub open spec fn scope_path_of(frames: Seq<(Seq<char>, Option<Seq<char>>)>) -> Seq<Seq<char>>
    decreases frames.len(),
{
    if frames.len() == 0 {
        Seq::empty()
    } else {
        let rest = scope_path_of(frames.drop_first());
        match frame_scope(frames[0].0, frames[0].1) {
            Some(n) => rest.push(n),
            None => rest,
        }
    }
}

/// The text of the first child of kind `identifier`, if there is one and it
/// has a text.
pub open spec fn first_identifier(children: Seq<(Seq<char>, Option<Seq<char>>)>) -> Option<Seq<char>>
    decreases children.len(),
{
    if children.len() == 0 {
        None
    } else if children[0].0 == "identifier"@ {
        children[0].1
    } else {
        first_identifier(children.drop_first())
    }
}

/// The scope path of a capture: each enclosing node named by its first
/// identifier child.
pub open spec fn capture_scope(c: CaptureView) -> Seq<Seq<char>> {
    scope_path_of(
        c.ancestors.map_values(
            |a: (Seq<char>, Seq<(Seq<char>, Option<Seq<char>>)>)| (a.0, first_identifier(a.1)),
        ),
    )
}

/// The declarations that captures of the declaration patterns stand for, or
/// nothing when a captured text is missing.
pub open spec fn declarations_of(caps: Seq<CaptureView>) -> Option<Seq<SymbolView>>
    decreases caps.len(),
{
    if caps.len() == 0 {
        Some(Seq::empty())
    } else {
        match (declarations_of(caps.drop_last()), caps.last().text) {
            (Some(d), Some(t)) => Some(
                d.push(
                    SymbolView {
                        name: t,
                        kind: capture_kind(caps.last().index),
                        location: caps.last().location,
                        scope_path: capture_scope(caps.last()),
                    },
                ),
            ),
            _ => None,
        }
    }
}

/// The references that identifier captures stand for, leaving out those at a
/// declaration's range of `decls`, or nothing when a kept capture's text is
/// missing.
pub open spec fn undeclared_uses(decls: Seq<SymbolView>, caps: Seq<CaptureView>) -> Option<
    Seq<ReferenceView>,
>
    decreases caps.len(),
{
    if caps.len() == 0 {
        Some(Seq::empty())
    } else {
        match undeclared_uses(decls, caps.drop_last()) {
            None => None,
            Some(u) => if declared_at(decls, caps.last().location) {
                Some(u)
            } else {
                match caps.last().text {
                    Some(t) => Some(
                        u.push(
                            ReferenceView {
                                name: t,
                                location: caps.last().location,
                                scope_path: capture_scope(caps.last()),
                            },
                        ),
                    ),
                    None => None,
                }
            },
        }
    }
}

/// What collecting from `source` adds after the declarations `prior`: the
/// new declarations and references, or nothing when collection fails.
pub open spec fn collected(prior: Seq<SymbolView>, source: Seq<char>) -> Option<
    (Seq<SymbolView>, Seq<ReferenceView>),
> {
    match python_captures(source, DECLARATION_PATTERNS@) {
        None => None,
        Some(dc) => match declarations_of(dc) {
            None => None,
            Some(d) => match python_captures(source, REFERENCE_PATTERNS@) {
                None => None,
                Some(rc) => match undeclared_uses(prior + d, rc) {
                    None => None,
                    Some(u) => Some((d, u)),
                },
            },
        },
    }
}

/// The Python extraction of `source`: its declarations and the identifier
/// uses that are not declarations.
pub open spec fn python_extraction(source: Seq<char>) -> Option<(Seq<SymbolView>, Seq<ReferenceView>)> {
    collected(Seq::empty(), source)
}

/// Whether some declaration of `decls` has range `loc`.
pub open spec fn declared_at(decls: Seq<SymbolView>, loc: Location) -> bool {
    exists|j: int| 0 <= j < decls.len() && (#[trigger] decls[j]).location == loc
}

/// The references that `undeclared_uses` keeps have no declaration's range.
pub proof fn lemma_undeclared_uses_distinct(decls: Seq<SymbolView>, caps: Seq<CaptureView>)
    requires
        undeclared_uses(decls, caps) is Some,
    ensures
        distinct_from_declarations(decls, undeclared_uses(decls, caps)->0),
    decreases caps.len(),
{
    if caps.len() > 0 {
        lemma_undeclared_uses_distinct(decls, caps.drop_last());
    }
}

proof fn lemma_declarations_prefix(s: Seq<CaptureView>, k: int)
    requires
        declarations_of(s) is Some,
        0 <= k <= s.len(),
    ensures
        declarations_of(s.take(k)) is Some,
    decreases s.len(),
{
    if k == s.len() {
        assert(s.take(k) =~= s);
    } else {
        assert(s.take(k) =~= s.drop_last().take(k));
        lemma_declarations_prefix(s.drop_last(), k);
    }
}

proof fn lemma_uses_prefix(decls: Seq<SymbolView>, s: Seq<CaptureView>, k: int)
    requires
        undeclared_uses(decls, s) is Some,
        0 <= k <= s.len(),
    ensures
        undeclared_uses(decls, s.take(k)) is Some,
    decreases s.len(),
{
    if k == s.len() {
        assert(s.take(k) =~= s);
    } else {
        assert(s.take(k) =~= s.drop_last().take(k));
        lemma_uses_prefix(decls, s.drop_last(), k);
    }
}

/// The scope path for enclosing nodes listed innermost first.
pub fn scope_path_from_frames(frames: &Vec<ScopeFrame>) -> (r: Vec<String>)
    ensures
        names_view(r@) == scope_path_of(frames_view(frames@)),
{
    let ghost fv = frames_view(frames@);
    let function_kind = String::from_str("function_definition");
    let class_kind = String::from_str("class_definition");
    let module_kind = String::from_str("module");
    let mut path: Vec<String> = Vec::new();
    let mut i: usize = frames.len();
    while i > 0
        invariant
            i <= frames.len(),
            fv == frames_view(frames@),
            function_kind@ == "function_definition"@,
            class_kind@ == "class_definition"@,
            module_kind@ == "module"@,
            names_view(path@) == scope_path_of(fv.subrange(i as int, frames.len() as int)),
        decreases i,
    {
        let frame = &frames[i - 1];
        if frame.kind == function_kind || frame.kind == class_kind {
            if let Some(name) = &frame.name {
                path.push(name.clone());
            }
        } else if frame.kind == module_kind {
            path.push(String::from_str("module"));
        }
        proof {
            let s = fv.subrange(i - 1, frames.len() as int);
            assert(s.drop_first() =~= fv.subrange(i as int, frames.len() as int));
            assert(s[0] == fv[i - 1]);
            assert(names_view(path@) =~= scope_path_of(s));
        }
        i = i - 1;
    }
    assert(fv.subrange(0, frames.len() as int) =~= fv);
    path
}

/// The frame of an enclosing node: its kind and the text of its first
/// identifier child.
fn frame_of(a: &AncestorRecord) -> (f: ScopeFrame)
    ensures
        f.kind@ == ancestor_view(*a).0,
        text_view(f.name) == first_identifier(ancestor_view(*a).1),
{
    let ghost cv = ancestor_view(*a).1;
    let identifier = String::from_str("identifier");
    let mut i: usize = 0;
    assert(cv.subrange(0, cv.len() as int) =~= cv);
    while i < a.children.len()
        invariant
            i <= a.children.len(),
            cv == ancestor_view(*a).1,
            identifier@ == "identifier"@,
            first_identifier(cv) == first_identifier(cv.subrange(i as int, cv.len() as int)),
        decreases a.children.len() - i,
    {
        let child = &a.children[i];
        let ghost s = cv.subrange(i as int, cv.len() as int);
        assert(s[0] == child_view(*child));
        if child.kind == identifier {
            let name = match &child.text {
                Some(t) => Some(t.clone()),
                None => None,
            };
            return ScopeFrame { kind: a.kind.clone(), name };
        }
        assert(s.drop_first() =~= cv.subrange(i + 1, cv.len() as int));
        i = i + 1;
    }
    ScopeFrame { kind: a.kind.clone(), name: None }
}

/// The scope path of a capture.
fn scope_of_capture(c: &CaptureRecord) -> (r: Vec<String>)
    ensures
        names_view(r@) == capture_scope(capture_view(*c)),
{
    let ghost m = capture_view(*c).ancestors.map_values(
        |a: (Seq<char>, Seq<(Seq<char>, Option<Seq<char>>)>)| (a.0, first_identifier(a.1)),
    );
    let mut frames: Vec<ScopeFrame> = Vec::new();
    let mut i: usize = 0;
    while i < c.ancestors.len()
        invariant
            i <= c.ancestors.len(),
            m == capture_view(*c).ancestors.map_values(
                |a: (Seq<char>, Seq<(Seq<char>, Option<Seq<char>>)>)| (a.0, first_identifier(a.1)),
            ),
            frames@.len() == i,
            forall|j: int| 0 <= j < i ==> #[trigger] frames_view(frames@)[j] == m[j],
        decreases c.ancestors.len() - i,
    {
        let f = frame_of(&c.ancestors[i]);
        let ghost before = frames@;
        let ghost a = c.ancestors@[i as int];
        assert(capture_view(*c).ancestors[i as int] == ancestor_view(a));
        frames.push(f);
        i = i + 1;
        assert forall|j: int| 0 <= j < i implies #[trigger] frames_view(frames@)[j] == m[j] by {
            if j < i - 1 {
                assert(frames@[j] == before[j]);
                assert(frames_view(before)[j] == m[j]);
            }
        }
    }
    assert(frames_view(frames@) =~= m);
    scope_path_from_frames(&frames)
}

/// Whether a declaration of `decls` has range `loc`.
fn declares(decls: &Vec<Symbol>, loc: Location) -> (r: bool)
    ensures
        r == declared_at(symbols_view(decls@), loc),
{
    let ghost dv = symbols_view(decls@);
    let mut k: usize = 0;
    while k < decls.len()
        invariant
            k <= decls.len(),
            dv == symbols_view(decls@),
            forall|q: int| 0 <= q < k ==> (#[trigger] dv[q]).location != loc,
        decreases decls.len() - k,
    {
        if decls[k].location == loc {
            assert(dv[k as int].location == loc);
            return true;
        }
        k = k + 1;
    }
    false
}

/// Why symbols could not be collected from a source.
#[derive(Debug, Clone, Copy, PartialEq, Eq, Structural)]
pub enum CollectError {
    /// Tree-sitter gave no tree, or a query did not compile.
    Unparsed,
    /// A captured node's text is not valid UTF-8 in the source.
    InvalidText,
}

impl CollectError {
    /// A description of the error.
    pub fn message(&self) -> (r: String)
        ensures
            *self == CollectError::Unparsed ==> r@ == "Failed to parse"@,
            *self == CollectError::InvalidText ==> r@
                == "Failed to collect symbols: node text is not valid UTF-8"@,
    {
        match self {
            CollectError::Unparsed => String::from_str("Failed to parse"),
            CollectError::InvalidText => String::from_str(
                "Failed to collect symbols: node text is not valid UTF-8",
            ),
        }
    }
}

/// Collects declarations and references from Python `source`.
pub struct SymbolCollector<'a> {
    pub declarations: Vec<Symbol>,
    pub references: Vec<Reference>,
    pub source: &'a str,
}

impl<'a> SymbolCollector<'a> {
    /// A collector for `source` that has collected nothing.
    pub fn new(source: &'a str) -> (c: Self)
        ensures
            c.declarations@.len() == 0,
            c.references@.len() == 0,
            c.source == source,
    {
        SymbolCollector { source, declarations: Vec::new(), references: Vec::new() }
    }

    /// Records a declaration found by the capture with index `capture_index`.
    pub fn add_declaration(
        &mut self,
        capture_index: u32,
        name: String,
        location: Location,
        scope_path: Vec<String>,
    )
        ensures
            symbols_view(final(self).declarations@) == symbols_view(old(self).declarations@).push(
                SymbolView {
                    name: name@,
                    kind: capture_kind(capture_index),
                    location,
                    scope_path: names_view(scope_path@),
                },
            ),
            final(self).references@ == old(self).references@,
            final(self).source == old(self).source,
    {
        let kind = kind_of_capture(capture_index);
        let ghost before = self.declarations@;
        self.declarations.push(Symbol { name, kind, location, scope_path });
        assert(symbols_view(self.declarations@) =~= symbols_view(before).push(
            self.declarations@.last()@,
        ));
    }

    /// Records an identifier occurrence, unless a declaration has exactly its
    /// range: a declaration is not also a use of itself.
    pub fn add_reference(&mut self, name: String, location: Location, scope_path: Vec<String>)
        ensures
            final(self).declarations@ == old(self).declarations@,
            final(self).source == old(self).source,
            declared_at(symbols_view(old(self).declarations@), location) ==> final(self).references@ == old(self).references@,
            !declared_at(symbols_view(old(self).declarations@), location) ==> references_view(
                final(self).references@,
            ) == references_view(old(self).references@).push(
                ReferenceView { name: name@, location, scope_path: names_view(scope_path@) },
            ),
    {
        let ghost decls = symbols_view(self.declarations@);
        let mut j: usize = 0;
        while j < self.declarations.len()
            invariant
                j <= self.declarations.len(),
                decls == symbols_view(self.declarations@),
                forall|k: int| 0 <= k < j ==> (#[trigger] decls[k]).location != location,
            decreases self.declarations.len() - j,
        {
            if self.declarations[j].location == location {
                assert(decls[j as int].location == location);
                return;
            }
            j = j + 1;
        }
        let ghost before = self.references@;
        self.references.push(Reference { name, location, scope_path });
        assert(references_view(self.references@) =~= references_view(before).push(
            self.references@.last()@,
        ));
    }

    /// Collects the declarations that the declaration patterns capture, then
    /// the identifier occurrences whose range no declaration has, each with its
    /// text, range and scope path, in the order the matches are found.
    pub fn collect_symbols(&mut self) -> (r: Result<(), CollectError>)
        ensures
            final(self).source == old(self).source,
            r is Ok <==> collected(symbols_view(old(self).declarations@), old(self).source@) is Some,
            r is Ok ==> symbols_view(final(self).declarations@) == symbols_view(
                old(self).declarations@,
            ) + collected(symbols_view(old(self).declarations@), old(self).source@).unwrap().0,
            r is Ok ==> references_view(final(self).references@) == references_view(
                old(self).references@,
            ) + collected(symbols_view(old(self).declarations@), old(self).source@).unwrap().1,
    {
        let ghost prior = symbols_view(self.declarations@);
        let ghost old_refs = references_view(self.references@);
        let ghost src = self.source@;
        let caps = match python_captures_of(self.source, DECLARATION_PATTERNS) {
            Some(caps) => caps,
            None => return Err(CollectError::Unparsed),
        };
        let ghost dc = captures_view(caps@);
        assert(dc.take(0) =~= Seq::<CaptureView>::empty());
        assert(symbols_view(self.declarations@) =~= prior + Seq::<SymbolView>::empty());
        let mut i: usize = 0;
        while i < caps.len()
            invariant
                i <= caps.len(),
                self.source@ == src,
                self.source == old(self).source,
                src == old(self).source@,
                prior == symbols_view(old(self).declarations@),
                old_refs == references_view(old(self).references@),
                self.references@ == old(self).references@,
                dc == captures_view(caps@),
                dc == python_captures(src, DECLARATION_PATTERNS@)->0,
                python_captures(src, DECLARATION_PATTERNS@) is Some,
                declarations_of(dc.take(i as int)) is Some,
                symbols_view(self.declarations@) == prior + declarations_of(dc.take(i as int))->0,
            decreases caps.len() - i,
        {
            let c = &caps[i];
            let ghost t = dc.take(i + 1);
            assert(t.drop_last() =~= dc.take(i as int));
            assert(t.last() == capture_view(*c));
            let name = match &c.text {
                Some(text) => text.clone(),
                None => {
                    proof {
                        if declarations_of(dc) is Some {
                            lemma_declarations_prefix(dc, i + 1);
                        }
                    }
                    return Err(CollectError::InvalidText);
                },
            };
            let scope_path = scope_of_capture(c);
            let ghost before = symbols_view(self.declarations@);
            self.add_declaration(c.index, name, c.location, scope_path);
            proof {
                let d = declarations_of(dc.take(i as int))->0;
                assert(declarations_of(t) == Some(d.push(symbols_view(self.declarations@).last())));
                assert(symbols_view(self.declarations@) =~= prior + declarations_of(t)->0);
            }
            i = i + 1;
        }
        assert(dc.take(caps.len() as int) =~= dc);
        let ghost decls = symbols_view(self.declarations@);
        let ghost d = declarations_of(dc)->0;
        let rcaps = match python_captures_of(self.source, REFERENCE_PATTERNS) {
            Some(rcaps) => rcaps,
            None => return Err(CollectError::Unparsed),
        };
        let ghost rc = captures_view(rcaps@);
        assert(rc.take(0) =~= Seq::<CaptureView>::empty());
        assert(references_view(self.references@) =~= old_refs + Seq::<ReferenceView>::empty());
        let mut j: usize = 0;
        while j < rcaps.len()
            invariant
                j <= rcaps.len(),
                self.source == old(self).source,
                src == old(self).source@,
                prior == symbols_view(old(self).declarations@),
                old_refs == references_view(old(self).references@),
                decls == symbols_view(self.declarations@),
                decls == prior + d,
                d == declarations_of(python_captures(src, DECLARATION_PATTERNS@)->0)->0,
                declarations_of(python_captures(src, DECLARATION_PATTERNS@)->0) is Some,
                python_captures(src, DECLARATION_PATTERNS@) is Some,
                rc == captures_view(rcaps@),
                rc == python_captures(src, REFERENCE_PATTERNS@)->0,
                python_captures(src, REFERENCE_PATTERNS@) is Some,
                undeclared_uses(decls, rc.take(j as int)) is Some,
                references_view(self.references@) == old_refs + undeclared_uses(
                    decls,
                    rc.take(j as int),
                )->0,
            decreases rcaps.len() - j,
        {
            let c = &rcaps[j];
            let ghost t = rc.take(j + 1);
            assert(t.drop_last() =~= rc.take(j as int));
            assert(t.last() == capture_view(*c));
            let ghost before = references_view(self.references@);
            let declared = declares(&self.declarations, c.location);
            if !declared {
                let name = match &c.text {
                    Some(text) => text.clone(),
                    None => {
                        proof {
                            if undeclared_uses(decls, rc) is Some {
                                lemma_uses_prefix(decls, rc, j + 1);
                            }
                        }
                        return Err(CollectError::InvalidText);
                    },
                };
                let scope_path = scope_of_capture(c);
                self.add_reference(name, c.location, scope_path);
                proof {
                    let u = undeclared_uses(decls, rc.take(j as int))->0;
                    assert(references_view(self.references@) =~= old_refs + u.push(
                        references_view(self.references@).last(),
                    ));
                }
            }
            j = j + 1;
        }
        assert(rc.take(rcaps.len() as int) =~= rc);
        Ok(())
    }
}

/// Extracts the declarations and references of Python `source`, or reports
/// why it could not: one error at line 0, column 0.
pub fn extract_python(source: &str) -> (r: Result<(Vec<Symbol>, Vec<Reference>), Vec<SyntaxError>>)
    ensures
        r is Ok <==> python_extraction(source@) is Some,
        r matches Ok(p) ==> python_extraction(source@) == Some(
            (symbols_view(p.0@), references_view(p.1@)),
        ),
        r matches Ok(p) ==> distinct_from_declarations(symbols_view(p.0@), references_view(p.1@)),
        r matches Err(e) ==> e@.len() == 1 && e@[0].line == 0 && e@[0].column == 0 && (
        e@[0].message@ == "Failed to parse"@ || e@[0].message@
            == "Failed to collect symbols: node text is not valid UTF-8"@),
{
    let mut collector = SymbolCollector::new(source);
    assert(symbols_view(collector.declarations@) =~= Seq::<SymbolView>::empty());
    assert(references_view(collector.references@) =~= Seq::<ReferenceView>::empty());
    match collector.collect_symbols() {
        Ok(()) => {
            proof {
                let e = Seq::<SymbolView>::empty();
                let c = collected(e, source@).unwrap();
                assert(e + c.0 =~= c.0);
                assert(Seq::<ReferenceView>::empty() + c.1 =~= c.1);
                let rc = python_captures(source@, REFERENCE_PATTERNS@)->0;
                lemma_undeclared_uses_distinct(e + c.0, rc);
            }
            Ok((collector.declarations, collector.references))
        },
        Err(e) => {
            let message = e.message();
            Err(vec![SyntaxError { message, line: 0, column: 0 }])
        },
    }
}

/// The Python extractor: tree-sitter's Python grammar and the declaration and
/// reference patterns.
pub struct TreeSitterParser {}

impl Parser for TreeSitterParser {
    open spec fn extraction_of(source: Seq<char>) -> Option<(Seq<SymbolView>, Seq<ReferenceView>)> {
        python_extraction(source)
    }

    fn new() -> Result<Self, ParserInitError> {
        match python_parser() {
            Ok(_) => Ok(TreeSitterParser {}),
            Err(_) => Err(ParserInitError::IncompatibleLanguage),
        }
    }

    fn parse(&mut self, source: &str) -> (r: Result<(Vec<Symbol>, Vec<Reference>), Vec<SyntaxError>>) {
        extract_python(source)
    }

    fn _get_errors(&self) -> Vec<SyntaxError> {
        Vec::new()
    }
}

} // verus!
