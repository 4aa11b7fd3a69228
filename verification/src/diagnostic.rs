//! Findings reported by the analyses.

use vstd::prelude::*;

verus! {

/// The category of a [`Diagnostic`].
#[derive(Debug, Clone, Copy, PartialEq, Eq, Structural)]
pub enum DiagnosticKind {
    /// A file could not be read.
    IoError,
    /// A file failed to parse.
    ParseError,
    /// A `require("...")` module name resolved to no file.
    UnresolvedRequire,
    /// A `require(expr)` call with a non-literal argument.
    DynamicRequire,
    /// A cycle in the require graph.
    CircularDependency,
    /// A module that no other module requires (entry points excluded).
    UnusedModule,
    /// `t[0]` on a table with sequence intent.
    ZeroIndexAccess,
    /// `for i = 0, #t` or `for i = 1, #t - 1` over a sequence.
    OffByOneLoop,
    /// Non-contiguous explicit integer keys (`t[1] = ...; t[3] = ...`).
    SparseArray,
    /// `#t` on a table known same-file to have holes.
    AmbiguousLength,
    /// Call-site return-value truncation or nil-padding made visible.
    MultiReturnInfo,
    /// `mod.member` access where the required module's export shape is
    /// fully known and has no such member.
    UnknownMember,
    /// Repeated global or library table lookup inside a loop without local caching.
    GlobalInLoop,
    /// String concatenation (`..`) inside a loop causing repeated GC allocations.
    StringConcatInLoop,
    /// Table constructor (`{}`) allocated inside a loop.
    TableAllocationInLoop,
}

impl DiagnosticKind {
    /// The snake_case name used in machine-readable output.
    pub open spec fn spec_snake_name(self) -> Seq<char> {
        match self {
            DiagnosticKind::IoError => "io_error"@,
            DiagnosticKind::ParseError => "parse_error"@,
            DiagnosticKind::UnresolvedRequire => "unresolved_require"@,
            DiagnosticKind::DynamicRequire => "dynamic_require"@,
            DiagnosticKind::CircularDependency => "circular_dependency"@,
            DiagnosticKind::UnusedModule => "unused_module"@,
            DiagnosticKind::ZeroIndexAccess => "zero_index_access"@,
            DiagnosticKind::OffByOneLoop => "off_by_one_loop"@,
            DiagnosticKind::SparseArray => "sparse_array"@,
            DiagnosticKind::AmbiguousLength => "ambiguous_length"@,
            DiagnosticKind::MultiReturnInfo => "multi_return_info"@,
            DiagnosticKind::UnknownMember => "unknown_member"@,
            DiagnosticKind::GlobalInLoop => "global_in_loop"@,
            DiagnosticKind::StringConcatInLoop => "string_concat_in_loop"@,
            DiagnosticKind::TableAllocationInLoop => "table_allocation_in_loop"@,
        }
    }

    /// The snake_case name used in machine-readable output.
    pub fn snake_name(&self) -> (r: &'static str)
        ensures
            r@ == self.spec_snake_name(),
    {
        match self {
            DiagnosticKind::IoError => "io_error",
            DiagnosticKind::ParseError => "parse_error",
            DiagnosticKind::UnresolvedRequire => "unresolved_require",
            DiagnosticKind::DynamicRequire => "dynamic_require",
            DiagnosticKind::CircularDependency => "circular_dependency",
            DiagnosticKind::UnusedModule => "unused_module",
            DiagnosticKind::ZeroIndexAccess => "zero_index_access",
            DiagnosticKind::OffByOneLoop => "off_by_one_loop",
            DiagnosticKind::SparseArray => "sparse_array",
            DiagnosticKind::AmbiguousLength => "ambiguous_length",
            DiagnosticKind::MultiReturnInfo => "multi_return_info",
            DiagnosticKind::UnknownMember => "unknown_member",
            DiagnosticKind::GlobalInLoop => "global_in_loop",
            DiagnosticKind::StringConcatInLoop => "string_concat_in_loop",
            DiagnosticKind::TableAllocationInLoop => "table_allocation_in_loop",
        }
    }

    /// The variant name, as `Debug` prints it.
    pub open spec fn spec_variant_name(self) -> Seq<char> {
        match self {
            DiagnosticKind::IoError => "IoError"@,
            DiagnosticKind::ParseError => "ParseError"@,
            DiagnosticKind::UnresolvedRequire => "UnresolvedRequire"@,
            DiagnosticKind::DynamicRequire => "DynamicRequire"@,
            DiagnosticKind::CircularDependency => "CircularDependency"@,
            DiagnosticKind::UnusedModule => "UnusedModule"@,
            DiagnosticKind::ZeroIndexAccess => "ZeroIndexAccess"@,
            DiagnosticKind::OffByOneLoop => "OffByOneLoop"@,
            DiagnosticKind::SparseArray => "SparseArray"@,
            DiagnosticKind::AmbiguousLength => "AmbiguousLength"@,
            DiagnosticKind::MultiReturnInfo => "MultiReturnInfo"@,
            DiagnosticKind::UnknownMember => "UnknownMember"@,
            DiagnosticKind::GlobalInLoop => "GlobalInLoop"@,
            DiagnosticKind::StringConcatInLoop => "StringConcatInLoop"@,
            DiagnosticKind::TableAllocationInLoop => "TableAllocationInLoop"@,
        }
    }

    /// The variant name, as `Debug` prints it.
    pub fn variant_name(&self) -> (r: &'static str)
        ensures
            r@ == self.spec_variant_name(),
    {
        match self {
            DiagnosticKind::IoError => "IoError",
            DiagnosticKind::ParseError => "ParseError",
            DiagnosticKind::UnresolvedRequire => "UnresolvedRequire",
            DiagnosticKind::DynamicRequire => "DynamicRequire",
            DiagnosticKind::CircularDependency => "CircularDependency",
            DiagnosticKind::UnusedModule => "UnusedModule",
            DiagnosticKind::ZeroIndexAccess => "ZeroIndexAccess",
            DiagnosticKind::OffByOneLoop => "OffByOneLoop",
            DiagnosticKind::SparseArray => "SparseArray",
            DiagnosticKind::AmbiguousLength => "AmbiguousLength",
            DiagnosticKind::MultiReturnInfo => "MultiReturnInfo",
            DiagnosticKind::UnknownMember => "UnknownMember",
            DiagnosticKind::GlobalInLoop => "GlobalInLoop",
            DiagnosticKind::StringConcatInLoop => "StringConcatInLoop",
            DiagnosticKind::TableAllocationInLoop => "TableAllocationInLoop",
        }
    }

    /// Whether the kind is a performance suggestion rather than a problem.
    pub open spec fn spec_is_suggestion(self) -> bool {
        ||| self == DiagnosticKind::GlobalInLoop
        ||| self == DiagnosticKind::StringConcatInLoop
        ||| self == DiagnosticKind::TableAllocationInLoop
    }

    pub fn is_suggestion(&self) -> (r: bool)
        ensures
            r == self.spec_is_suggestion(),
    {
        match self {
            DiagnosticKind::GlobalInLoop => true,
            DiagnosticKind::StringConcatInLoop => true,
            DiagnosticKind::TableAllocationInLoop => true,
            _ => false,
        }
    }
}

/// One finding from analyzing a project.
#[derive(Debug, PartialEq, Eq)]
pub struct Diagnostic {
    pub kind: DiagnosticKind,
    /// File the diagnostic points at, relative to the project root, if any.
    pub file: Option<String>,
    /// 1-based line, if any.
    pub line: Option<usize>,
    /// 1-based column, if any.
    pub column: Option<usize>,
    pub message: String,
}

/// The mathematical content of a [`Diagnostic`].
pub struct DiagnosticView {
    pub kind: DiagnosticKind,
    pub file: Option<Seq<char>>,
    pub line: Option<usize>,
    pub column: Option<usize>,
    pub message: Seq<char>,
}

pub open spec fn opt_str_view(o: Option<String>) -> Option<Seq<char>> {
    match o {
        Some(s) => Some(s@),
        None => None,
    }
}

impl View for Diagnostic {
    type V = DiagnosticView;

    open spec fn view(&self) -> DiagnosticView {
        DiagnosticView {
            kind: self.kind,
            file: opt_str_view(self.file),
            line: self.line,
            column: self.column,
            message: self.message@,
        }
    }
}

/// A diagnostic with no location.
pub open spec fn diag(kind: DiagnosticKind, message: Seq<char>) -> DiagnosticView {
    DiagnosticView { kind, file: None, line: None, column: None, message }
}

/// A diagnostic located at a file, line and column.
pub open spec fn diag_at(
    kind: DiagnosticKind,
    message: Seq<char>,
    file: Seq<char>,
    line: usize,
    column: usize,
) -> DiagnosticView {
    DiagnosticView { kind, file: Some(file), line: Some(line), column: Some(column), message }
}

/// A diagnostic located at a whole file.
pub open spec fn diag_in(kind: DiagnosticKind, message: Seq<char>, file: Seq<char>) -> DiagnosticView {
    DiagnosticView { kind, file: Some(file), line: None, column: None, message }
}

/// Whether every diagnostic of `s` names the file `p`.
pub open spec fn all_in_file(s: Seq<DiagnosticView>, p: Seq<char>) -> bool {
    forall|i: int| 0 <= i < s.len() ==> (#[trigger] s[i]).file == Some(p)
}

/// The diagnostics of `s` of kind `k`, in order.
pub open spec fn of_kind(s: Seq<DiagnosticView>, k: DiagnosticKind) -> Seq<DiagnosticView> {
    s.filter(|d: DiagnosticView| d.kind == k)
}

pub proof fn lemma_all_in_file_add(a: Seq<DiagnosticView>, b: Seq<DiagnosticView>, p: Seq<char>)
    requires
        all_in_file(a, p),
        all_in_file(b, p),
    ensures
        all_in_file(a + b, p),
{
    assert forall|i: int| 0 <= i < (a + b).len() implies (#[trigger] (a + b)[i]).file == Some(p) by {
        if i < a.len() {
            assert((a + b)[i] == a[i]);
        } else {
            assert((a + b)[i] == b[i - a.len()]);
        }
    }
}

pub proof fn lemma_of_kind_add(a: Seq<DiagnosticView>, b: Seq<DiagnosticView>, k: DiagnosticKind)
    ensures
        of_kind(a + b, k) == of_kind(a, k) + of_kind(b, k),
{
    Seq::filter_distributes_over_add(a, b, |d: DiagnosticView| d.kind == k);
}

/// Keeping the diagnostics of kind `k` keeps all of a list of that kind.
pub proof fn lemma_of_kind_all(s: Seq<DiagnosticView>, k: DiagnosticKind)
    requires
        forall|i: int| 0 <= i < s.len() ==> (#[trigger] s[i]).kind == k,
    ensures
        of_kind(s, k) == s,
    decreases s.len(),
{
    reveal(Seq::filter);
    if s.len() > 0 {
        assert forall|i: int| 0 <= i < s.drop_last().len() implies (#[trigger] s.drop_last()[i]).kind == k by {
            assert(s.drop_last()[i] == s[i]);
        }
        lemma_of_kind_all(s.drop_last(), k);
        assert(s.last() == s[s.len() - 1]);
        assert(s.drop_last().push(s.last()) =~= s);
    }
}

/// Keeping the diagnostics of kind `k` keeps none of a list without it.
pub proof fn lemma_of_kind_none(s: Seq<DiagnosticView>, k: DiagnosticKind)
    requires
        forall|i: int| 0 <= i < s.len() ==> (#[trigger] s[i]).kind != k,
    ensures
        of_kind(s, k) == Seq::<DiagnosticView>::empty(),
    decreases s.len(),
{
    reveal(Seq::filter);
    if s.len() > 0 {
        assert forall|i: int| 0 <= i < s.drop_last().len() implies (#[trigger] s.drop_last()[i]).kind != k by {
            assert(s.drop_last()[i] == s[i]);
        }
        lemma_of_kind_none(s.drop_last(), k);
        assert(s.last() == s[s.len() - 1]);
    }
}

pub open spec fn diags_view(v: Seq<Diagnostic>) -> Seq<DiagnosticView> {
    v.map_values(|d: Diagnostic| d@)
}

pub fn clone_opt_string(o: &Option<String>) -> (r: Option<String>)
    ensures
        opt_str_view(r) == opt_str_view(*o),
{
    match o {
        Some(s) => Some(s.clone()),
        None => None,
    }
}

impl Diagnostic {
    /// A diagnostic of `kind` with no location.
    pub fn new(kind: DiagnosticKind, message: &str) -> (r: Self)
        ensures
            r@ == diag(kind, message@),
    {
        Diagnostic { kind, file: None, line: None, column: None, message: message.to_owned() }
    }

    /// Attach a file location.
    pub fn in_file(self, file: String) -> (r: Self)
        ensures
            r@ == (DiagnosticView { file: Some(file@), ..self@ }),
    {
        Diagnostic { file: Some(file), ..self }
    }

    /// Attach a file and 1-based line/column location.
    pub fn at(self, file: String, line: usize, column: usize) -> (r: Self)
        ensures
            r@ == (DiagnosticView { file: Some(file@), line: Some(line), column: Some(column), ..self@ }),
    {
        Diagnostic { file: Some(file), line: Some(line), column: Some(column), ..self }
    }

    /// A copy of this diagnostic.
    pub fn duplicate(&self) -> (r: Self)
        ensures
            r@ == self@,
    {
        Diagnostic {
            kind: self.kind,
            file: clone_opt_string(&self.file),
            line: self.line,
            column: self.column,
            message: self.message.clone(),
        }
    }
}

} // verus!
