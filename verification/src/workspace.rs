//! Editor-side helpers: project names and relative paths checked the way
//! Windows splits paths into components, Lua runtime candidates, and the
//! flat records the editor shows for diagnostics and explanations.

use vstd::prelude::*;
use crate::diagnostic::{Diagnostic, DiagnosticKind, DiagnosticView, diags_view};
use crate::graph::{GraphView, dependencies_of, entry_points_of, strs};
use crate::order::{lists_view, sort_paths};
use crate::project::AnalysisResult;
use crate::lookup::{LookupExplanation, LookupResult, LookupResultView};
use crate::diagnostic::opt_str_view;
use crate::outline::{line_pieces, source_lines};
use crate::text::{
    concat, contains_text, contains_text_exec, decimal, owned, replace_char, replace_char_exec,
    starts_with, starts_with_exec, suffix_from, trim, trim_exec, usize_text,
};

verus! {

pub open spec fn is_separator(c: char) -> bool {
    c == '/' || c == '\\'
}

/// A drive prefix such as `C:`.
pub open spec fn has_drive_prefix(s: Seq<char>) -> bool {
    s.len() >= 2 && s[1] == ':' && (('a' <= s[0] && s[0] <= 'z') || ('A' <= s[0] && s[0] <= 'Z'))
}

/// `s` split at every separator (an empty piece between two adjacent ones).
pub open spec fn split_separators(s: Seq<char>) -> Seq<Seq<char>>
    decreases s.len(),
{
    if s.len() == 0 {
        seq![Seq::empty()]
    } else {
        let r = split_separators(s.drop_last());
        if is_separator(s.last()) {
            r.push(Seq::empty())
        } else {
            r.update(r.len() - 1, r.last().push(s.last()))
        }
    }
}

/// A path whose first component is a plain name: no drive, no root, not
/// `.` or `..`.
pub open spec fn starts_with_name(s: Seq<char>) -> bool {
    &&& s.len() > 0
    &&& !is_separator(s[0])
    &&& !has_drive_prefix(s)
    &&& split_separators(s)[0] != "."@
    &&& split_separators(s)[0] != ".."@
}

/// A project name is one plain path component once trimmed: later pieces
/// may only be empty or `.`, which path splitting drops.
pub open spec fn project_name_ok(name: Seq<char>) -> bool {
    let t = trim(name);
    &&& starts_with_name(t)
    &&& forall|k: int|
        1 <= k < split_separators(t).len() ==> #[trigger] split_separators(t)[k] == Seq::<char>::empty()
            || split_separators(t)[k] == "."@
}

/// A relative path made of plain names only (`.` pieces after the first
/// are dropped by path splitting).
pub open spec fn relative_path_ok(path: Seq<char>) -> bool {
    &&& starts_with_name(path)
    &&& forall|k: int|
        1 <= k < split_separators(path).len() ==> #[trigger] split_separators(path)[k] != ".."@
}

proof fn lemma_split_nonempty(s: Seq<char>)
    ensures
        split_separators(s).len() >= 1,
    decreases s.len(),
{
    if s.len() > 0 {
        lemma_split_nonempty(s.drop_last());
    }
}

/// The pieces of `s` between separators.
fn split_separators_exec(s: &str) -> (r: Vec<String>)
    ensures
        r@.map_values(|p: String| p@) == split_separators(s@),
{
    let n = s.unicode_len();
    let mut pieces: Vec<String> = Vec::new();
    let mut current = String::new();
    let mut i: usize = 0;
    assert(s@.take(0) =~= Seq::<char>::empty());
    assert(current@ =~= Seq::<char>::empty());
    while i < n
        invariant
            n == s@.len(),
            i <= n,
            pieces@.map_values(|p: String| p@).push(current@) == split_separators(s@.take(i as int)),
        decreases n - i,
    {
        let c = s.get_char(i);
        let ghost before = pieces@.map_values(|p: String| p@).push(current@);
        assert(s@.take(i + 1).drop_last() =~= s@.take(i as int));
        assert(s@.take(i + 1).last() == c);
        proof {
            lemma_split_nonempty(s@.take(i as int));
        }
        if c == '/' || c == '\\' {
            let done = current;
            current = String::new();
            let ghost dv = done@;
            pieces.push(done);
            assert(current@ =~= Seq::<char>::empty());
            assert(pieces@.map_values(|p: String| p@).push(current@) =~= before.push(
                Seq::<char>::empty(),
            ));
        } else {
            let ghost pv = pieces@.map_values(|p: String| p@);
            let ghost cv = current@;
            let piece = crate::text::char_str(s, i);
            current.append(piece);
            assert(current@ =~= cv.push(c));
            assert(pieces@.map_values(|p: String| p@).push(current@) =~= before.update(
                before.len() - 1,
                before.last().push(c),
            ));
        }
        i = i + 1;
    }
    assert(s@.take(n as int) =~= s@);
    let ghost pv = pieces@.map_values(|p: String| p@);
    let ghost cv = current@;
    pieces.push(current);
    assert(pieces@.map_values(|p: String| p@) =~= pv.push(cv));
    pieces
}

fn starts_with_name_exec(s: &str, pieces: &Vec<String>) -> (r: bool)
    requires
        pieces@.map_values(|p: String| p@) == split_separators(s@),
    ensures
        r == starts_with_name(s@),
{
    proof {
        lemma_split_nonempty(s@);
    }
    let n = s.unicode_len();
    if n == 0 {
        return false;
    }
    let c0 = s.get_char(0);
    if c0 == '/' || c0 == '\\' {
        return false;
    }
    if n >= 2 {
        let c1 = s.get_char(1);
        if c1 == ':' && (('a' <= c0 && c0 <= 'z') || ('A' <= c0 && c0 <= 'Z')) {
            return false;
        }
    }
    assert(pieces@[0]@ == split_separators(s@)[0]);
    pieces[0] != owned(".") && pieces[0] != owned("..")
}

/// Whether `name` (trimmed) is a single plain path component, so that a
/// project created under it stays inside the chosen parent folder.
pub fn valid_project_name(name: &str) -> (r: bool)
    ensures
        r == project_name_ok(name@),
{
    let t = trim_exec(name);
    let pieces = split_separators_exec(t.as_str());
    if !starts_with_name_exec(t.as_str(), &pieces) {
        return false;
    }
    proof {
        lemma_split_nonempty(t@);
        reveal_strlit("");
    }
    let mut k: usize = 1;
    while k < pieces.len()
        invariant
            1 <= k <= pieces@.len(),
            pieces@.map_values(|p: String| p@) == split_separators(t@),
            t@ == trim(name@),
            starts_with_name(t@),
            forall|q: int|
                1 <= q < k ==> #[trigger] split_separators(t@)[q] == Seq::<char>::empty()
                    || split_separators(t@)[q] == "."@,
        decreases pieces@.len() - k,
    {
        assert(pieces@[k as int]@ == split_separators(t@)[k as int]);
        proof {
            reveal_strlit("");
        }
        if !(pieces[k] == owned("") || pieces[k] == owned(".")) {
            proof {
                assert(""@ =~= Seq::<char>::empty());
                assert(split_separators(t@)[k as int] != Seq::<char>::empty());
                assert(split_separators(t@)[k as int] != "."@);
            }
            return false;
        }
        k = k + 1;
    }
    true
}

/// Whether `path` is a relative path of plain names, the first check a
/// workspace path request must pass.
pub fn relative_path_valid(path: &str) -> (r: bool)
    ensures
        r == relative_path_ok(path@),
{
    let pieces = split_separators_exec(path);
    if !starts_with_name_exec(path, &pieces) {
        return false;
    }
    proof {
        lemma_split_nonempty(path@);
    }
    let mut k: usize = 1;
    while k < pieces.len()
        invariant
            1 <= k <= pieces@.len(),
            pieces@.map_values(|p: String| p@) == split_separators(path@),
            forall|q: int| 1 <= q < k ==> #[trigger] split_separators(path@)[q] != ".."@,
        decreases pieces@.len() - k,
    {
        assert(pieces@[k as int]@ == split_separators(path@)[k as int]);
        if pieces[k] == owned("..") {
            return false;
        }
        k = k + 1;
    }
    true
}

/// The label and the commands to try for a runtime id; anything unknown
/// is Lua 5.4.
pub open spec fn runtime_spec(runtime: Seq<char>) -> (Seq<char>, Seq<Seq<char>>) {
    if runtime == "luajit21"@ {
        ("LuaJIT 2.1"@, seq!["luajit"@])
    } else if runtime == "lua53"@ {
        ("Lua 5.3"@, seq!["lua5.3"@, "lua53"@, "lua"@])
    } else if runtime == "lua51"@ {
        ("Lua 5.1"@, seq!["lua5.1"@, "lua51"@, "lua"@])
    } else {
        ("Lua 5.4"@, seq!["lua5.4"@, "lua54"@, "lua"@])
    }
}

fn commands(list: &[&'static str]) -> (r: Vec<&'static str>)
    ensures
        r@.map_values(|c: &str| c@) == list@.map_values(|c: &str| c@),
{
    let mut out: Vec<&'static str> = Vec::new();
    let mut i: usize = 0;
    while i < list.len()
        invariant
            i <= list@.len(),
            out@.map_values(|c: &str| c@) == list@.take(i as int).map_values(|c: &str| c@),
        decreases list@.len() - i,
    {
        let ghost before = out@;
        let c = list[i];
        out.push(c);
        assert(list@.take(i + 1) =~= list@.take(i as int).push(c));
        assert(out@.map_values(|c: &str| c@) =~= before.map_values(|c: &str| c@).push(c@));
        assert(list@.take(i + 1).map_values(|c: &str| c@) =~= list@.take(i as int).map_values(
            |c: &str| c@,
        ).push(c@));
        i = i + 1;
    }
    assert(list@.take(list@.len() as int) =~= list@);
    out
}

/// The display label of a runtime id and the commands that may run it,
/// most specific first.
pub fn runtime_candidates(runtime: &str) -> (r: (&'static str, Vec<&'static str>))
    ensures
        (r.0@, r.1@.map_values(|c: &str| c@)) == runtime_spec(runtime@),
{
    let id = owned(runtime);
    proof {
        reveal_strlit("luajit21");
        reveal_strlit("lua53");
        reveal_strlit("lua51");
    }
    if id == owned("luajit21") {
        let list = ["luajit"];
        let r = ("LuaJIT 2.1", commands(&list));
        assert(list@.map_values(|c: &str| c@) =~= seq!["luajit"@]);
        r
    } else if id == owned("lua53") {
        let list = ["lua5.3", "lua53", "lua"];
        let r = ("Lua 5.3", commands(&list));
        assert(list@.map_values(|c: &str| c@) =~= seq!["lua5.3"@, "lua53"@, "lua"@]);
        r
    } else if id == owned("lua51") {
        let list = ["lua5.1", "lua51", "lua"];
        let r = ("Lua 5.1", commands(&list));
        assert(list@.map_values(|c: &str| c@) =~= seq!["lua5.1"@, "lua51"@, "lua"@]);
        r
    } else {
        let list = ["lua5.4", "lua54", "lua"];
        let r = ("Lua 5.4", commands(&list));
        assert(list@.map_values(|c: &str| c@) =~= seq!["lua5.4"@, "lua54"@, "lua"@]);
        r
    }
}

/// A diagnostic as the editor lists it.
pub struct DiagnosticRecord {
    /// The kind's name in lower case, without separators.
    pub kind: String,
    /// Whether the kind is a performance suggestion rather than a problem.
    pub suggestion: bool,
    /// The file with `/` separators, or empty.
    pub file: String,
    pub line: Option<usize>,
    pub column: Option<usize>,
    pub message: String,
}

/// The lower-case name of a kind.
pub open spec fn kind_label(kind: DiagnosticKind) -> Seq<char> {
    match kind {
        DiagnosticKind::IoError => "ioerror"@,
        DiagnosticKind::ParseError => "parseerror"@,
        DiagnosticKind::UnresolvedRequire => "unresolvedrequire"@,
        DiagnosticKind::DynamicRequire => "dynamicrequire"@,
        DiagnosticKind::CircularDependency => "circulardependency"@,
        DiagnosticKind::UnusedModule => "unusedmodule"@,
        DiagnosticKind::ZeroIndexAccess => "zeroindexaccess"@,
        DiagnosticKind::OffByOneLoop => "offbyoneloop"@,
        DiagnosticKind::SparseArray => "sparsearray"@,
        DiagnosticKind::AmbiguousLength => "ambiguouslength"@,
        DiagnosticKind::MultiReturnInfo => "multireturninfo"@,
        DiagnosticKind::UnknownMember => "unknownmember"@,
        DiagnosticKind::GlobalInLoop => "globalinloop"@,
        DiagnosticKind::StringConcatInLoop => "stringconcatinloop"@,
        DiagnosticKind::TableAllocationInLoop => "tableallocationinloop"@,
    }
}

fn kind_label_exec(kind: DiagnosticKind) -> (r: &'static str)
    ensures
        r@ == kind_label(kind),
{
    match kind {
        DiagnosticKind::IoError => "ioerror",
        DiagnosticKind::ParseError => "parseerror",
        DiagnosticKind::UnresolvedRequire => "unresolvedrequire",
        DiagnosticKind::DynamicRequire => "dynamicrequire",
        DiagnosticKind::CircularDependency => "circulardependency",
        DiagnosticKind::UnusedModule => "unusedmodule",
        DiagnosticKind::ZeroIndexAccess => "zeroindexaccess",
        DiagnosticKind::OffByOneLoop => "offbyoneloop",
        DiagnosticKind::SparseArray => "sparsearray",
        DiagnosticKind::AmbiguousLength => "ambiguouslength",
        DiagnosticKind::MultiReturnInfo => "multireturninfo",
        DiagnosticKind::UnknownMember => "unknownmember",
        DiagnosticKind::GlobalInLoop => "globalinloop",
        DiagnosticKind::StringConcatInLoop => "stringconcatinloop",
        DiagnosticKind::TableAllocationInLoop => "tableallocationinloop",
    }
}

/// The editor's record of a diagnostic.
pub fn diagnostic_dto(d: Diagnostic) -> (r: DiagnosticRecord)
    ensures
        r.kind@ == kind_label(d.kind),
        r.suggestion == d.kind.spec_is_suggestion(),
        r.file@ == match d.file {
            Some(f) => replace_char(f@, '\\', "/"@),
            None => Seq::empty(),
        },
        r.line == d.line,
        r.column == d.column,
        r.message@ == d.message@,
{
    let file = match &d.file {
        Some(f) => replace_char_exec(f.as_str(), '\\', "/"),
        None => String::new(),
    };
    DiagnosticRecord {
        kind: owned(kind_label_exec(d.kind)),
        suggestion: d.kind.is_suggestion(),
        file,
        line: d.line,
        column: d.column,
        message: d.message,
    }
}

/// An explanation as the editor lists it.
pub struct ExplanationRecord {
    pub expression: String,
    pub line: usize,
    pub column: usize,
    pub steps: Vec<String>,
    /// `Resolved: ...`, `Not found`, or `Unknown: ...`.
    pub result: String,
}

pub open spec fn result_text(r: LookupResultView) -> Seq<char> {
    match r {
        LookupResultView::Found(m) => "Resolved: "@ + m,
        LookupResultView::NotFound => "Not found"@,
        LookupResultView::Unknown(reason) => "Unknown: "@ + reason,
    }
}

/// The editor's record of an explanation.
pub fn explanation_dto(x: LookupExplanation) -> (r: ExplanationRecord)
    ensures
        r.expression@ == x.expression@,
        r.line == x.line,
        r.column == x.column,
        r.steps@ == x.steps@,
        r.result@ == result_text(x.result@),
{
    let result = match &x.result {
        LookupResult::Found(m) => concat("Resolved: ", m.as_str()),
        LookupResult::NotFound => owned("Not found"),
        LookupResult::Unknown(reason) => concat("Unknown: ", reason.as_str()),
    };
    ExplanationRecord {
        expression: x.expression,
        line: x.line,
        column: x.column,
        steps: x.steps,
        result,
    }
}

/// Whether the cursor `column` falls on an explanation's access, its last
/// character and the one after it included.
pub open spec fn under_cursor(x: crate::lookup::ExplanationView, column: usize) -> bool {
    column >= x.start_column && column <= x.end_column + 1
}

/// The explanations whose access the cursor at `column` touches, in order.
pub fn explanations_at_column(xs: Vec<LookupExplanation>, column: usize) -> (r: Vec<LookupExplanation>)
    ensures
        crate::explain::explanations_view(r@) == crate::explain::explanations_view(xs@).filter(
            |x: crate::lookup::ExplanationView| under_cursor(x, column),
        ),
{
    let ghost all = crate::explain::explanations_view(xs@);
    proof {
        reveal(Seq::filter);
    }
    let mut rest = xs;
    let mut out: Vec<LookupExplanation> = Vec::new();
    let n = rest.len();
    let mut taken: usize = 0;
    assert(all.take(0) =~= Seq::<crate::lookup::ExplanationView>::empty());
    assert(all.take(0).filter(|x: crate::lookup::ExplanationView| under_cursor(x, column))
        =~= Seq::<crate::lookup::ExplanationView>::empty());
    while rest.len() > 0
        invariant
            taken + rest@.len() == n,
            n == all.len(),
            crate::explain::explanations_view(rest@) == all.skip(taken as int),
            crate::explain::explanations_view(out@) == all.take(taken as int).filter(
                |x: crate::lookup::ExplanationView| under_cursor(x, column),
            ),
        decreases rest@.len(),
    {
        proof {
            reveal(Seq::filter);
        }
        let ghost before_rest = rest@;
        assert(crate::explain::explanations_view(before_rest)[0] == before_rest[0]@);
        assert(all.skip(taken as int)[0] == all[taken as int]);
        let x = rest.remove(0);
        assert(x == before_rest[0]);
        assert(rest@ =~= before_rest.drop_first());
        assert(x@ == all[taken as int]);
        assert(crate::explain::explanations_view(rest@) =~= crate::explain::explanations_view(
            before_rest,
        ).drop_first());
        assert(all.skip(taken as int).drop_first() =~= all.skip(taken + 1));
        assert(crate::explain::explanations_view(rest@) =~= all.skip(taken + 1));
        let ghost xv = x@;
        let ghost before = crate::explain::explanations_view(out@);
        let keep = column >= x.start_column && (x.end_column == usize::MAX || column <= x.end_column + 1);
        if keep {
            out.push(x);
            assert(crate::explain::explanations_view(out@) =~= before.push(xv));
        }
        assert(all.take(taken + 1).drop_last() =~= all.take(taken as int));
        assert(all.take(taken + 1).last() == xv);
        taken = taken + 1;
    }
    assert(all.take(n as int) =~= all);
    out
}

// ---- recent projects and the file tree ----

/// `s` without every leading repetition of `prefix`.
pub open spec fn strip_all_prefixes(s: Seq<char>, prefix: Seq<char>) -> Seq<char>
    decreases s.len(),
{
    if prefix.len() > 0 && starts_with(s, prefix) {
        strip_all_prefixes(s.skip(prefix.len() as int), prefix)
    } else {
        s
    }
}

/// The branch a git `HEAD` file names, when it names one.
pub open spec fn head_branch(head: Seq<char>) -> Option<Seq<char>> {
    if starts_with(head, "ref: refs/heads/"@) {
        Some(trim(strip_all_prefixes(head, "ref: refs/heads/"@)))
    } else {
        None
    }
}

/// The branch a git `HEAD` file names (`ref: refs/heads/<branch>`), or
/// `None` for a detached head.
pub fn git_branch(head: &str) -> (r: Option<String>)
    ensures
        crate::diagnostic::opt_str_view(r) == head_branch(head@),
{
    let prefix = "ref: refs/heads/";
    proof {
        reveal_strlit("ref: refs/heads/");
    }
    if !starts_with_exec(head, prefix) {
        return None;
    }
    let m = prefix.unicode_len();
    let mut rest = owned(head);
    while starts_with_exec(rest.as_str(), prefix)
        invariant
            m == prefix@.len(),
            m > 0,
            strip_all_prefixes(head@, prefix@) == strip_all_prefixes(rest@, prefix@),
        decreases rest@.len(),
    {
        rest = suffix_from(rest.as_str(), m);
    }
    Some(trim_exec(rest.as_str()))
}

/// Entries the editor's file tree leaves out: git data, build output and
/// installed packages.
pub open spec fn hidden_entry(name: Seq<char>) -> bool {
    starts_with(name, ".git"@) || name == "target"@ || name == "node_modules"@
}

pub fn is_hidden_entry(name: &str) -> (r: bool)
    ensures
        r == hidden_entry(name@),
{
    starts_with_exec(name, ".git") || owned(name) == owned("target") || owned(name) == owned(
        "node_modules",
    )
}

/// A project in the editor's recent list.
pub struct RecentProject {
    pub name: String,
    pub path: String,
    /// Seconds since the Unix epoch.
    pub last_opened: u64,
    pub pinned: bool,
    pub git_branch: Option<String>,
    pub exists: bool,
}

pub struct RecentView {
    pub name: Seq<char>,
    pub path: Seq<char>,
    pub last_opened: u64,
    pub pinned: bool,
    pub git_branch: Option<Seq<char>>,
    pub exists: bool,
}

impl View for RecentProject {
    type V = RecentView;

    open spec fn view(&self) -> RecentView {
        RecentView {
            name: self.name@,
            path: self.path@,
            last_opened: self.last_opened,
            pinned: self.pinned,
            git_branch: crate::diagnostic::opt_str_view(self.git_branch),
            exists: self.exists,
        }
    }
}

pub open spec fn recents_view(v: Seq<RecentProject>) -> Seq<RecentView> {
    v.map_values(|r: RecentProject| r@)
}

/// Index of the first entry for `path`.
pub open spec fn recent_index(v: Seq<RecentView>, path: Seq<char>) -> Option<int>
    decreases v.len(),
{
    if v.len() == 0 {
        None
    } else if v[0].path == path {
        Some(0)
    } else {
        match recent_index(v.drop_first(), path) {
            Some(i) => Some(i + 1),
            None => None,
        }
    }
}

/// The list after opening `entry`: any earlier entry for its path is taken
/// out, its pin kept, and the entry goes first.
pub open spec fn opened_recents(v: Seq<RecentView>, entry: RecentView) -> Seq<RecentView> {
    match recent_index(v, entry.path) {
        Some(i) => seq![RecentView { pinned: v[i].pinned, ..entry }] + v.remove(i),
        None => seq![RecentView { pinned: false, ..entry }] + v,
    }
}

proof fn lemma_recent_index(v: Seq<RecentView>, path: Seq<char>)
    ensures
        match recent_index(v, path) {
            Some(i) => 0 <= i < v.len() && v[i].path == path && forall|j: int|
                0 <= j < i ==> v[j].path != path,
            None => forall|j: int| 0 <= j < v.len() ==> v[j].path != path,
        },
    decreases v.len(),
{
    if v.len() > 0 && v[0].path != path {
        lemma_recent_index(v.drop_first(), path);
        assert forall|j: int| 0 < j < v.len() implies v[j] == v.drop_first()[j - 1] by {}
    }
}

proof fn lemma_recent_index_at(v: Seq<RecentView>, path: Seq<char>, i: int)
    requires
        0 <= i < v.len(),
        v[i].path == path,
        forall|j: int| 0 <= j < i ==> v[j].path != path,
    ensures
        recent_index(v, path) == Some(i),
{
    lemma_recent_index(v, path);
    match recent_index(v, path) {
        Some(m) => {
            if m < i {
            } else if m > i {
            }
        },
        None => {},
    }
}

/// Record `entry` as the most recently opened project, keeping the pin of
/// an earlier entry for the same path.
pub fn record_opened(recents: &mut Vec<RecentProject>, entry: RecentProject)
    ensures
        recents_view(final(recents)@) == opened_recents(recents_view(old(recents)@), entry@),
{
    let ghost v = recents_view(recents@);
    let ghost ev = entry@;
    let mut entry = entry;
    let n = recents.len();
    let mut i: usize = 0;
    while i < n && recents[i].path != entry.path
        invariant
            n == recents@.len(),
            i <= n,
            v == recents_view(recents@),
            entry@ == ev,
            forall|j: int| 0 <= j < i ==> v[j].path != ev.path,
        decreases n - i,
    {
        assert(v[i as int] == recents@[i as int]@);
        i = i + 1;
    }
    if i < n {
        assert(v[i as int] == recents@[i as int]@);
        proof {
            lemma_recent_index_at(v, ev.path, i as int);
        }
        entry.pinned = recents[i].pinned;
        let _earlier = recents.remove(i);
        assert(recents_view(recents@) =~= v.remove(i as int));
    } else {
        proof {
            lemma_recent_index(v, ev.path);
        }
        entry.pinned = false;
    }
    let ghost rest = recents_view(recents@);
    let ghost nv = entry@;
    recents.insert(0, entry);
    assert(recents_view(recents@) =~= seq![nv] + rest);
}

/// Pin or unpin the first entry for `path`; nothing changes when there is
/// none.
pub fn pin_recent(recents: &mut Vec<RecentProject>, path: &str, pinned: bool)
    ensures
        recents_view(final(recents)@) == match recent_index(recents_view(old(recents)@), path@) {
            Some(i) => recents_view(old(recents)@).update(
                i,
                RecentView { pinned, ..recents_view(old(recents)@)[i] },
            ),
            None => recents_view(old(recents)@),
        },
{
    let ghost v = recents_view(recents@);
    let key = owned(path);
    let n = recents.len();
    let mut i: usize = 0;
    while i < n && recents[i].path != key
        invariant
            n == recents@.len(),
            i <= n,
            v == recents_view(recents@),
            key@ == path@,
            forall|j: int| 0 <= j < i ==> v[j].path != path@,
        decreases n - i,
    {
        assert(v[i as int] == recents@[i as int]@);
        i = i + 1;
    }
    if i < n {
        assert(v[i as int] == recents@[i as int]@);
        proof {
            lemma_recent_index_at(v, path@, i as int);
        }
        recents[i].pinned = pinned;
        assert(recents_view(recents@) =~= v.update(i as int, RecentView { pinned, ..v[i as int] }));
    } else {
        proof {
            lemma_recent_index(v, path@);
        }
    }
}

/// Drop every entry for `path`, keeping the others in order.
pub fn forget_recent(recents: &mut Vec<RecentProject>, path: &str)
    ensures
        recents_view(final(recents)@) == recents_view(old(recents)@).filter(
            |r: RecentView| r.path != path@,
        ),
{
    let ghost v = recents_view(recents@);
    proof {
        reveal(Seq::filter);
    }
    let key = owned(path);
    let mut kept: Vec<RecentProject> = Vec::new();
    let mut rest: Vec<RecentProject> = Vec::new();
    std::mem::swap(&mut rest, recents);
    assert(recents_view(rest@) == v);
    let n = rest.len();
    let mut taken: usize = 0;
    assert(v.take(0) =~= Seq::<RecentView>::empty());
    assert(v.take(0).filter(|r: RecentView| r.path != path@) =~= Seq::<RecentView>::empty());
    assert(recents_view(kept@) =~= Seq::<RecentView>::empty());
    assert(v.skip(0) =~= v);
    while rest.len() > 0
        invariant
            taken + rest@.len() == n,
            n == v.len(),
            key@ == path@,
            recents_view(rest@) == v.skip(taken as int),
            recents_view(kept@) == v.take(taken as int).filter(|r: RecentView| r.path != path@),
        decreases rest@.len(),
    {
        proof {
            reveal(Seq::filter);
        }
        let ghost before_rest = rest@;
        assert(recents_view(before_rest)[0] == before_rest[0]@);
        assert(v.skip(taken as int)[0] == v[taken as int]);
        let item = rest.remove(0);
        assert(item == before_rest[0]);
        assert(rest@ =~= before_rest.drop_first());
        assert(recents_view(rest@) =~= recents_view(before_rest).drop_first());
        assert(v.skip(taken as int).drop_first() =~= v.skip(taken + 1));
        let ghost iv = item@;
        assert(iv == v[taken as int]);
        let ghost before = recents_view(kept@);
        if item.path != key {
            kept.push(item);
            assert(recents_view(kept@) =~= before.push(iv));
        }
        assert(v.take(taken + 1).drop_last() =~= v.take(taken as int));
        assert(v.take(taken + 1).last() == iv);
        taken = taken + 1;
    }
    assert(v.take(n as int) =~= v);
    *recents = kept;
}

/// A path with `\` separators written as `/`.
pub open spec fn slashed(s: Seq<char>) -> Seq<char> {
    replace_char(s, '\\', seq!['/'])
}

pub open spec fn slashed_all(v: Seq<Seq<char>>) -> Seq<Seq<char>> {
    v.map_values(|s: Seq<char>| slashed(s))
}

pub open spec fn pairs_view(v: Seq<(String, String)>) -> Seq<(Seq<char>, Seq<char>)> {
    v.map_values(|e: (String, String)| (e.0@, e.1@))
}

/// For each of `mods` in order, an edge to each of its dependencies.
pub open spec fn edge_rows(v: GraphView, mods: Seq<Seq<char>>) -> Seq<(Seq<char>, Seq<char>)>
    decreases mods.len(),
{
    if mods.len() == 0 {
        Seq::empty()
    } else {
        let m = mods.last();
        edge_rows(v, mods.drop_last()) + dependencies_of(v, m).map_values(
            |d: Seq<char>| (slashed(m), slashed(d)),
        )
    }
}

/// The message of each cycle diagnostic, each alone in a list.
pub open spec fn cycle_rows(ds: Seq<DiagnosticView>) -> Seq<Seq<Seq<char>>>
    decreases ds.len(),
{
    if ds.len() == 0 {
        Seq::empty()
    } else {
        cycle_rows(ds.drop_last()) + (if ds.last().kind == DiagnosticKind::CircularDependency {
            seq![seq![ds.last().message]]
        } else {
            Seq::empty()
        })
    }
}

/// The module graph as the editor draws it.
pub struct GraphOutline {
    pub modules: Vec<String>,
    pub edges: Vec<(String, String)>,
    pub entry_points: Vec<String>,
    pub cycles: Vec<Vec<String>>,
}

fn slashed_exec(s: &str) -> (r: String)
    ensures
        r@ == slashed(s@),
{
    proof {
        reveal_strlit("/");
        assert("/"@ =~= seq!['/']);
    }
    replace_char_exec(s, '\\', "/")
}

fn slashed_list(v: &Vec<String>) -> (r: Vec<String>)
    ensures
        strs(r@) == slashed_all(strs(v@)),
{
    let mut r: Vec<String> = Vec::new();
    let mut i: usize = 0;
    while i < v.len()
        invariant
            i <= v@.len(),
            strs(r@) == slashed_all(strs(v@.take(i as int))),
        decreases v@.len() - i,
    {
        let ghost before = r@;
        r.push(slashed_exec(v[i].as_str()));
        assert(strs(r@) =~= strs(before).push(slashed(v@[i as int]@)));
        assert(strs(v@.take(i + 1)) =~= strs(v@.take(i as int)).push(v@[i as int]@));
        i = i + 1;
    }
    assert(v@.take(v@.len() as int) =~= v@);
    r
}

/// The editor's picture of an analysis: modules, the edges between them,
/// entry points and the messages of cycle diagnostics, paths written with
/// `/`.
pub fn graph_outline(analysis: &AnalysisResult) -> (r: GraphOutline)
    ensures
        strs(r.modules@) == slashed_all(sort_paths(analysis.graph@.nodes)),
        pairs_view(r.edges@) == edge_rows(analysis.graph@, sort_paths(analysis.graph@.nodes)),
        strs(r.entry_points@) == slashed_all(entry_points_of(analysis.graph@)),
        lists_view(r.cycles@) == cycle_rows(diags_view(analysis.diagnostics@)),
{
    let mods = analysis.graph.modules();
    let modules = slashed_list(&mods);
    let mut edges: Vec<(String, String)> = Vec::new();
    let mut i: usize = 0;
    while i < mods.len()
        invariant
            i <= mods@.len(),
            strs(mods@) == sort_paths(analysis.graph@.nodes),
            pairs_view(edges@) == edge_rows(analysis.graph@, strs(mods@.take(i as int))),
        decreases mods@.len() - i,
    {
        let from = slashed_exec(mods[i].as_str());
        let deps = analysis.graph.dependencies(mods[i].as_str());
        let ghost rows0 = pairs_view(edges@);
        let ghost m = mods@[i as int]@;
        let mut k: usize = 0;
        while k < deps.len()
            invariant
                k <= deps@.len(),
                from@ == slashed(m),
                pairs_view(edges@) == rows0 + strs(deps@.take(k as int)).map_values(
                    |d: Seq<char>| (slashed(m), slashed(d)),
                ),
            decreases deps@.len() - k,
        {
            let ghost before = edges@;
            let to = slashed_exec(deps[k].as_str());
            edges.push((from.clone(), to));
            proof {
                assert(pairs_view(edges@) =~= pairs_view(before).push((from@, slashed(deps@[k as int]@))));
                assert(strs(deps@.take(k + 1)).map_values(|d: Seq<char>| (slashed(m), slashed(d)))
                    =~= strs(deps@.take(k as int)).map_values(
                    |d: Seq<char>| (slashed(m), slashed(d)),
                ).push((slashed(m), slashed(deps@[k as int]@))));
            }
            k = k + 1;
        }
        proof {
            assert(deps@.take(deps@.len() as int) =~= deps@);
            assert(strs(mods@.take(i + 1)).drop_last() =~= strs(mods@.take(i as int)));
            assert(strs(mods@.take(i + 1)).last() == m);
        }
        i = i + 1;
    }
    assert(mods@.take(mods@.len() as int) =~= mods@);
    let entries = analysis.graph.entry_points();
    let entry_points = slashed_list(&entries);
    let mut cycles: Vec<Vec<String>> = Vec::new();
    let mut j: usize = 0;
    while j < analysis.diagnostics.len()
        invariant
            j <= analysis.diagnostics@.len(),
            lists_view(cycles@) == cycle_rows(diags_view(analysis.diagnostics@.take(j as int))),
        decreases analysis.diagnostics@.len() - j,
    {
        let d = &analysis.diagnostics[j];
        let ghost before = cycles@;
        if matches!(d.kind, DiagnosticKind::CircularDependency) {
            let mut one: Vec<String> = Vec::new();
            one.push(d.message.clone());
            assert(strs(one@) =~= seq![d@.message]);
            cycles.push(one);
            assert(lists_view(cycles@) =~= lists_view(before).push(seq![d@.message]));
        }
        assert(diags_view(analysis.diagnostics@.take(j + 1)).drop_last() =~= diags_view(
            analysis.diagnostics@.take(j as int),
        ));
        j = j + 1;
    }
    assert(analysis.diagnostics@.take(analysis.diagnostics@.len() as int)
        =~= analysis.diagnostics@);
    GraphOutline { modules, edges, entry_points, cycles }
}

/// `items` separated by `sep` (`[T]::join`).
pub open spec fn joined(items: Seq<Seq<char>>, sep: Seq<char>) -> Seq<char>
    decreases items.len(),
{
    if items.len() == 0 {
        Seq::empty()
    } else if items.len() == 1 {
        items[0]
    } else {
        joined(items.drop_last(), sep) + sep + items.last()
    }
}

/// The message for a runtime none of whose commands could be found.
pub open spec fn missing_runtime_text(runtime: Seq<char>) -> Seq<char> {
    runtime_spec(runtime).0 + " was not found. Install it and make one of these commands available: "@
        + joined(runtime_spec(runtime).1, ", "@)
}

pub fn missing_runtime_message(runtime: &str) -> (r: String)
    ensures
        r@ == missing_runtime_text(runtime@),
{
    let (label, cmds) = runtime_candidates(runtime);
    let ghost items = cmds@.map_values(|c: &str| c@);
    let mut r = concat(
        label,
        " was not found. Install it and make one of these commands available: ",
    );
    let ghost head = r@;
    let mut i: usize = 0;
    assert(items.take(0) =~= Seq::<Seq<char>>::empty());
    while i < cmds.len()
        invariant
            i <= cmds@.len(),
            items == cmds@.map_values(|c: &str| c@),
            r@ == head + joined(items.take(i as int), ", "@),
        decreases cmds@.len() - i,
    {
        if i > 0 {
            r.append(", ");
        }
        r.append(cmds[i]);
        proof {
            let t = items.take(i + 1);
            assert(t.drop_last() =~= items.take(i as int));
            assert(t.last() == cmds@[i as int]@);
            if i == 0 {
                assert(items.take(0) =~= Seq::<Seq<char>>::empty());
                assert(t.len() == 1);
            }
        }
        i = i + 1;
    }
    assert(items.take(cmds@.len() as int) =~= items);
    r
}

/// `LUA_PATH` for a project: modules under `root` as `name.lua` and as
/// `name/init.lua`, then Lua's defaults.
pub open spec fn lua_path_text(root: Seq<char>, sep: Seq<char>) -> Seq<char> {
    root + sep + "?.lua;"@ + root + sep + "?"@ + sep + "init.lua;;"@
}

pub fn lua_path_setting(root: &str, sep: &str) -> (r: String)
    ensures
        r@ == lua_path_text(root@, sep@),
{
    let mut r = concat(root, sep);
    r.append("?.lua;");
    r.append(root);
    r.append(sep);
    r.append("?");
    r.append(sep);
    r.append("init.lua;;");
    r
}

/// What a finished run reports.
pub struct RunOutcome {
    pub success: bool,
    pub output: String,
    pub error: Option<String>,
}

/// The error of a run: what it wrote to stderr, or, when that is blank and
/// the run failed, its exit status.
pub open spec fn run_error(success: bool, status: Seq<char>, errors: Seq<char>) -> Option<Seq<char>> {
    if trim(errors).len() == 0 {
        if success {
            None
        } else {
            Some("Lua exited with "@ + status)
        }
    } else {
        Some(errors)
    }
}

pub fn run_outcome(success: bool, status: &str, output: String, errors: String) -> (r: RunOutcome)
    ensures
        r.success == success,
        r.output@ == output@,
        opt_str_view(r.error) == run_error(success, status@, errors@),
{
    let error = if trim_exec(errors.as_str()).unicode_len() == 0 {
        if success {
            None
        } else {
            Some(concat("Lua exited with ", status))
        }
    } else {
        Some(errors)
    };
    RunOutcome { success, output, error }
}

/// The version a runtime command reported: its stdout, or its stderr when
/// stdout is blank, trimmed.
pub open spec fn version_text(stdout: Seq<char>, stderr: Seq<char>) -> Seq<char> {
    if trim(stdout).len() == 0 {
        trim(stderr)
    } else {
        trim(stdout)
    }
}

/// A command answers for a runtime when it ran successfully and its version
/// names the runtime's label.
pub open spec fn accepted_version(
    runtime: Seq<char>,
    success: bool,
    stdout: Seq<char>,
    stderr: Seq<char>,
) -> Option<Seq<char>> {
    if success && contains_text(version_text(stdout, stderr), runtime_spec(runtime).0) {
        Some(version_text(stdout, stderr))
    } else {
        None
    }
}

/// The version text of a probed command, if it is the wanted runtime.
pub fn probe_version(runtime: &str, success: bool, stdout: &str, stderr: &str) -> (r: Option<String>)
    ensures
        opt_str_view(r) == accepted_version(runtime@, success, stdout@, stderr@),
{
    if !success {
        return None;
    }
    let (label, _) = runtime_candidates(runtime);
    let out = trim_exec(stdout);
    let version = if out.unicode_len() == 0 {
        trim_exec(stderr)
    } else {
        out
    };
    if contains_text_exec(version.as_str(), label) {
        Some(version)
    } else {
        None
    }
}

/// An entry of a directory, as the file tree lists it.
pub struct TreeEntry {
    pub name: String,
    pub is_dir: bool,
    pub size: u64,
}

pub struct EntryView {
    pub name: Seq<char>,
    pub is_dir: bool,
    pub size: u64,
}

impl View for TreeEntry {
    type V = EntryView;

    open spec fn view(&self) -> EntryView {
        EntryView { name: self.name@, is_dir: self.is_dir, size: self.size }
    }
}

impl TreeEntry {
    /// A copy of this entry.
    pub fn duplicate(&self) -> (r: Self)
        ensures
            r@ == self@,
    {
        TreeEntry { name: self.name.clone(), is_dir: self.is_dir, size: self.size }
    }
}

pub open spec fn entries_view(v: Seq<TreeEntry>) -> Seq<EntryView> {
    v.map_values(|e: TreeEntry| e@)
}

/// `a` sorts strictly before `b`, character by character, a proper prefix
/// first (the byte order of their UTF-8 encodings).
pub open spec fn name_lt(a: Seq<char>, b: Seq<char>) -> bool
    decreases a.len(),
{
    if a.len() == 0 {
        b.len() > 0
    } else if b.len() == 0 {
        false
    } else if a[0] == b[0] {
        name_lt(a.drop_first(), b.drop_first())
    } else {
        a[0] < b[0]
    }
}

pub fn name_less(a: &str, b: &str) -> (r: bool)
    ensures
        r == name_lt(a@, b@),
{
    let n = a.unicode_len();
    let m = b.unicode_len();
    let mut i: usize = 0;
    assert(a@.skip(0) =~= a@);
    assert(b@.skip(0) =~= b@);
    while i < n && i < m
        invariant
            n == a@.len(),
            m == b@.len(),
            i <= n,
            i <= m,
            name_lt(a@, b@) == name_lt(a@.skip(i as int), b@.skip(i as int)),
        decreases n - i,
    {
        let x = a.get_char(i);
        let y = b.get_char(i);
        assert(a@.skip(i as int)[0] == x);
        assert(b@.skip(i as int)[0] == y);
        if x != y {
            return x < y;
        }
        assert(a@.skip(i as int).drop_first() =~= a@.skip(i + 1));
        assert(b@.skip(i as int).drop_first() =~= b@.skip(i + 1));
        i = i + 1;
    }
    i == n && i < m
}

/// Directories first, then by name.
pub open spec fn entry_before(a: EntryView, b: EntryView) -> bool {
    (a.is_dir && !b.is_dir) || (a.is_dir == b.is_dir && name_lt(a.name, b.name))
}

/// Insert `e` after every entry that does not sort after it.
pub open spec fn insert_entry(sorted: Seq<EntryView>, e: EntryView) -> Seq<EntryView>
    decreases sorted.len(),
{
    if sorted.len() == 0 {
        seq![e]
    } else if !entry_before(e, sorted.last()) {
        sorted.push(e)
    } else {
        insert_entry(sorted.drop_last(), e).push(sorted.last())
    }
}

/// `s` stably sorted, directories first, then by name.
pub open spec fn sort_entries(s: Seq<EntryView>) -> Seq<EntryView>
    decreases s.len(),
{
    if s.len() == 0 {
        Seq::empty()
    } else {
        insert_entry(sort_entries(s.drop_last()), s.last())
    }
}

/// `s` without hidden entries.
pub open spec fn visible_entries(s: Seq<EntryView>) -> Seq<EntryView>
    decreases s.len(),
{
    if s.len() == 0 {
        Seq::empty()
    } else if hidden_entry(s.last().name) {
        visible_entries(s.drop_last())
    } else {
        visible_entries(s.drop_last()).push(s.last())
    }
}

/// What a directory shows in the file tree: its entries sorted, hidden ones
/// left out.
pub open spec fn listing(s: Seq<EntryView>) -> Seq<EntryView> {
    visible_entries(sort_entries(s))
}

proof fn lemma_insert_entry_view(s: Seq<EntryView>, x: EntryView, j: int)
    requires
        0 <= j <= s.len(),
        j == 0 || !entry_before(x, s[j - 1]),
        forall|t: int| j <= t < s.len() ==> entry_before(x, #[trigger] s[t]),
    ensures
        insert_entry(s, x) == s.take(j) + seq![x] + s.skip(j),
    decreases s.len(),
{
    if s.len() == 0 {
        assert(s.take(j) + seq![x] + s.skip(j) =~= seq![x]);
    } else if !entry_before(x, s.last()) {
        assert(j == s.len());
        assert(s.take(j) + seq![x] + s.skip(j) =~= s.push(x));
    } else {
        lemma_insert_entry_view(s.drop_last(), x, j);
        assert(s.take(j) + seq![x] + s.skip(j) =~= (s.drop_last().take(j) + seq![x]
            + s.drop_last().skip(j)).push(s.last()));
    }
}

fn entry_before_exec(a: &TreeEntry, b: &TreeEntry) -> (r: bool)
    ensures
        r == entry_before(a@, b@),
{
    (a.is_dir && !b.is_dir) || (a.is_dir == b.is_dir && name_less(a.name.as_str(), b.name.as_str()))
}

fn insert_entry_exec(v: &mut Vec<TreeEntry>, e: TreeEntry)
    ensures
        entries_view(final(v)@) == insert_entry(entries_view(old(v)@), e@),
{
    let ghost vv = entries_view(v@);
    let mut j = v.len();
    while j > 0 && entry_before_exec(&e, &v[j - 1])
        invariant
            j <= v@.len(),
            vv == entries_view(v@),
            v@ == old(v)@,
            forall|t: int| j <= t < v@.len() ==> entry_before(e@, #[trigger] vv[t]),
        decreases j,
    {
        j = j - 1;
    }
    proof {
        lemma_insert_entry_view(vv, e@, j as int);
    }
    let ghost ev = e@;
    v.insert(j, e);
    assert(entries_view(v@) =~= vv.take(j as int) + seq![ev] + vv.skip(j as int));
}

/// The entries of a directory in the order the file tree shows them,
/// without the hidden ones.
pub fn directory_listing(entries: &Vec<TreeEntry>) -> (r: Vec<TreeEntry>)
    ensures
        entries_view(r@) == listing(entries_view(entries@)),
{
    let ghost ev = entries_view(entries@);
    let mut sorted: Vec<TreeEntry> = Vec::new();
    let n = entries.len();
    let mut i: usize = 0;
    assert(ev.take(0) =~= Seq::<EntryView>::empty());
    assert(entries_view(sorted@) =~= Seq::<EntryView>::empty());
    while i < n
        invariant
            n == entries@.len(),
            ev == entries_view(entries@),
            i <= n,
            entries_view(sorted@) == sort_entries(ev.take(i as int)),
        decreases n - i,
    {
        assert(ev.take(i + 1).drop_last() =~= ev.take(i as int));
        insert_entry_exec(&mut sorted, entries[i].duplicate());
        i = i + 1;
    }
    assert(ev.take(n as int) =~= ev);
    let ghost sv = entries_view(sorted@);
    let mut shown: Vec<TreeEntry> = Vec::new();
    let mut k: usize = 0;
    assert(entries_view(shown@) =~= Seq::<EntryView>::empty());
    while k < sorted.len()
        invariant
            k <= sorted@.len(),
            sv == entries_view(sorted@),
            entries_view(shown@) == visible_entries(sv.take(k as int)),
        decreases sorted@.len() - k,
    {
        assert(sv.take(k + 1).drop_last() =~= sv.take(k as int));
        if !is_hidden_entry(sorted[k].name.as_str()) {
            let ghost before = shown@;
            shown.push(sorted[k].duplicate());
            assert(entries_view(shown@) =~= entries_view(before).push(sv[k as int]));
        }
        k = k + 1;
    }
    assert(sv.take(sorted@.len() as int) =~= sv);
    shown
}

/// The recent-list entry for a project opened at `root` (its displayed
/// path) at time `now`: named after its folder (`project` when it has
/// none), on the branch its git `HEAD` names, unpinned.
pub open spec fn fresh_recent(
    root: Seq<char>,
    folder: Option<Seq<char>>,
    now: u64,
    head: Option<Seq<char>>,
) -> RecentView {
    RecentView {
        name: match folder {
            Some(f) => f,
            None => "project"@,
        },
        path: slashed(root),
        last_opened: now,
        pinned: false,
        git_branch: match head {
            Some(h) => head_branch(h),
            None => None,
        },
        exists: true,
    }
}

pub fn recent_entry(root: &str, folder: Option<String>, now: u64, head: Option<String>) -> (r: RecentProject)
    ensures
        r@ == fresh_recent(root@, opt_str_view(folder), now, opt_str_view(head)),
{
    let name = match folder {
        Some(f) => f,
        None => owned("project"),
    };
    let git_branch = match head {
        Some(h) => git_branch(h.as_str()),
        None => None,
    };
    RecentProject {
        name,
        path: slashed_exec(root),
        last_opened: now,
        pinned: false,
        git_branch,
        exists: true,
    }
}

/// The name and root the editor shows for an open workspace: its folder
/// name (`workspace` when it has none) and its path with `/` separators.
pub fn workspace_info(root: &str, folder: Option<String>) -> (r: (String, String))
    ensures
        r.0@ == (match opt_str_view(folder) {
            Some(f) => f,
            None => "workspace"@,
        }),
        r.1@ == slashed(root@),
{
    let name = match folder {
        Some(f) => f,
        None => owned("workspace"),
    };
    (name, slashed_exec(root))
}

// ---- checking a snippet ----

/// What the parser reports of `code`: `None` when it parses, else its
/// errors as printed.
pub open spec fn parse_failures(code: Seq<char>) -> Option<Seq<Seq<char>>> {
    match crate::parse::lua_parse(code) {
        Ok(_) => None,
        Err(es) => Some(es),
    }
}

pub open spec fn opt_strs_view(v: Option<Vec<String>>) -> Option<Seq<Seq<char>>> {
    match v {
        Some(v) => Some(strs(v@)),
        None => None,
    }
}

/// The report on a snippet, given what the parser said of its trimmed
/// text: blank snippets need no parse; a clean parse gives the number of
/// lines; errors are listed one per line.
pub open spec fn snippet_outcome(code: Seq<char>, errors: Option<Seq<Seq<char>>>) -> (
    bool,
    Seq<char>,
    Option<Seq<char>>,
) {
    let t = trim(code);
    if t.len() == 0 {
        (true, "Nothing to validate."@, None)
    } else {
        match errors {
            None => (
                true,
                "Syntax is valid.\n[Parsed "@ + decimal(source_lines(t).len()) + " source lines; code was not executed]"@,
                None,
            ),
            Some(es) => (false, Seq::empty(), Some("Syntax error:\n"@ + joined(es, "\n"@))),
        }
    }
}

fn line_count(s: &str) -> (r: usize)
    ensures
        r == source_lines(s@).len(),
{
    let n = s.unicode_len();
    let mut newlines: usize = 0;
    let mut current: usize = 0;
    let mut i: usize = 0;
    assert(s@.take(0) =~= Seq::<char>::empty());
    while i < n
        invariant
            n == s@.len(),
            i <= n,
            newlines + 1 == line_pieces(s@.take(i as int)).len(),
            current == line_pieces(s@.take(i as int)).last().len(),
            newlines + current <= i,
        decreases n - i,
    {
        assert(s@.take(i + 1).drop_last() =~= s@.take(i as int));
        proof {
            crate::outline::lemma_line_pieces_nonempty(s@.take(i as int));
        }
        if s.get_char(i) == '\n' {
            newlines = newlines + 1;
            current = 0;
        } else {
            current = current + 1;
        }
        i = i + 1;
    }
    assert(s@.take(n as int) =~= s@);
    if current == 0 {
        newlines
    } else {
        newlines + 1
    }
}

fn joined_lines(v: &Vec<String>) -> (r: String)
    ensures
        r@ == joined(strs(v@), "\n"@),
{
    let mut r = String::new();
    let mut i: usize = 0;
    assert(strs(v@).take(0) =~= Seq::<Seq<char>>::empty());
    while i < v.len()
        invariant
            i <= v@.len(),
            r@ == joined(strs(v@).take(i as int), "\n"@),
        decreases v@.len() - i,
    {
        if i > 0 {
            r.append("\n");
        }
        r.append(v[i].as_str());
        proof {
            let t = strs(v@).take(i + 1);
            assert(t.drop_last() =~= strs(v@).take(i as int));
            assert(t.last() == v@[i as int]@);
            if i == 0 {
                assert(t.len() == 1);
            }
        }
        i = i + 1;
    }
    assert(strs(v@).take(v@.len() as int) =~= strs(v@));
    r
}

/// The report on a snippet, given what the parser said of its trimmed text.
pub fn snippet_report(code: &str, errors: Option<Vec<String>>) -> (r: RunOutcome)
    ensures
        (r.success, r.output@, opt_str_view(r.error)) == snippet_outcome(code@, opt_strs_view(errors)),
{
    let t = trim_exec(code);
    if t.unicode_len() == 0 {
        return RunOutcome { success: true, output: owned("Nothing to validate."), error: None };
    }
    match errors {
        None => {
            let mut out = owned("Syntax is valid.\n[Parsed ");
            out.append(usize_text(line_count(t.as_str())).as_str());
            out.append(" source lines; code was not executed]");
            RunOutcome { success: true, output: out, error: None }
        },
        Some(es) => {
            let msg = concat("Syntax error:\n", joined_lines(&es).as_str());
            RunOutcome { success: false, output: String::new(), error: Some(msg) }
        },
    }
}

/// Checks that a snippet parses as Lua, without running it.
pub fn validate_lua_snippet(code: &str) -> (r: RunOutcome)
    ensures
        (r.success, r.output@, opt_str_view(r.error)) == snippet_outcome(
            code@,
            parse_failures(trim(code@)),
        ),
{
    let t = trim_exec(code);
    if t.unicode_len() == 0 {
        return snippet_report(code, None);
    }
    let errors = match crate::parse::parse_source(t.as_str()) {
        Ok(_) => None,
        Err(es) => Some(es),
    };
    snippet_report(code, errors)
}

// ---- creating projects and detecting runtimes ----

/// What creating a project writes: its folder, a starter `main.lua`, and
/// the settings naming the runtime and the entry file.
pub struct NewProject {
    pub folder: String,
    pub main_source: String,
    pub runtime: String,
    pub entry: String,
}

pub open spec fn starter_source() -> Seq<char> {
    "print(\"Hello from Aster!\")\n"@
}

/// The project to create for a requested name and runtime: the trimmed
/// name as its folder when it is a single plain folder name, else the
/// refusal.
pub fn plan_new_project(name: &str, runtime: String) -> (r: Result<NewProject, String>)
    ensures
        match r {
            Ok(p) => project_name_ok(trim(name@)) && p.folder@ == trim(name@) && p.main_source@
                == starter_source() && p.runtime@ == runtime@ && p.entry@ == "main.lua"@,
            Err(e) => !project_name_ok(trim(name@)) && e@ == "project name must be a single folder name"@,
        },
{
    let folder = trim_exec(name);
    if !valid_project_name(folder.as_str()) {
        return Err(owned("project name must be a single folder name"));
    }
    Ok(
        NewProject {
            folder,
            main_source: owned("print(\"Hello from Aster!\")\n"),
            runtime,
            entry: owned("main.lua"),
        },
    )
}

/// The runtimes the editor looks for, in the order it lists them.
pub fn known_runtimes() -> (r: Vec<&'static str>)
    ensures
        r@.map_values(|c: &str| c@) == seq!["lua54"@, "luajit21"@, "lua53"@, "lua51"@],
{
    let list = ["lua54", "luajit21", "lua53", "lua51"];
    let r = commands(&list);
    assert(list@.map_values(|c: &str| c@) =~= seq!["lua54"@, "luajit21"@, "lua53"@, "lua51"@]);
    r
}

/// What the editor shows of one runtime.
pub struct RuntimeInfo {
    pub id: String,
    pub label: String,
    pub available: bool,
    pub executable: Option<String>,
    pub version: Option<String>,
}

/// A runtime's entry, given the command and version found for it, if any.
pub fn runtime_info(id: &str, found: Option<(String, String)>) -> (r: RuntimeInfo)
    ensures
        r.id@ == id@,
        r.label@ == runtime_spec(id@).0,
        r.available == found is Some,
        opt_str_view(r.executable) == (match found {
            Some(f) => Some(f.0@),
            None => None,
        }),
        opt_str_view(r.version) == (match found {
            Some(f) => Some(f.1@),
            None => None,
        }),
{
    let (label, _) = runtime_candidates(id);
    let available = found.is_some();
    let (executable, version) = match found {
        Some((e, v)) => (Some(e), Some(v)),
        None => (None, None),
    };
    RuntimeInfo { id: owned(id), label: owned(label), available, executable, version }
}

/// The largest file the editor opens, in bytes.
pub const EDITOR_LIMIT: u64 = 2097152;

/// Whether the editor opens a file of `size` bytes: up to 2 MiB.
pub fn check_editor_size(size: u64) -> (r: Result<(), String>)
    ensures
        match r {
            Ok(()) => size <= EDITOR_LIMIT,
            Err(e) => size > EDITOR_LIMIT && e@ == "file is larger than Aster's 2 MB editor limit"@,
        },
{
    if size > EDITOR_LIMIT {
        Err(owned("file is larger than Aster's 2 MB editor limit"))
    } else {
        Ok(())
    }
}

// ---- the order of a listing ----

proof fn lemma_name_lt_irreflexive(a: Seq<char>)
    ensures
        !name_lt(a, a),
    decreases a.len(),
{
    if a.len() > 0 {
        lemma_name_lt_irreflexive(a.drop_first());
    }
}

proof fn lemma_name_lt_transitive(a: Seq<char>, b: Seq<char>, c: Seq<char>)
    requires
        name_lt(a, b),
        name_lt(b, c),
    ensures
        name_lt(a, c),
    decreases a.len(),
{
    if a.len() > 0 && b.len() > 0 && c.len() > 0 {
        if a[0] == b[0] && b[0] == c[0] {
            lemma_name_lt_transitive(a.drop_first(), b.drop_first(), c.drop_first());
        }
    }
}

proof fn lemma_name_lt_total(a: Seq<char>, b: Seq<char>)
    ensures
        a == b || name_lt(a, b) || name_lt(b, a),
    decreases a.len(),
{
    if a.len() > 0 && b.len() > 0 {
        if a[0] == b[0] {
            lemma_name_lt_total(a.drop_first(), b.drop_first());
            if a.drop_first() == b.drop_first() {
                assert(a =~= seq![a[0]] + a.drop_first());
                assert(b =~= seq![b[0]] + b.drop_first());
            }
        }
    }
}

proof fn lemma_entry_before_transitive(a: EntryView, b: EntryView, c: EntryView)
    requires
        entry_before(a, b),
        entry_before(b, c),
    ensures
        entry_before(a, c),
{
    if a.is_dir == b.is_dir && b.is_dir == c.is_dir {
        lemma_name_lt_transitive(a.name, b.name, c.name);
    }
}

proof fn lemma_entry_before_asymmetric(a: EntryView, b: EntryView)
    requires
        entry_before(a, b),
    ensures
        !entry_before(b, a),
{
    if entry_before(b, a) {
        lemma_entry_before_transitive(a, b, a);
        lemma_name_lt_irreflexive(a.name);
    }
}

proof fn lemma_not_entry_before_transitive(a: EntryView, b: EntryView, c: EntryView)
    requires
        !entry_before(b, a),
        !entry_before(c, b),
    ensures
        !entry_before(c, a),
{
    lemma_name_lt_total(a.name, b.name);
    lemma_name_lt_total(b.name, c.name);
    if entry_before(c, a) {
        if entry_before(a, b) {
            lemma_entry_before_transitive(c, a, b);
        } else if entry_before(b, c) {
            lemma_entry_before_transitive(b, c, a);
        } else {
            lemma_name_lt_irreflexive(a.name);
        }
    }
}

/// No entry sorts before one listed ahead of it.
pub open spec fn entries_sorted(s: Seq<EntryView>) -> bool {
    forall|i: int, j: int| 0 <= i < j < s.len() ==> !entry_before(#[trigger] s[j], #[trigger] s[i])
}

proof fn lemma_insert_entry_sorted(s: Seq<EntryView>, x: EntryView)
    requires
        entries_sorted(s),
    ensures
        entries_sorted(insert_entry(s, x)),
        insert_entry(s, x).to_multiset() == s.to_multiset().insert(x),
    decreases s.len(),
{
    broadcast use vstd::seq_lib::group_to_multiset_ensures;
    if s.len() == 0 {
        assert(insert_entry(s, x) =~= seq![x]);
        assert(seq![x] =~= Seq::<EntryView>::empty().push(x));
    } else if !entry_before(x, s.last()) {
        let r = s.push(x);
        assert forall|i: int, j: int| 0 <= i < j < r.len() implies !entry_before(
            #[trigger] r[j],
            #[trigger] r[i],
        ) by {
            if j == r.len() - 1 && i < s.len() - 1 {
                assert(!entry_before(s[s.len() - 1], s[i]));
                lemma_not_entry_before_transitive(s[i], s.last(), x);
            }
        }
    } else {
        let d = s.drop_last();
        assert forall|i: int, j: int| 0 <= i < j < d.len() implies !entry_before(
            #[trigger] d[j],
            #[trigger] d[i],
        ) by {
            assert(!entry_before(s[j], s[i]));
        }
        lemma_insert_entry_sorted(d, x);
        let q = insert_entry(d, x);
        let r = q.push(s.last());
        assert(s =~= d.push(s.last()));
        assert forall|i: int, j: int| 0 <= i < j < r.len() implies !entry_before(
            #[trigger] r[j],
            #[trigger] r[i],
        ) by {
            if j == r.len() - 1 {
                assert(q.to_multiset().count(q[i]) > 0);
                if q[i] == x {
                    lemma_entry_before_asymmetric(x, s.last());
                } else {
                    assert(d.to_multiset().count(q[i]) > 0);
                    let k = choose|k: int| 0 <= k < d.len() && d[k] == q[i];
                    assert(!entry_before(s[s.len() - 1], s[k]));
                }
            }
        }
    }
}

proof fn lemma_sort_entries(s: Seq<EntryView>)
    ensures
        entries_sorted(sort_entries(s)),
        sort_entries(s).to_multiset() == s.to_multiset(),
    decreases s.len(),
{
    broadcast use vstd::seq_lib::group_to_multiset_ensures;
    if s.len() > 0 {
        lemma_sort_entries(s.drop_last());
        lemma_insert_entry_sorted(sort_entries(s.drop_last()), s.last());
        assert(s =~= s.drop_last().push(s.last()));
    }
}

proof fn lemma_visible_entries(s: Seq<EntryView>)
    ensures
        forall|i: int| 0 <= i < visible_entries(s).len() ==> !hidden_entry(
            #[trigger] visible_entries(s)[i].name,
        ),
        forall|i: int| 0 <= i < visible_entries(s).len() ==> s.contains(#[trigger] visible_entries(s)[i]),
        forall|i: int|
            0 <= i < s.len() && !hidden_entry(s[i].name) ==> visible_entries(s).contains(#[trigger] s[i]),
        entries_sorted(s) ==> entries_sorted(visible_entries(s)),
    decreases s.len(),
{
    if s.len() > 0 {
        let d = s.drop_last();
        lemma_visible_entries(d);
        let v = visible_entries(d);
        assert forall|i: int| 0 <= i < v.len() implies s.contains(#[trigger] v[i]) by {
            let k = choose|k: int| 0 <= k < d.len() && d[k] == v[i];
            assert(s[k] == d[k]);
        }
        assert forall|i: int| 0 <= i < s.len() && !hidden_entry(s[i].name) implies visible_entries(
            s,
        ).contains(#[trigger] s[i]) by {
            if i < s.len() - 1 {
                assert(d[i] == s[i]);
                let k = choose|k: int| 0 <= k < v.len() && v[k] == d[i];
                if !hidden_entry(s.last().name) {
                    assert(visible_entries(s)[k] == v[k]);
                }
            } else {
                assert(visible_entries(s)[v.len() as int] == s[i]);
            }
        }
        if entries_sorted(s) && !hidden_entry(s.last().name) {
            assert forall|i: int, j: int| 0 <= i < j < d.len() implies !entry_before(
                #[trigger] d[j],
                #[trigger] d[i],
            ) by {
                assert(d[i] == s[i] && d[j] == s[j]);
            }
            let r = v.push(s.last());
            assert forall|i: int, j: int| 0 <= i < j < r.len() implies !entry_before(
                #[trigger] r[j],
                #[trigger] r[i],
            ) by {
                if j == r.len() - 1 {
                    let k = choose|k: int| 0 <= k < d.len() && d[k] == v[i];
                    assert(!entry_before(s[s.len() - 1], s[k]));
                }
            }
        } else if entries_sorted(s) {
            assert forall|i: int, j: int| 0 <= i < j < d.len() implies !entry_before(
                #[trigger] d[j],
                #[trigger] d[i],
            ) by {
                assert(d[i] == s[i] && d[j] == s[j]);
            }
        }
    }
}

/// A listing shows folders before files and names in order, leaves out
/// exactly the hidden entries, and shows every other entry it was given.
pub proof fn lemma_listing_sorted_and_complete(s: Seq<EntryView>)
    ensures
        entries_sorted(listing(s)),
        forall|i: int| 0 <= i < listing(s).len() ==> !hidden_entry(#[trigger] listing(s)[i].name),
        forall|i: int| 0 <= i < listing(s).len() ==> s.contains(#[trigger] listing(s)[i]),
        forall|i: int| 0 <= i < s.len() && !hidden_entry(s[i].name) ==> listing(s).contains(#[trigger] s[i]),
{
    broadcast use vstd::seq_lib::group_to_multiset_ensures;
    lemma_sort_entries(s);
    let t = sort_entries(s);
    lemma_visible_entries(t);
    assert forall|i: int| 0 <= i < listing(s).len() implies s.contains(#[trigger] listing(s)[i]) by {
        let k = choose|k: int| 0 <= k < t.len() && t[k] == listing(s)[i];
        assert(t.to_multiset().count(t[k]) > 0);
    }
    assert forall|i: int| 0 <= i < s.len() && !hidden_entry(s[i].name) implies listing(s).contains(
        #[trigger] s[i],
    ) by {
        assert(s.to_multiset().count(s[i]) > 0);
        let k = choose|k: int| 0 <= k < t.len() && t[k] == s[i];
        assert(!hidden_entry(t[k].name));
    }
}

/// Forgetting a project right after opening it leaves the recent list as
/// forgetting it alone would: opening only moves or adds that project's
/// entry.
pub proof fn lemma_forget_undoes_open(v: Seq<RecentView>, entry: RecentView)
    ensures
        opened_recents(v, entry).filter(|r: RecentView| r.path != entry.path) == v.filter(
            |r: RecentView| r.path != entry.path,
        ),
{
    let keep = |r: RecentView| r.path != entry.path;
    lemma_recent_index(v, entry.path);
    match recent_index(v, entry.path) {
        Some(i) => {
            let head = RecentView { pinned: v[i].pinned, ..entry };
            v.remove(i).lemma_filter_prepend(head, keep);
            assert(v.remove(i) =~= v.take(i) + v.skip(i + 1));
            assert(v =~= v.take(i) + (seq![v[i]] + v.skip(i + 1)));
            Seq::filter_distributes_over_add(v.take(i), v.skip(i + 1), keep);
            Seq::filter_distributes_over_add(v.take(i), seq![v[i]] + v.skip(i + 1), keep);
            v.skip(i + 1).lemma_filter_prepend(v[i], keep);
            assert(seq![head] + v.remove(i) =~= opened_recents(v, entry));
        },
        None => {
            let head = RecentView { pinned: false, ..entry };
            v.lemma_filter_prepend(head, keep);
        },
    }
}

} // verus!
