//! Whole-project analysis over loaded files: the Lua checks, the member
//! inspector, and the require graph with its diagnostics.
//!
//! Files are discovered, read and parsed by the caller; what could not be
//! read or parsed arrives as a [`LoadFailure`] and becomes a diagnostic.

use vstd::prelude::*;
use crate::assoc::{keys_of, vget, vput};
use crate::bindings::{bindings_of, resolution_exec, resolution_of, resolutions_view};
use crate::classes::LookupContext;
use crate::diagnostic::{
    Diagnostic, DiagnosticKind, DiagnosticView, diag_in, diags_view, opt_str_view,
};
use crate::exports::{module_export, module_export_exec};
use crate::members::{check_members, member_diagnostics};
use crate::multi_return::{check_returns, return_diagnostics};
use crate::order::{sort_diagnostics, sort_diags};
use crate::performance::{check_performance, performance_diagnostics};
use crate::resolve::{Resolver, resolvable};
use crate::sequence::{check_sequence, sequence_diagnostics};
use crate::shapes::{
    Bindings, BindingsView, ExportShape, ShapeView, all_bindings_view, get_index,
    lemma_all_bindings_keys, lemma_shapes_keys, shapes_view,
};
use crate::syntax::Chunk;
use crate::graph::{
    GraphView, ModuleGraph, built_graph, cycle_lists, orphans_of, graph_wf, scc_partition,
    required_by_other,
};
use crate::order::{lists_view, sort_lists};
use crate::require_sites::{chunk_requires, requires_of};
use crate::diagnostic::diag_at;
use crate::explain::{explain_file, explanations_of, explanations_view};
use crate::lookup::{ExplanationView, LookupExplanation};
use crate::text::{
    concat, ends_with, ends_with_exec, owned, replace_char, replace_char_exec, starts_with,
    strip_prefix_or_self, suffix_from,
};

verus! {

/// Options for an analysis.
pub struct AnalysisOptions {
    /// Project root directory.
    pub root: String,
    /// `package.path`-style patterns with `?` placeholders, relative to `root`.
    pub search_path: Vec<String>,
}

pub open spec fn default_search_path() -> Seq<Seq<char>> {
    seq!["./?.lua"@, "./?/init.lua"@]
}

impl AnalysisOptions {
    /// Options for the project at `root` with the default search path
    /// `./?.lua;./?/init.lua`.
    pub fn new(root: &str) -> (r: Self)
        ensures
            r.root@ == root@,
            r.search_path@.map_values(|p: String| p@) == default_search_path(),
    {
        let mut search_path = Vec::new();
        search_path.push(owned("./?.lua"));
        search_path.push(owned("./?/init.lua"));
        assert(search_path@.map_values(|p: String| p@) =~= default_search_path());
        AnalysisOptions { root: owned(root), search_path }
    }
}

/// Why a discovered file has no syntax tree.
pub enum LoadFailure {
    /// The file could not be read; the reader's error text.
    Unreadable(String),
    /// The file did not parse; the first parse error's text, if any.
    Unparsable(Option<String>),
}

/// A discovered Lua file: its path relative to the root, and its syntax
/// tree or why there is none.
pub struct SourceFile {
    pub path: String,
    pub syntax: Result<Chunk, LoadFailure>,
}

/// A discovered file from what reading it gave: the reader's error, or the
/// text, parsed once. A text that does not parse keeps the parser's first
/// error.
pub fn load_source(path: String, text: Result<String, String>) -> (r: SourceFile)
    ensures
        r.path@ == path@,
        match text {
            Err(e) => r.syntax matches Err(LoadFailure::Unreadable(m)) && m@ == e@,
            Ok(t) => match crate::parse::lua_parse(t@) {
                Ok(p) => r.syntax == Ok::<Chunk, LoadFailure>(p.0),
                Err(es) => r.syntax matches Err(LoadFailure::Unparsable(Some(m))) && m@ == es[0],
            },
        },
{
    let syntax = match text {
        Err(e) => Err(LoadFailure::Unreadable(e)),
        Ok(t) => match crate::parse::parse_source(t.as_str()) {
            Ok(p) => Ok(p.0),
            Err(es) => {
                let first = es[0].clone();
                Err(LoadFailure::Unparsable(Some(first)))
            },
        },
    };
    SourceFile { path, syntax }
}

/// The kind and message of the diagnostic for a file that did not load.
pub open spec fn load_failure_diag(f: LoadFailure, path: Seq<char>) -> DiagnosticView {
    match f {
        LoadFailure::Unreadable(e) => diag_in(
            DiagnosticKind::IoError,
            "cannot read file: "@ + e@,
            path,
        ),
        LoadFailure::Unparsable(Some(e)) => diag_in(DiagnosticKind::ParseError, e@, path),
        LoadFailure::Unparsable(None) => diag_in(DiagnosticKind::ParseError, "parse error"@, path),
    }
}

/// One diagnostic per file that did not load, in file order.
pub open spec fn load_diags(files: Seq<SourceFile>) -> Seq<DiagnosticView>
    decreases files.len(),
{
    if files.len() == 0 {
        Seq::empty()
    } else {
        load_diags(files.drop_last()) + match files.last().syntax {
            Err(f) => seq![load_failure_diag(f, files.last().path@)],
            Ok(_) => Seq::empty(),
        }
    }
}

/// Export shapes of the files that have a fully known one, by path.
pub open spec fn shapes_of(files: Seq<SourceFile>) -> Seq<(Seq<char>, ShapeView)>
    decreases files.len(),
{
    if files.len() == 0 {
        Seq::empty()
    } else {
        let acc = shapes_of(files.drop_last());
        match files.last().syntax {
            Ok(c) => match module_export(&c) {
                Some(shape) => vput(acc, files.last().path@, shape),
                None => acc,
            },
            Err(_) => acc,
        }
    }
}

/// Require bindings of every loaded file, by path.
pub open spec fn bindings_all(
    files: Seq<SourceFile>,
    table: Seq<(Seq<char>, Option<Seq<char>>)>,
    shapes: Seq<(Seq<char>, ShapeView)>,
) -> Seq<(Seq<char>, BindingsView)>
    decreases files.len(),
{
    if files.len() == 0 {
        Seq::empty()
    } else {
        let acc = bindings_all(files.drop_last(), table, shapes);
        match files.last().syntax {
            Ok(c) => vput(acc, files.last().path@, bindings_of(&c, table, shapes)),
            Err(_) => acc,
        }
    }
}

/// The lookup context of a project: its shapes and its bindings.
pub open spec fn project_context(
    files: Seq<SourceFile>,
    table: Seq<(Seq<char>, Option<Seq<char>>)>,
) -> crate::classes::CtxView {
    let shapes = shapes_of(files);
    crate::classes::CtxView { shapes, bindings: bindings_all(files, table, shapes) }
}

/// The checks of one file.
pub open spec fn file_diags(f: SourceFile, ctx: crate::classes::CtxView) -> Seq<DiagnosticView> {
    match f.syntax {
        Ok(c) => sequence_diagnostics(&c, f.path@) + performance_diagnostics(&c, f.path@)
            + match vget(ctx.bindings, f.path@) {
            Some(b) => member_diagnostics(&c, ctx, b, f.path@) + return_diagnostics(
                &c,
                ctx,
                b,
                f.path@,
            ),
            None => Seq::empty(),
        },
        Err(_) => Seq::empty(),
    }
}

pub open spec fn all_file_diags(files: Seq<SourceFile>, ctx: crate::classes::CtxView) -> Seq<DiagnosticView>
    decreases files.len(),
{
    if files.len() == 0 {
        Seq::empty()
    } else {
        all_file_diags(files.drop_last(), ctx) + file_diags(files.last(), ctx)
    }
}

/// The diagnostics of a project whose required modules resolve as `table`
/// says: load failures and per-file checks, sorted by file, line and
/// column.
pub open spec fn check_report(
    files: Seq<SourceFile>,
    table: Seq<(Seq<char>, Option<Seq<char>>)>,
) -> Seq<DiagnosticView> {
    sort_diags(load_diags(files) + all_file_diags(files, project_context(files, table)))
}

/// A resolution table that a resolver at `root` over `search_path` can
/// produce: each name resolves as `resolvable` says, probing its candidates
/// joined to `root` in order.
pub open spec fn table_fits(
    root: Seq<char>,
    search_path: Seq<Seq<char>>,
    table: Seq<(Seq<char>, Option<Seq<char>>)>,
) -> bool {
    forall|k: int| 0 <= k < table.len() ==> resolvable(root, search_path, #[trigger] table[k].0, table[k].1)
}

// ---- executable ----

fn push_all(out: &mut Vec<Diagnostic>, more: Vec<Diagnostic>)
    ensures
        diags_view(final(out)@) == diags_view(old(out)@) + diags_view(more@),
{
    let mut more = more;
    let ghost mv = more@;
    out.append(&mut more);
    assert(diags_view(out@) =~= diags_view(old(out)@) + diags_view(mv));
}

/// One diagnostic per file that did not load, in file order.
pub fn load_diagnostics(files: &Vec<SourceFile>) -> (r: Vec<Diagnostic>)
    ensures
        diags_view(r@) == load_diags(files@),
{
    let mut out: Vec<Diagnostic> = Vec::new();
    let n = files.len();
    let mut i: usize = 0;
    assert(files@.take(0) =~= Seq::<SourceFile>::empty());
    assert(diags_view(out@) =~= Seq::<DiagnosticView>::empty());
    while i < n
        invariant
            n == files@.len(),
            i <= n,
            diags_view(out@) == load_diags(files@.take(i as int)),
        decreases n - i,
    {
        assert(files@.take(i + 1).drop_last() =~= files@.take(i as int));
        let path = &files[i].path;
        let ghost before = diags_view(out@);
        match &files[i].syntax {
            Err(LoadFailure::Unreadable(e)) => {
                let d = Diagnostic::new(
                    DiagnosticKind::IoError,
                    concat("cannot read file: ", e.as_str()).as_str(),
                ).in_file(path.clone());
                out.push(d);
            },
            Err(LoadFailure::Unparsable(Some(e))) => {
                out.push(Diagnostic::new(DiagnosticKind::ParseError, e.as_str()).in_file(path.clone()));
            },
            Err(LoadFailure::Unparsable(None)) => {
                out.push(Diagnostic::new(DiagnosticKind::ParseError, "parse error").in_file(path.clone()));
            },
            Ok(_) => {},
        }
        assert(diags_view(out@) =~= load_diags(files@.take(i + 1)));
        i = i + 1;
    }
    assert(files@.take(n as int) =~= files@);
    out
}

fn put_shape(v: &mut Vec<(String, ExportShape)>, k: String, val: ExportShape)
    ensures
        shapes_view(final(v)@) == vput(shapes_view(old(v)@), k@, val@),
{
    proof {
        lemma_shapes_keys(v@);
    }
    let ghost kv = k@;
    let ghost sv = val@;
    match get_index(v, k.as_str()) {
        Some(i) => {
            v.set(i, (k, val));
            assert(shapes_view(v@) =~= shapes_view(old(v)@).update(i as int, (kv, sv)));
        },
        None => {
            v.push((k, val));
            assert(shapes_view(v@) =~= shapes_view(old(v)@).push((kv, sv)));
        },
    }
}

fn put_bindings(v: &mut Vec<(String, Bindings)>, k: String, val: Bindings)
    ensures
        all_bindings_view(final(v)@) == vput(all_bindings_view(old(v)@), k@, val@),
{
    proof {
        lemma_all_bindings_keys(v@);
    }
    let ghost kv = k@;
    let ghost bv = val@;
    match get_index(v, k.as_str()) {
        Some(i) => {
            v.set(i, (k, val));
            assert(all_bindings_view(v@) =~= all_bindings_view(old(v)@).update(i as int, (kv, bv)));
        },
        None => {
            v.push((k, val));
            assert(all_bindings_view(v@) =~= all_bindings_view(old(v)@).push((kv, bv)));
        },
    }
}

/// The export shape of every file that has a fully known one, by path.
pub fn export_shapes(files: &Vec<SourceFile>) -> (r: Vec<(String, ExportShape)>)
    ensures
        shapes_view(r@) == shapes_of(files@),
{
    let mut out: Vec<(String, ExportShape)> = Vec::new();
    let n = files.len();
    let mut i: usize = 0;
    assert(files@.take(0) =~= Seq::<SourceFile>::empty());
    assert(shapes_view(out@) =~= Seq::<(Seq<char>, ShapeView)>::empty());
    while i < n
        invariant
            n == files@.len(),
            i <= n,
            shapes_view(out@) == shapes_of(files@.take(i as int)),
        decreases n - i,
    {
        assert(files@.take(i + 1).drop_last() =~= files@.take(i as int));
        if let Ok(c) = &files[i].syntax {
            if let Some(shape) = module_export_exec(c) {
                put_shape(&mut out, files[i].path.clone(), shape);
            }
        }
        i = i + 1;
    }
    assert(files@.take(n as int) =~= files@);
    out
}

/// The require bindings of every loaded file, by path.
pub fn collect_bindings(
    files: &Vec<SourceFile>,
    table: &Vec<(String, Option<String>)>,
    shapes: &Vec<(String, ExportShape)>,
) -> (r: Vec<(String, Bindings)>)
    ensures
        all_bindings_view(r@) == bindings_all(files@, resolutions_view(table@), shapes_view(shapes@)),
{
    let mut out: Vec<(String, Bindings)> = Vec::new();
    let n = files.len();
    let mut i: usize = 0;
    assert(files@.take(0) =~= Seq::<SourceFile>::empty());
    assert(all_bindings_view(out@) =~= Seq::<(Seq<char>, BindingsView)>::empty());
    while i < n
        invariant
            n == files@.len(),
            i <= n,
            all_bindings_view(out@) == bindings_all(
                files@.take(i as int),
                resolutions_view(table@),
                shapes_view(shapes@),
            ),
        decreases n - i,
    {
        assert(files@.take(i + 1).drop_last() =~= files@.take(i as int));
        if let Ok(c) = &files[i].syntax {
            let b = Bindings::collect(c, table, shapes);
            put_bindings(&mut out, files[i].path.clone(), b);
        }
        i = i + 1;
    }
    assert(files@.take(n as int) =~= files@);
    out
}

fn bindings_for<'a>(all: &'a Vec<(String, Bindings)>, path: &str) -> (r: Option<&'a Bindings>)
    ensures
        match r {
            Some(b) => vget(all_bindings_view(all@), path@) == Some(b@),
            None => vget(all_bindings_view(all@), path@) is None,
        },
{
    proof {
        lemma_all_bindings_keys(all@);
    }
    match get_index(all, path) {
        Some(i) => Some(&all[i].1),
        None => None,
    }
}

/// The diagnostics of a project whose required modules resolve as `table`
/// says, sorted by file, line and column.
pub fn check_resolved(files: &Vec<SourceFile>, table: &Vec<(String, Option<String>)>) -> (r: Vec<Diagnostic>)
    ensures
        diags_view(r@) == check_report(files@, resolutions_view(table@)),
{
    let shapes = export_shapes(files);
    let all = collect_bindings(files, table, &shapes);
    let context = LookupContext::new(&shapes, &all);
    let ghost ctx = project_context(files@, resolutions_view(table@));
    assert(context@ == ctx);
    let mut out = load_diagnostics(files);
    let ghost loaded = diags_view(out@);
    let n = files.len();
    let mut i: usize = 0;
    assert(files@.take(0) =~= Seq::<SourceFile>::empty());
    assert(loaded =~= loaded + all_file_diags(files@.take(0), ctx));
    while i < n
        invariant
            n == files@.len(),
            i <= n,
            context@ == ctx,
            all_bindings_view(all@) == ctx.bindings,
            loaded == load_diags(files@),
            diags_view(out@) == loaded + all_file_diags(files@.take(i as int), ctx),
        decreases n - i,
    {
        assert(files@.take(i + 1).drop_last() =~= files@.take(i as int));
        assert(files@.take(i + 1).last() == files@[i as int]);
        let ghost before = diags_view(out@);
        let path = files[i].path.as_str();
        if let Ok(c) = &files[i].syntax {
            push_all(&mut out, check_sequence(path, c));
            push_all(&mut out, check_performance(path, c));
            if let Some(b) = bindings_for(&all, path) {
                push_all(&mut out, check_members(path, c, b, &context));
                push_all(&mut out, check_returns(path, c, b, &context));
            }
        }
        assert(diags_view(out@) =~= before + file_diags(files@[i as int], ctx));
        i = i + 1;
    }
    assert(files@.take(n as int) =~= files@);
    sort_diagnostics(&out)
}

fn clone_strings(v: &Vec<String>) -> (r: Vec<String>)
    ensures
        r@.map_values(|s: String| s@) == v@.map_values(|s: String| s@),
{
    let mut out: Vec<String> = Vec::new();
    let mut i: usize = 0;
    while i < v.len()
        invariant
            i <= v@.len(),
            out@.map_values(|s: String| s@) == v@.take(i as int).map_values(|s: String| s@),
        decreases v@.len() - i,
    {
        let ghost before = out@;
        let s = v[i].clone();
        assert(s@ == v@[i as int]@);
        out.push(s);
        assert(v@.take(i + 1) =~= v@.take(i as int).push(v@[i as int]));
        assert(out@.map_values(|s: String| s@) =~= before.map_values(|s: String| s@).push(s@));
        assert(out@.map_values(|s: String| s@) =~= v@.take(i + 1).map_values(|s: String| s@));
        i = i + 1;
    }
    assert(v@.take(v@.len() as int) =~= v@);
    out
}

fn has_name(table: &Vec<(String, Option<String>)>, name: &str) -> (r: bool)
    ensures
        r == (crate::assoc::first_index(keys_of(table@), name@) is Some),
{
    get_index(table, name).is_some()
}

/// `seen` followed by each of `names` that is not already there, once.
pub open spec fn add_new_names(seen: Seq<Seq<char>>, names: Seq<Seq<char>>) -> Seq<Seq<char>>
    decreases names.len(),
{
    if names.len() == 0 {
        seen
    } else {
        let prev = add_new_names(seen, names.drop_last());
        if prev.contains(names.last()) {
            prev
        } else {
            prev.push(names.last())
        }
    }
}

/// The module names a loaded file requires with a string literal.
pub open spec fn file_require_names(f: SourceFile) -> Seq<Seq<char>> {
    match f.syntax {
        Ok(c) => crate::require_sites::requires_of(&c).static_requires.map_values(
            |r: (Seq<char>, usize, usize)| r.0,
        ),
        Err(_) => Seq::empty(),
    }
}

/// The module names the loaded files require with a string literal, each
/// once, in order of first appearance.
pub open spec fn required_names(files: Seq<SourceFile>) -> Seq<Seq<char>>
    decreases files.len(),
{
    if files.len() == 0 {
        Seq::empty()
    } else {
        add_new_names(required_names(files.drop_last()), file_require_names(files.last()))
    }
}

pub open spec fn table_keys(table: Seq<(Seq<char>, Option<Seq<char>>)>) -> Seq<Seq<char>> {
    table.map_values(|e: (Seq<char>, Option<Seq<char>>)| e.0)
}

/// Resolve every module name that a loaded file requires with a string
/// literal, each name once, in order of first appearance.
pub fn resolve_requires(resolver: &Resolver, files: &Vec<SourceFile>) -> (r: Vec<(String, Option<String>)>)
    ensures
        table_fits(resolver@.root, resolver@.search_path, resolutions_view(r@)),
        table_keys(resolutions_view(r@)) == required_names(files@),
{
    let mut table: Vec<(String, Option<String>)> = Vec::new();
    let n = files.len();
    let mut i: usize = 0;
    assert(table_keys(resolutions_view(table@)) =~= Seq::<Seq<char>>::empty());
    assert(files@.take(0) =~= Seq::<SourceFile>::empty());
    while i < n
        invariant
            n == files@.len(),
            i <= n,
            table_fits(resolver@.root, resolver@.search_path, resolutions_view(table@)),
            table_keys(resolutions_view(table@)) == required_names(files@.take(i as int)),
        decreases n - i,
    {
        assert(files@.take(i + 1).drop_last() =~= files@.take(i as int));
        assert(files@.take(i + 1).last() == files@[i as int]);
        let ghost seen = table_keys(resolutions_view(table@));
        if let Ok(c) = &files[i].syntax {
            let found = crate::require_sites::chunk_requires(c);
            let calls = &found.static_requires;
            let ghost names = file_require_names(files@[i as int]);
            assert(names =~= calls@.map_values(|r: crate::require_sites::RequireCall| r.name@));
            let mut k: usize = 0;
            assert(names.take(0) =~= Seq::<Seq<char>>::empty());
            while k < calls.len()
                invariant
                    k <= calls@.len(),
                    names == calls@.map_values(|r: crate::require_sites::RequireCall| r.name@),
                    table_fits(resolver@.root, resolver@.search_path, resolutions_view(table@)),
                    table_keys(resolutions_view(table@)) == add_new_names(seen, names.take(k as int)),
                decreases calls@.len() - k,
            {
                let name = calls[k].name.as_str();
                assert(names.take(k + 1).drop_last() =~= names.take(k as int));
                assert(names.take(k + 1).last() == name@);
                proof {
                    crate::assoc::lemma_first_index(keys_of(table@), name@);
                    assert(keys_of(table@) =~= table_keys(resolutions_view(table@)));
                }
                if !has_name(&table, name) {
                    let target = resolver.resolve(name);
                    let ghost before = resolutions_view(table@);
                    table.push((owned(name), target));
                    assert(resolutions_view(table@) =~= before.push((name@, opt_str_view(target))));
                    assert(table_keys(resolutions_view(table@)) =~= table_keys(before).push(name@));
                    assert forall|q: int| 0 <= q < resolutions_view(table@).len() implies resolvable(
                        resolver@.root,
                        resolver@.search_path,
                        #[trigger] resolutions_view(table@)[q].0,
                        resolutions_view(table@)[q].1,
                    ) by {
                        if q < before.len() {
                            assert(resolutions_view(table@)[q] == before[q]);
                        }
                    }
                } else {
                    assert(table_keys(resolutions_view(table@)).contains(name@));
                }
                k = k + 1;
            }
            assert(names.take(calls@.len() as int) =~= names);
        }
        i = i + 1;
    }
    assert(files@.take(n as int) =~= files@);
    table
}

/// Run the Lua checks (sequence heuristics, performance heuristics, unknown
/// members on known module shapes, multiple-returns visibility) over a
/// project. Required modules are resolved against the file system under
/// `options.root`; load failures become diagnostics. The diagnostics come
/// sorted by file, line and column.
pub fn check(options: &AnalysisOptions, files: &Vec<SourceFile>) -> (r: Vec<Diagnostic>)
    ensures
        exists|table: Seq<(Seq<char>, Option<Seq<char>>)>|
            table_fits(options.root@, options.search_path@.map_values(|p: String| p@), table) && table_keys(table)
                == required_names(files@) && diags_view(r@) == check_report(files@, table),
{
    let resolver = Resolver::new(options.root.clone(), clone_strings(&options.search_path));
    let table = resolve_requires(&resolver, files);
    check_resolved(files, &table)
}

// ---- the member inspector ----

/// `s` with Windows separators turned into `/`.
pub open spec fn forward_slashes(s: Seq<char>) -> Seq<char> {
    replace_char(s, '\\', "/"@)
}

/// `s` without its leading `/` characters.
pub open spec fn trim_leading_slashes(s: Seq<char>) -> Seq<char>
    decreases s.len(),
{
    if s.len() > 0 && s[0] == '/' {
        trim_leading_slashes(s.drop_first())
    } else {
        s
    }
}

/// The requested file relative to the root, when it lies under it.
pub open spec fn relative_request(root: Seq<char>, file: Seq<char>) -> Seq<char> {
    let requested = forward_slashes(file);
    let root = forward_slashes(root);
    trim_leading_slashes(
        if starts_with(requested, root) {
            requested.skip(root.len() as int)
        } else {
            requested
        },
    )
}

/// Whether a loaded file's path answers the request: the same relative
/// path, the same path as given, or a path the request ends with.
pub open spec fn answers_request(path: Seq<char>, requested: Seq<char>, relative: Seq<char>) -> bool {
    let p = forward_slashes(path);
    ||| p == relative
    ||| p == requested
    ||| ends_with(requested, "/"@ + p)
    ||| ends_with(relative, p)
}

/// The first loaded file that answers the request.
pub open spec fn requested_index(files: Seq<SourceFile>, requested: Seq<char>, relative: Seq<char>) -> Option<int>
    decreases files.len(),
{
    if files.len() == 0 {
        None
    } else if answers_request(files[0].path@, requested, relative) {
        Some(0)
    } else {
        match requested_index(files.drop_first(), requested, relative) {
            Some(i) => Some(i + 1),
            None => None,
        }
    }
}

/// The explanations of the member accesses on `line` of the requested file.
pub open spec fn explain_report(
    files: Seq<SourceFile>,
    table: Seq<(Seq<char>, Option<Seq<char>>)>,
    root: Seq<char>,
    file: Seq<char>,
    line: usize,
) -> Seq<ExplanationView> {
    let ctx = project_context(files, table);
    match requested_index(files, forward_slashes(file), relative_request(root, file)) {
        Some(i) => match files[i].syntax {
            Ok(c) => match vget(ctx.bindings, files[i].path@) {
                Some(b) => explanations_of(&c, files[i].path@, line, ctx, b),
                None => Seq::empty(),
            },
            Err(_) => Seq::empty(),
        },
        None => Seq::empty(),
    }
}

proof fn lemma_requested_index(files: Seq<SourceFile>, requested: Seq<char>, relative: Seq<char>)
    ensures
        match requested_index(files, requested, relative) {
            Some(i) => 0 <= i < files.len() && answers_request(files[i].path@, requested, relative)
                && forall|j: int| 0 <= j < i ==> !answers_request(#[trigger] files[j].path@, requested, relative),
            None => forall|j: int| 0 <= j < files.len() ==> !answers_request(#[trigger] files[j].path@, requested, relative),
        },
    decreases files.len(),
{
    if files.len() > 0 && !answers_request(files[0].path@, requested, relative) {
        let rest = files.drop_first();
        lemma_requested_index(rest, requested, relative);
        assert forall|j: int| 0 < j < files.len() implies files[j] == rest[j - 1] by {}
        match requested_index(rest, requested, relative) {
            Some(k) => {
                assert(requested_index(files, requested, relative) == Some(k + 1));
                assert forall|j: int| 0 <= j < k + 1 implies !answers_request(
                    #[trigger] files[j].path@,
                    requested,
                    relative,
                ) by {
                    if j > 0 {
                        assert(files[j] == rest[j - 1]);
                        assert(!answers_request(rest[j - 1].path@, requested, relative));
                    }
                }
            },
            None => {
                assert(requested_index(files, requested, relative) is None);
                assert forall|j: int| 0 <= j < files.len() implies !answers_request(
                    #[trigger] files[j].path@,
                    requested,
                    relative,
                ) by {
                    if j > 0 {
                        assert(files[j] == rest[j - 1]);
                        assert(!answers_request(rest[j - 1].path@, requested, relative));
                    }
                }
            },
        }
    }
}

proof fn lemma_requested_index_at(files: Seq<SourceFile>, requested: Seq<char>, relative: Seq<char>, i: int)
    requires
        0 <= i < files.len(),
        answers_request(files[i].path@, requested, relative),
        forall|j: int| 0 <= j < i ==> !answers_request(#[trigger] files[j].path@, requested, relative),
    ensures
        requested_index(files, requested, relative) == Some(i),
{
    lemma_requested_index(files, requested, relative);
    match requested_index(files, requested, relative) {
        Some(m) => {
            if m < i {
            } else if m > i {
            }
        },
        None => {},
    }
}

fn trim_leading_slashes_exec(s: &str) -> (r: String)
    ensures
        r@ == trim_leading_slashes(s@),
{
    let n = s.unicode_len();
    let mut i: usize = 0;
    assert(s@.skip(0) =~= s@);
    while i < n && s.get_char(i) == '/'
        invariant
            n == s@.len(),
            i <= n,
            trim_leading_slashes(s@) == trim_leading_slashes(s@.skip(i as int)),
        decreases n - i,
    {
        assert(s@.skip(i as int)[0] == s@[i as int]);
        assert(s@.skip(i as int).drop_first() =~= s@.skip(i + 1));
        i = i + 1;
    }
    proof {
        if i < n {
            assert(s@.skip(i as int)[0] == s@[i as int]);
        }
    }
    suffix_from(s, i)
}

fn answers_request_exec(path: &str, requested: &str, relative: &str) -> (r: bool)
    ensures
        r == answers_request(path@, requested@, relative@),
{
    let p = replace_char_exec(path, '\\', "/");
    if p == owned(relative) || p == owned(requested) {
        return true;
    }
    let slash_p = concat("/", p.as_str());
    ends_with_exec(requested, slash_p.as_str()) || ends_with_exec(relative, p.as_str())
}

/// Explain each known module or instance member access on `line` of
/// `file`. `file` may be relative to `options.root` or a path under that
/// root. Unknown or dynamic links come back as explanations, never as
/// errors; an unknown file gives none.
pub fn explain(options: &AnalysisOptions, files: &Vec<SourceFile>, file: &str, line: usize) -> (r: Vec<LookupExplanation>)
    ensures
        exists|table: Seq<(Seq<char>, Option<Seq<char>>)>|
            table_fits(options.root@, options.search_path@.map_values(|p: String| p@), table) && table_keys(table)
                == required_names(files@) && explanations_view(r@) == explain_report(
                files@,
                table,
                options.root@,
                file@,
                line,
            ),
{
    let resolver = Resolver::new(options.root.clone(), clone_strings(&options.search_path));
    let table = resolve_requires(&resolver, files);
    explain_resolved(files, &table, options.root.as_str(), file, line)
}

/// [`explain`] for a project whose required modules resolve as `table` says.
pub fn explain_resolved(
    files: &Vec<SourceFile>,
    table: &Vec<(String, Option<String>)>,
    root: &str,
    file: &str,
    line: usize,
) -> (r: Vec<LookupExplanation>)
    ensures
        explanations_view(r@) == explain_report(files@, resolutions_view(table@), root@, file@, line),
{
    let shapes = export_shapes(files);
    let all = collect_bindings(files, table, &shapes);
    let context = LookupContext::new(&shapes, &all);
    let requested = replace_char_exec(file, '\\', "/");
    let root_fwd = replace_char_exec(root, '\\', "/");
    let stripped = strip_prefix_or_self(requested.as_str(), root_fwd.as_str());
    let relative = trim_leading_slashes_exec(stripped.as_str());
    assert(relative@ == relative_request(root@, file@));
    let ghost ctx = project_context(files@, resolutions_view(table@));
    assert(context@ == ctx);
    let n = files.len();
    let mut i: usize = 0;
    while i < n
        invariant
            n == files@.len(),
            i <= n,
            context@ == ctx,
            ctx == project_context(files@, resolutions_view(table@)),
            all_bindings_view(all@) == ctx.bindings,
            requested@ == forward_slashes(file@),
            relative@ == relative_request(root@, file@),
            forall|j: int| 0 <= j < i ==> !answers_request(#[trigger] files@[j].path@, requested@, relative@),
        decreases n - i,
    {
        if answers_request_exec(files[i].path.as_str(), requested.as_str(), relative.as_str()) {
            proof {
                lemma_requested_index_at(files@, requested@, relative@, i as int);
            }
            let empty: Vec<LookupExplanation> = Vec::new();
            assert(explanations_view(empty@) =~= Seq::<ExplanationView>::empty());
            return match &files[i].syntax {
                Ok(c) => match bindings_for(&all, files[i].path.as_str()) {
                    Some(b) => explain_file(c, files[i].path.as_str(), line, b, &context),
                    None => empty,
                },
                Err(_) => empty,
            };
        }
        i = i + 1;
    }
    proof {
        lemma_requested_index(files@, requested@, relative@);
    }
    let empty: Vec<LookupExplanation> = Vec::new();
    assert(explanations_view(empty@) =~= Seq::<ExplanationView>::empty());
    empty
}

// ---- the require graph ----

/// The result of analyzing a project.
pub struct AnalysisResult {
    pub graph: ModuleGraph,
    pub diagnostics: Vec<Diagnostic>,
}

pub open spec fn unresolved_message(name: Seq<char>) -> Seq<char> {
    "unresolved require '"@ + name + "'"@
}

/// Edges and unresolved-require diagnostics of one file's static requires.
pub open spec fn static_fold(
    path: Seq<char>,
    table: Seq<(Seq<char>, Option<Seq<char>>)>,
    calls: Seq<(Seq<char>, usize, usize)>,
) -> (Seq<(Seq<char>, Seq<char>)>, Seq<DiagnosticView>)
    decreases calls.len(),
{
    if calls.len() == 0 {
        (Seq::empty(), Seq::empty())
    } else {
        let (e, d) = static_fold(path, table, calls.drop_last());
        let c = calls.last();
        match resolution_of(table, c.0) {
            Some(target) => (e.push((path, target)), d),
            None => (
                e,
                d.push(
                    diag_at(DiagnosticKind::UnresolvedRequire, unresolved_message(c.0), path, c.1, c.2),
                ),
            ),
        }
    }
}

pub open spec fn dynamic_diags(path: Seq<char>, sites: Seq<(usize, usize)>) -> Seq<DiagnosticView> {
    sites.map_values(
        |p: (usize, usize)|
            diag_at(
                DiagnosticKind::DynamicRequire,
                "dynamic require with non-literal argument"@,
                path,
                p.0,
                p.1,
            ),
    )
}

/// The require edges of a project and the diagnostics of its require
/// calls, file by file.
pub open spec fn require_fold(
    files: Seq<SourceFile>,
    table: Seq<(Seq<char>, Option<Seq<char>>)>,
) -> (Seq<(Seq<char>, Seq<char>)>, Seq<DiagnosticView>)
    decreases files.len(),
{
    if files.len() == 0 {
        (Seq::empty(), Seq::empty())
    } else {
        let (e, d) = require_fold(files.drop_last(), table);
        let f = files.last();
        match f.syntax {
            Ok(c) => {
                let found = requires_of(&c);
                let (e2, d2) = static_fold(f.path@, table, found.static_requires);
                (e + e2, d + d2 + dynamic_diags(f.path@, found.dynamic_requires))
            },
            Err(_) => (e, d),
        }
    }
}

/// How many static `require` calls the loaded files hold.
pub open spec fn static_total(files: Seq<SourceFile>) -> nat
    decreases files.len(),
{
    if files.len() == 0 {
        0
    } else {
        static_total(files.drop_last()) + match files.last().syntax {
            Ok(c) => requires_of(&c).static_requires.len(),
            Err(_) => 0,
        }
    }
}

pub open spec fn file_paths(files: Seq<SourceFile>) -> Seq<Seq<char>> {
    files.map_values(|f: SourceFile| f.path@)
}

/// `names` joined by ` -> `.
pub open spec fn arrow_join(names: Seq<Seq<char>>) -> Seq<char>
    decreases names.len(),
{
    if names.len() == 0 {
        Seq::empty()
    } else if names.len() == 1 {
        names[0]
    } else {
        arrow_join(names.drop_last()) + " -> "@ + names.last()
    }
}

/// One diagnostic per cycle, naming its modules and closing the loop.
pub open spec fn cycle_diags(cycles: Seq<Seq<Seq<char>>>) -> Seq<DiagnosticView>
    decreases cycles.len(),
{
    if cycles.len() == 0 {
        Seq::empty()
    } else {
        let c = cycles.last();
        cycle_diags(cycles.drop_last()) + if c.len() > 0 {
            seq![
                crate::diagnostic::diag(
                    DiagnosticKind::CircularDependency,
                    "circular dependency: "@ + arrow_join(c.push(c[0])),
                ),
            ]
        } else {
            Seq::empty()
        }
    }
}

/// The last component of a `/`-separated path.
pub open spec fn base_name(p: Seq<char>) -> Seq<char>
    decreases p.len(),
{
    if p.len() == 0 {
        p
    } else if p.last() == '/' {
        Seq::empty()
    } else {
        base_name(p.drop_last()).push(p.last())
    }
}

/// Files named `main.lua` or `init.lua`, at any depth, are entry points.
pub open spec fn is_entry_name(p: Seq<char>) -> bool {
    base_name(p) == "main.lua"@ || base_name(p) == "init.lua"@
}

/// One diagnostic per unrequired module that is not an entry point.
pub open spec fn unused_diags(entries: Seq<Seq<char>>) -> Seq<DiagnosticView>
    decreases entries.len(),
{
    if entries.len() == 0 {
        Seq::empty()
    } else {
        unused_diags(entries.drop_last()) + if is_entry_name(entries.last()) {
            Seq::empty()
        } else {
            seq![
                diag_in(DiagnosticKind::UnusedModule, "module is never required"@, entries.last()),
            ]
        }
    }
}

/// The diagnostics of an analysis: load failures, require calls, cycles,
/// unused modules.
pub open spec fn analysis_diags(
    files: Seq<SourceFile>,
    table: Seq<(Seq<char>, Option<Seq<char>>)>,
    g: GraphView,
    cycles: Seq<Seq<Seq<char>>>,
) -> Seq<DiagnosticView> {
    load_diags(files) + require_fold(files, table).1 + cycle_diags(cycles) + unused_diags(
        orphans_of(g),
    )
}

/// What an analysis over `table` gives: the graph of the files and their
/// resolved requires, and its diagnostics for some partition of the graph
/// into strongly connected components.
pub open spec fn analysis_fits(
    files: Seq<SourceFile>,
    table: Seq<(Seq<char>, Option<Seq<char>>)>,
    g: GraphView,
    diags: Seq<DiagnosticView>,
) -> bool {
    &&& g == built_graph(file_paths(files), require_fold(files, table).0)
    &&& graph_wf(g)
    &&& exists|comps: Seq<Seq<usize>>|
        scc_partition(g.nodes.len(), g.edges, comps) && diags == analysis_diags(
            files,
            table,
            g,
            sort_lists(cycle_lists(g, comps)),
        )
}

pub open spec fn edge_pairs(v: Seq<(String, String)>) -> Seq<(Seq<char>, Seq<char>)> {
    v.map_values(|e: (String, String)| (e.0@, e.1@))
}

proof fn lemma_static_fold_len(
    path: Seq<char>,
    table: Seq<(Seq<char>, Option<Seq<char>>)>,
    calls: Seq<(Seq<char>, usize, usize)>,
)
    ensures
        static_fold(path, table, calls).0.len() <= calls.len(),
    decreases calls.len(),
{
    if calls.len() > 0 {
        lemma_static_fold_len(path, table, calls.drop_last());
    }
}

/// Edges and require diagnostics of one file.
fn file_require_step(
    path: &String,
    c: &Chunk,
    table: &Vec<(String, Option<String>)>,
    edges: &mut Vec<(String, String)>,
    out: &mut Vec<Diagnostic>,
)
    ensures
        edge_pairs(final(edges)@) == edge_pairs(old(edges)@) + static_fold(
            path@,
            resolutions_view(table@),
            requires_of(c).static_requires,
        ).0,
        diags_view(final(out)@) == diags_view(old(out)@) + static_fold(
            path@,
            resolutions_view(table@),
            requires_of(c).static_requires,
        ).1 + dynamic_diags(path@, requires_of(c).dynamic_requires),
{
    let found = chunk_requires(c);
    let ghost calls = found@.static_requires;
    let ghost tv = resolutions_view(table@);
    let ghost e0 = edge_pairs(edges@);
    let ghost d0 = diags_view(out@);
    let n = found.static_requires.len();
    let mut k: usize = 0;
    assert(calls.take(0) =~= Seq::<(Seq<char>, usize, usize)>::empty());
    assert(edge_pairs(edges@) =~= e0 + Seq::<(Seq<char>, Seq<char>)>::empty());
    assert(diags_view(out@) =~= d0 + Seq::<DiagnosticView>::empty());
    while k < n
        invariant
            n == calls.len(),
            calls == found@.static_requires,
            tv == resolutions_view(table@),
            k <= n,
            edge_pairs(edges@) == e0 + static_fold(path@, tv, calls.take(k as int)).0,
            diags_view(out@) == d0 + static_fold(path@, tv, calls.take(k as int)).1,
        decreases n - k,
    {
        let call = &found.static_requires[k];
        assert(calls.take(k + 1).drop_last() =~= calls.take(k as int));
        assert(calls.take(k + 1).last() == (call.name@, call.line, call.column));
        let ghost ebefore = edge_pairs(edges@);
        let ghost dbefore = diags_view(out@);
        match resolution_exec(table, call.name.as_str()) {
            Some(target) => {
                let ghost tg = target@;
                edges.push((path.clone(), target));
                assert(edge_pairs(edges@) =~= ebefore.push((path@, tg)));
            },
            None => {
                let mut message = concat("unresolved require '", call.name.as_str());
                message.append("'");
                let d = Diagnostic::new(DiagnosticKind::UnresolvedRequire, message.as_str()).at(
                    path.clone(),
                    call.line,
                    call.column,
                );
                out.push(d);
                assert(diags_view(out@) =~= dbefore.push(d@));
            },
        }
        k = k + 1;
    }
    assert(calls.take(n as int) =~= calls);
    let ghost after_static = diags_view(out@);
    let dynamic = &found.dynamic_requires;
    let mut k: usize = 0;
    while k < dynamic.len()
        invariant
            k <= dynamic@.len(),
            *dynamic == found.dynamic_requires,
            diags_view(out@) == after_static + dynamic_diags(path@, dynamic@.take(k as int)),
        decreases dynamic@.len() - k,
    {
        let ghost before = diags_view(out@);
        let (line, column) = dynamic[k];
        let d = Diagnostic::new(
            DiagnosticKind::DynamicRequire,
            "dynamic require with non-literal argument",
        ).at(path.clone(), line, column);
        out.push(d);
        assert(dynamic_diags(path@, dynamic@.take(k + 1)) =~= dynamic_diags(
            path@,
            dynamic@.take(k as int),
        ).push(d@));
        assert(diags_view(out@) =~= before.push(d@));
        k = k + 1;
    }
    assert(dynamic@.take(dynamic@.len() as int) =~= dynamic@);
}

fn is_entry_name_exec(p: &str) -> (r: bool)
    ensures
        r == is_entry_name(p@),
{
    let n = p.unicode_len();
    let mut i: usize = n;
    assert(p@.take(n as int) =~= p@);
    assert(p@.skip(n as int) =~= Seq::<char>::empty());
    // Find where the last component starts.
    while i > 0 && p.get_char(i - 1) != '/'
        invariant
            n == p@.len(),
            i <= n,
            base_name(p@) == base_name(p@.take(i as int)) + p@.skip(i as int),
        decreases i,
    {
        assert(p@.take(i as int).drop_last() =~= p@.take(i - 1));
        assert(p@.take(i as int).last() == p@[i - 1]);
        assert(p@.skip(i - 1) =~= seq![p@[i - 1]] + p@.skip(i as int));
        i = i - 1;
    }
    proof {
        if i > 0 {
            assert(p@.take(i as int).last() == p@[i - 1]);
        }
        assert(base_name(p@.take(i as int)) =~= Seq::<char>::empty());
        assert(base_name(p@) =~= p@.skip(i as int));
    }
    let name = suffix_from(p, i);
    name == owned("main.lua") || name == owned("init.lua")
}

/// The require graph and diagnostics of a project whose required modules
/// resolve as `table` says.
pub fn analyze_resolved(files: &Vec<SourceFile>, table: &Vec<(String, Option<String>)>) -> (r: AnalysisResult)
    requires
        files@.len() < u32::MAX,
        static_total(files@) < u32::MAX,
    ensures
        analysis_fits(files@, resolutions_view(table@), r.graph@, diags_view(r.diagnostics@)),
{
    let ghost tv = resolutions_view(table@);
    let mut diagnostics = load_diagnostics(files);
    let ghost loaded = diags_view(diagnostics@);
    let mut edges: Vec<(String, String)> = Vec::new();
    let n = files.len();
    let mut i: usize = 0;
    assert(files@.take(0) =~= Seq::<SourceFile>::empty());
    assert(edge_pairs(edges@) =~= Seq::<(Seq<char>, Seq<char>)>::empty());
    assert(diags_view(diagnostics@) =~= loaded + Seq::<DiagnosticView>::empty());
    while i < n
        invariant
            n == files@.len(),
            i <= n,
            tv == resolutions_view(table@),
            static_total(files@) < u32::MAX,
            loaded == load_diags(files@),
            edge_pairs(edges@) == require_fold(files@.take(i as int), tv).0,
            diags_view(diagnostics@) == loaded + require_fold(files@.take(i as int), tv).1,
            edges@.len() <= static_total(files@.take(i as int)),
            static_total(files@.take(i as int)) <= static_total(files@),
        decreases n - i,
    {
        assert(files@.take(i + 1).drop_last() =~= files@.take(i as int));
        assert(files@.take(i + 1).last() == files@[i as int]);
        proof {
            lemma_static_total_prefix(files@, i + 1);
        }
        if let Ok(c) = &files[i].syntax {
            proof {
                lemma_static_fold_len(files@[i as int].path@, tv, requires_of(c).static_requires);
            }
            assert(static_total(files@.take(i + 1)) == static_total(files@.take(i as int))
                + requires_of(c).static_requires.len());
            file_require_step(&files[i].path, c, table, &mut edges, &mut diagnostics);
            assert(edges@.len() == edge_pairs(edges@).len());
        }
        i = i + 1;
    }
    assert(files@.take(n as int) =~= files@);
    let mut paths: Vec<String> = Vec::new();
    let mut i: usize = 0;
    while i < n
        invariant
            n == files@.len(),
            i <= n,
            paths@.map_values(|s: String| s@) == file_paths(files@.take(i as int)),
        decreases n - i,
    {
        let ghost before = paths@;
        let p = files[i].path.clone();
        assert(p@ == files@[i as int].path@);
        paths.push(p);
        assert(files@.take(i + 1) =~= files@.take(i as int).push(files@[i as int]));
        assert(file_paths(files@.take(i + 1)) =~= file_paths(files@.take(i as int)).push(
            files@[i as int].path@,
        ));
        assert(paths@.map_values(|s: String| s@) =~= before.map_values(|s: String| s@).push(
            files@[i as int].path@,
        ));
        i = i + 1;
    }
    assert(files@.take(n as int) =~= files@);
    assert(edge_pairs(edges@) == edges@.map_values(|e: (String, String)| (e.0@, e.1@)));
    let graph = ModuleGraph::build(&paths, &edges);
    let ghost g = graph@;
    let ghost after_requires = diags_view(diagnostics@);
    let cycles = graph.cycles();
    let mut k: usize = 0;
    let ghost cv = lists_view(cycles@);
    assert(cv.take(0) =~= Seq::<Seq<Seq<char>>>::empty());
    assert(diags_view(diagnostics@) =~= after_requires + cycle_diags(cv.take(0)));
    while k < cycles.len()
        invariant
            k <= cycles@.len(),
            cv == lists_view(cycles@),
            diags_view(diagnostics@) == after_requires + cycle_diags(cv.take(k as int)),
        decreases cycles@.len() - k,
    {
        let cycle = &cycles[k];
        let ghost before = diags_view(diagnostics@);
        assert(cv.take(k + 1).drop_last() =~= cv.take(k as int));
        assert(cv.take(k + 1).last() == cycle@.map_values(|s: String| s@));
        if cycle.len() > 0 {
            let mut message = concat("circular dependency: ", cycle[0].as_str());
            let ghost names = cycle@.map_values(|s: String| s@);
            let ghost closed = names.push(names[0]);
            let mut q: usize = 1;
            while q < cycle.len()
                invariant
                    1 <= q <= cycle@.len(),
                    names == cycle@.map_values(|s: String| s@),
                    closed == names.push(names[0]),
                    message@ == "circular dependency: "@ + arrow_join(closed.take(q as int)),
                decreases cycle@.len() - q,
            {
                message.append(" -> ");
                message.append(cycle[q].as_str());
                assert(closed.take(q + 1).drop_last() =~= closed.take(q as int));
                assert(closed.take(q + 1).last() == cycle@[q as int]@);
                q = q + 1;
            }
            message.append(" -> ");
            message.append(cycle[0].as_str());
            assert(closed.take(cycle@.len() as int + 1) =~= closed);
            assert(closed.take(cycle@.len() as int + 1).drop_last() =~= closed.take(cycle@.len() as int));
            assert(closed.last() == names[0]);
            assert(message@ =~= "circular dependency: "@ + arrow_join(closed));
            assert(names =~= cv.take(k + 1).last());
            let d = Diagnostic::new(DiagnosticKind::CircularDependency, message.as_str());
            diagnostics.push(d);
            assert(diags_view(diagnostics@) =~= before.push(d@));
        }
        k = k + 1;
        assert(diags_view(diagnostics@) =~= after_requires + cycle_diags(cv.take(k as int)));
    }
    assert(cv.take(cycles@.len() as int) =~= cv);
    let ghost after_cycles = diags_view(diagnostics@);
    let entries = graph.orphans();
    let ghost ev = entries@.map_values(|s: String| s@);
    let mut k: usize = 0;
    assert(ev.take(0) =~= Seq::<Seq<char>>::empty());
    assert(diags_view(diagnostics@) =~= after_cycles + unused_diags(ev.take(0)));
    while k < entries.len()
        invariant
            k <= entries@.len(),
            ev == entries@.map_values(|s: String| s@),
            diags_view(diagnostics@) == after_cycles + unused_diags(ev.take(k as int)),
        decreases entries@.len() - k,
    {
        let ghost before = diags_view(diagnostics@);
        assert(ev.take(k + 1).drop_last() =~= ev.take(k as int));
        assert(ev.take(k + 1).last() == entries@[k as int]@);
        if !is_entry_name_exec(entries[k].as_str()) {
            let d = Diagnostic::new(DiagnosticKind::UnusedModule, "module is never required")
                .in_file(entries[k].clone());
            diagnostics.push(d);
            assert(diags_view(diagnostics@) =~= before.push(d@));
        }
        k = k + 1;
        assert(diags_view(diagnostics@) =~= after_cycles + unused_diags(ev.take(k as int)));
    }
    assert(ev.take(entries@.len() as int) =~= ev);
    proof {
        let comps = choose|comps: Seq<Seq<usize>>|
            scc_partition(g.nodes.len(), g.edges, comps) && lists_view(cycles@) == sort_lists(
                cycle_lists(g, comps),
            );
        assert(diags_view(diagnostics@) == analysis_diags(
            files@,
            tv,
            g,
            sort_lists(cycle_lists(g, comps)),
        ));
    }
    AnalysisResult { graph, diagnostics }
}

proof fn lemma_static_total_prefix(files: Seq<SourceFile>, i: int)
    requires
        0 <= i <= files.len(),
    ensures
        static_total(files.take(i)) <= static_total(files),
    decreases files.len() - i,
{
    if i < files.len() {
        lemma_static_total_prefix(files, i + 1);
        assert(files.take(i + 1).drop_last() =~= files.take(i));
    } else {
        assert(files.take(i) =~= files);
    }
}

/// Analyze a project: extract the `require` calls of the loaded files,
/// resolve them against the file system under `options.root`, and build
/// the module graph with its diagnostics. Load failures, unresolved and
/// dynamic requires, cycles and unused modules all become diagnostics; a
/// file named `main.lua` or `init.lua`, at any depth, is an entry point and
/// never reported unused.
pub fn analyze(options: &AnalysisOptions, files: &Vec<SourceFile>) -> (r: AnalysisResult)
    requires
        files@.len() < u32::MAX,
        static_total(files@) < u32::MAX,
    ensures
        exists|table: Seq<(Seq<char>, Option<Seq<char>>)>|
            table_fits(options.root@, options.search_path@.map_values(|p: String| p@), table) && table_keys(table)
                == required_names(files@) && analysis_fits(
                files@,
                table,
                r.graph@,
                diags_view(r.diagnostics@),
            ),
{
    let resolver = Resolver::new(options.root.clone(), clone_strings(&options.search_path));
    let table = resolve_requires(&resolver, files);
    analyze_resolved(files, &table)
}

// ---- promises of the reports ----

/// The checks report comes sorted by file, line and column, and holds
/// exactly the load failures and the per-file findings.
pub proof fn lemma_check_report_sorted(
    files: Seq<SourceFile>,
    table: Seq<(Seq<char>, Option<Seq<char>>)>,
)
    ensures
        crate::order::diags_sorted(check_report(files, table)),
        check_report(files, table).to_multiset() == (load_diags(files) + all_file_diags(
            files,
            project_context(files, table),
        )).to_multiset(),
{
    crate::order::lemma_sort_diags(
        load_diags(files) + all_file_diags(files, project_context(files, table)),
    );
}

/// Entry points (files named `main.lua` or `init.lua`, at any depth) are
/// never reported unused.
pub proof fn lemma_entry_points_never_unused(entries: Seq<Seq<char>>)
    ensures
        forall|i: int|
            0 <= i < unused_diags(entries).len() ==> (#[trigger] unused_diags(entries)[i]).kind
                == DiagnosticKind::UnusedModule && (unused_diags(entries)[i].file matches Some(f)
                && !is_entry_name(f)),
    decreases entries.len(),
{
    if entries.len() > 0 {
        lemma_entry_points_never_unused(entries.drop_last());
        let front = unused_diags(entries.drop_last());
        assert forall|i: int| 0 <= i < unused_diags(entries).len() implies (#[trigger] unused_diags(
            entries,
        )[i]).kind == DiagnosticKind::UnusedModule && (unused_diags(entries)[i].file matches Some(f)
            && !is_entry_name(f)) by {
            if i < front.len() {
                assert(unused_diags(entries)[i] == front[i]);
            }
        }
    }
}

/// Each file that could not be read or parsed gives exactly one
/// diagnostic, of the matching kind, on that file.
pub proof fn lemma_each_load_failure_reported(files: Seq<SourceFile>)
    ensures
        forall|i: int|
            0 <= i < load_diags(files).len() ==> ((#[trigger] load_diags(files)[i]).kind
                == DiagnosticKind::IoError || load_diags(files)[i].kind == DiagnosticKind::ParseError)
                && load_diags(files)[i].file is Some,
        load_diags(files).len() == failed_count(files),
    decreases files.len(),
{
    if files.len() > 0 {
        lemma_each_load_failure_reported(files.drop_last());
        let front = load_diags(files.drop_last());
        assert forall|i: int| 0 <= i < load_diags(files).len() implies ((#[trigger] load_diags(files)[i]).kind
            == DiagnosticKind::IoError || load_diags(files)[i].kind == DiagnosticKind::ParseError)
            && load_diags(files)[i].file is Some by {
            if i < front.len() {
                assert(load_diags(files)[i] == front[i]);
            }
        }
    }
}

/// How many files have no syntax tree.
pub open spec fn failed_count(files: Seq<SourceFile>) -> nat
    decreases files.len(),
{
    if files.len() == 0 {
        0
    } else {
        failed_count(files.drop_last()) + if files.last().syntax is Err {
            1nat
        } else {
            0nat
        }
    }
}

proof fn lemma_static_fold_covers(
    path: Seq<char>,
    table: Seq<(Seq<char>, Option<Seq<char>>)>,
    calls: Seq<(Seq<char>, usize, usize)>,
    k: int,
)
    requires
        0 <= k < calls.len(),
    ensures
        match resolution_of(table, calls[k].0) {
            Some(t) => static_fold(path, table, calls).0.contains((path, t)),
            None => static_fold(path, table, calls).1.contains(
                diag_at(
                    DiagnosticKind::UnresolvedRequire,
                    unresolved_message(calls[k].0),
                    path,
                    calls[k].1,
                    calls[k].2,
                ),
            ),
        },
    decreases calls.len(),
{
    let (e, d) = static_fold(path, table, calls.drop_last());
    if k < calls.len() - 1 {
        lemma_static_fold_covers(path, table, calls.drop_last(), k);
        assert(calls.drop_last()[k] == calls[k]);
        match resolution_of(table, calls[k].0) {
            Some(t) => {
                let j = choose|j: int| 0 <= j < e.len() && e[j] == (path, t);
                assert(static_fold(path, table, calls).0[j] == e[j]);
            },
            None => {
                let x = diag_at(
                    DiagnosticKind::UnresolvedRequire,
                    unresolved_message(calls[k].0),
                    path,
                    calls[k].1,
                    calls[k].2,
                );
                let j = choose|j: int| 0 <= j < d.len() && d[j] == x;
                assert(static_fold(path, table, calls).1[j] == d[j]);
            },
        }
    } else {
        match resolution_of(table, calls[k].0) {
            Some(t) => {
                assert(static_fold(path, table, calls).0[e.len() as int] == (path, t));
            },
            None => {
                assert(static_fold(path, table, calls).1[d.len() as int] == diag_at(
                    DiagnosticKind::UnresolvedRequire,
                    unresolved_message(calls[k].0),
                    path,
                    calls[k].1,
                    calls[k].2,
                ));
            },
        }
    }
}

proof fn lemma_contains_in_sum<T>(a: Seq<T>, b: Seq<T>, x: T)
    ensures
        a.contains(x) ==> (a + b).contains(x),
        b.contains(x) ==> (a + b).contains(x),
{
    if a.contains(x) {
        let j = choose|j: int| 0 <= j < a.len() && a[j] == x;
        assert((a + b)[j] == x);
    }
    if b.contains(x) {
        let j = choose|j: int| 0 <= j < b.len() && b[j] == x;
        assert((a + b)[a.len() + j] == x);
    }
}

/// What each require call of a loaded file becomes in an analysis: a call
/// whose module resolves is an edge from the file to the resolved file; one
/// that resolves to nothing is reported as unresolved, at the call, naming
/// the module; a call with a computed argument is reported as dynamic.
pub proof fn lemma_requires_become_edges_or_reports(
    files: Seq<SourceFile>,
    table: Seq<(Seq<char>, Option<Seq<char>>)>,
    i: int,
)
    requires
        0 <= i < files.len(),
        files[i].syntax is Ok,
    ensures
        ({
            let found = requires_of(&files[i].syntax->Ok_0);
            let path = files[i].path@;
            &&& forall|k: int|
                0 <= k < found.static_requires.len() ==> match #[trigger] resolution_of(
                    table,
                    found.static_requires[k].0,
                ) {
                    Some(t) => require_fold(files, table).0.contains((path, t)),
                    None => require_fold(files, table).1.contains(
                        diag_at(
                            DiagnosticKind::UnresolvedRequire,
                            unresolved_message(found.static_requires[k].0),
                            path,
                            found.static_requires[k].1,
                            found.static_requires[k].2,
                        ),
                    ),
                }
            &&& forall|k: int|
                0 <= k < found.dynamic_requires.len() ==> require_fold(files, table).1.contains(
                    diag_at(
                        DiagnosticKind::DynamicRequire,
                        "dynamic require with non-literal argument"@,
                        path,
                        #[trigger] found.dynamic_requires[k].0,
                        found.dynamic_requires[k].1,
                    ),
                )
        }),
    decreases files.len(),
{
    let found = requires_of(&files[i].syntax->Ok_0);
    let path = files[i].path@;
    let (e, d) = require_fold(files.drop_last(), table);
    if i < files.len() - 1 {
        lemma_requires_become_edges_or_reports(files.drop_last(), table, i);
        assert(files.drop_last()[i] == files[i]);
        let f = files.last();
        match f.syntax {
            Ok(c) => {
                let fl = requires_of(&c);
                let (e2, d2) = static_fold(f.path@, table, fl.static_requires);
                let dd = dynamic_diags(f.path@, fl.dynamic_requires);
                assert forall|k: int| 0 <= k < found.static_requires.len() implies match #[trigger] resolution_of(
                    table,
                    found.static_requires[k].0,
                ) {
                    Some(t) => require_fold(files, table).0.contains((path, t)),
                    None => require_fold(files, table).1.contains(
                        diag_at(
                            DiagnosticKind::UnresolvedRequire,
                            unresolved_message(found.static_requires[k].0),
                            path,
                            found.static_requires[k].1,
                            found.static_requires[k].2,
                        ),
                    ),
                } by {
                    match resolution_of(table, found.static_requires[k].0) {
                        Some(t) => lemma_contains_in_sum(e, e2, (path, t)),
                        None => {
                            let x = diag_at(
                                DiagnosticKind::UnresolvedRequire,
                                unresolved_message(found.static_requires[k].0),
                                path,
                                found.static_requires[k].1,
                                found.static_requires[k].2,
                            );
                            lemma_contains_in_sum(d, d2, x);
                            lemma_contains_in_sum(d + d2, dd, x);
                        },
                    }
                }
                assert forall|k: int| 0 <= k < found.dynamic_requires.len() implies require_fold(
                    files,
                    table,
                ).1.contains(
                    diag_at(
                        DiagnosticKind::DynamicRequire,
                        "dynamic require with non-literal argument"@,
                        path,
                        #[trigger] found.dynamic_requires[k].0,
                        found.dynamic_requires[k].1,
                    ),
                ) by {
                    let x = diag_at(
                        DiagnosticKind::DynamicRequire,
                        "dynamic require with non-literal argument"@,
                        path,
                        found.dynamic_requires[k].0,
                        found.dynamic_requires[k].1,
                    );
                    lemma_contains_in_sum(d, d2, x);
                    lemma_contains_in_sum(d + d2, dd, x);
                }
            },
            Err(_) => {},
        }
    } else {
        let (e2, d2) = static_fold(path, table, found.static_requires);
        let dd = dynamic_diags(path, found.dynamic_requires);
        assert forall|k: int| 0 <= k < found.static_requires.len() implies match #[trigger] resolution_of(
            table,
            found.static_requires[k].0,
        ) {
            Some(t) => require_fold(files, table).0.contains((path, t)),
            None => require_fold(files, table).1.contains(
                diag_at(
                    DiagnosticKind::UnresolvedRequire,
                    unresolved_message(found.static_requires[k].0),
                    path,
                    found.static_requires[k].1,
                    found.static_requires[k].2,
                ),
            ),
        } by {
            lemma_static_fold_covers(path, table, found.static_requires, k);
            match resolution_of(table, found.static_requires[k].0) {
                Some(t) => lemma_contains_in_sum(e, e2, (path, t)),
                None => {
                    let x = diag_at(
                        DiagnosticKind::UnresolvedRequire,
                        unresolved_message(found.static_requires[k].0),
                        path,
                        found.static_requires[k].1,
                        found.static_requires[k].2,
                    );
                    lemma_contains_in_sum(d, d2, x);
                    lemma_contains_in_sum(d + d2, dd, x);
                },
            }
        }
        assert forall|k: int| 0 <= k < found.dynamic_requires.len() implies require_fold(
            files,
            table,
        ).1.contains(
            diag_at(
                DiagnosticKind::DynamicRequire,
                "dynamic require with non-literal argument"@,
                path,
                #[trigger] found.dynamic_requires[k].0,
                found.dynamic_requires[k].1,
            ),
        ) by {
            let x = diag_at(
                DiagnosticKind::DynamicRequire,
                "dynamic require with non-literal argument"@,
                path,
                found.dynamic_requires[k].0,
                found.dynamic_requires[k].1,
            );
            assert(dd[k] == x);
            lemma_contains_in_sum(d + d2, dd, x);
        }
    }
}

/// The require diagnostics of a project are all among its analysis's
/// diagnostics, whatever the graph's cycles are.
pub proof fn lemma_require_reports_reach_the_analysis(
    files: Seq<SourceFile>,
    table: Seq<(Seq<char>, Option<Seq<char>>)>,
    g: GraphView,
    cycles: Seq<Seq<Seq<char>>>,
    x: DiagnosticView,
)
    requires
        require_fold(files, table).1.contains(x),
    ensures
        analysis_diags(files, table, g, cycles).contains(x),
{
    let l = load_diags(files);
    let r = require_fold(files, table).1;
    lemma_contains_in_sum(l, r, x);
    lemma_contains_in_sum(l + r, cycle_diags(cycles), x);
    lemma_contains_in_sum(l + r + cycle_diags(cycles), unused_diags(orphans_of(g)), x);
}

proof fn lemma_load_diags_cover(files: Seq<SourceFile>, i: int)
    requires
        0 <= i < files.len(),
        files[i].syntax is Err,
    ensures
        load_diags(files).contains(load_failure_diag(files[i].syntax->Err_0, files[i].path@)),
    decreases files.len(),
{
    let x = load_failure_diag(files[i].syntax->Err_0, files[i].path@);
    let front = load_diags(files.drop_last());
    if i < files.len() - 1 {
        lemma_load_diags_cover(files.drop_last(), i);
        assert(files.drop_last()[i] == files[i]);
        let j = choose|j: int| 0 <= j < front.len() && front[j] == x;
        assert(load_diags(files)[j] == x);
    } else {
        assert(load_diags(files)[front.len() as int] == x);
    }
}

/// A check reports every file that could not be read or parsed, with the
/// reader's error (`cannot read file: ...`) or the parser's first error,
/// on that file and at no position.
pub proof fn lemma_check_reports_each_failed_file(
    files: Seq<SourceFile>,
    table: Seq<(Seq<char>, Option<Seq<char>>)>,
    i: int,
)
    requires
        0 <= i < files.len(),
        files[i].syntax is Err,
    ensures
        check_report(files, table).contains(load_failure_diag(files[i].syntax->Err_0, files[i].path@)),
{
    broadcast use vstd::seq_lib::group_to_multiset_ensures;
    let x = load_failure_diag(files[i].syntax->Err_0, files[i].path@);
    lemma_load_diags_cover(files, i);
    let rest = all_file_diags(files, project_context(files, table));
    lemma_contains_in_sum(load_diags(files), rest, x);
    lemma_check_report_sorted(files, table);
    assert((load_diags(files) + rest).to_multiset().count(x) > 0);
    assert(check_report(files, table).to_multiset().count(x) > 0);
}

proof fn lemma_file_diags_in_file(f: SourceFile, ctx: crate::classes::CtxView)
    ensures
        crate::diagnostic::all_in_file(file_diags(f, ctx), f.path@),
{
    if let Ok(c) = f.syntax {
        let p = f.path@;
        let a = sequence_diagnostics(&c, p);
        let b = performance_diagnostics(&c, p);
        crate::sequence::lemma_sequence_diagnostics_in_file(&c, p);
        crate::performance::lemma_performance_diagnostics_in_file(&c, p);
        crate::diagnostic::lemma_all_in_file_add(a, b, p);
        let rest: Seq<DiagnosticView> = match vget(ctx.bindings, p) {
            Some(bd) => member_diagnostics(&c, ctx, bd, p) + return_diagnostics(&c, ctx, bd, p),
            None => Seq::empty(),
        };
        if let Some(bd) = vget(ctx.bindings, p) {
            crate::members::lemma_member_diagnostics_in_file(&c, ctx, bd, p);
            crate::multi_return::lemma_return_diagnostics_in_file(&c, ctx, bd, p);
            crate::diagnostic::lemma_all_in_file_add(
                member_diagnostics(&c, ctx, bd, p),
                return_diagnostics(&c, ctx, bd, p),
                p,
            );
        }
        crate::diagnostic::lemma_all_in_file_add(a + b, rest, p);
        assert(file_diags(f, ctx) == a + b + rest);
    }
}

/// Each per-file finding names a file that loaded.
proof fn lemma_all_file_diags_files(files: Seq<SourceFile>, ctx: crate::classes::CtxView)
    ensures
        forall|i: int|
            #![trigger all_file_diags(files, ctx)[i]]
            0 <= i < all_file_diags(files, ctx).len() ==> exists|j: int|
                0 <= j < files.len() && files[j].syntax is Ok && all_file_diags(files, ctx)[i].file == Some(
                    #[trigger] files[j].path@,
                ),
    decreases files.len(),
{
    if files.len() > 0 {
        let d = files.drop_last();
        lemma_all_file_diags_files(d, ctx);
        lemma_file_diags_in_file(files.last(), ctx);
        let front = all_file_diags(d, ctx);
        let back = file_diags(files.last(), ctx);
        let all = all_file_diags(files, ctx);
        assert forall|i: int| #![trigger all[i]] 0 <= i < all.len() implies exists|j: int|
            0 <= j < files.len() && files[j].syntax is Ok && all[i].file == Some(#[trigger] files[j].path@) by {
            if i < front.len() {
                assert(all[i] == front[i]);
                let j = choose|j: int|
                    0 <= j < d.len() && d[j].syntax is Ok && front[i].file == Some(#[trigger] d[j].path@);
                assert(files[j] == d[j]);
            } else {
                assert(all[i] == back[i - front.len()]);
                assert(files.last().syntax is Ok);
                assert(files[files.len() - 1] == files.last());
            }
        }
    }
}

/// Each load-failure diagnostic is that of a file that did not load.
proof fn lemma_load_diags_files(files: Seq<SourceFile>)
    ensures
        forall|i: int|
            #![trigger load_diags(files)[i]]
            0 <= i < load_diags(files).len() ==> exists|j: int|
                0 <= j < files.len() && files[j].syntax is Err && load_diags(files)[i] == load_failure_diag(
                    files[j].syntax->Err_0,
                    #[trigger] files[j].path@,
                ),
    decreases files.len(),
{
    if files.len() > 0 {
        let d = files.drop_last();
        lemma_load_diags_files(d);
        let front = load_diags(d);
        let all = load_diags(files);
        assert forall|i: int| #![trigger all[i]] 0 <= i < all.len() implies exists|j: int|
            0 <= j < files.len() && files[j].syntax is Err && all[i] == load_failure_diag(
                files[j].syntax->Err_0,
                #[trigger] files[j].path@,
            ) by {
            if i < front.len() {
                assert(all[i] == front[i]);
                let j = choose|j: int|
                    0 <= j < d.len() && d[j].syntax is Err && front[i] == load_failure_diag(
                        d[j].syntax->Err_0,
                        #[trigger] d[j].path@,
                    );
                assert(files[j] == d[j]);
            } else {
                assert(files[files.len() - 1] == files.last());
            }
        }
    }
}

proof fn lemma_load_failure_file(f: LoadFailure, p: Seq<char>)
    ensures
        load_failure_diag(f, p).file == Some(p),
        load_failure_diag(f, p).line is None,
        load_failure_diag(f, p).column is None,
{
}

proof fn lemma_load_diags_count(files: Seq<SourceFile>, k: int)
    requires
        0 <= k < files.len(),
        files[k].syntax is Err,
        file_paths(files).no_duplicates(),
    ensures
        load_diags(files).to_multiset().count(load_failure_diag(files[k].syntax->Err_0, files[k].path@)) == 1,
    decreases files.len(),
{
    broadcast use vstd::seq_lib::group_to_multiset_ensures;
    broadcast use vstd::multiset::group_multiset_axioms;

    let x = load_failure_diag(files[k].syntax->Err_0, files[k].path@);
    let p = files[k].path@;
    let d = files.drop_last();
    let n = files.len() - 1;
    assert(file_paths(d) =~= file_paths(files).drop_last());
    assert(file_paths(files)[k] == p);
    let front = load_diags(d);
    let tail: Seq<DiagnosticView> = match files.last().syntax {
        Err(f) => seq![load_failure_diag(f, files.last().path@)],
        Ok(_) => Seq::empty(),
    };
    assert(load_diags(files) == front + tail);
    vstd::seq_lib::lemma_multiset_commutative(front, tail);
    lemma_load_failure_file(files[k].syntax->Err_0, p);
    if k == n {
        lemma_load_diags_files(d);
        assert(!front.contains(x)) by {
            if front.contains(x) {
                let i = choose|i: int| 0 <= i < front.len() && front[i] == x;
                let j = choose|j: int|
                    0 <= j < d.len() && d[j].syntax is Err && front[i] == load_failure_diag(
                        d[j].syntax->Err_0,
                        #[trigger] d[j].path@,
                    );
                lemma_load_failure_file(d[j].syntax->Err_0, d[j].path@);
                assert(file_paths(files)[j] == d[j].path@);
                assert(files[j] == d[j]);
            }
        }
        assert(tail == seq![x]);
        assert(tail =~= Seq::<DiagnosticView>::empty().push(x));
        assert(Seq::<DiagnosticView>::empty().to_multiset() =~= vstd::multiset::Multiset::empty());
    } else {
        assert(d[k] == files[k]);
        lemma_load_diags_count(d, k);
        match files.last().syntax {
            Err(f) => {
                lemma_load_failure_file(f, files.last().path@);
                assert(file_paths(files)[n] == files.last().path@);
                assert(files.last().path@ != p);
                assert(tail =~= Seq::<DiagnosticView>::empty().push(load_failure_diag(f, files.last().path@)));
                assert(Seq::<DiagnosticView>::empty().to_multiset() =~= vstd::multiset::Multiset::empty());
            },
            Ok(_) => {
                assert(tail.to_multiset() =~= vstd::multiset::Multiset::empty());
            },
        }
    }
}

/// In a project that holds each path once, a file that could not be read or
/// parsed gets exactly one diagnostic in a check: the load failure, on that
/// file and at no position; no other diagnostic of the report names it.
pub proof fn lemma_failed_file_reported_once(
    files: Seq<SourceFile>,
    table: Seq<(Seq<char>, Option<Seq<char>>)>,
    k: int,
)
    requires
        0 <= k < files.len(),
        files[k].syntax is Err,
        file_paths(files).no_duplicates(),
    ensures
        check_report(files, table).to_multiset().count(
            load_failure_diag(files[k].syntax->Err_0, files[k].path@),
        ) == 1,
        forall|i: int|
            0 <= i < check_report(files, table).len() && (#[trigger] check_report(files, table)[i]).file
                == Some(files[k].path@) ==> check_report(files, table)[i] == load_failure_diag(
                files[k].syntax->Err_0,
                files[k].path@,
            ),
        load_failure_diag(files[k].syntax->Err_0, files[k].path@).line is None,
        load_failure_diag(files[k].syntax->Err_0, files[k].path@).column is None,
{
    broadcast use vstd::seq_lib::group_to_multiset_ensures;
    broadcast use vstd::multiset::group_multiset_axioms;

    let p = files[k].path@;
    let x = load_failure_diag(files[k].syntax->Err_0, p);
    let ctx = project_context(files, table);
    let l = load_diags(files);
    let a = all_file_diags(files, ctx);
    let u = l + a;
    let r = check_report(files, table);
    lemma_load_failure_file(files[k].syntax->Err_0, p);
    lemma_check_report_sorted(files, table);
    lemma_load_diags_files(files);
    lemma_all_file_diags_files(files, ctx);
    lemma_load_diags_count(files, k);
    assert(file_paths(files)[k] == p);
    // every diagnostic of the unsorted report that names the file is `x`
    assert forall|i: int| 0 <= i < u.len() && (#[trigger] u[i]).file == Some(p) implies u[i] == x by {
        if i < l.len() {
            assert(u[i] == l[i]);
            let j = choose|j: int|
                0 <= j < files.len() && files[j].syntax is Err && l[i] == load_failure_diag(
                    files[j].syntax->Err_0,
                    #[trigger] files[j].path@,
                );
            lemma_load_failure_file(files[j].syntax->Err_0, files[j].path@);
            assert(file_paths(files)[j] == files[j].path@);
        } else {
            assert(u[i] == a[i - l.len()]);
            let j = choose|j: int|
                0 <= j < files.len() && files[j].syntax is Ok && a[i - l.len()].file == Some(
                    #[trigger] files[j].path@,
                );
            assert(file_paths(files)[j] == files[j].path@);
        }
    }
    assert(!a.contains(x)) by {
        if a.contains(x) {
            let i = choose|i: int| 0 <= i < a.len() && a[i] == x;
            let j = choose|j: int|
                0 <= j < files.len() && files[j].syntax is Ok && a[i].file == Some(#[trigger] files[j].path@);
            assert(file_paths(files)[j] == files[j].path@);
        }
    }
    vstd::seq_lib::lemma_multiset_commutative(l, a);
    assert(u.to_multiset().count(x) == 1);
    assert forall|i: int| 0 <= i < r.len() && (#[trigger] r[i]).file == Some(p) implies r[i] == x by {
        assert(r.to_multiset().count(r[i]) > 0);
        assert(u.to_multiset().count(r[i]) > 0);
        assert(u.contains(r[i]));
        let m = choose|m: int| 0 <= m < u.len() && u[m] == r[i];
        assert(u[m].file == Some(p));
    }
}

/// Every explanation an explain gives is of an access on the asked line,
/// named `receiver.member`; a file the project does not hold gets none.
pub proof fn lemma_explain_stays_on_line(
    files: Seq<SourceFile>,
    table: Seq<(Seq<char>, Option<Seq<char>>)>,
    root: Seq<char>,
    file: Seq<char>,
    line: usize,
)
    ensures
        forall|i: int|
            0 <= i < explain_report(files, table, root, file, line).len() ==> (
            #[trigger] explain_report(files, table, root, file, line)[i]).line == line
                && crate::explain::access_text(explain_report(files, table, root, file, line)[i]),
        requested_index(files, forward_slashes(file), relative_request(root, file)) is None
            ==> explain_report(files, table, root, file, line).len() == 0,
{
    let ctx = project_context(files, table);
    match requested_index(files, forward_slashes(file), relative_request(root, file)) {
        Some(i) => match files[i].syntax {
            Ok(c) => match vget(ctx.bindings, files[i].path@) {
                Some(b) => {
                    crate::explain::lemma_explanations_on_line(
                        crate::syntax::ev_chunk(&c),
                        line,
                        ctx,
                        b,
                        crate::explain::exported_table_name(&c),
                        files[i].path@,
                    );
                },
                None => {},
            },
            Err(_) => {},
        },
        None => {},
    }
}

pub open spec fn unused_diag(p: Seq<char>) -> DiagnosticView {
    diag_in(DiagnosticKind::UnusedModule, "module is never required"@, p)
}

proof fn lemma_unused_diags_members(entries: Seq<Seq<char>>)
    ensures
        forall|j: int|
            0 <= j < entries.len() && !is_entry_name(entries[j]) ==> unused_diags(entries).contains(
                unused_diag(#[trigger] entries[j]),
            ),
        forall|i: int|
            #![trigger unused_diags(entries)[i]]
            0 <= i < unused_diags(entries).len() ==> exists|j: int|
                0 <= j < entries.len() && !is_entry_name(entries[j]) && unused_diags(entries)[i]
                    == unused_diag(#[trigger] entries[j]),
    decreases entries.len(),
{
    if entries.len() > 0 {
        let d = entries.drop_last();
        lemma_unused_diags_members(d);
        let front = unused_diags(d);
        let all = unused_diags(entries);
        assert forall|j: int| 0 <= j < entries.len() && !is_entry_name(entries[j]) implies all.contains(
            unused_diag(#[trigger] entries[j]),
        ) by {
            if j < d.len() {
                assert(d[j] == entries[j]);
                let q = choose|q: int| 0 <= q < front.len() && front[q] == unused_diag(d[j]);
                assert(all[q] == front[q]);
            } else {
                assert(all[front.len() as int] == unused_diag(entries[j]));
            }
        }
        assert forall|i: int| #![trigger all[i]] 0 <= i < all.len() implies exists|j: int|
            0 <= j < entries.len() && !is_entry_name(entries[j]) && all[i] == unused_diag(
                #[trigger] entries[j],
            ) by {
            if i < front.len() {
                assert(all[i] == front[i]);
                let j = choose|j: int|
                    0 <= j < d.len() && !is_entry_name(d[j]) && front[i] == unused_diag(#[trigger] d[j]);
                assert(d[j] == entries[j]);
            } else {
                assert(all[i] == unused_diag(entries[entries.len() - 1]));
            }
        }
    }
}

/// A module is reported unused exactly when no other module requires it
/// and it is not an entry point (a file named `main.lua` or `init.lua`):
/// each such module gets the diagnostic, and every unused-module
/// diagnostic names such a module. A module that requires only itself is
/// reported too.
pub proof fn lemma_unused_exactly_the_unrequired(
    files: Seq<SourceFile>,
    table: Seq<(Seq<char>, Option<Seq<char>>)>,
    g: GraphView,
    cycles: Seq<Seq<Seq<char>>>,
)
    ensures
        forall|k: int|
            0 <= k < g.nodes.len() && !required_by_other(g, k as usize) && !is_entry_name(g.nodes[k])
                ==> analysis_diags(files, table, g, cycles).contains(unused_diag(#[trigger] g.nodes[k])),
        forall|i: int|
            #![trigger unused_diags(orphans_of(g))[i]]
            0 <= i < unused_diags(orphans_of(g)).len() ==> exists|k: int|
                0 <= k < g.nodes.len() && !required_by_other(g, k as usize) && !is_entry_name(g.nodes[k])
                    && unused_diags(orphans_of(g))[i] == unused_diag(#[trigger] g.nodes[k]),
{
    let o = orphans_of(g);
    crate::graph::lemma_orphans_are_unrequired(g);
    lemma_unused_diags_members(o);
    let front = load_diags(files) + require_fold(files, table).1 + cycle_diags(cycles);
    assert forall|k: int|
        0 <= k < g.nodes.len() && !required_by_other(g, k as usize) && !is_entry_name(g.nodes[k]) implies analysis_diags(
        files,
        table,
        g,
        cycles,
    ).contains(unused_diag(#[trigger] g.nodes[k])) by {
        let j = choose|j: int| 0 <= j < o.len() && o[j] == g.nodes[k];
        assert(o[j] == g.nodes[k]);
        assert(unused_diags(o).contains(unused_diag(o[j])));
        lemma_contains_in_sum(front, unused_diags(o), unused_diag(g.nodes[k]));
    }
    assert forall|i: int| #![trigger unused_diags(o)[i]] 0 <= i < unused_diags(o).len() implies exists|k: int|
        0 <= k < g.nodes.len() && !required_by_other(g, k as usize) && !is_entry_name(g.nodes[k])
            && unused_diags(o)[i] == unused_diag(#[trigger] g.nodes[k]) by {
        let j = choose|j: int|
            0 <= j < o.len() && !is_entry_name(o[j]) && unused_diags(o)[i] == unused_diag(#[trigger] o[j]);
        assert(o[j] == o[j]);
        let k = choose|k: int|
            0 <= k < g.nodes.len() && !required_by_other(g, k as usize) && #[trigger] g.nodes[k] == o[j];
        assert(g.nodes[k] == o[j]);
    }
}

/// Whether `p` is the path of a module that no other module requires.
pub open spec fn unrequired_module(g: GraphView, p: Seq<char>) -> bool {
    exists|k: int| 0 <= k < g.nodes.len() && #[trigger] g.nodes[k] == p && !required_by_other(g, k as usize)
}

/// In an analysis of files that name each path once, every module that no
/// other module requires and that is not an entry point gets exactly one
/// unused-module diagnostic, and no other path gets one.
pub proof fn lemma_one_unused_report_per_orphan(
    files: Seq<SourceFile>,
    table: Seq<(Seq<char>, Option<Seq<char>>)>,
    g: GraphView,
    diags: Seq<DiagnosticView>,
    p: Seq<char>,
)
    requires
        analysis_fits(files, table, g, diags),
        file_paths(files).no_duplicates(),
    ensures
        count_unused_on(diags, p) == if unrequired_module(g, p) && !is_entry_name(p) {
            1nat
        } else {
            0nat
        },
{
    let comps = choose|comps: Seq<Seq<usize>>|
        scc_partition(g.nodes.len(), g.edges, comps) && diags == analysis_diags(
            files,
            table,
            g,
            sort_lists(cycle_lists(g, comps)),
        );
    let cycles = sort_lists(cycle_lists(g, comps));
    let o = orphans_of(g);
    crate::graph::lemma_orphans_distinct(g);
    crate::graph::lemma_orphans_are_unrequired(g);
    lemma_unused_count(o, p);
    assert(o.contains(p) <==> unrequired_module(g, p)) by {
        if o.contains(p) {
            let i = choose|i: int| 0 <= i < o.len() && o[i] == p;
            assert(o[i] == p);
        }
        if unrequired_module(g, p) {
            let k = choose|k: int|
                0 <= k < g.nodes.len() && #[trigger] g.nodes[k] == p && !required_by_other(g, k as usize);
            assert(o.contains(g.nodes[k]));
        }
    }
    let l = load_diags(files);
    let r = require_fold(files, table).1;
    let c = cycle_diags(cycles);
    lemma_load_diags_kinds(files);
    lemma_require_fold_kinds(files, table);
    lemma_cycle_diags_kinds(cycles);
    lemma_count_none(l, p);
    assert forall|i: int| 0 <= i < r.len() implies (#[trigger] r[i]).kind != DiagnosticKind::UnusedModule by {}
    lemma_count_none(r, p);
    assert forall|i: int| 0 <= i < c.len() implies (#[trigger] c[i]).kind != DiagnosticKind::UnusedModule by {}
    lemma_count_none(c, p);
    lemma_count_sum(l, r, p);
    lemma_count_sum(l + r, c, p);
    lemma_count_sum(l + r + c, unused_diags(o), p);
}

proof fn lemma_load_diags_kinds(files: Seq<SourceFile>)
    ensures
        forall|i: int|
            0 <= i < load_diags(files).len() ==> (#[trigger] load_diags(files)[i]).kind
                != DiagnosticKind::UnusedModule,
    decreases files.len(),
{
    if files.len() > 0 {
        lemma_load_diags_kinds(files.drop_last());
        let d = load_diags(files.drop_last());
        assert forall|i: int| 0 <= i < load_diags(files).len() implies (#[trigger] load_diags(files)[i]).kind
            != DiagnosticKind::UnusedModule by {
            if i < d.len() {
                assert(load_diags(files)[i] == d[i]);
            }
        }
    }
}

/// Whether `d` is an unused-module diagnostic on `p`.
pub open spec fn unused_on(d: DiagnosticView, p: Seq<char>) -> bool {
    d.kind == DiagnosticKind::UnusedModule && d.file == Some(p)
}

/// How many diagnostics of `s` are unused-module diagnostics on `p`.
pub open spec fn count_unused_on(s: Seq<DiagnosticView>, p: Seq<char>) -> nat
    decreases s.len(),
{
    if s.len() == 0 {
        0
    } else {
        count_unused_on(s.drop_last(), p) + if unused_on(s.last(), p) {
            1nat
        } else {
            0nat
        }
    }
}

proof fn lemma_count_sum(a: Seq<DiagnosticView>, b: Seq<DiagnosticView>, p: Seq<char>)
    ensures
        count_unused_on(a + b, p) == count_unused_on(a, p) + count_unused_on(b, p),
    decreases b.len(),
{
    if b.len() == 0 {
        assert(a + b =~= a);
    } else {
        lemma_count_sum(a, b.drop_last(), p);
        assert((a + b).drop_last() =~= a + b.drop_last());
        assert((a + b).last() == b.last());
    }
}

proof fn lemma_count_none(s: Seq<DiagnosticView>, p: Seq<char>)
    requires
        forall|i: int| 0 <= i < s.len() ==> (#[trigger] s[i]).kind != DiagnosticKind::UnusedModule,
    ensures
        count_unused_on(s, p) == 0,
    decreases s.len(),
{
    if s.len() > 0 {
        assert forall|i: int| 0 <= i < s.drop_last().len() implies (#[trigger] s.drop_last()[i]).kind
            != DiagnosticKind::UnusedModule by {
            assert(s.drop_last()[i] == s[i]);
        }
        lemma_count_none(s.drop_last(), p);
        assert(s.last() == s[s.len() - 1]);
    }
}

proof fn lemma_static_fold_kinds(path: Seq<char>, table: Seq<(Seq<char>, Option<Seq<char>>)>, calls: Seq<(Seq<char>, usize, usize)>)
    ensures
        forall|i: int|
            0 <= i < static_fold(path, table, calls).1.len() ==> (#[trigger] static_fold(path, table, calls).1[i]).kind
                == DiagnosticKind::UnresolvedRequire,
    decreases calls.len(),
{
    if calls.len() > 0 {
        lemma_static_fold_kinds(path, table, calls.drop_last());
        let d = static_fold(path, table, calls.drop_last()).1;
        assert forall|i: int| 0 <= i < static_fold(path, table, calls).1.len() implies (
        #[trigger] static_fold(path, table, calls).1[i]).kind == DiagnosticKind::UnresolvedRequire by {
            if i < d.len() {
                assert(static_fold(path, table, calls).1[i] == d[i]);
            }
        }
    }
}

proof fn lemma_require_fold_kinds(files: Seq<SourceFile>, table: Seq<(Seq<char>, Option<Seq<char>>)>)
    ensures
        forall|i: int|
            0 <= i < require_fold(files, table).1.len() ==> (#[trigger] require_fold(files, table).1[i]).kind
                != DiagnosticKind::UnusedModule,
    decreases files.len(),
{
    if files.len() > 0 {
        lemma_require_fold_kinds(files.drop_last(), table);
        let d = require_fold(files.drop_last(), table).1;
        let f = files.last();
        match f.syntax {
            Ok(c) => {
                let found = requires_of(&c);
                let d2 = static_fold(f.path@, table, found.static_requires).1;
                let dd = dynamic_diags(f.path@, found.dynamic_requires);
                lemma_static_fold_kinds(f.path@, table, found.static_requires);
                let all = require_fold(files, table).1;
                assert(all == d + d2 + dd);
                assert forall|i: int| 0 <= i < all.len() implies (#[trigger] all[i]).kind
                    != DiagnosticKind::UnusedModule by {
                    if i < d.len() {
                        assert(all[i] == d[i]);
                    } else if i < d.len() + d2.len() {
                        assert(all[i] == d2[i - d.len()]);
                    } else {
                        assert(all[i] == dd[i - d.len() - d2.len()]);
                    }
                }
            },
            Err(_) => {},
        }
    }
}

proof fn lemma_cycle_diags_kinds(cycles: Seq<Seq<Seq<char>>>)
    ensures
        forall|i: int|
            0 <= i < cycle_diags(cycles).len() ==> (#[trigger] cycle_diags(cycles)[i]).kind
                == DiagnosticKind::CircularDependency,
    decreases cycles.len(),
{
    if cycles.len() > 0 {
        lemma_cycle_diags_kinds(cycles.drop_last());
        let d = cycle_diags(cycles.drop_last());
        assert forall|i: int| 0 <= i < cycle_diags(cycles).len() implies (#[trigger] cycle_diags(cycles)[i]).kind
            == DiagnosticKind::CircularDependency by {
            if i < d.len() {
                assert(cycle_diags(cycles)[i] == d[i]);
            }
        }
    }
}

proof fn lemma_unused_count(entries: Seq<Seq<char>>, p: Seq<char>)
    requires
        entries.no_duplicates(),
    ensures
        count_unused_on(unused_diags(entries), p) == if entries.contains(p) && !is_entry_name(p) {
            1nat
        } else {
            0nat
        },
    decreases entries.len(),
{
    if entries.len() > 0 {
        let d = entries.drop_last();
        let e = entries.last();
        assert(d.no_duplicates()) by {
            assert forall|i: int, j: int| 0 <= i < d.len() && 0 <= j < d.len() && i != j implies d[i]
                != d[j] by {
                assert(d[i] == entries[i] && d[j] == entries[j]);
            }
        }
        lemma_unused_count(d, p);
        let tail: Seq<DiagnosticView> = if is_entry_name(e) {
            Seq::empty()
        } else {
            seq![unused_diag(e)]
        };
        assert(unused_diags(entries) == unused_diags(d) + tail);
        lemma_count_sum(unused_diags(d), tail, p);
        if tail.len() == 1 {
            assert(tail.drop_last() =~= Seq::<DiagnosticView>::empty());
            assert(count_unused_on(tail.drop_last(), p) == 0);
            assert(tail.last() == unused_diag(e));
            assert(unused_on(unused_diag(e), p) <==> e == p);
            assert(count_unused_on(tail, p) == if e == p { 1nat } else { 0nat });
        } else {
            assert(count_unused_on(tail, p) == 0);
        }
        lemma_contains_split(entries, p);
    }
}

proof fn lemma_contains_split(entries: Seq<Seq<char>>, p: Seq<char>)
    requires
        entries.len() > 0,
        entries.no_duplicates(),
    ensures
        entries.contains(p) <==> (entries.drop_last().contains(p) || entries.last() == p),
        entries.last() == p ==> !entries.drop_last().contains(p),
{
    let d = entries.drop_last();
    if entries.contains(p) {
        let j = choose|j: int| 0 <= j < entries.len() && entries[j] == p;
        if j < d.len() {
            assert(d[j] == p);
        }
    }
    if d.contains(p) {
        let j = choose|j: int| 0 <= j < d.len() && d[j] == p;
        assert(entries[j] == p);
        if entries.last() == p {
            assert(entries[j] == entries[entries.len() - 1]);
        }
    }
    if entries.last() == p {
        assert(entries[entries.len() - 1] == p);
    }
}

} // verus!
