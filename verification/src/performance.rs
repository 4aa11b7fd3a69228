//! Performance and inefficiency heuristics: global lookups, string
//! concatenation and table construction inside loops.
//!
//! A first walk collects the local bindings, loop bodies and function
//! bodies of a file as byte ranges; a second walk reports what runs in a
//! loop of its own function.

use vstd::prelude::*;
use crate::diagnostic::{Diagnostic, DiagnosticKind, DiagnosticView, all_in_file, diag_at, diags_view};
use crate::exports::{ident, ident_exec};
use crate::syntax::{
    BinaryOp, LuaBlock, Chunk, Event, Expr, IndexKind, Param, PrefixExpr, Postfix, Tok, chunk_events, ev_chunk,
};
use crate::text::{concat, owned};

verus! {

/// Library tables whose member lookups are worth caching in a loop.
pub open spec fn is_global_library(name: Seq<char>) -> bool {
    ||| name == "math"@
    ||| name == "string"@
    ||| name == "table"@
    ||| name == "bit"@
    ||| name == "io"@
    ||| name == "os"@
    ||| name == "debug"@
    ||| name == "package"@
    ||| name == "coroutine"@
}

/// Builtin functions whose global lookup is worth caching in a loop.
pub open spec fn is_global_builtin(name: Seq<char>) -> bool {
    ||| name == "pairs"@
    ||| name == "ipairs"@
    ||| name == "type"@
    ||| name == "tostring"@
    ||| name == "tonumber"@
    ||| name == "pcall"@
    ||| name == "xpcall"@
    ||| name == "rawget"@
    ||| name == "rawset"@
    ||| name == "rawequal"@
    ||| name == "setmetatable"@
    ||| name == "getmetatable"@
}

/// What the first walk collects.
pub struct PerfContext {
    /// Local names with the byte range in which they are visible.
    pub bindings: Seq<(Seq<char>, usize, usize)>,
    /// Loop bodies: start byte, end byte, and the function they belong to.
    pub loops: Seq<(usize, usize, usize)>,
    /// Function bodies: id, start byte, end byte.
    pub functions: Seq<(usize, usize, usize)>,
    /// End bytes of the enclosing blocks, innermost last.
    pub block_ends: Seq<usize>,
    /// Ids of the enclosing function bodies, innermost last (0: the chunk).
    pub function_stack: Seq<usize>,
    /// The id the next function body gets.
    pub next_id: usize,
}

pub open spec fn initial_context() -> PerfContext {
    PerfContext {
        bindings: Seq::empty(),
        loops: Seq::empty(),
        functions: Seq::empty(),
        block_ends: Seq::empty(),
        function_stack: seq![0usize],
        next_id: 1,
    }
}

pub open spec fn last_or(s: Seq<usize>, default: usize) -> usize {
    if s.len() > 0 {
        s.last()
    } else {
        default
    }
}

pub open spec fn opt_or(o: Option<usize>, default: usize) -> usize {
    match o {
        Some(v) => v,
        None => default,
    }
}

/// The byte range of a non-empty block.
pub open spec fn block_range(b: &LuaBlock) -> Option<(usize, usize)> {
    match (b.start_byte, b.end_byte) {
        (Some(s), Some(e)) => Some((s, e)),
        _ => None,
    }
}

pub open spec fn add_loop(c: PerfContext, b: &LuaBlock) -> PerfContext {
    match block_range(b) {
        Some((s, e)) => PerfContext {
            loops: c.loops.push((s, e, last_or(c.function_stack, 0))),
            ..c
        },
        None => c,
    }
}

/// Bind each identifier of `toks` over `[from, to]`.
pub open spec fn bind_names(c: PerfContext, toks: Seq<Tok>, from: usize, to: usize) -> PerfContext
    decreases toks.len(),
{
    if toks.len() == 0 {
        c
    } else {
        let c1 = bind_names(c, toks.drop_last(), from, to);
        match ident(toks.last()) {
            Some(n) => PerfContext { bindings: c1.bindings.push((n, from, to)), ..c1 },
            None => c1,
        }
    }
}

/// Bind loop variables over the loop body.
pub open spec fn bind_loop_names(c: PerfContext, toks: Seq<Tok>, b: &LuaBlock) -> PerfContext {
    match block_range(b) {
        Some((s, e)) => bind_names(c, toks, s, e),
        None => c,
    }
}

/// Bind named parameters over `[from, to]`.
pub open spec fn bind_params(c: PerfContext, ps: Seq<Param>, from: usize, to: usize) -> PerfContext
    decreases ps.len(),
{
    if ps.len() == 0 {
        c
    } else {
        let c1 = bind_params(c, ps.drop_last(), from, to);
        match ps.last() {
            Param::Name(t) => match ident(t) {
                Some(n) => PerfContext { bindings: c1.bindings.push((n, from, to)), ..c1 },
                None => c1,
            },
            _ => c1,
        }
    }
}

/// Function ids count function bodies in walk order; the counter cannot
/// reach `usize::MAX` for a chunk held in memory, and stays there if it did.
pub open spec fn bump(n: usize) -> usize {
    if n < usize::MAX {
        (n + 1) as usize
    } else {
        n
    }
}

pub open spec fn context_step(c: PerfContext, e: Event) -> PerfContext {
    match e {
        Event::Block(b) => PerfContext {
            block_ends: c.block_ends.push(opt_or(b.end_byte, usize::MAX)),
            ..c
        },
        Event::BlockEnd(_) => PerfContext {
            block_ends: if c.block_ends.len() > 0 {
                c.block_ends.drop_last()
            } else {
                c.block_ends
            },
            ..c
        },
        Event::LocalAssignEnd(l) => bind_names(
            c,
            l.names@,
            opt_or(l.end_byte, 0),
            last_or(c.block_ends, usize::MAX),
        ),
        Event::LocalFunction(f) => match ident(f.name) {
            Some(n) => PerfContext {
                bindings: c.bindings.push(
                    (n, opt_or(f.start_byte, 0), last_or(c.block_ends, usize::MAX)),
                ),
                ..c
            },
            None => c,
        },
        Event::FuncBody(body) => {
            let id = c.next_id;
            let c1 = PerfContext { next_id: bump(c.next_id), ..c };
            let c2 = match block_range(&body.block) {
                Some((s, e)) => bind_params(
                    PerfContext { functions: c1.functions.push((id, s, e)), ..c1 },
                    body.params@,
                    s,
                    e,
                ),
                None => c1,
            };
            PerfContext { function_stack: c2.function_stack.push(id), ..c2 }
        },
        Event::FuncBodyEnd(_) => PerfContext {
            function_stack: if c.function_stack.len() > 0 {
                c.function_stack.drop_last()
            } else {
                c.function_stack
            },
            ..c
        },
        Event::NumericFor(f) => bind_loop_names(add_loop(c, &f.block), seq![f.var], &f.block),
        Event::GenericFor(f) => bind_loop_names(add_loop(c, &f.block), f.names@, &f.block),
        Event::While(w) => add_loop(c, &w.block),
        Event::Repeat(r) => add_loop(c, &r.block),
        _ => c,
    }
}

pub open spec fn fold_context(evs: Seq<Event>) -> PerfContext
    decreases evs.len(),
{
    if evs.len() == 0 {
        initial_context()
    } else {
        context_step(fold_context(evs.drop_last()), evs.last())
    }
}

pub open spec fn within(byte: usize, start: usize, end: usize) -> bool {
    start <= byte && byte <= end
}

/// Index of the first shortest function range that contains `byte`.
pub open spec fn innermost(fs: Seq<(usize, usize, usize)>, byte: usize) -> Option<int>
    decreases fs.len(),
{
    if fs.len() == 0 {
        None
    } else {
        let r = innermost(fs.drop_last(), byte);
        let last = fs.last();
        if within(byte, last.1, last.2) {
            match r {
                Some(j) => if fs[j].2 - fs[j].1 <= last.2 - last.1 {
                    Some(j)
                } else {
                    Some(fs.len() - 1)
                },
                None => Some(fs.len() - 1),
            }
        } else {
            r
        }
    }
}

/// The id of the innermost function body around `byte` (0: the chunk).
pub open spec fn function_at(fs: Seq<(usize, usize, usize)>, byte: usize) -> usize {
    match innermost(fs, byte) {
        Some(j) => fs[j].0,
        None => 0,
    }
}

/// Whether `byte` lies in a loop body of its own function.
pub open spec fn in_loop(c: PerfContext, byte: usize) -> bool {
    exists|k: int|
        0 <= k < c.loops.len() && #[trigger] c.loops[k].2 == function_at(c.functions, byte)
            && within(byte, c.loops[k].0, c.loops[k].1)
}

/// Whether a local named `name` is visible at `byte`.
pub open spec fn is_local(c: PerfContext, name: Seq<char>, byte: usize) -> bool {
    exists|k: int|
        0 <= k < c.bindings.len() && #[trigger] c.bindings[k].0 == name && within(
            byte,
            c.bindings[k].1,
            c.bindings[k].2,
        )
}

pub open spec fn lookup_message(base: Seq<char>, member: Seq<char>) -> Seq<char> {
    "repeated global lookup `"@ + base + "."@ + member
        + "` in loop; consider caching `local "@ + member + " = "@ + base + "."@ + member
        + "` outside the loop"@
}

pub open spec fn call_message(base: Seq<char>) -> Seq<char> {
    "repeated global call `"@ + base + "()` in loop; consider caching `local "@ + base + " = "@
        + base + "` outside the loop"@
}

pub open spec fn concat_message() -> Seq<char> {
    "string concatenation `..` in loop causes repeated GC allocations; consider using `table.concat`"@
}

pub open spec fn table_message() -> Seq<char> {
    "table constructor `{}` allocated in loop creates GC pressure; consider reusing a table across iterations"@
}

/// A lookup of global `base` (with `.member`, or called) at `tok`.
pub open spec fn global_access_diags(
    c: PerfContext,
    path: Seq<char>,
    base: Seq<char>,
    member: Option<Seq<char>>,
    tok: Tok,
) -> Seq<DiagnosticView> {
    let pos = tok.start;
    if !in_loop(c, pos.byte) || is_local(c, base, pos.byte) {
        Seq::empty()
    } else {
        match member {
            Some(m) => if is_global_library(base) {
                seq![
                    diag_at(
                        DiagnosticKind::GlobalInLoop,
                        lookup_message(base, m),
                        path,
                        pos.line,
                        pos.column,
                    ),
                ]
            } else {
                Seq::empty()
            },
            None => if is_global_builtin(base) {
                seq![
                    diag_at(
                        DiagnosticKind::GlobalInLoop,
                        call_message(base),
                        path,
                        pos.line,
                        pos.column,
                    ),
                ]
            } else {
                Seq::empty()
            },
        }
    }
}

/// What the second walk reports at one event.
pub open spec fn perf_event_diags(c: PerfContext, path: Seq<char>, e: Event) -> Seq<DiagnosticView> {
    match e {
        Event::Call(call) => match call.prefix {
            PrefixExpr::Name(p) => match ident(p) {
                Some(base) => if call.suffixes@.len() > 0 {
                    match call.suffixes@[0] {
                        Postfix::Index(IndexKind::Dot { name }) => match ident(name) {
                            Some(m) => global_access_diags(c, path, base, Some(m), p),
                            None => Seq::empty(),
                        },
                        Postfix::Call(_) => global_access_diags(c, path, base, None, p),
                        _ => Seq::empty(),
                    }
                } else {
                    Seq::empty()
                },
                None => Seq::empty(),
            },
            _ => Seq::empty(),
        },
        Event::Expr(x) => match *x {
            Expr::Binary { op: BinaryOp::TwoDots, op_tok, .. } => if in_loop(c, op_tok.start.byte) {
                seq![
                    diag_at(
                        DiagnosticKind::StringConcatInLoop,
                        concat_message(),
                        path,
                        op_tok.start.line,
                        op_tok.start.column,
                    ),
                ]
            } else {
                Seq::empty()
            },
            _ => Seq::empty(),
        },
        Event::Table(t) => if in_loop(c, t.open.start.byte) {
            seq![
                diag_at(
                    DiagnosticKind::TableAllocationInLoop,
                    table_message(),
                    path,
                    t.open.start.line,
                    t.open.start.column,
                ),
            ]
        } else {
            Seq::empty()
        },
        _ => Seq::empty(),
    }
}

pub open spec fn perf_diags(c: PerfContext, path: Seq<char>, evs: Seq<Event>) -> Seq<DiagnosticView>
    decreases evs.len(),
{
    if evs.len() == 0 {
        Seq::empty()
    } else {
        perf_diags(c, path, evs.drop_last()) + perf_event_diags(c, path, evs.last())
    }
}

/// The performance diagnostics of one file.
pub open spec fn performance_diagnostics(chunk: &Chunk, path: Seq<char>) -> Seq<DiagnosticView> {
    perf_diags(fold_context(ev_chunk(chunk)), path, ev_chunk(chunk))
}

// ---- executable ----

/// The first walk's state.
struct ContextCollector {
    /// (name, visible from, scope end)
    bindings: Vec<(String, usize, usize)>,
    /// (start, end, function id)
    loops: Vec<(usize, usize, usize)>,
    /// (id, start, end)
    functions: Vec<(usize, usize, usize)>,
    block_ends: Vec<usize>,
    function_stack: Vec<usize>,
    next_id: usize,
}

pub open spec fn bindings_view(v: Seq<(String, usize, usize)>) -> Seq<(Seq<char>, usize, usize)> {
    v.map_values(|b: (String, usize, usize)| (b.0@, b.1, b.2))
}

impl View for ContextCollector {
    type V = PerfContext;

    closed spec fn view(&self) -> PerfContext {
        PerfContext {
            bindings: bindings_view(self.bindings@),
            loops: self.loops@,
            functions: self.functions@,
            block_ends: self.block_ends@,
            function_stack: self.function_stack@,
            next_id: self.next_id,
        }
    }
}

fn block_range_exec(b: &LuaBlock) -> (r: Option<(usize, usize)>)
    ensures
        r == block_range(b),
{
    match (b.start_byte, b.end_byte) {
        (Some(s), Some(e)) => Some((s, e)),
        _ => None,
    }
}

fn last_or_exec(v: &Vec<usize>, default: usize) -> (r: usize)
    ensures
        r == last_or(v@, default),
{
    if v.len() > 0 {
        v[v.len() - 1]
    } else {
        default
    }
}

fn opt_or_exec(o: Option<usize>, default: usize) -> (r: usize)
    ensures
        r == opt_or(o, default),
{
    match o {
        Some(v) => v,
        None => default,
    }
}

impl ContextCollector {
    fn new() -> (r: Self)
        ensures
            r@ == initial_context(),
    {
        let mut function_stack = Vec::new();
        function_stack.push(0usize);
        let r = ContextCollector {
            bindings: Vec::new(),
            loops: Vec::new(),
            functions: Vec::new(),
            block_ends: Vec::new(),
            function_stack,
            next_id: 1,
        };
        assert(r@.bindings =~= Seq::<(Seq<char>, usize, usize)>::empty());
        assert(r@.function_stack =~= seq![0usize]);
        r
    }

    fn add_binding(&mut self, name: String, from: usize, to: usize)
        ensures
            final(self)@ == (PerfContext {
                bindings: old(self)@.bindings.push((name@, from, to)),
                ..old(self)@
            }),
    {
        let ghost nv = name@;
        self.bindings.push((name, from, to));
        assert(bindings_view(self.bindings@) =~= bindings_view(old(self).bindings@).push(
            (nv, from, to),
        ));
    }

    fn add_loop(&mut self, b: &LuaBlock)
        ensures
            final(self)@ == add_loop(old(self)@, b),
    {
        if let Some((s, e)) = block_range_exec(b) {
            let f = last_or_exec(&self.function_stack, 0);
            self.loops.push((s, e, f));
        }
    }

    fn bind_names(&mut self, toks: &Vec<Tok>, from: usize, to: usize)
        ensures
            final(self)@ == bind_names(old(self)@, toks@, from, to),
    {
        let n = toks.len();
        let mut i: usize = 0;
        assert(toks@.take(0) =~= Seq::<Tok>::empty());
        while i < n
            invariant
                n == toks@.len(),
                i <= n,
                self@ == bind_names(old(self)@, toks@.take(i as int), from, to),
            decreases n - i,
        {
            assert(toks@.take(i + 1).drop_last() =~= toks@.take(i as int));
            if let Some(name) = ident_exec(&toks[i]) {
                self.add_binding(name, from, to);
            }
            i = i + 1;
        }
        assert(toks@.take(n as int) =~= toks@);
    }

    fn bind_params(&mut self, ps: &Vec<Param>, from: usize, to: usize)
        ensures
            final(self)@ == bind_params(old(self)@, ps@, from, to),
    {
        let n = ps.len();
        let mut i: usize = 0;
        assert(ps@.take(0) =~= Seq::<Param>::empty());
        while i < n
            invariant
                n == ps@.len(),
                i <= n,
                self@ == bind_params(old(self)@, ps@.take(i as int), from, to),
            decreases n - i,
        {
            assert(ps@.take(i + 1).drop_last() =~= ps@.take(i as int));
            if let Param::Name(t) = &ps[i] {
                if let Some(name) = ident_exec(t) {
                    self.add_binding(name, from, to);
                }
            }
            i = i + 1;
        }
        assert(ps@.take(n as int) =~= ps@);
    }

    fn bind_loop_var(&mut self, t: &Tok, b: &LuaBlock)
        ensures
            final(self)@ == bind_loop_names(old(self)@, seq![*t], b),
    {
        if let Some((s, e)) = block_range_exec(b) {
            proof {
                let one = seq![*t];
                assert(one.drop_last() =~= Seq::<Tok>::empty());
                assert(bind_names(self@, one.drop_last(), s, e) == self@);
                assert(one.last() == *t);
            }
            if let Some(name) = ident_exec(t) {
                self.add_binding(name, s, e);
            }
        }
    }

    fn step(&mut self, ev: &Event)
        ensures
            final(self)@ == context_step(old(self)@, *ev),
    {
        match ev {
            Event::Block(b) => {
                self.block_ends.push(opt_or_exec(b.end_byte, usize::MAX));
            },
            Event::BlockEnd(_) => {
                if self.block_ends.len() > 0 {
                    self.block_ends.pop();
                }
            },
            Event::LocalAssignEnd(l) => {
                let from = opt_or_exec(l.end_byte, 0);
                let to = last_or_exec(&self.block_ends, usize::MAX);
                self.bind_names(&l.names, from, to);
            },
            Event::LocalFunction(f) => {
                if let Some(name) = ident_exec(&f.name) {
                    let from = opt_or_exec(f.start_byte, 0);
                    let to = last_or_exec(&self.block_ends, usize::MAX);
                    self.add_binding(name, from, to);
                }
            },
            Event::FuncBody(body) => {
                let id = self.next_id;
                if self.next_id < usize::MAX {
                    self.next_id = self.next_id + 1;
                }
                if let Some((s, e)) = block_range_exec(&body.block) {
                    self.functions.push((id, s, e));
                    self.bind_params(&body.params, s, e);
                }
                self.function_stack.push(id);
            },
            Event::FuncBodyEnd(_) => {
                if self.function_stack.len() > 0 {
                    self.function_stack.pop();
                }
            },
            Event::NumericFor(f) => {
                self.add_loop(&f.block);
                self.bind_loop_var(&f.var, &f.block);
            },
            Event::GenericFor(f) => {
                self.add_loop(&f.block);
                if let Some((s, e)) = block_range_exec(&f.block) {
                    self.bind_names(&f.names, s, e);
                }
            },
            Event::While(w) => self.add_loop(&w.block),
            Event::Repeat(r) => self.add_loop(&r.block),
            _ => {},
        }
    }
}

proof fn lemma_innermost(fs: Seq<(usize, usize, usize)>, byte: usize)
    ensures
        match innermost(fs, byte) {
            Some(j) => 0 <= j < fs.len() && within(byte, fs[j].1, fs[j].2),
            None => true,
        },
    decreases fs.len(),
{
    if fs.len() > 0 {
        lemma_innermost(fs.drop_last(), byte);
    }
}

/// The collected context, read by the second walk.
struct PerformanceChecker {
    bindings: Vec<(String, usize, usize)>,
    loops: Vec<(usize, usize, usize)>,
    functions: Vec<(usize, usize, usize)>,
}

impl View for PerformanceChecker {
    type V = PerfContext;

    closed spec fn view(&self) -> PerfContext {
        PerfContext {
            bindings: bindings_view(self.bindings@),
            loops: self.loops@,
            functions: self.functions@,
            block_ends: Seq::empty(),
            function_stack: Seq::empty(),
            next_id: 0,
        }
    }
}

/// What the checks read of a context: everything but the walk's stacks.
pub open spec fn same_ranges(a: PerfContext, b: PerfContext) -> bool {
    a.bindings == b.bindings && a.loops == b.loops && a.functions == b.functions
}

proof fn lemma_same_ranges_diags(a: PerfContext, b: PerfContext, path: Seq<char>, evs: Seq<Event>)
    requires
        same_ranges(a, b),
    ensures
        perf_diags(a, path, evs) == perf_diags(b, path, evs),
    decreases evs.len(),
{
    if evs.len() > 0 {
        lemma_same_ranges_diags(a, b, path, evs.drop_last());
        assert(function_at(a.functions, 0) == function_at(b.functions, 0));
        assert forall|byte: usize| in_loop(a, byte) == in_loop(b, byte) by {}
        assert forall|n: Seq<char>, byte: usize| is_local(a, n, byte) == is_local(b, n, byte) by {}
        assert(perf_event_diags(a, path, evs.last()) == perf_event_diags(b, path, evs.last()));
    }
}

impl PerformanceChecker {
    fn function_at(&self, byte: usize) -> (r: usize)
        ensures
            r == function_at(self@.functions, byte),
    {
        let fs = &self.functions;
        let n = fs.len();
        let mut best: Option<usize> = None;
        let mut k: usize = 0;
        assert(fs@.take(0) =~= Seq::<(usize, usize, usize)>::empty());
        while k < n
            invariant
                n == fs@.len(),
                k <= n,
                match best {
                    Some(j) => innermost(fs@.take(k as int), byte) == Some(j as int) && j < k,
                    None => innermost(fs@.take(k as int), byte) is None,
                },
            decreases n - k,
        {
            let ghost pre = fs@.take(k as int);
            assert(fs@.take(k + 1).drop_last() =~= pre);
            proof {
                lemma_innermost(pre, byte);
            }
            let f = fs[k];
            if f.1 <= byte && byte <= f.2 {
                match best {
                    Some(j) => {
                        let b = fs[j];
                        assert(pre[j as int] == b);
                        if !(b.2 - b.1 <= f.2 - f.1) {
                            best = Some(k);
                        }
                    },
                    None => {
                        best = Some(k);
                    },
                }
            }
            k = k + 1;
        }
        assert(fs@.take(n as int) =~= fs@);
        match best {
            Some(j) => fs[j].0,
            None => 0,
        }
    }

    fn is_in_loop(&self, byte: usize) -> (r: bool)
        ensures
            r == in_loop(self@, byte),
    {
        let fid = self.function_at(byte);
        let n = self.loops.len();
        let mut k: usize = 0;
        while k < n
            invariant
                n == self.loops@.len(),
                k <= n,
                fid == function_at(self@.functions, byte),
                forall|q: int|
                    0 <= q < k ==> !(#[trigger] self@.loops[q].2 == fid && within(
                        byte,
                        self@.loops[q].0,
                        self@.loops[q].1,
                    )),
            decreases n - k,
        {
            let l = self.loops[k];
            if l.2 == fid && l.0 <= byte && byte <= l.1 {
                assert(self@.loops[k as int] == l);
                return true;
            }
            k = k + 1;
        }
        false
    }

    fn is_local(&self, name: &str, byte: usize) -> (r: bool)
        ensures
            r == is_local(self@, name@, byte),
    {
        let key = owned(name);
        let n = self.bindings.len();
        let mut k: usize = 0;
        while k < n
            invariant
                n == self.bindings@.len(),
                k <= n,
                key@ == name@,
                forall|q: int|
                    0 <= q < k ==> !(#[trigger] self@.bindings[q].0 == name@ && within(
                        byte,
                        self@.bindings[q].1,
                        self@.bindings[q].2,
                    )),
            decreases n - k,
        {
            let b = &self.bindings[k];
            if b.0 == key && b.1 <= byte && byte <= b.2 {
                assert(self@.bindings[k as int] == (b.0@, b.1, b.2));
                assert(self@.bindings[k as int].0 == name@);
                assert(within(byte, self@.bindings[k as int].1, self@.bindings[k as int].2));
                return true;
            }
            assert(self@.bindings[k as int] == (b.0@, b.1, b.2));
            k = k + 1;
        }
        false
    }
}

fn is_global_library_exec(name: &str) -> (r: bool)
    ensures
        r == is_global_library(name@),
{
    let n = owned(name);
    n == owned("math") || n == owned("string") || n == owned("table") || n == owned("bit") || n
        == owned("io") || n == owned("os") || n == owned("debug") || n == owned("package") || n
        == owned("coroutine")
}

fn is_global_builtin_exec(name: &str) -> (r: bool)
    ensures
        r == is_global_builtin(name@),
{
    let n = owned(name);
    n == owned("pairs") || n == owned("ipairs") || n == owned("type") || n == owned("tostring")
        || n == owned("tonumber") || n == owned("pcall") || n == owned("xpcall") || n == owned(
        "rawget",
    ) || n == owned("rawset") || n == owned("rawequal") || n == owned("setmetatable") || n
        == owned("getmetatable")
}

fn push_one(out: &mut Vec<Diagnostic>, d: Diagnostic)
    ensures
        diags_view(final(out)@) == diags_view(old(out)@) + seq![d@],
{
    out.push(d);
    assert(diags_view(out@) =~= diags_view(old(out)@) + seq![d@]);
}

impl PerformanceChecker {
    fn check_global_access(
        &self,
        path: &str,
        base: &String,
        member: Option<&String>,
        tok: &Tok,
        out: &mut Vec<Diagnostic>,
    )
        ensures
            diags_view(final(out)@) == diags_view(old(out)@) + global_access_diags(
                self@,
                path@,
                base@,
                match member {
                    Some(m) => Some(m@),
                    None => None,
                },
                *tok,
            ),
    {
        let pos = tok.start;
        if !self.is_in_loop(pos.byte) || self.is_local(base.as_str(), pos.byte) {
            assert(diags_view(out@) =~= diags_view(old(out)@) + Seq::<DiagnosticView>::empty());
            return;
        }
        match member {
            Some(m) => {
                if is_global_library_exec(base.as_str()) {
                    let mut message = concat("repeated global lookup `", base.as_str());
                    message.append(".");
                    message.append(m.as_str());
                    message.append("` in loop; consider caching `local ");
                    message.append(m.as_str());
                    message.append(" = ");
                    message.append(base.as_str());
                    message.append(".");
                    message.append(m.as_str());
                    message.append("` outside the loop");
                    push_one(
                        out,
                        Diagnostic::new(DiagnosticKind::GlobalInLoop, message.as_str()).at(
                            owned(path),
                            pos.line,
                            pos.column,
                        ),
                    );
                } else {
                    assert(diags_view(out@) =~= diags_view(old(out)@) + Seq::<DiagnosticView>::empty());
                }
            },
            None => {
                if is_global_builtin_exec(base.as_str()) {
                    let mut message = concat("repeated global call `", base.as_str());
                    message.append("()` in loop; consider caching `local ");
                    message.append(base.as_str());
                    message.append(" = ");
                    message.append(base.as_str());
                    message.append("` outside the loop");
                    push_one(
                        out,
                        Diagnostic::new(DiagnosticKind::GlobalInLoop, message.as_str()).at(
                            owned(path),
                            pos.line,
                            pos.column,
                        ),
                    );
                } else {
                    assert(diags_view(out@) =~= diags_view(old(out)@) + Seq::<DiagnosticView>::empty());
                }
            },
        }
    }

    fn check_event(&self, path: &str, ev: &Event, out: &mut Vec<Diagnostic>)
        ensures
            diags_view(final(out)@) == diags_view(old(out)@) + perf_event_diags(self@, path@, *ev),
    {
        proof {
            assert(diags_view(out@) =~= diags_view(out@) + Seq::<DiagnosticView>::empty());
        }
        match ev {
            Event::Call(call) => {
                let p = match &call.prefix {
                    PrefixExpr::Name(p) => p,
                    _ => return,
                };
                let base = match ident_exec(p) {
                    Some(b) => b,
                    None => return,
                };
                if call.suffixes.len() == 0 {
                    return;
                }
                match &call.suffixes[0] {
                    Postfix::Index(IndexKind::Dot { name }) => {
                        if let Some(member) = ident_exec(name) {
                            self.check_global_access(path, &base, Some(&member), p, out);
                        }
                    },
                    Postfix::Call(_) => self.check_global_access(path, &base, None, p, out),
                    _ => {},
                }
            },
            Event::Expr(x) => {
                if let Expr::Binary { op: BinaryOp::TwoDots, op_tok, .. } = x {
                    if self.is_in_loop(op_tok.start.byte) {
                        push_one(
                            out,
                            Diagnostic::new(
                                DiagnosticKind::StringConcatInLoop,
                                "string concatenation `..` in loop causes repeated GC allocations; consider using `table.concat`",
                            ).at(owned(path), op_tok.start.line, op_tok.start.column),
                        );
                    }
                }
            },
            Event::Table(t) => {
                if self.is_in_loop(t.open.start.byte) {
                    push_one(
                        out,
                        Diagnostic::new(
                            DiagnosticKind::TableAllocationInLoop,
                            "table constructor `{}` allocated in loop creates GC pressure; consider reusing a table across iterations",
                        ).at(owned(path), t.open.start.line, t.open.start.column),
                    );
                }
            },
            _ => {},
        }
    }
}

/// Run the performance heuristics over one parsed file.
pub fn check_performance(path: &str, chunk: &Chunk) -> (r: Vec<Diagnostic>)
    ensures
        diags_view(r@) == performance_diagnostics(chunk, path@),
{
    let events = chunk_events(chunk);
    let n = events.len();
    let mut context = ContextCollector::new();
    let mut i: usize = 0;
    assert(events@.take(0) =~= Seq::<Event>::empty());
    while i < n
        invariant
            n == events@.len(),
            i <= n,
            context@ == fold_context(events@.take(i as int)),
        decreases n - i,
    {
        assert(events@.take(i + 1).drop_last() =~= events@.take(i as int));
        context.step(&events[i]);
        i = i + 1;
    }
    assert(events@.take(n as int) =~= events@);
    let ghost full = context@;
    let checker = PerformanceChecker {
        bindings: context.bindings,
        loops: context.loops,
        functions: context.functions,
    };
    assert(same_ranges(checker@, full));
    let mut out: Vec<Diagnostic> = Vec::new();
    let mut i: usize = 0;
    assert(diags_view(out@) =~= Seq::<DiagnosticView>::empty());
    while i < n
        invariant
            n == events@.len(),
            i <= n,
            diags_view(out@) == perf_diags(checker@, path@, events@.take(i as int)),
        decreases n - i,
    {
        assert(events@.take(i + 1).drop_last() =~= events@.take(i as int));
        checker.check_event(path, &events[i], &mut out);
        i = i + 1;
    }
    proof {
        lemma_same_ranges_diags(checker@, full, path@, events@);
    }
    out
}

proof fn lemma_perf_diags_are_suggestions(c: PerfContext, path: Seq<char>, evs: Seq<Event>)
    ensures
        forall|i: int|
            0 <= i < perf_diags(c, path, evs).len() ==> (#[trigger] perf_diags(c, path, evs)[i]).kind.spec_is_suggestion()
                && perf_diags(c, path, evs)[i].file == Some(path),
    decreases evs.len(),
{
    if evs.len() > 0 {
        lemma_perf_diags_are_suggestions(c, path, evs.drop_last());
        let front = perf_diags(c, path, evs.drop_last());
        let back = perf_event_diags(c, path, evs.last());
        assert forall|i: int| 0 <= i < perf_diags(c, path, evs).len() implies (#[trigger] perf_diags(
            c,
            path,
            evs,
        )[i]).kind.spec_is_suggestion() && perf_diags(c, path, evs)[i].file == Some(path) by {
            if i < front.len() {
                assert(perf_diags(c, path, evs)[i] == front[i]);
            } else {
                assert(perf_diags(c, path, evs)[i] == back[i - front.len()]);
            }
        }
    }
}

/// The performance checks only make suggestions (global lookups, string
/// concatenation and table allocation in loops), each on the checked file:
/// they never report a problem.
pub proof fn lemma_performance_only_suggests(chunk: &Chunk, path: Seq<char>)
    ensures
        forall|i: int|
            0 <= i < performance_diagnostics(chunk, path).len() ==> (
            #[trigger] performance_diagnostics(chunk, path)[i]).kind.spec_is_suggestion()
                && performance_diagnostics(chunk, path)[i].file == Some(path),
{
    lemma_perf_diags_are_suggestions(fold_context(ev_chunk(chunk)), path, ev_chunk(chunk));
}


/// Every performance finding names the checked file.
pub proof fn lemma_performance_diagnostics_in_file(chunk: &Chunk, path: Seq<char>)
    ensures
        all_in_file(performance_diagnostics(chunk, path), path),
{
    lemma_performance_only_suggests(chunk, path);
}


/// The function a byte belongs to is the innermost one around it: the
/// range found contains the byte, no range containing it is shorter, and
/// of equally short ones the first is taken; with no range around it the
/// byte belongs to the chunk (id 0).
pub proof fn lemma_innermost_is_shortest(fs: Seq<(usize, usize, usize)>, byte: usize)
    ensures
        match innermost(fs, byte) {
            Some(j) => {
                &&& 0 <= j < fs.len()
                &&& within(byte, fs[j].1, fs[j].2)
                &&& forall|k: int|
                    0 <= k < fs.len() && within(byte, #[trigger] fs[k].1, fs[k].2) ==> fs[j].2 - fs[j].1
                        <= fs[k].2 - fs[k].1
                &&& forall|k: int|
                    0 <= k < j && within(byte, #[trigger] fs[k].1, fs[k].2) ==> fs[j].2 - fs[j].1 < fs[k].2
                        - fs[k].1
                &&& function_at(fs, byte) == fs[j].0
            },
            None => {
                &&& forall|k: int| 0 <= k < fs.len() ==> !within(byte, #[trigger] fs[k].1, fs[k].2)
                &&& function_at(fs, byte) == 0
            },
        },
    decreases fs.len(),
{
    if fs.len() > 0 {
        let d = fs.drop_last();
        lemma_innermost_is_shortest(d, byte);
        assert forall|k: int| 0 <= k < d.len() implies d[k] == fs[k] by {}
    }
}


/// Whether `byte` lies in a loop of the innermost function around it,
/// spelled out over the ranges.
pub open spec fn loop_of_own_function_around(c: PerfContext, byte: usize) -> bool {
    exists|k: int|
        0 <= k < c.loops.len() && c.loops[k].0 <= byte && byte <= c.loops[k].1 && #[trigger] c.loops[k].2
            == function_at(c.functions, byte)
}

/// A table constructor is flagged exactly when its `{` lies in a loop body
/// of the innermost function around it; a `..` likewise.
pub proof fn lemma_allocation_flagged_in_loop(c: PerfContext, path: Seq<char>, t: &crate::syntax::TableExpr, x: &Expr)
    ensures
        perf_event_diags(c, path, Event::Table(t)) == if loop_of_own_function_around(c, t.open.start.byte) {
            seq![
                diag_at(
                    DiagnosticKind::TableAllocationInLoop,
                    table_message(),
                    path,
                    t.open.start.line,
                    t.open.start.column,
                ),
            ]
        } else {
            Seq::<DiagnosticView>::empty()
        },
        x matches Expr::Binary { op: BinaryOp::TwoDots, op_tok, .. } ==> perf_event_diags(
            c,
            path,
            Event::Expr(x),
        ) == if loop_of_own_function_around(c, op_tok.start.byte) {
            seq![
                diag_at(
                    DiagnosticKind::StringConcatInLoop,
                    concat_message(),
                    path,
                    op_tok.start.line,
                    op_tok.start.column,
                ),
            ]
        } else {
            Seq::<DiagnosticView>::empty()
        },
{
    assert(in_loop(c, t.open.start.byte) == loop_of_own_function_around(c, t.open.start.byte));
    if let Expr::Binary { op: BinaryOp::TwoDots, op_tok, .. } = *x {
        assert(in_loop(c, op_tok.start.byte) == loop_of_own_function_around(c, op_tok.start.byte));
    }
}

/// A lookup of a global library table or a call of a global builtin is
/// flagged only inside a loop of its own function, and never when a local
/// of that name is visible there.
pub proof fn lemma_global_flagged_only_in_loop_unshadowed(
    c: PerfContext,
    path: Seq<char>,
    base: Seq<char>,
    member: Option<Seq<char>>,
    tok: Tok,
)
    ensures
        global_access_diags(c, path, base, member, tok).len() > 0 ==> loop_of_own_function_around(
            c,
            tok.start.byte,
        ) && !(exists|k: int|
            0 <= k < c.bindings.len() && #[trigger] c.bindings[k].0 == base && c.bindings[k].1 <= tok.start.byte
                && tok.start.byte <= c.bindings[k].2),
        loop_of_own_function_around(c, tok.start.byte) && !(exists|k: int|
            0 <= k < c.bindings.len() && #[trigger] c.bindings[k].0 == base && c.bindings[k].1 <= tok.start.byte
                && tok.start.byte <= c.bindings[k].2) ==> global_access_diags(c, path, base, member, tok).len()
            == match member {
            Some(_) => if is_global_library(base) {
                1int
            } else {
                0int
            },
            None => if is_global_builtin(base) {
                1int
            } else {
                0int
            },
        },
{
    assert(in_loop(c, tok.start.byte) == loop_of_own_function_around(c, tok.start.byte));
}

} // verus!
