//! Multiple-value visibility: when a function's return arity is known —
//! a same-file definition, or a module member function resolved through
//! require bindings — report call sites that silently discard values or
//! bind more variables than the function yields.
//!
//! Conservative by design: unknown arity never produces a diagnostic.

use vstd::prelude::*;
use crate::arity::{return_arity, return_arity_exec};
use crate::assoc::{keys_of, vget, vput};
use crate::classes::{CtxView, LookupContext, resolve_spec};
use crate::diagnostic::{Diagnostic, DiagnosticKind, DiagnosticView, all_in_file, diag_at, diags_view};
use crate::exports::{ident, ident_exec, min};
use crate::members::{binding_target, binding_target_exec};
use crate::shapes::{Bindings, BindingsView, Member, get_index};
use crate::syntax::{CallKind, Chunk, Event, Expr, CallExpr, IndexKind, PrefixExpr, Postfix, Tok, Place, chunk_events, ev_chunk};
use crate::text::{concat, decimal, owned, usize_text};

verus! {

// ---- pass 1: same-file function definitions ----

pub open spec fn def_local_pairs(names: Seq<Tok>, exprs: Seq<Expr>, k: int, d: Seq<(Seq<char>, nat)>) -> Seq<(Seq<char>, nat)>
    decreases k,
{
    if k <= 0 {
        d
    } else {
        let d1 = def_local_pairs(names, exprs, k - 1, d);
        match exprs[k - 1] {
            Expr::Function(body) => match (ident(names[k - 1]), return_arity(&body)) {
                (Some(n), Some(a)) => vput(d1, n, a),
                _ => d1,
            },
            _ => d1,
        }
    }
}

pub open spec fn def_assign_pairs(vars: Seq<Place>, exprs: Seq<Expr>, k: int, d: Seq<(Seq<char>, nat)>) -> Seq<(Seq<char>, nat)>
    decreases k,
{
    if k <= 0 {
        d
    } else {
        let d1 = def_assign_pairs(vars, exprs, k - 1, d);
        match (vars[k - 1], exprs[k - 1]) {
            (Place::Name(t), Expr::Function(body)) => match (ident(t), return_arity(&body)) {
                (Some(n), Some(a)) => vput(d1, n, a),
                _ => d1,
            },
            _ => d1,
        }
    }
}

/// Definitions with known arity: `local function f`, plain
/// `function f`, `local f = function`, `f = function`.
pub open spec fn def_step(d: Seq<(Seq<char>, nat)>, e: Event) -> Seq<(Seq<char>, nat)> {
    match e {
        Event::LocalFunction(f) => match (ident(f.name), return_arity(&f.body)) {
            (Some(n), Some(a)) => vput(d, n, a),
            _ => d,
        },
        Event::FuncDecl(f) => if f.name.method is None && f.name.names@.len() == 1 {
            match (ident(f.name.names@[0]), return_arity(&f.body)) {
                (Some(n), Some(a)) => vput(d, n, a),
                _ => d,
            }
        } else {
            d
        },
        Event::LocalAssign(l) => def_local_pairs(
            l.names@,
            l.exprs@,
            min(l.names@.len() as int, l.exprs@.len() as int),
            d,
        ),
        Event::Assign(a) => def_assign_pairs(
            a.vars@,
            a.exprs@,
            min(a.vars@.len() as int, a.exprs@.len() as int),
            d,
        ),
        _ => d,
    }
}

pub open spec fn fold_defs(evs: Seq<Event>) -> Seq<(Seq<char>, nat)>
    decreases evs.len(),
{
    if evs.len() == 0 {
        Seq::empty()
    } else {
        def_step(fold_defs(evs.drop_last()), evs.last())
    }
}

// ---- pass 2: call sites in binding position ----

/// `count word`, pluralized.
pub open spec fn plural(count: nat, word: Seq<char>) -> Seq<char> {
    if count == 1 {
        decimal(count) + " "@ + word
    } else {
        decimal(count) + " "@ + word + "s"@
    }
}

/// A call's display name, known return arity, and the position of its
/// name: same-file definitions for `f(...)`, module members for
/// `m.f(...)` and `m:f(...)`.
pub open spec fn resolve_callee(
    c: CallExpr,
    defs: Seq<(Seq<char>, nat)>,
    ctx: CtxView,
    b: BindingsView,
) -> Option<(Seq<char>, nat, usize, usize)> {
    match c.prefix {
        PrefixExpr::Name(p) => match ident(p) {
            Some(name) => if c.suffixes@.len() > 0 {
                match c.suffixes@[0] {
                    Postfix::Call(CallKind::Anonymous(_)) => match vget(defs, name) {
                        Some(a) => Some((name, a, p.start.line, p.start.column)),
                        None => None,
                    },
                    Postfix::Index(IndexKind::Dot { name: m }) => if c.suffixes@.len() > 1
                        && c.suffixes@[1] is Call && match c.suffixes@[1] {
                        Postfix::Call(CallKind::Anonymous(_)) => true,
                        _ => false,
                    } {
                        match ident(m) {
                            Some(member) => match binding_target(b, name) {
                                Some((t, _)) => match resolve_spec(ctx, t, member).member {
                                    Some(Member::Function { arity, .. }) => Some(
                                        (name + "."@ + member, arity as nat, p.start.line, p.start.column),
                                    ),
                                    _ => None,
                                },
                                None => None,
                            },
                            None => None,
                        }
                    } else {
                        None
                    },
                    Postfix::Call(CallKind::Method { name: m, .. }) => match ident(m) {
                        Some(member) => match binding_target(b, name) {
                            Some((t, _)) => match resolve_spec(ctx, t, member).member {
                                Some(Member::Function { arity, .. }) => Some(
                                    (name + ":"@ + member, arity as nat, p.start.line, p.start.column),
                                ),
                                _ => None,
                            },
                            None => None,
                        },
                        None => None,
                    },
                    _ => None,
                }
            } else {
                None
            },
            None => None,
        },
        _ => None,
    }
}

pub open spec fn arity_message(name: Seq<char>, ret_count: nat, bound: nat) -> Seq<char> {
    if ret_count > bound {
        "`"@ + name + "()` re"@ + "turns "@ + plural(ret_count, "value"@) + "; "@ + decimal(bound)
            + " bound, "@ + decimal((ret_count - bound) as nat) + " discarded"@
    } else {
        "`"@ + name + "()` re"@ + "turns "@ + plural(ret_count, "value"@) + "; "@ + decimal(bound)
            + " bound, "@ + plural((bound - ret_count) as nat, "variable"@) + " will be nil"@
    }
}

/// A call in tail position fills all remaining binding slots; a non-tail
/// call is truncated to one value.
pub open spec fn bound_for(names: nat, len: nat, k: int) -> nat {
    if k == len - 1 {
        if names >= len - 1 {
            (names - (len - 1)) as nat
        } else {
            0
        }
    } else {
        1
    }
}

pub open spec fn site_pairs(
    names: nat,
    exprs: Seq<Expr>,
    k: int,
    ds: Seq<DiagnosticView>,
    defs: Seq<(Seq<char>, nat)>,
    ctx: CtxView,
    b: BindingsView,
    path: Seq<char>,
) -> Seq<DiagnosticView>
    decreases k,
{
    if k <= 0 {
        ds
    } else {
        let ds1 = site_pairs(names, exprs, k - 1, ds, defs, ctx, b, path);
        match exprs[k - 1] {
            Expr::Call(c) => match resolve_callee(c, defs, ctx, b) {
                Some((name, ret_count, line, column)) => {
                    let bound = bound_for(names, exprs.len(), k - 1);
                    if ret_count == bound {
                        ds1
                    } else {
                        ds1.push(
                            diag_at(
                                DiagnosticKind::MultiReturnInfo,
                                arity_message(name, ret_count, bound),
                                path,
                                line,
                                column,
                            ),
                        )
                    }
                },
                None => ds1,
            },
            _ => ds1,
        }
    }
}

pub open spec fn site_step(
    ds: Seq<DiagnosticView>,
    e: Event,
    defs: Seq<(Seq<char>, nat)>,
    ctx: CtxView,
    b: BindingsView,
    path: Seq<char>,
) -> Seq<DiagnosticView> {
    match e {
        Event::LocalAssign(l) => site_pairs(
            l.names@.len(),
            l.exprs@,
            l.exprs@.len() as int,
            ds,
            defs,
            ctx,
            b,
            path,
        ),
        Event::Assign(a) => site_pairs(
            a.vars@.len(),
            a.exprs@,
            a.exprs@.len() as int,
            ds,
            defs,
            ctx,
            b,
            path,
        ),
        _ => ds,
    }
}

pub open spec fn fold_sites(
    evs: Seq<Event>,
    defs: Seq<(Seq<char>, nat)>,
    ctx: CtxView,
    b: BindingsView,
    path: Seq<char>,
) -> Seq<DiagnosticView>
    decreases evs.len(),
{
    if evs.len() == 0 {
        Seq::empty()
    } else {
        site_step(fold_sites(evs.drop_last(), defs, ctx, b, path), evs.last(), defs, ctx, b, path)
    }
}

/// Multiple-ret_count diagnostics of one file, in walk order.
pub open spec fn return_diagnostics(
    c: &Chunk,
    ctx: CtxView,
    b: BindingsView,
    path: Seq<char>,
) -> Seq<DiagnosticView> {
    fold_sites(ev_chunk(c), fold_defs(ev_chunk(c)), ctx, b, path)
}

// ---- executable ----

pub open spec fn defs_view(v: Seq<(String, usize)>) -> Seq<(Seq<char>, nat)> {
    v.map_values(|e: (String, usize)| (e.0@, e.1 as nat))
}

fn put_def(v: &mut Vec<(String, usize)>, k: String, a: usize)
    ensures
        defs_view(final(v)@) == vput(defs_view(old(v)@), k@, a as nat),
{
    proof {
        assert(defs_view(v@).map_values(|e: (Seq<char>, nat)| e.0) =~= keys_of(v@));
    }
    let ghost kv = k@;
    match get_index(v, k.as_str()) {
        Some(i) => {
            v.set(i, (k, a));
            assert(defs_view(v@) =~= defs_view(old(v)@).update(i as int, (kv, a as nat)));
        },
        None => {
            v.push((k, a));
            assert(defs_view(v@) =~= defs_view(old(v)@).push((kv, a as nat)));
        },
    }
}

fn def_step_exec(d: &mut Vec<(String, usize)>, e: &Event)
    ensures
        defs_view(final(d)@) == def_step(defs_view(old(d)@), *e),
{
    match e {
        Event::LocalFunction(f) => {
            if let Some(n) = ident_exec(&f.name) {
                if let Some(a) = return_arity_exec(&f.body) {
                    put_def(d, n, a);
                }
            }
        },
        Event::FuncDecl(f) => {
            if f.name.method.is_none() && f.name.names.len() == 1 {
                if let Some(n) = ident_exec(&f.name.names[0]) {
                    if let Some(a) = return_arity_exec(&f.body) {
                        put_def(d, n, a);
                    }
                }
            }
        },
        Event::LocalAssign(l) => {
            let m = if l.names.len() < l.exprs.len() {
                l.names.len()
            } else {
                l.exprs.len()
            };
            let ghost d0 = defs_view(d@);
            let mut k: usize = 0;
            while k < m
                invariant
                    m == min(l.names@.len() as int, l.exprs@.len() as int),
                    m <= l.names@.len(),
                    m <= l.exprs@.len(),
                    k <= m,
                    defs_view(d@) == def_local_pairs(l.names@, l.exprs@, k as int, d0),
                decreases m - k,
            {
                if let Expr::Function(body) = &l.exprs[k] {
                    if let Some(n) = ident_exec(&l.names[k]) {
                        if let Some(a) = return_arity_exec(body) {
                            put_def(d, n, a);
                        }
                    }
                }
                k = k + 1;
            }
        },
        Event::Assign(asg) => {
            let m = if asg.vars.len() < asg.exprs.len() {
                asg.vars.len()
            } else {
                asg.exprs.len()
            };
            let ghost d0 = defs_view(d@);
            let mut k: usize = 0;
            while k < m
                invariant
                    m == min(asg.vars@.len() as int, asg.exprs@.len() as int),
                    m <= asg.vars@.len(),
                    m <= asg.exprs@.len(),
                    k <= m,
                    defs_view(d@) == def_assign_pairs(asg.vars@, asg.exprs@, k as int, d0),
                decreases m - k,
            {
                if let (Place::Name(t), Expr::Function(body)) = (&asg.vars[k], &asg.exprs[k]) {
                    if let Some(n) = ident_exec(t) {
                        if let Some(a) = return_arity_exec(body) {
                            put_def(d, n, a);
                        }
                    }
                }
                k = k + 1;
            }
        },
        _ => {},
    }
}

/// `count word`, pluralized.
pub fn plural_exec(count: usize, word: &str) -> (r: String)
    ensures
        r@ == plural(count as nat, word@),
{
    let mut r = usize_text(count);
    r.append(" ");
    r.append(word);
    if count != 1 {
        r.append("s");
    }
    r
}

fn resolve_callee_exec(
    c: &CallExpr,
    defs: &Vec<(String, usize)>,
    context: &LookupContext,
    b: &Bindings,
) -> (r: Option<(String, usize, usize, usize)>)
    ensures
        match r {
            Some((n, a, l, col)) => resolve_callee(*c, defs_view(defs@), context@, b@) == Some(
                (n@, a as nat, l, col),
            ),
            None => resolve_callee(*c, defs_view(defs@), context@, b@) is None,
        },
{
    let p = match &c.prefix {
        PrefixExpr::Name(p) => p,
        _ => return None,
    };
    let name = match ident_exec(p) {
        Some(n) => n,
        None => return None,
    };
    if c.suffixes.len() == 0 {
        return None;
    }
    let (line, column) = (p.start.line, p.start.column);
    match &c.suffixes[0] {
        Postfix::Call(CallKind::Anonymous(_)) => {
            proof {
                assert(defs_view(defs@).map_values(|e: (Seq<char>, nat)| e.0) =~= keys_of(defs@));
            }
            match get_index(defs, name.as_str()) {
                Some(i) => Some((name, defs[i].1, line, column)),
                None => None,
            }
        },
        Postfix::Index(IndexKind::Dot { name: m }) => {
            if c.suffixes.len() < 2 {
                return None;
            }
            match &c.suffixes[1] {
                Postfix::Call(CallKind::Anonymous(_)) => {},
                _ => return None,
            }
            let member = match ident_exec(m) {
                Some(member) => member,
                None => return None,
            };
            let target = match binding_target_exec(b, name.as_str()) {
                Some((t, _)) => t,
                None => return None,
            };
            match context.resolve(target, member.as_str()).member {
                Some(Member::Function { arity, .. }) => {
                    let mut display = concat(name.as_str(), ".");
                    display.append(member.as_str());
                    Some((display, arity, line, column))
                },
                _ => None,
            }
        },
        Postfix::Call(CallKind::Method { name: m, .. }) => {
            let member = match ident_exec(m) {
                Some(member) => member,
                None => return None,
            };
            let target = match binding_target_exec(b, name.as_str()) {
                Some((t, _)) => t,
                None => return None,
            };
            match context.resolve(target, member.as_str()).member {
                Some(Member::Function { arity, .. }) => {
                    let mut display = concat(name.as_str(), ":");
                    display.append(member.as_str());
                    Some((display, arity, line, column))
                },
                _ => None,
            }
        },
        _ => None,
    }
}

fn arity_message_exec(name: &str, ret_count: usize, bound: usize) -> (r: String)
    requires
        ret_count != bound,
    ensures
        r@ == arity_message(name@, ret_count as nat, bound as nat),
{
    let mut r = concat("`", name);
    r.append("()` re");
    r.append("turns ");
    r.append(plural_exec(ret_count, "value").as_str());
    r.append("; ");
    r.append(usize_text(bound).as_str());
    r.append(" bound, ");
    if ret_count > bound {
        r.append(usize_text(ret_count - bound).as_str());
        r.append(" discarded");
    } else {
        r.append(plural_exec(bound - ret_count, "variable").as_str());
        r.append(" will be nil");
    }
    r
}

fn site_pairs_exec(
    out: &mut Vec<Diagnostic>,
    names: usize,
    exprs: &Vec<Expr>,
    defs: &Vec<(String, usize)>,
    context: &LookupContext,
    b: &Bindings,
    path: &str,
)
    ensures
        diags_view(final(out)@) == site_pairs(
            names as nat,
            exprs@,
            exprs@.len() as int,
            diags_view(old(out)@),
            defs_view(defs@),
            context@,
            b@,
            path@,
        ),
{
    let len = exprs.len();
    let ghost d0 = diags_view(out@);
    let mut k: usize = 0;
    while k < len
        invariant
            len == exprs@.len(),
            k <= len,
            diags_view(out@) == site_pairs(
                names as nat,
                exprs@,
                k as int,
                d0,
                defs_view(defs@),
                context@,
                b@,
                path@,
            ),
        decreases len - k,
    {
        if let Expr::Call(c) = &exprs[k] {
            if let Some((name, ret_count, line, column)) = resolve_callee_exec(c, defs, context, b) {
                let bound: usize = if k == len - 1 {
                    if names >= len - 1 {
                        names - (len - 1)
                    } else {
                        0
                    }
                } else {
                    1
                };
                assert(bound as nat == bound_for(names as nat, exprs@.len(), k as int));
                if ret_count != bound {
                    let message = arity_message_exec(name.as_str(), ret_count, bound);
                    let d = Diagnostic::new(DiagnosticKind::MultiReturnInfo, message.as_str()).at(
                        owned(path),
                        line,
                        column,
                    );
                    let ghost before = out@;
                    out.push(d);
                    assert(diags_view(out@) =~= diags_view(before).push(d@));
                }
            }
        }
        k = k + 1;
    }
}

/// Report call sites that discard values or leave variables nil.
pub fn check_returns(
    path: &str,
    chunk: &Chunk,
    bindings: &Bindings,
    context: &LookupContext,
) -> (r: Vec<Diagnostic>)
    ensures
        diags_view(r@) == return_diagnostics(chunk, context@, bindings@, path@),
{
    let events = chunk_events(chunk);
    let n = events.len();
    let mut defs: Vec<(String, usize)> = Vec::new();
    let mut i: usize = 0;
    assert(events@.take(0) =~= Seq::<Event>::empty());
    assert(defs_view(defs@) =~= Seq::<(Seq<char>, nat)>::empty());
    while i < n
        invariant
            n == events@.len(),
            i <= n,
            defs_view(defs@) == fold_defs(events@.take(i as int)),
        decreases n - i,
    {
        assert(events@.take(i + 1).drop_last() =~= events@.take(i as int));
        def_step_exec(&mut defs, &events[i]);
        i = i + 1;
    }
    assert(events@.take(n as int) =~= events@);
    let mut out: Vec<Diagnostic> = Vec::new();
    let mut i: usize = 0;
    assert(diags_view(out@) =~= Seq::<DiagnosticView>::empty());
    while i < n
        invariant
            n == events@.len(),
            i <= n,
            events@ == ev_chunk(chunk),
            defs_view(defs@) == fold_defs(ev_chunk(chunk)),
            diags_view(out@) == fold_sites(
                events@.take(i as int),
                defs_view(defs@),
                context@,
                bindings@,
                path@,
            ),
        decreases n - i,
    {
        assert(events@.take(i + 1).drop_last() =~= events@.take(i as int));
        match &events[i] {
            Event::LocalAssign(l) => site_pairs_exec(&mut out, l.names.len(), &l.exprs, &defs, context, bindings, path),
            Event::Assign(a) => site_pairs_exec(&mut out, a.vars.len(), &a.exprs, &defs, context, bindings, path),
            _ => {},
        }
        i = i + 1;
    }
    assert(events@.take(n as int) =~= events@);
    out
}


proof fn lemma_site_pairs_in_file(
    names: nat,
    exprs: Seq<Expr>,
    k: int,
    ds: Seq<DiagnosticView>,
    defs: Seq<(Seq<char>, nat)>,
    ctx: CtxView,
    b: BindingsView,
    path: Seq<char>,
)
    requires
        all_in_file(ds, path),
    ensures
        all_in_file(site_pairs(names, exprs, k, ds, defs, ctx, b, path), path),
    decreases k,
{
    if k > 0 {
        lemma_site_pairs_in_file(names, exprs, k - 1, ds, defs, ctx, b, path);
        let ds1 = site_pairs(names, exprs, k - 1, ds, defs, ctx, b, path);
        let all = site_pairs(names, exprs, k, ds, defs, ctx, b, path);
        assert forall|i: int| 0 <= i < all.len() implies (#[trigger] all[i]).file == Some(path) by {
            if i < ds1.len() {
                assert(all[i] == ds1[i]);
            }
        }
    }
}

proof fn lemma_fold_sites_in_file(
    evs: Seq<Event>,
    defs: Seq<(Seq<char>, nat)>,
    ctx: CtxView,
    b: BindingsView,
    path: Seq<char>,
)
    ensures
        all_in_file(fold_sites(evs, defs, ctx, b, path), path),
    decreases evs.len(),
{
    if evs.len() > 0 {
        lemma_fold_sites_in_file(evs.drop_last(), defs, ctx, b, path);
        let ds = fold_sites(evs.drop_last(), defs, ctx, b, path);
        match evs.last() {
            Event::LocalAssign(l) => {
                lemma_site_pairs_in_file(l.names@.len(), l.exprs@, l.exprs@.len() as int, ds, defs, ctx, b, path);
            },
            Event::Assign(a) => {
                lemma_site_pairs_in_file(a.vars@.len(), a.exprs@, a.exprs@.len() as int, ds, defs, ctx, b, path);
            },
            _ => {},
        }
    }
}

/// Every return-arity finding names the checked file.
pub proof fn lemma_return_diagnostics_in_file(c: &Chunk, ctx: CtxView, b: BindingsView, path: Seq<char>)
    ensures
        all_in_file(return_diagnostics(c, ctx, b, path), path),
{
    lemma_fold_sites_in_file(ev_chunk(c), fold_defs(ev_chunk(c)), ctx, b, path);
}


/// The slots bound to the first `k` of `len` expressions assigned to
/// `names` names.
pub open spec fn bound_total(names: nat, len: nat, k: nat) -> nat
    decreases k,
{
    if k == 0 {
        0
    } else {
        bound_total(names, len, (k - 1) as nat) + bound_for(names, len, k - 1)
    }
}

proof fn lemma_bound_total_front(names: nat, len: nat, k: nat)
    requires
        k < len,
    ensures
        bound_total(names, len, k) == k,
    decreases k,
{
    if k > 0 {
        lemma_bound_total_front(names, len, (k - 1) as nat);
    }
}

/// Assigning `len` expressions to `names` names: every expression but the
/// last gets one slot, and the last, a call in tail position, fills the
/// slots that are left, none when there are none. So when there are
/// enough names the slots add up to the names, and the tail call gets
/// `names - (len - 1)` of them.
pub proof fn lemma_tail_call_fills_remaining_names(names: nat, len: nat)
    requires
        len > 0,
    ensures
        forall|k: int| 0 <= k < len - 1 ==> bound_for(names, len, k) == 1,
        names >= len - 1 ==> bound_total(names, len, len) == names,
        names >= len - 1 ==> bound_for(names, len, len - 1) + (len - 1) == names,
        names < len - 1 ==> bound_for(names, len, len - 1) == 0,
{
    lemma_bound_total_front(names, len, (len - 1) as nat);
}


/// The calls whose return count is known: `f(...)` for a function `f`
/// defined in the file with a known arity, and `m.f(...)` / `m:f(...)` for
/// a member `f` that the lookup on the binding `m` finds to be a function;
/// the call is located at its first name.
pub proof fn lemma_known_callees(
    c: CallExpr,
    defs: Seq<(Seq<char>, nat)>,
    ctx: CtxView,
    b: BindingsView,
    p: Tok,
    name: Seq<char>,
    m: Tok,
    member: Seq<char>,
)
    requires
        c.prefix == PrefixExpr::Name(p),
        ident(p) == Some(name),
        c.suffixes@.len() > 0,
    ensures
        c.suffixes@[0] is Call && (c.suffixes@[0] matches Postfix::Call(CallKind::Anonymous(_)))
            ==> resolve_callee(c, defs, ctx, b) == match vget(defs, name) {
            Some(a) => Some((name, a, p.start.line, p.start.column)),
            None => None,
        },
        ident(m) == Some(member) && (c.suffixes@[0] matches Postfix::Call(CallKind::Method { name: n, .. }) && n
            == m) ==> resolve_callee(c, defs, ctx, b) == match binding_target(b, name) {
            Some((t, _)) => match resolve_spec(ctx, t, member).member {
                Some(Member::Function { arity, .. }) => Some(
                    (name + ":"@ + member, arity as nat, p.start.line, p.start.column),
                ),
                _ => None,
            },
            None => None,
        },
        ident(m) == Some(member) && c.suffixes@[0] == Postfix::Index(IndexKind::Dot { name: m })
            && c.suffixes@.len() > 1 && (c.suffixes@[1] matches Postfix::Call(CallKind::Anonymous(_)))
            ==> resolve_callee(c, defs, ctx, b) == match binding_target(b, name) {
            Some((t, _)) => match resolve_spec(ctx, t, member).member {
                Some(Member::Function { arity, .. }) => Some(
                    (name + "."@ + member, arity as nat, p.start.line, p.start.column),
                ),
                _ => None,
            },
            None => None,
        },
{
}

/// A call in binding position with a known return count is reported
/// exactly when that count differs from the slots it fills, and the
/// report says how many values it returns and how many are bound.
pub proof fn lemma_site_reported_on_mismatch(
    names: nat,
    exprs: Seq<Expr>,
    k: int,
    ds: Seq<DiagnosticView>,
    defs: Seq<(Seq<char>, nat)>,
    ctx: CtxView,
    b: BindingsView,
    path: Seq<char>,
    c: CallExpr,
    callee: Seq<char>,
    ret_count: nat,
    line: usize,
    column: usize,
)
    requires
        0 < k <= exprs.len(),
        exprs[k - 1] == Expr::Call(c),
        resolve_callee(c, defs, ctx, b) == Some((callee, ret_count, line, column)),
    ensures
        site_pairs(names, exprs, k, ds, defs, ctx, b, path) == if ret_count == bound_for(
            names,
            exprs.len(),
            k - 1,
        ) {
            site_pairs(names, exprs, k - 1, ds, defs, ctx, b, path)
        } else {
            site_pairs(names, exprs, k - 1, ds, defs, ctx, b, path).push(
                diag_at(
                    DiagnosticKind::MultiReturnInfo,
                    arity_message(callee, ret_count, bound_for(names, exprs.len(), k - 1)),
                    path,
                    line,
                    column,
                ),
            )
        },
{
}

} // verus!
