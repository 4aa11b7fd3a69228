//! Unknown-member detection over known module and instance bindings.

use vstd::prelude::*;
use crate::assoc::vget;
use crate::classes::{CtxView, LookupContext, LookupTarget, TargetView, resolve_spec};
use crate::diagnostic::{Diagnostic, DiagnosticKind, DiagnosticView, all_in_file, diag_at, diags_view};
use crate::exports::{ident, ident_exec};
use crate::lookup::LookupResult;
use crate::require_sites::{literal_exec, literal_of};
use crate::shapes::{Bindings, BindingsView};
use crate::syntax::{CallExpr, CallKind, Chunk, Event, Expr, IndexKind, PrefixExpr, Postfix, Tok, Place, chunk_events, ev_chunk};
use crate::text::{concat, owned};

verus! {

/// The binding name and member of `binding.member`, `binding["member"]`,
/// `binding.member(...)` or `binding:member(...)`, with the member token.
pub open spec fn member_access(e: Event) -> Option<(Seq<char>, Seq<char>, Tok, Tok)> {
    match e {
        Event::Var(v) => match *v {
            Place::Expression(ve) => match ve.prefix {
                PrefixExpr::Name(p) => match ident(p) {
                    Some(binding) => if ve.suffixes@.len() > 0 {
                        match ve.suffixes@[0] {
                            Postfix::Index(IndexKind::Dot { name }) => match ident(name) {
                                Some(member) => Some((binding, member, p, name)),
                                None => None,
                            },
                            Postfix::Index(IndexKind::Brackets { expr, .. }) => match expr {
                                Expr::String(t) => match literal_of(t) {
                                    Some(member) => Some((binding, member, p, t)),
                                    None => None,
                                },
                                _ => None,
                            },
                            _ => None,
                        }
                    } else {
                        None
                    },
                    None => None,
                },
                _ => None,
            },
            _ => None,
        },
        Event::Call(c) => match c.prefix {
            PrefixExpr::Name(p) => match ident(p) {
                Some(binding) => if c.suffixes@.len() > 0 {
                    match c.suffixes@[0] {
                        Postfix::Index(IndexKind::Dot { name }) => match ident(name) {
                            Some(member) => Some((binding, member, p, name)),
                            None => None,
                        },
                        Postfix::Call(CallKind::Method { name, .. }) => match ident(name) {
                            Some(member) => Some((binding, member, p, name)),
                            None => None,
                        },
                        _ => None,
                    }
                } else {
                    None
                },
                None => None,
            },
            _ => None,
        },
        _ => None,
    }
}

pub fn member_access_exec<'a>(e: &Event<'a>) -> (r: Option<(String, String, &'a Tok, &'a Tok)>)
    ensures
        match r {
            Some((b, m, p, t)) => member_access(*e) == Some((b@, m@, *p, *t)),
            None => member_access(*e) is None,
        },
{
    match e {
        Event::Var(v) => {
            let ve = match v {
                Place::Expression(ve) => ve,
                _ => return None,
            };
            let p = match &ve.prefix {
                PrefixExpr::Name(p) => p,
                _ => return None,
            };
            let binding = match ident_exec(p) {
                Some(b) => b,
                None => return None,
            };
            if ve.suffixes.len() == 0 {
                return None;
            }
            match &ve.suffixes[0] {
                Postfix::Index(IndexKind::Dot { name }) => match ident_exec(name) {
                    Some(member) => Some((binding, member, p, name)),
                    None => None,
                },
                Postfix::Index(IndexKind::Brackets { expr, .. }) => match expr {
                    Expr::String(t) => match literal_exec(t) {
                        Some(member) => Some((binding, member, p, t)),
                        None => None,
                    },
                    _ => None,
                },
                _ => None,
            }
        },
        Event::Call(c) => {
            let p = match &c.prefix {
                PrefixExpr::Name(p) => p,
                _ => return None,
            };
            let binding = match ident_exec(p) {
                Some(b) => b,
                None => return None,
            };
            if c.suffixes.len() == 0 {
                return None;
            }
            match &c.suffixes[0] {
                Postfix::Index(IndexKind::Dot { name }) => match ident_exec(name) {
                    Some(member) => Some((binding, member, p, name)),
                    None => None,
                },
                Postfix::Call(CallKind::Method { name, .. }) => match ident_exec(name) {
                    Some(member) => Some((binding, member, p, name)),
                    None => None,
                },
                _ => None,
            }
        },
        _ => None,
    }
}

/// The lookup target of a name: its instance binding, else its module
/// binding.
pub open spec fn binding_target(b: BindingsView, name: Seq<char>) -> Option<(TargetView, Seq<char>)> {
    match vget(b.instances, name) {
        Some(path) => Some((TargetView::Instance(path), "instance"@)),
        None => match vget(b.modules, name) {
            Some(path) => Some((TargetView::Module(path), "module binding"@)),
            None => None,
        },
    }
}

pub fn binding_target_exec(b: &Bindings, name: &str) -> (r: Option<(LookupTarget, &'static str)>)
    ensures
        match r {
            Some((t, s)) => binding_target(b@, name@) == Some((t@, s@)),
            None => binding_target(b@, name@) is None,
        },
{
    match b.get_instance(name) {
        Some(path) => Some((LookupTarget::Instance(path.clone()), "instance")),
        None => match b.get_module(name) {
            Some(path) => Some((LookupTarget::Module(path.clone()), "module binding")),
            None => None,
        },
    }
}

/// The unknown-member message.
pub open spec fn unknown_member_message(member: Seq<char>, subject: Seq<char>, binding: Seq<char>) -> Seq<char> {
    "unknown member `"@ + member + "` on "@ + subject + " `"@ + binding + "`"@
}

pub open spec fn member_step(
    ds: Seq<DiagnosticView>,
    e: Event,
    ctx: CtxView,
    b: BindingsView,
    path: Seq<char>,
) -> Seq<DiagnosticView> {
    match member_access(e) {
        Some((binding, member, _p, tok)) => match binding_target(b, binding) {
            Some((target, subject)) => if resolve_spec(ctx, target, member).result is NotFound {
                ds.push(
                    diag_at(
                        DiagnosticKind::UnknownMember,
                        unknown_member_message(member, subject, binding),
                        path,
                        tok.start.line,
                        tok.start.column,
                    ),
                )
            } else {
                ds
            },
            None => ds,
        },
        None => ds,
    }
}

pub open spec fn fold_members(
    evs: Seq<Event>,
    ctx: CtxView,
    b: BindingsView,
    path: Seq<char>,
) -> Seq<DiagnosticView>
    decreases evs.len(),
{
    if evs.len() == 0 {
        Seq::empty()
    } else {
        member_step(fold_members(evs.drop_last(), ctx, b, path), evs.last(), ctx, b, path)
    }
}

/// Unknown-member diagnostics of one file, in walk order.
pub open spec fn member_diagnostics(
    c: &Chunk,
    ctx: CtxView,
    b: BindingsView,
    path: Seq<char>,
) -> Seq<DiagnosticView> {
    fold_members(ev_chunk(c), ctx, b, path)
}

fn cat7(a: &str, b: &str, c: &str, d: &str, e: &str, f: &str, g: &str) -> (r: String)
    ensures
        r@ == a@ + b@ + c@ + d@ + e@ + f@ + g@,
{
    let mut r = concat(a, b);
    r.append(c);
    r.append(d);
    r.append(e);
    r.append(f);
    r.append(g);
    r
}

/// Report `binding.member` accesses whose lookup proves the member absent.
pub fn check_members(
    path: &str,
    chunk: &Chunk,
    bindings: &Bindings,
    context: &LookupContext,
) -> (r: Vec<Diagnostic>)
    ensures
        diags_view(r@) == member_diagnostics(chunk, context@, bindings@, path@),
{
    let events = chunk_events(chunk);
    let mut out: Vec<Diagnostic> = Vec::new();
    let n = events.len();
    let mut i: usize = 0;
    assert(events@.take(0) =~= Seq::<Event>::empty());
    assert(diags_view(out@) =~= Seq::<DiagnosticView>::empty());
    while i < n
        invariant
            n == events@.len(),
            i <= n,
            diags_view(out@) == fold_members(events@.take(i as int), context@, bindings@, path@),
        decreases n - i,
    {
        assert(events@.take(i + 1).drop_last() =~= events@.take(i as int));
        if let Some((binding, member, _p, tok)) = member_access_exec(&events[i]) {
            if let Some((target, subject)) = binding_target_exec(bindings, binding.as_str()) {
                let resolved = context.resolve(target, member.as_str());
                if matches!(resolved.result, LookupResult::NotFound) {
                    let message = cat7(
                        "unknown member `",
                        member.as_str(),
                        "` on ",
                        subject,
                        " `",
                        binding.as_str(),
                        "`",
                    );
                    let d = Diagnostic::new(DiagnosticKind::UnknownMember, message.as_str()).at(
                        owned(path),
                        tok.start.line,
                        tok.start.column,
                    );
                    let ghost before = out@;
                    out.push(d);
                    assert(diags_view(out@) =~= diags_view(before).push(d@));
                }
            }
        }
        i = i + 1;
    }
    assert(events@.take(n as int) =~= events@);
    out
}


proof fn lemma_fold_members_in_file(evs: Seq<Event>, ctx: CtxView, b: BindingsView, path: Seq<char>)
    ensures
        all_in_file(fold_members(evs, ctx, b, path), path),
    decreases evs.len(),
{
    if evs.len() > 0 {
        lemma_fold_members_in_file(evs.drop_last(), ctx, b, path);
        let ds = fold_members(evs.drop_last(), ctx, b, path);
        let all = fold_members(evs, ctx, b, path);
        assert forall|i: int| 0 <= i < all.len() implies (#[trigger] all[i]).file == Some(path) by {
            if i < ds.len() {
                assert(all[i] == ds[i]);
            }
        }
    }
}

/// Every unknown-member finding names the checked file.
pub proof fn lemma_member_diagnostics_in_file(c: &Chunk, ctx: CtxView, b: BindingsView, path: Seq<char>)
    ensures
        all_in_file(member_diagnostics(c, ctx, b, path), path),
{
    lemma_fold_members_in_file(ev_chunk(c), ctx, b, path);
}


/// A call `b.m(...)` or `b:m(...)` on a name `b` is an access of member `m`
/// on `b`, located at the member's token: the method form counts exactly
/// as the field form does.
pub proof fn lemma_call_accesses_member(c: &CallExpr, p: Tok, name: Tok, binding: Seq<char>, member: Seq<char>)
    requires
        c.prefix == PrefixExpr::Name(p),
        ident(p) == Some(binding),
        ident(name) == Some(member),
        c.suffixes@.len() > 0,
        c.suffixes@[0] matches Postfix::Call(CallKind::Method { name: n, .. }) && n == name
            || c.suffixes@[0] == Postfix::Index(IndexKind::Dot { name }),
    ensures
        member_access(Event::Call(c)) == Some((binding, member, p, name)),
{
}


/// An access `b.m` (or `b:m(...)`, `b["m"]`) is reported exactly when the
/// lookup of `m` proves it absent: on the instance bound to `b` when there
/// is one, else on the module bound to `b`; a name bound to neither is
/// never reported. The report names the member, what `b` is, and `b`, at
/// the member's token.
pub proof fn lemma_unknown_member_reported_when_proven_absent(
    ds: Seq<DiagnosticView>,
    e: Event,
    ctx: CtxView,
    b: BindingsView,
    path: Seq<char>,
    binding: Seq<char>,
    member: Seq<char>,
    p: Tok,
    tok: Tok,
)
    requires
        member_access(e) == Some((binding, member, p, tok)),
    ensures
        vget(b.instances, binding) matches Some(ip) ==> member_step(ds, e, ctx, b, path) == if resolve_spec(
            ctx,
            TargetView::Instance(ip),
            member,
        ).result is NotFound {
            ds.push(
                diag_at(
                    DiagnosticKind::UnknownMember,
                    "unknown member `"@ + member + "` on instance `"@ + binding + "`"@,
                    path,
                    tok.start.line,
                    tok.start.column,
                ),
            )
        } else {
            ds
        },
        vget(b.instances, binding) is None ==> (vget(b.modules, binding) matches Some(mp) ==> member_step(
            ds,
            e,
            ctx,
            b,
            path,
        ) == if resolve_spec(ctx, TargetView::Module(mp), member).result is NotFound {
            ds.push(
                diag_at(
                    DiagnosticKind::UnknownMember,
                    "unknown member `"@ + member + "` on module binding `"@ + binding + "`"@,
                    path,
                    tok.start.line,
                    tok.start.column,
                ),
            )
        } else {
            ds
        }),
        vget(b.instances, binding) is None && vget(b.modules, binding) is None ==> member_step(
            ds,
            e,
            ctx,
            b,
            path,
        ) == ds,
{
    reveal_strlit("unknown member `");
    reveal_strlit("` on ");
    reveal_strlit(" `");
    reveal_strlit("`");
    reveal_strlit("instance");
    reveal_strlit("module binding");
    reveal_strlit("` on instance `");
    reveal_strlit("` on module binding `");
    assert(unknown_member_message(member, "instance"@, binding) =~= "unknown member `"@ + member
        + "` on instance `"@ + binding + "`"@);
    assert(unknown_member_message(member, "module binding"@, binding) =~= "unknown member `"@ + member
        + "` on module binding `"@ + binding + "`"@);
}

} // verus!
