//! Human-readable lookup traces for the metatable inspector.

use vstd::prelude::*;
use crate::assoc::vget;
use crate::classes::{CtxView, LookupContext, LookupResolution, LookupTarget, ResolutionView, TargetView, resolve_spec};
use crate::exports::{ident, ident_exec};
use crate::lookup::{ExplanationView, LookupExplanation, LookupResult, LookupResultView};
use crate::members::{member_access, member_access_exec};
use crate::shapes::{Bindings, BindingsView};
use crate::syntax::{Chunk, Event, Expr, FinalStmt, Place, chunk_events, ev_chunk};
use crate::text::{concat, owned};

verus! {

/// The name of the local table a chunk returns (`return M`), if any.
pub open spec fn exported_table_name(c: &Chunk) -> Option<Seq<char>> {
    match c.block.last {
        Some(FinalStmt::Return(es)) => if es@.len() == 1 {
            match es@[0] {
                Expr::Var(Place::Name(t)) => ident(t),
                _ => None,
            }
        } else {
            None
        },
        _ => None,
    }
}

fn exported_table_name_exec(c: &Chunk) -> (r: Option<String>)
    ensures
        crate::diagnostic::opt_str_view(r) == exported_table_name(c),
{
    match &c.block.last {
        Some(FinalStmt::Return(es)) => {
            if es.len() != 1 {
                return None;
            }
            match &es[0] {
                Expr::Var(Place::Name(t)) => ident_exec(t),
                _ => None,
            }
        },
        _ => None,
    }
}

/// The receiver of an access: a bound instance, a bound module, the file's
/// own exported table, or `self` inside a file that exports a table.
pub open spec fn explain_target(
    b: BindingsView,
    binding: Seq<char>,
    local_class: Option<Seq<char>>,
    path: Seq<char>,
) -> Option<TargetView> {
    match vget(b.instances, binding) {
        Some(p) => Some(TargetView::Instance(p)),
        None => match vget(b.modules, binding) {
            Some(p) => Some(TargetView::Module(p)),
            None => if local_class == Some(binding) {
                Some(TargetView::Module(path))
            } else if binding == "self"@ && local_class is Some {
                Some(TargetView::Instance(path))
            } else {
                None
            },
        },
    }
}

/// The trace for a receiver with no known class.
pub open spec fn unknown_receiver(binding: Seq<char>) -> ResolutionView {
    ResolutionView {
        steps: seq!["receiver `"@ + binding + "` has no known class binding"@],
        result: LookupResultView::Unknown(
            "Aster cannot infer the class or module behind `"@ + binding + "`"@,
        ),
        member: None,
    }
}

pub open spec fn explain_step(
    xs: Seq<ExplanationView>,
    e: Event,
    line: usize,
    ctx: CtxView,
    b: BindingsView,
    local_class: Option<Seq<char>>,
    path: Seq<char>,
) -> Seq<ExplanationView> {
    match member_access(e) {
        Some((binding, member, p, t)) => if t.start.line != line {
            xs
        } else {
            let resolved = match explain_target(b, binding, local_class, path) {
                Some(target) => resolve_spec(ctx, target, member),
                None => unknown_receiver(binding),
            };
            xs.push(
                ExplanationView {
                    expression: binding + "."@ + member,
                    line: t.start.line,
                    column: t.start.column,
                    start_column: p.start.column,
                    end_column: t.end.column,
                    steps: resolved.steps,
                    result: resolved.result,
                },
            )
        },
        None => xs,
    }
}

pub open spec fn fold_explain(
    evs: Seq<Event>,
    line: usize,
    ctx: CtxView,
    b: BindingsView,
    local_class: Option<Seq<char>>,
    path: Seq<char>,
) -> Seq<ExplanationView>
    decreases evs.len(),
{
    if evs.len() == 0 {
        Seq::empty()
    } else {
        explain_step(
            fold_explain(evs.drop_last(), line, ctx, b, local_class, path),
            evs.last(),
            line,
            ctx,
            b,
            local_class,
            path,
        )
    }
}

/// Explanations for the member accesses on `line` of a file, in walk order.
pub open spec fn explanations_of(
    c: &Chunk,
    path: Seq<char>,
    line: usize,
    ctx: CtxView,
    b: BindingsView,
) -> Seq<ExplanationView> {
    fold_explain(ev_chunk(c), line, ctx, b, exported_table_name(c), path)
}

pub open spec fn explanations_view(v: Seq<LookupExplanation>) -> Seq<ExplanationView> {
    v.map_values(|x: LookupExplanation| x@)
}

fn explain_target_exec(
    b: &Bindings,
    binding: &String,
    local_class: &Option<String>,
    path: &str,
) -> (r: Option<LookupTarget>)
    ensures
        match r {
            Some(t) => explain_target(
                b@,
                binding@,
                crate::diagnostic::opt_str_view(*local_class),
                path@,
            ) == Some(t@),
            None => explain_target(
                b@,
                binding@,
                crate::diagnostic::opt_str_view(*local_class),
                path@,
            ) is None,
        },
{
    if let Some(p) = b.get_instance(binding.as_str()) {
        return Some(LookupTarget::Instance(p.clone()));
    }
    if let Some(p) = b.get_module(binding.as_str()) {
        return Some(LookupTarget::Module(p.clone()));
    }
    match local_class {
        Some(name) => {
            if *name == *binding {
                Some(LookupTarget::Module(owned(path)))
            } else if *binding == owned("self") {
                Some(LookupTarget::Instance(owned(path)))
            } else {
                None
            }
        },
        None => None,
    }
}

/// Explain each known module or instance member access on `line` of one
/// parsed file. Unknown or dynamic links are returned as explanations,
/// never as errors.
pub fn explain_file(
    chunk: &Chunk,
    path: &str,
    line: usize,
    bindings: &Bindings,
    context: &LookupContext,
) -> (r: Vec<LookupExplanation>)
    ensures
        explanations_view(r@) == explanations_of(chunk, path@, line, context@, bindings@),
{
    let local_class = exported_table_name_exec(chunk);
    let events = chunk_events(chunk);
    let mut out: Vec<LookupExplanation> = Vec::new();
    let n = events.len();
    let mut i: usize = 0;
    assert(events@.take(0) =~= Seq::<Event>::empty());
    assert(explanations_view(out@) =~= Seq::<ExplanationView>::empty());
    while i < n
        invariant
            n == events@.len(),
            i <= n,
            crate::diagnostic::opt_str_view(local_class) == exported_table_name(chunk),
            explanations_view(out@) == fold_explain(
                events@.take(i as int),
                line,
                context@,
                bindings@,
                exported_table_name(chunk),
                path@,
            ),
        decreases n - i,
    {
        assert(events@.take(i + 1).drop_last() =~= events@.take(i as int));
        if let Some((binding, member, p, t)) = member_access_exec(&events[i]) {
            if t.start.line == line {
                let resolved = match explain_target_exec(bindings, &binding, &local_class, path) {
                    Some(target) => context.resolve(target, member.as_str()),
                    None => {
                        let mut steps = Vec::new();
                        steps.push(
                            concat(
                                concat("receiver `", binding.as_str()).as_str(),
                                "` has no known class binding",
                            ),
                        );
                        let reason = concat(
                            concat(
                                "Aster cannot infer the class or module behind `",
                                binding.as_str(),
                            ).as_str(),
                            "`",
                        );
                        let r = LookupResolution {
                            steps,
                            result: LookupResult::Unknown(reason),
                            member: None,
                        };
                        assert(r@.steps =~= unknown_receiver(binding@).steps);
                        r
                    },
                };
                let mut expression = concat(binding.as_str(), ".");
                expression.append(member.as_str());
                let x = LookupExplanation {
                    expression,
                    line: t.start.line,
                    column: t.start.column,
                    start_column: p.start.column,
                    end_column: t.end.column,
                    steps: resolved.steps,
                    result: resolved.result,
                };
                let ghost before = out@;
                out.push(x);
                assert(explanations_view(out@) =~= explanations_view(before).push(x@));
            }
        }
        i = i + 1;
    }
    assert(events@.take(n as int) =~= events@);
    out
}

/// The text of an access `binding.member`.
pub open spec fn access_text(x: ExplanationView) -> bool {
    exists|binding: Seq<char>, member: Seq<char>| #[trigger] (binding + "."@ + member) == x.expression
}

/// Every explanation of a file is of an access on the asked line, and
/// names it as `receiver.member`.
pub proof fn lemma_explanations_on_line(
    evs: Seq<Event>,
    line: usize,
    ctx: CtxView,
    b: BindingsView,
    local_class: Option<Seq<char>>,
    path: Seq<char>,
)
    ensures
        forall|i: int|
            0 <= i < fold_explain(evs, line, ctx, b, local_class, path).len() ==> (
            #[trigger] fold_explain(evs, line, ctx, b, local_class, path)[i]).line == line
                && access_text(fold_explain(evs, line, ctx, b, local_class, path)[i]),
    decreases evs.len(),
{
    if evs.len() > 0 {
        lemma_explanations_on_line(evs.drop_last(), line, ctx, b, local_class, path);
        let xs = fold_explain(evs.drop_last(), line, ctx, b, local_class, path);
        let ys = fold_explain(evs, line, ctx, b, local_class, path);
        assert forall|i: int| 0 <= i < ys.len() implies (#[trigger] ys[i]).line == line && access_text(ys[i]) by {
            if i < xs.len() {
                assert(ys[i] == xs[i]);
            } else {
                match member_access(evs.last()) {
                    Some((binding, member, p, t)) => {
                        assert(ys[i].expression == binding + "."@ + member);
                    },
                    None => {},
                }
            }
        }
    }
}

/// The receiver named by an access event.
pub open spec fn access_receiver(e: Event) -> Seq<char> {
    match member_access(e) {
        Some((binding, member, p, t)) => binding,
        None => Seq::empty(),
    }
}

/// The line of the member name of an access event.
pub open spec fn access_line(e: Event) -> usize {
    match member_access(e) {
        Some((binding, member, p, t)) => t.start.line,
        None => 0,
    }
}

/// An access on the asked line whose receiver is no module or instance
/// binding, nor the file's exported table, nor `self` in such a file, is
/// explained as unknown, with the single step saying the receiver has no
/// known class binding.
pub proof fn lemma_unbound_receiver_is_unknown(
    xs: Seq<ExplanationView>,
    e: Event,
    line: usize,
    ctx: CtxView,
    b: BindingsView,
    local_class: Option<Seq<char>>,
    path: Seq<char>,
)
    requires
        member_access(e) is Some,
        access_line(e) == line,
        explain_target(b, access_receiver(e), local_class, path) is None,
    ensures
        explain_step(xs, e, line, ctx, b, local_class, path).len() == xs.len() + 1,
        explain_step(xs, e, line, ctx, b, local_class, path).last().result is Unknown,
        explain_step(xs, e, line, ctx, b, local_class, path).last().steps == seq![
            "receiver `"@ + access_receiver(e) + "` has no known class binding"@,
        ],
{
}

} // verus!
