//! Text output of the command-line analyzer: the module tree drawn from
//! each entry point, and one line per diagnostic or lookup step.

use vstd::prelude::*;
use vstd::set_lib::*;
use vstd::seq_lib::*;
use crate::classes::contains_str;
use crate::diagnostic::{Diagnostic, DiagnosticView, diags_view};
use crate::explain::explanations_view;
use crate::graph::{
    GraphView, ModuleGraph, dependencies_of, entry_points_of, graph_wf,
    lemma_dependencies_are_modules, lemma_entry_points_are_modules,
};
use crate::lookup::{ExplanationView, LookupExplanation, LookupResultView};
use crate::shapes::strs_view;
use crate::text::{concat, decimal, owned, usize_text};

verus! {

pub open spec fn connector(is_last: bool) -> Seq<char> {
    if is_last {
        "└── "@
    } else {
        "├── "@
    }
}

pub open spec fn indent(is_last: bool) -> Seq<char> {
    if is_last {
        "    "@
    } else {
        "│   "@
    }
}

/// One module of the tree and, the first time it is met, its dependencies
/// below it; a module already on the current branch is marked as a cycle
/// and not descended into. Returns the text and the modules expanded so far.
pub open spec fn render_node(
    v: GraphView,
    path: Seq<char>,
    prefix: Seq<char>,
    is_last: bool,
    expanded: Set<Seq<char>>,
    stack: Seq<Seq<char>>,
    fuel: nat,
) -> (Seq<char>, Set<Seq<char>>)
    decreases fuel, 0nat, 0int,
{
    let head = prefix + connector(is_last) + path;
    if stack.contains(path) {
        (head + " (cycle)\n"@, expanded)
    } else if expanded.contains(path) || fuel == 0 {
        (head + "\n"@, expanded)
    } else {
        let r = render_children(
            v,
            dependencies_of(v, path),
            0,
            prefix + indent(is_last),
            expanded.insert(path),
            stack.push(path),
            (fuel - 1) as nat,
        );
        (head + "\n"@ + r.0, r.1)
    }
}

/// The modules `deps[i..]` as siblings, the last one closing the branch.
pub open spec fn render_children(
    v: GraphView,
    deps: Seq<Seq<char>>,
    i: int,
    prefix: Seq<char>,
    expanded: Set<Seq<char>>,
    stack: Seq<Seq<char>>,
    fuel: nat,
) -> (Seq<char>, Set<Seq<char>>)
    decreases fuel, 1nat, deps.len() - i,
{
    if i < 0 || i >= deps.len() {
        (Seq::empty(), expanded)
    } else {
        let a = render_node(v, deps[i], prefix, i + 1 == deps.len(), expanded, stack, fuel);
        let b = render_children(v, deps, i + 1, prefix, a.1, stack, fuel);
        (a.0 + b.0, b.1)
    }
}

/// The module tree of a graph, drawn from each entry point in order.
pub open spec fn tree_text(v: GraphView) -> Seq<char> {
    render_children(
        v,
        entry_points_of(v),
        0,
        Seq::empty(),
        Set::empty(),
        Seq::empty(),
        v.nodes.len() + 1,
    ).0
}

/// How many modules are not expanded yet.
pub open spec fn remaining(v: GraphView, expanded: Set<Seq<char>>) -> nat {
    v.nodes.to_set().difference(expanded).len()
}

proof fn lemma_remaining_shrinks(v: GraphView, a: Set<Seq<char>>, b: Set<Seq<char>>)
    requires
        a.subset_of(b),
    ensures
        remaining(v, b) <= remaining(v, a),
{
    let u = v.nodes.to_set();
    seq_to_set_is_finite(v.nodes);
    assert(u.difference(b).subset_of(u.difference(a)));
    lemma_len_subset(u.difference(b), u.difference(a));
}

proof fn lemma_remaining_insert(v: GraphView, e: Set<Seq<char>>, p: Seq<char>)
    requires
        v.nodes.contains(p),
        !e.contains(p),
    ensures
        remaining(v, e.insert(p)) + 1 == remaining(v, e),
{
    let u = v.nodes.to_set();
    seq_to_set_is_finite(v.nodes);
    assert(u.contains(p));
    assert(u.difference(e.insert(p)) =~= u.difference(e).remove(p));
    assert(u.difference(e).contains(p));
}

proof fn lemma_remaining_bound(v: GraphView)
    ensures
        remaining(v, Set::empty()) <= v.nodes.len(),
{
    seq_to_set_is_finite(v.nodes);
    assert(v.nodes.to_set().difference(Set::empty()) =~= v.nodes.to_set());
    v.nodes.lemma_cardinality_of_set();
}

pub open spec fn set_of(v: Seq<String>) -> Set<Seq<char>> {
    strs_view(v).to_set()
}

proof fn lemma_push_to_set(s: Seq<Seq<char>>, p: Seq<char>)
    ensures
        s.push(p).to_set() == s.to_set().insert(p),
{
    assert forall|x: Seq<char>| s.push(p).to_set().contains(x) <==> s.to_set().insert(p).contains(x) by {
        if s.push(p).contains(x) {
            let k = choose|k: int| 0 <= k < s.push(p).len() && s.push(p)[k] == x;
            if k < s.len() {
                assert(s[k] == x);
            }
        }
        if s.contains(x) {
            let k = choose|k: int| 0 <= k < s.len() && s[k] == x;
            assert(s.push(p)[k] == x);
        }
        if x == p {
            assert(s.push(p)[s.len() as int] == p);
        }
    }
    assert(s.push(p).to_set() =~= s.to_set().insert(p));
}

fn render_node_exec(
    g: &ModuleGraph,
    path: &String,
    prefix: &String,
    is_last: bool,
    expanded: &mut Vec<String>,
    stack: &mut Vec<String>,
    out: &mut String,
    Ghost(fuel): Ghost<nat>,
)
    requires
        graph_wf(g@),
        g@.nodes.contains(path@),
        fuel >= remaining(g@, set_of(old(expanded)@)) + 1,
    ensures
        final(out)@ == old(out)@ + render_node(
            g@,
            path@,
            prefix@,
            is_last,
            set_of(old(expanded)@),
            strs_view(old(stack)@),
            fuel,
        ).0,
        set_of(final(expanded)@) == render_node(
            g@,
            path@,
            prefix@,
            is_last,
            set_of(old(expanded)@),
            strs_view(old(stack)@),
            fuel,
        ).1,
        strs_view(final(stack)@) == strs_view(old(stack)@),
        set_of(old(expanded)@).subset_of(set_of(final(expanded)@)),
    decreases fuel, 0nat, 0nat,
{
    let ghost e0 = set_of(expanded@);
    let ghost s0 = strs_view(stack@);
    let connector = if is_last {
        "└── "
    } else {
        "├── "
    };
    out.append(prefix.as_str());
    out.append(connector);
    out.append(path.as_str());
    if contains_str(stack, path.as_str()) {
        out.append(" (cycle)\n");
        return;
    }
    out.append("\n");
    assert(strs_view(expanded@).to_set().contains(path@) == strs_view(expanded@).contains(path@));
    if contains_str(expanded, path.as_str()) {
        return;
    }
    let ghost before_push = expanded@;
    expanded.push(path.clone());
    assert(strs_view(expanded@) =~= strs_view(before_push).push(path@));
    proof {
        lemma_push_to_set(strs_view(before_push), path@);
    }
    assert(set_of(expanded@) =~= e0.insert(path@));
    proof {
        lemma_remaining_insert(g@, e0, path@);
    }
    let ghost stack_before = stack@;
    stack.push(path.clone());
    assert(strs_view(stack@) =~= s0.push(path@));
    let child_prefix = concat(
        prefix.as_str(),
        if is_last {
            "    "
        } else {
            "│   "
        },
    );
    let deps = g.dependencies(path.as_str());
    proof {
        lemma_dependencies_are_modules(g@, path@);
        assert forall|k: int| 0 <= k < deps@.len() implies g@.nodes.contains(#[trigger] deps@[k]@) by {
            assert(deps@[k]@ == crate::graph::strs(deps@)[k]);
        }
    }
    render_children_exec(g, &deps, &child_prefix, expanded, stack, out, Ghost((fuel - 1) as nat));
    let ghost before_pop = stack@;
    stack.pop();
    assert(stack@ =~= before_pop.drop_last());
    assert(strs_view(before_pop) =~= s0.push(path@));
    assert(strs_view(stack@) =~= strs_view(before_pop).drop_last());
    assert(strs_view(stack@) =~= s0);
}

fn render_children_exec(
    g: &ModuleGraph,
    deps: &Vec<String>,
    prefix: &String,
    expanded: &mut Vec<String>,
    stack: &mut Vec<String>,
    out: &mut String,
    Ghost(fuel): Ghost<nat>,
)
    requires
        graph_wf(g@),
        forall|k: int| 0 <= k < deps@.len() ==> g@.nodes.contains(#[trigger] deps@[k]@),
        fuel >= remaining(g@, set_of(old(expanded)@)) + 1,
    ensures
        final(out)@ == old(out)@ + render_children(
            g@,
            strs_view(deps@),
            0,
            prefix@,
            set_of(old(expanded)@),
            strs_view(old(stack)@),
            fuel,
        ).0,
        set_of(final(expanded)@) == render_children(
            g@,
            strs_view(deps@),
            0,
            prefix@,
            set_of(old(expanded)@),
            strs_view(old(stack)@),
            fuel,
        ).1,
        strs_view(final(stack)@) == strs_view(old(stack)@),
        set_of(old(expanded)@).subset_of(set_of(final(expanded)@)),
    decreases fuel, 1nat, 0nat,
{
    let ghost dv = strs_view(deps@);
    let ghost s0 = strs_view(stack@);
    let ghost total = render_children(g@, dv, 0, prefix@, set_of(expanded@), s0, fuel);
    let ghost out0 = out@;
    let ghost e0 = set_of(expanded@);
    let n = deps.len();
    let mut i: usize = 0;
    while i < n
        invariant
            n == deps@.len(),
            i <= n,
            dv == strs_view(deps@),
            graph_wf(g@),
            forall|k: int| 0 <= k < deps@.len() ==> g@.nodes.contains(#[trigger] deps@[k]@),
            strs_view(stack@) == s0,
            e0.subset_of(set_of(expanded@)),
            fuel >= remaining(g@, set_of(expanded@)) + 1,
            out0 + total.0 == out@ + render_children(
                g@,
                dv,
                i as int,
                prefix@,
                set_of(expanded@),
                s0,
                fuel,
            ).0,
            total.1 == render_children(g@, dv, i as int, prefix@, set_of(expanded@), s0, fuel).1,
        decreases n - i,
    {
        let ghost e_before = set_of(expanded@);
        let ghost out_before = out@;
        assert(deps@[i as int]@ == dv[i as int]);
        assert(g@.nodes.contains(deps@[i as int]@));
        render_node_exec(
            g,
            &deps[i],
            prefix,
            i + 1 == n,
            expanded,
            stack,
            out,
            Ghost(fuel),
        );
        proof {
            lemma_remaining_shrinks(g@, e_before, set_of(expanded@));
            assert(out0 + total.0 =~= out@ + render_children(
                g@,
                dv,
                i + 1,
                prefix@,
                set_of(expanded@),
                s0,
                fuel,
            ).0);
        }
        i = i + 1;
    }
    assert(out0 + total.0 =~= out@);
}

/// The module tree of `graph`, drawn from each entry point:
/// `├──`/`└──` connectors, modules already drawn are not expanded again,
/// and a module met again on its own branch is marked ` (cycle)`.
pub fn render_tree(graph: &ModuleGraph) -> (r: String)
    ensures
        r@ == tree_text(graph@),
{
    let roots = graph.entry_points();
    proof {
        lemma_entry_points_are_modules(graph@);
        lemma_remaining_bound(graph@);
    }
    let mut out = String::new();
    let mut expanded: Vec<String> = Vec::new();
    let mut stack: Vec<String> = Vec::new();
    let prefix = String::new();
    assert(set_of(expanded@) =~= Set::<Seq<char>>::empty());
    assert(strs_view(stack@) =~= Seq::<Seq<char>>::empty());
    assert(prefix@ =~= Seq::<char>::empty());
    assert(out@ =~= Seq::<char>::empty());
    assert forall|k: int| 0 <= k < roots@.len() implies graph@.nodes.contains(#[trigger] roots@[k]@) by {
        assert(roots@[k]@ == crate::graph::strs(roots@)[k]);
    }
    render_children_exec(
        graph,
        &roots,
        &prefix,
        &mut expanded,
        &mut stack,
        &mut out,
        Ghost(graph@.nodes.len() + 1),
    );
    out
}

/// Where a diagnostic points, as `file:line:column: ` or `file: `.
pub open spec fn location_text(d: DiagnosticView) -> Seq<char> {
    match (d.file, d.line, d.column) {
        (Some(f), Some(l), Some(c)) => f + ":"@ + decimal(l as nat) + ":"@ + decimal(c as nat) + ": "@,
        (Some(f), _, _) => f + ": "@,
        _ => Seq::empty(),
    }
}

/// A diagnostic as one indented line: kind, location, message.
pub open spec fn diagnostic_text(d: DiagnosticView, kind_name: Seq<char>) -> Seq<char> {
    "  ["@ + kind_name + "] "@ + location_text(d) + d.message
}

/// A diagnostic as one indented line: `  [Kind] file:line:column: message`.
pub fn diagnostic_line(d: &Diagnostic) -> (r: String)
    ensures
        r@ == diagnostic_text(d@, d.kind.spec_variant_name()),
{
    let mut r = concat("  [", d.kind.variant_name());
    r.append("] ");
    match (&d.file, d.line, d.column) {
        (Some(f), Some(l), Some(c)) => {
            r.append(f.as_str());
            r.append(":");
            r.append(usize_text(l).as_str());
            r.append(":");
            r.append(usize_text(c).as_str());
            r.append(": ");
        },
        (Some(f), _, _) => {
            r.append(f.as_str());
            r.append(": ");
        },
        _ => {},
    }
    r.append(d.message.as_str());
    r
}

pub open spec fn result_line(r: LookupResultView) -> Seq<char> {
    match r {
        LookupResultView::Found(m) => "  = "@ + m,
        LookupResultView::NotFound => "  = member not found"@,
        LookupResultView::Unknown(reason) => "  = unknown: "@ + reason,
    }
}

/// The lines of one explanation: the access and its position, each step,
/// then the verdict.
pub open spec fn explanation_text(x: crate::lookup::ExplanationView) -> Seq<Seq<char>> {
    seq![x.expression + " ("@ + decimal(x.line as nat) + ":"@ + decimal(x.column as nat) + ")"@]
        + x.steps.map_values(|s: Seq<char>| "  ↓ "@ + s) + seq![result_line(x.result)]
}

/// The lines of one explanation, as the analyzer prints them.
pub fn explanation_lines(x: &LookupExplanation) -> (r: Vec<String>)
    ensures
        strs_view(r@) == explanation_text(x@),
{
    let mut lines: Vec<String> = Vec::new();
    let mut head = concat(x.expression.as_str(), " (");
    head.append(usize_text(x.line).as_str());
    head.append(":");
    head.append(usize_text(x.column).as_str());
    head.append(")");
    lines.push(head);
    let ghost steps = x@.steps;
    let mut k: usize = 0;
    while k < x.steps.len()
        invariant
            k <= x.steps@.len(),
            steps == x@.steps,
            strs_view(lines@) == seq![
                x@.expression + " ("@ + decimal(x.line as nat) + ":"@ + decimal(x.column as nat) + ")"@,
            ] + steps.take(k as int).map_values(|s: Seq<char>| "  ↓ "@ + s),
        decreases x.steps@.len() - k,
    {
        let ghost before = strs_view(lines@);
        let line = concat("  ↓ ", x.steps[k].as_str());
        lines.push(line);
        assert(steps[k as int] == x.steps@[k as int]@);
        assert(steps.take(k + 1) =~= steps.take(k as int).push(steps[k as int]));
        assert(strs_view(lines@) =~= before.push(line@));
        assert(strs_view(lines@) =~= seq![
            x@.expression + " ("@ + decimal(x.line as nat) + ":"@ + decimal(x.column as nat) + ")"@,
        ] + steps.take(k + 1).map_values(|s: Seq<char>| "  ↓ "@ + s));
        k = k + 1;
    }
    assert(steps.take(steps.len() as int) =~= steps);
    let ghost before = strs_view(lines@);
    let last = match &x.result {
        crate::lookup::LookupResult::Found(m) => concat("  = ", m.as_str()),
        crate::lookup::LookupResult::NotFound => owned("  = member not found"),
        crate::lookup::LookupResult::Unknown(reason) => concat("  = unknown: ", reason.as_str()),
    };
    lines.push(last);
    assert(strs_view(lines@) =~= before.push(last@));
    lines
}

// ---- what each command prints ----

/// The lines of `lines`, each followed by a newline.
pub open spec fn printed_lines(lines: Seq<Seq<char>>) -> Seq<char>
    decreases lines.len(),
{
    if lines.len() == 0 {
        Seq::empty()
    } else {
        printed_lines(lines.drop_last()) + lines.last() + "\n"@
    }
}

pub open spec fn diagnostic_rows(ds: Seq<DiagnosticView>) -> Seq<Seq<char>> {
    ds.map_values(|d: DiagnosticView| diagnostic_text(d, d.kind.spec_variant_name()))
}

/// The diagnostics section: nothing when there are none, else a blank
/// line, `Diagnostics:` and one line per diagnostic.
pub open spec fn diagnostics_block(ds: Seq<DiagnosticView>) -> Seq<char> {
    if ds.len() == 0 {
        Seq::empty()
    } else {
        "\nDiagnostics:\n"@ + printed_lines(diagnostic_rows(ds))
    }
}

/// What a check prints: the diagnostics section, or that there were none.
pub open spec fn check_text(ds: Seq<DiagnosticView>) -> Seq<char> {
    if ds.len() == 0 {
        "No issues found.\n"@
    } else {
        diagnostics_block(ds)
    }
}

pub open spec fn explanation_rows(xs: Seq<ExplanationView>) -> Seq<Seq<char>>
    decreases xs.len(),
{
    if xs.len() == 0 {
        Seq::empty()
    } else {
        explanation_rows(xs.drop_last()) + explanation_text(xs.last())
    }
}

/// What an explain prints: each explanation's lines, or that the line has
/// no known member access.
pub open spec fn explain_text(xs: Seq<ExplanationView>, line: usize) -> Seq<char> {
    if xs.len() == 0 {
        "No known member accesses on line "@ + decimal(line as nat) + ".\n"@
    } else {
        printed_lines(explanation_rows(xs))
    }
}

fn print_rows(out: &mut String, rows: &Vec<String>)
    ensures
        final(out)@ == old(out)@ + printed_lines(strs_view(rows@)),
{
    let mut k: usize = 0;
    assert(strs_view(rows@).take(0) =~= Seq::<Seq<char>>::empty());
    assert(out@ =~= old(out)@ + printed_lines(strs_view(rows@).take(0)));
    while k < rows.len()
        invariant
            k <= rows@.len(),
            out@ == old(out)@ + printed_lines(strs_view(rows@).take(k as int)),
        decreases rows@.len() - k,
    {
        out.append(rows[k].as_str());
        out.append("\n");
        proof {
            let t = strs_view(rows@).take(k + 1);
            assert(t.drop_last() =~= strs_view(rows@).take(k as int));
            assert(t.last() == rows@[k as int]@);
        }
        k = k + 1;
    }
    assert(strs_view(rows@).take(rows@.len() as int) =~= strs_view(rows@));
}

/// The diagnostics section of the analyzer's text output.
pub fn diagnostics_output(ds: &Vec<Diagnostic>) -> (r: String)
    ensures
        r@ == diagnostics_block(diags_view(ds@)),
{
    let mut out = String::new();
    if ds.len() == 0 {
        return out;
    }
    out.append("\nDiagnostics:\n");
    let mut rows: Vec<String> = Vec::new();
    let mut k: usize = 0;
    while k < ds.len()
        invariant
            k <= ds@.len(),
            strs_view(rows@) == diagnostic_rows(diags_view(ds@.take(k as int))),
        decreases ds@.len() - k,
    {
        let ghost before = strs_view(rows@);
        rows.push(diagnostic_line(&ds[k]));
        assert(strs_view(rows@) =~= before.push(strs_view(rows@).last()));
        assert(diags_view(ds@.take(k + 1)) =~= diags_view(ds@.take(k as int)).push(ds@[k as int]@));
        assert(diagnostic_rows(diags_view(ds@.take(k + 1))) =~= diagnostic_rows(
            diags_view(ds@.take(k as int)),
        ).push(diagnostic_text(ds@[k as int]@, ds@[k as int]@.kind.spec_variant_name())));
        k = k + 1;
    }
    assert(ds@.take(ds@.len() as int) =~= ds@);
    print_rows(&mut out, &rows);
    out
}

/// What a check prints.
pub fn check_output(ds: &Vec<Diagnostic>) -> (r: String)
    ensures
        r@ == check_text(diags_view(ds@)),
{
    if ds.len() == 0 {
        owned("No issues found.\n")
    } else {
        diagnostics_output(ds)
    }
}

/// What an explain of `line` prints.
pub fn explain_output(xs: &Vec<LookupExplanation>, line: usize) -> (r: String)
    ensures
        r@ == explain_text(explanations_view(xs@), line),
{
    if xs.len() == 0 {
        let mut out = owned("No known member accesses on line ");
        out.append(usize_text(line).as_str());
        out.append(".\n");
        return out;
    }
    let mut out = String::new();
    let mut k: usize = 0;
    assert(explanations_view(xs@).take(0) =~= Seq::<ExplanationView>::empty());
    while k < xs.len()
        invariant
            k <= xs@.len(),
            out@ == printed_lines(explanation_rows(explanations_view(xs@).take(k as int))),
        decreases xs@.len() - k,
    {
        let rows = explanation_lines(&xs[k]);
        let ghost before = out@;
        print_rows(&mut out, &rows);
        proof {
            let t = explanations_view(xs@).take(k + 1);
            assert(t.drop_last() =~= explanations_view(xs@).take(k as int));
            assert(t.last() == xs@[k as int]@);
            lemma_printed_lines_append(
                explanation_rows(explanations_view(xs@).take(k as int)),
                strs_view(rows@),
            );
        }
        k = k + 1;
    }
    assert(explanations_view(xs@).take(xs@.len() as int) =~= explanations_view(xs@));
    out
}

proof fn lemma_printed_lines_append(a: Seq<Seq<char>>, b: Seq<Seq<char>>)
    ensures
        printed_lines(a + b) == printed_lines(a) + printed_lines(b),
    decreases b.len(),
{
    if b.len() == 0 {
        assert(a + b =~= a);
        assert(printed_lines(a) + printed_lines(b) =~= printed_lines(a));
    } else {
        lemma_printed_lines_append(a, b.drop_last());
        assert((a + b).drop_last() =~= a + b.drop_last());
        assert((a + b).last() == b.last());
    }
}

/// What the graph command prints: the module tree, then the diagnostics
/// section.
pub fn graph_output(graph: &ModuleGraph, ds: &Vec<Diagnostic>) -> (r: String)
    ensures
        r@ == tree_text(graph@) + diagnostics_block(diags_view(ds@)),
{
    let mut out = render_tree(graph);
    out.append(diagnostics_output(ds).as_str());
    out
}

} // verus!
