//! The require graph of a project: nodes are files (paths relative to the
//! project root), edges are resolved `require` calls. The graph itself is a
//! `petgraph` directed graph.

use vstd::prelude::*;
use petgraph::graph::{DiGraph, NodeIndex};
use crate::assoc::{keys_of, vget, vput};
use crate::order::{sort_lists, sort_lists_exec, lists_view, sort_paths, sort_paths_exec};
use crate::shapes::get_index;

verus! {

#[verifier::external_type_specification]
#[verifier::external_body]
#[verifier::reject_recursive_types(N)]
#[verifier::reject_recursive_types(E)]
#[verifier::reject_recursive_types(Ty)]
#[verifier::reject_recursive_types(Ix)]
pub struct ExGraph<N, E, Ty, Ix>(petgraph::graph::Graph<N, E, Ty, Ix>);

#[verifier::external_type_specification]
#[verifier::external_body]
pub struct ExDirected(petgraph::Directed);

/// The node weights of a graph, in node-index order.
pub uninterp spec fn graph_nodes(g: DiGraph<String, ()>) -> Seq<Seq<char>>;

/// The edges of a graph as (source, target) node indices, in the order in
/// which they were added.
pub uninterp spec fn graph_edges(g: DiGraph<String, ()>) -> Seq<(usize, usize)>;

/// The targets of the edges from `a`, most recently added first.
pub open spec fn out_targets(edges: Seq<(usize, usize)>, a: usize) -> Seq<usize>
    decreases edges.len(),
{
    if edges.len() == 0 {
        Seq::empty()
    } else {
        (if edges.last().0 == a {
            seq![edges.last().1]
        } else {
            Seq::empty()
        }) + out_targets(edges.drop_last(), a)
    }
}

/// The sources of the edges to `a`, most recently added first.
pub open spec fn in_sources(edges: Seq<(usize, usize)>, a: usize) -> Seq<usize>
    decreases edges.len(),
{
    if edges.len() == 0 {
        Seq::empty()
    } else {
        (if edges.last().1 == a {
            seq![edges.last().0]
        } else {
            Seq::empty()
        }) + in_sources(edges.drop_last(), a)
    }
}

/// `Graph::new`: a directed graph with no nodes and no edges.
#[verifier::external_body]
fn new_graph() -> (g: DiGraph<String, ()>)
    ensures
        graph_nodes(g) == Seq::<Seq<char>>::empty(),
        graph_edges(g) == Seq::<(usize, usize)>::empty(),
{
    DiGraph::new()
}

/// `Graph::add_node`: appends a node and returns its index, the old node
/// count. It panics once the count reaches the `u32` index limit.
#[verifier::external_body]
fn add_node(g: &mut DiGraph<String, ()>, weight: String) -> (i: usize)
    requires
        graph_nodes(*old(g)).len() < u32::MAX,
    ensures
        i == graph_nodes(*old(g)).len(),
        graph_nodes(*final(g)) == graph_nodes(*old(g)).push(weight@),
        graph_edges(*final(g)) == graph_edges(*old(g)),
{
    g.add_node(weight).index()
}

/// `Graph::update_edge`: adds an edge from `a` to `b` unless there is one
/// already (the weight is `()`, so an existing edge stays as it is). It
/// panics when a node is missing or the edge count reaches the `u32` index
/// limit.
#[verifier::external_body]
fn update_edge(g: &mut DiGraph<String, ()>, a: usize, b: usize)
    requires
        a < graph_nodes(*old(g)).len(),
        b < graph_nodes(*old(g)).len(),
        graph_edges(*old(g)).len() < u32::MAX,
    ensures
        graph_nodes(*final(g)) == graph_nodes(*old(g)),
        graph_edges(*final(g)) == if graph_edges(*old(g)).contains((a, b)) {
            graph_edges(*old(g))
        } else {
            graph_edges(*old(g)).push((a, b))
        },
{
    g.update_edge(NodeIndex::new(a), NodeIndex::new(b), ());
}

/// `Graph::node_weights`: the node weights in node-index order.
#[verifier::external_body]
fn node_weights(g: &DiGraph<String, ()>) -> (r: Vec<String>)
    ensures
        r@.map_values(|s: String| s@) == graph_nodes(*g),
{
    g.node_weights().cloned().collect()
}

/// `Graph::neighbors_directed` on a directed graph: the other ends of the
/// edges from `a` (`incoming == false`) or to `a` (`incoming == true`),
/// most recently added edge first.
#[verifier::external_body]
fn neighbors(g: &DiGraph<String, ()>, a: usize, incoming: bool) -> (r: Vec<usize>)
    requires
        a < graph_nodes(*g).len(),
    ensures
        r@ == if incoming {
            in_sources(graph_edges(*g), a)
        } else {
            out_targets(graph_edges(*g), a)
        },
{
    let dir = if incoming {
        petgraph::Direction::Incoming
    } else {
        petgraph::Direction::Outgoing
    };
    g.neighbors_directed(NodeIndex::new(a), dir).map(|n| n.index()).collect()
}

/// `Graph::contains_edge`: whether there is an edge from `a` to `b`.
#[verifier::external_body]
fn contains_edge(g: &DiGraph<String, ()>, a: usize, b: usize) -> (r: bool)
    requires
        a < graph_nodes(*g).len(),
        b < graph_nodes(*g).len(),
    ensures
        r == graph_edges(*g).contains((a, b)),
{
    g.contains_edge(NodeIndex::new(a), NodeIndex::new(b))
}

/// A path of edges: consecutive nodes are joined by an edge.
pub open spec fn is_walk(edges: Seq<(usize, usize)>, p: Seq<usize>) -> bool {
    p.len() > 0 && forall|i: int| 0 <= i < p.len() - 1 ==> #[trigger] edges.contains((p[i], p[i + 1]))
}

/// Whether a path of edges leads from `a` to `b` (every node reaches itself).
pub open spec fn reaches(edges: Seq<(usize, usize)>, a: usize, b: usize) -> bool {
    exists|p: Seq<usize>| is_walk(edges, p) && p[0] == a && p.last() == b
}

/// Whether node `x` is listed in one of `comps`.
pub open spec fn in_some(comps: Seq<Seq<usize>>, x: usize) -> bool {
    exists|i: int, k: int| 0 <= i < comps.len() && 0 <= k < comps[i].len() && #[trigger] comps[i][k] == x
}

/// `comps` is the partition of the nodes `0..n` into strongly connected
/// components: each node is in one component, and two nodes share a
/// component exactly when each reaches the other.
pub open spec fn scc_partition(n: nat, edges: Seq<(usize, usize)>, comps: Seq<Seq<usize>>) -> bool {
    &&& forall|i: int| 0 <= i < comps.len() ==> #[trigger] comps[i].len() > 0
    &&& forall|i: int, k: int|
        0 <= i < comps.len() && 0 <= k < comps[i].len() ==> #[trigger] comps[i][k] < n
    &&& forall|x: usize| x < n ==> #[trigger] in_some(comps, x)
    &&& forall|i: int, k: int, j: int, l: int|
        #![trigger comps[i][k], comps[j][l]]
        0 <= i < comps.len() && 0 <= k < comps[i].len() && 0 <= j < comps.len() && 0 <= l
            < comps[j].len() ==> ((i == j && k == l) || comps[i][k] != comps[j][l]) && (i == j
            <==> (reaches(edges, comps[i][k], comps[j][l]) && reaches(
            edges,
            comps[j][l],
            comps[i][k],
        )))
}

/// `algo::tarjan_scc`: the strongly connected components of the graph, as
/// node indices. The order of the components, and of the nodes within one,
/// is left unsaid. The function recurses once per node on a path, so a
/// very deep graph can exhaust the stack; that limit is not stated.
#[verifier::external_body]
fn strongly_connected(g: &DiGraph<String, ()>) -> (r: Vec<Vec<usize>>)
    ensures
        scc_partition(
            graph_nodes(*g).len(),
            graph_edges(*g),
            r@.map_values(|c: Vec<usize>| c@),
        ),
{
    petgraph::algo::tarjan_scc(g).into_iter().map(|c| c.into_iter().map(|n| n.index()).collect()).collect()
}

/// The require graph of a project.
pub struct ModuleGraph {
    graph: DiGraph<String, ()>,
    /// Path to node index.
    index: Vec<(String, usize)>,
}

/// What a [`ModuleGraph`] holds.
pub struct GraphView {
    /// The module paths, in node-index order.
    pub nodes: Seq<Seq<char>>,
    /// Edges between node indices, in the order they were added.
    pub edges: Seq<(usize, usize)>,
    /// Path to node index.
    pub index: Seq<(Seq<char>, usize)>,
}

pub open spec fn index_view(v: Seq<(String, usize)>) -> Seq<(Seq<char>, usize)> {
    v.map_values(|e: (String, usize)| (e.0@, e.1))
}

impl View for ModuleGraph {
    type V = GraphView;

    closed spec fn view(&self) -> GraphView {
        GraphView {
            nodes: graph_nodes(self.graph),
            edges: graph_edges(self.graph),
            index: index_view(self.index@),
        }
    }
}

/// Indices in range, and each edge once.
pub open spec fn graph_wf(v: GraphView) -> bool {
    &&& forall|k: int| 0 <= k < v.index.len() ==> #[trigger] v.index[k].1 < v.nodes.len()
    &&& forall|k: int|
        #![trigger v.edges[k]]
        0 <= k < v.edges.len() ==> v.edges[k].0 < v.nodes.len() && v.edges[k].1 < v.nodes.len()
    &&& v.edges.no_duplicates()
}

impl ModuleGraph {
    #[verifier::type_invariant]
    closed spec fn inv(self) -> bool {
        graph_wf(self@)
    }
}

/// The path-to-node index of `files`: a later duplicate takes over.
pub open spec fn index_of(files: Seq<Seq<char>>) -> Seq<(Seq<char>, usize)>
    decreases files.len(),
{
    if files.len() == 0 {
        Seq::empty()
    } else {
        vput(index_of(files.drop_last()), files.last(), (files.len() - 1) as usize)
    }
}

/// The edges of `pairs` between indexed paths, each once.
pub open spec fn edges_of(index: Seq<(Seq<char>, usize)>, pairs: Seq<(Seq<char>, Seq<char>)>) -> Seq<(usize, usize)>
    decreases pairs.len(),
{
    if pairs.len() == 0 {
        Seq::empty()
    } else {
        let acc = edges_of(index, pairs.drop_last());
        match (vget(index, pairs.last().0), vget(index, pairs.last().1)) {
            (Some(a), Some(b)) => if acc.contains((a, b)) {
                acc
            } else {
                acc.push((a, b))
            },
            _ => acc,
        }
    }
}

/// The graph of `files` and the `(from, to)` requires between them.
pub open spec fn built_graph(files: Seq<Seq<char>>, pairs: Seq<(Seq<char>, Seq<char>)>) -> GraphView {
    GraphView {
        nodes: files,
        edges: edges_of(index_of(files), pairs),
        index: index_of(files),
    }
}

/// The paths of the nodes listed in `ids`.
pub open spec fn names_of(nodes: Seq<Seq<char>>, ids: Seq<usize>) -> Seq<Seq<char>> {
    ids.map_values(|i: usize| nodes[i as int])
}

/// The direct dependencies of `module`, sorted.
pub open spec fn dependencies_of(v: GraphView, module: Seq<char>) -> Seq<Seq<char>> {
    match vget(v.index, module) {
        Some(a) => sort_paths(names_of(v.nodes, out_targets(v.edges, a))),
        None => Seq::empty(),
    }
}

/// The first `k` nodes that no edge leads to, in index order.
pub open spec fn unrequired(v: GraphView, k: nat) -> Seq<Seq<char>>
    decreases k,
{
    if k == 0 {
        Seq::empty()
    } else {
        unrequired(v, (k - 1) as nat) + if in_sources(v.edges, (k - 1) as usize).len() == 0 {
            seq![v.nodes[k - 1]]
        } else {
            Seq::empty()
        }
    }
}

/// Whether some module other than node `k` requires it.
pub open spec fn required_by_other(v: GraphView, k: usize) -> bool {
    exists|q: int|
        0 <= q < in_sources(v.edges, k).len() && #[trigger] in_sources(v.edges, k)[q] != k
}

/// The first `k` nodes that no other node requires, in index order (a
/// module that requires only itself is among them).
pub open spec fn unrequired_by_others(v: GraphView, k: nat) -> Seq<Seq<char>>
    decreases k,
{
    if k == 0 {
        Seq::empty()
    } else {
        unrequired_by_others(v, (k - 1) as nat) + if !required_by_other(v, (k - 1) as usize) {
            seq![v.nodes[k - 1]]
        } else {
            Seq::empty()
        }
    }
}

/// The modules no other module requires, sorted.
pub open spec fn orphans_of(v: GraphView) -> Seq<Seq<char>> {
    sort_paths(unrequired_by_others(v, v.nodes.len()))
}

/// The modules nothing requires, sorted.
pub open spec fn entry_points_of(v: GraphView) -> Seq<Seq<char>> {
    sort_paths(unrequired(v, v.nodes.len()))
}

/// A component is a cycle when it has several modules, or one that
/// requires itself.
pub open spec fn is_cycle(v: GraphView, c: Seq<usize>) -> bool {
    c.len() > 1 || (c.len() == 1 && v.edges.contains((c[0], c[0])))
}

/// The cycles among `comps`, each as its sorted paths.
pub open spec fn cycle_lists(v: GraphView, comps: Seq<Seq<usize>>) -> Seq<Seq<Seq<char>>>
    decreases comps.len(),
{
    if comps.len() == 0 {
        Seq::empty()
    } else {
        cycle_lists(v, comps.drop_last()) + if is_cycle(v, comps.last()) {
            seq![sort_paths(names_of(v.nodes, comps.last()))]
        } else {
            Seq::empty()
        }
    }
}

pub open spec fn strs(v: Seq<String>) -> Seq<Seq<char>> {
    v.map_values(|s: String| s@)
}

proof fn lemma_index_keys(v: Seq<(String, usize)>)
    ensures
        index_view(v).map_values(|e: (Seq<char>, usize)| e.0) =~= keys_of(v),
{
}

proof fn lemma_out_targets_bounded(edges: Seq<(usize, usize)>, a: usize, n: nat)
    requires
        forall|k: int| #![trigger edges[k]] 0 <= k < edges.len() ==> edges[k].0 < n && edges[k].1 < n,
    ensures
        forall|k: int| 0 <= k < out_targets(edges, a).len() ==> #[trigger] out_targets(edges, a)[k] < n,
    decreases edges.len(),
{
    if edges.len() > 0 {
        let d = edges.drop_last();
        assert forall|k: int| #![trigger d[k]] 0 <= k < d.len() implies d[k].0 < n && d[k].1 < n by {
            assert(edges[k] == d[k]);
        }
        lemma_out_targets_bounded(d, a, n);
        let last = edges[edges.len() - 1];
        let head: Seq<usize> = if last.0 == a {
            seq![last.1]
        } else {
            Seq::empty()
        };
        assert(out_targets(edges, a) == head + out_targets(d, a));
        assert forall|k: int| 0 <= k < out_targets(edges, a).len() implies #[trigger] out_targets(
            edges,
            a,
        )[k] < n by {
            if k < head.len() {
            } else {
                assert(out_targets(edges, a)[k] == out_targets(d, a)[k - head.len()]);
            }
        }
    }
}

fn put_index(v: &mut Vec<(String, usize)>, k: String, val: usize)
    ensures
        index_view(final(v)@) == vput(index_view(old(v)@), k@, val),
{
    proof {
        lemma_index_keys(v@);
    }
    let ghost kv = k@;
    match get_index(v, k.as_str()) {
        Some(i) => {
            v.set(i, (k, val));
            assert(index_view(v@) =~= index_view(old(v)@).update(i as int, (kv, val)));
        },
        None => {
            v.push((k, val));
            assert(index_view(v@) =~= index_view(old(v)@).push((kv, val)));
        },
    }
}

fn index_lookup(v: &Vec<(String, usize)>, k: &str) -> (r: Option<usize>)
    ensures
        r == vget(index_view(v@), k@),
{
    proof {
        lemma_index_keys(v@);
    }
    match get_index(v, k) {
        Some(i) => Some(v[i].1),
        None => None,
    }
}

proof fn lemma_vput_bounded(s: Seq<(Seq<char>, usize)>, k: Seq<char>, val: usize, n: nat)
    requires
        forall|j: int| 0 <= j < s.len() ==> #[trigger] s[j].1 < n,
        val < n,
    ensures
        forall|j: int| 0 <= j < vput(s, k, val).len() ==> #[trigger] vput(s, k, val)[j].1 < n,
{
    crate::assoc::lemma_first_index(s.map_values(|e: (Seq<char>, usize)| e.0), k);
}

proof fn lemma_vget_bounded(s: Seq<(Seq<char>, usize)>, k: Seq<char>, n: nat)
    requires
        forall|j: int| 0 <= j < s.len() ==> #[trigger] s[j].1 < n,
    ensures
        vget(s, k) matches Some(v) ==> v < n,
{
    crate::assoc::lemma_first_index(s.map_values(|e: (Seq<char>, usize)| e.0), k);
}

impl ModuleGraph {
    /// The graph of `files` (paths relative to the project root) and the
    /// resolved `(from, to)` requires between them; pairs naming a path
    /// that is not among `files` are left out, and each edge is kept once.
    pub fn build(files: &Vec<String>, edges: &Vec<(String, String)>) -> (r: Self)
        requires
            files@.len() < u32::MAX,
            edges@.len() < u32::MAX,
        ensures
            r@ == built_graph(
                strs(files@),
                edges@.map_values(|e: (String, String)| (e.0@, e.1@)),
            ),
            graph_wf(r@),
    {
        let ghost fv = strs(files@);
        let ghost pv = edges@.map_values(|e: (String, String)| (e.0@, e.1@));
        let mut graph = new_graph();
        let mut index: Vec<(String, usize)> = Vec::new();
        let n = files.len();
        let mut i: usize = 0;
        assert(fv.take(0) =~= Seq::<Seq<char>>::empty());
        assert(index_view(index@) =~= Seq::<(Seq<char>, usize)>::empty());
        while i < n
            invariant
                n == files@.len(),
                n < u32::MAX,
                i <= n,
                fv == strs(files@),
                graph_nodes(graph) == fv.take(i as int),
                graph_edges(graph) == Seq::<(usize, usize)>::empty(),
                index_view(index@) == index_of(fv.take(i as int)),
                forall|j: int| 0 <= j < index@.len() ==> #[trigger] index_view(index@)[j].1 < i,
            decreases n - i,
        {
            let node = add_node(&mut graph, files[i].clone());
            proof {
                lemma_vput_bounded(index_view(index@), files@[i as int]@, node, (i + 1) as nat);
            }
            put_index(&mut index, files[i].clone(), node);
            assert(fv.take(i + 1).drop_last() =~= fv.take(i as int));
            assert(fv.take(i + 1) =~= fv.take(i as int).push(files@[i as int]@));
            i = i + 1;
        }
        assert(fv.take(n as int) =~= fv);
        let m = edges.len();
        let mut k: usize = 0;
        assert(pv.take(0) =~= Seq::<(Seq<char>, Seq<char>)>::empty());
        while k < m
            invariant
                m == edges@.len(),
                m < u32::MAX,
                k <= m,
                n == files@.len(),
                pv == edges@.map_values(|e: (String, String)| (e.0@, e.1@)),
                graph_nodes(graph) == fv,
                fv.len() == n,
                index_view(index@) == index_of(fv),
                forall|j: int| 0 <= j < index@.len() ==> #[trigger] index_view(index@)[j].1 < n,
                graph_edges(graph) == edges_of(index_of(fv), pv.take(k as int)),
                graph_edges(graph).len() <= k,
                graph_wf(GraphView { nodes: fv, edges: graph_edges(graph), index: index_of(fv) }),
            decreases m - k,
        {
            assert(pv.take(k + 1).drop_last() =~= pv.take(k as int));
            assert(pv.take(k + 1).last() == (edges@[k as int].0@, edges@[k as int].1@));
            let from = index_lookup(&index, edges[k].0.as_str());
            let to = index_lookup(&index, edges[k].1.as_str());
            proof {
                lemma_vget_bounded(index_view(index@), edges@[k as int].0@, n as nat);
                lemma_vget_bounded(index_view(index@), edges@[k as int].1@, n as nat);
            }
            if let (Some(a), Some(b)) = (from, to) {
                let ghost before = graph_edges(graph);
                update_edge(&mut graph, a, b);
                proof {
                    if !before.contains((a, b)) {
                        let after = before.push((a, b));
                        assert forall|x: int, y: int| 0 <= x < y < after.len() implies after[x]
                            != after[y] by {
                            if y == after.len() - 1 {
                                assert(before[x] == after[x]);
                            }
                        }
                        assert forall|q: int| #![trigger after[q]] 0 <= q < after.len() implies after[q].0
                            < n && after[q].1 < n by {
                            if q < before.len() {
                                assert(after[q] == before[q]);
                            }
                        }
                    }
                }
            }
            k = k + 1;
        }
        assert(pv.take(m as int) =~= pv);
        ModuleGraph { graph, index }
    }

    /// All modules in the graph, sorted by path.
    pub fn modules(&self) -> (r: Vec<String>)
        ensures
            strs(r@) == sort_paths(self@.nodes),
    {
        sort_paths_exec(node_weights(&self.graph))
    }

    /// Direct dependencies of `module`, sorted; empty for an unknown module.
    pub fn dependencies(&self, module: &str) -> (r: Vec<String>)
        ensures
            strs(r@) == dependencies_of(self@, module@),
            graph_wf(self@),
    {
        proof {
            use_type_invariant(self);
        }
        let a = match index_lookup(&self.index, module) {
            Some(a) => a,
            None => {
                let empty: Vec<String> = Vec::new();
                assert(strs(empty@) =~= Seq::<Seq<char>>::empty());
                return empty;
            },
        };
        proof {
            lemma_vget_bounded(self@.index, module@, self@.nodes.len());
        }
        let names = node_weights(&self.graph);
        let targets = neighbors(&self.graph, a, false);
        proof {
            lemma_out_targets_bounded(self@.edges, a, self@.nodes.len());
        }
        let mut deps: Vec<String> = Vec::new();
        let mut k: usize = 0;
        while k < targets.len()
            invariant
                k <= targets@.len(),
                targets@ == out_targets(self@.edges, a),
                strs(names@) == self@.nodes,
                forall|q: int| 0 <= q < targets@.len() ==> #[trigger] targets@[q] < self@.nodes.len(),
                strs(deps@) == names_of(self@.nodes, targets@.take(k as int)),
            decreases targets@.len() - k,
        {
            let t = targets[k];
            assert(names@[t as int]@ == self@.nodes[t as int]);
            let name = names[t].clone();
            assert(name@ == self@.nodes[t as int]);
            let ghost before = deps@;
            deps.push(name);
            assert(strs(deps@) =~= strs(before).push(self@.nodes[t as int]));
            assert(targets@.take(k + 1) =~= targets@.take(k as int).push(t));
            assert(names_of(self@.nodes, targets@.take(k + 1)) =~= names_of(
                self@.nodes,
                targets@.take(k as int),
            ).push(self@.nodes[t as int]));
            k = k + 1;
        }
        assert(targets@.take(targets@.len() as int) =~= targets@);
        sort_paths_exec(deps)
    }

    /// Modules that no module requires, sorted.
    pub fn entry_points(&self) -> (r: Vec<String>)
        ensures
            strs(r@) == entry_points_of(self@),
            graph_wf(self@),
    {
        proof {
            use_type_invariant(self);
        }
        let names = node_weights(&self.graph);
        let n = names.len();
        let mut entries: Vec<String> = Vec::new();
        let mut k: usize = 0;
        assert(strs(entries@) =~= Seq::<Seq<char>>::empty());
        while k < n
            invariant
                n == self@.nodes.len(),
                strs(names@) == self@.nodes,
                k <= n,
                strs(entries@) == unrequired(self@, k as nat),
            decreases n - k,
        {
            let incoming = neighbors(&self.graph, k, true);
            if incoming.len() == 0 {
                entries.push(names[k].clone());
            }
            k = k + 1;
            assert(strs(entries@) =~= unrequired(self@, k as nat));
        }
        sort_paths_exec(entries)
    }

    /// Modules that no other module requires, sorted.
    pub fn orphans(&self) -> (r: Vec<String>)
        ensures
            strs(r@) == orphans_of(self@),
    {
        proof {
            use_type_invariant(self);
        }
        let names = node_weights(&self.graph);
        let n = names.len();
        let mut found: Vec<String> = Vec::new();
        let mut k: usize = 0;
        assert(strs(found@) =~= Seq::<Seq<char>>::empty());
        while k < n
            invariant
                n == self@.nodes.len(),
                strs(names@) == self@.nodes,
                k <= n,
                strs(found@) == unrequired_by_others(self@, k as nat),
            decreases n - k,
        {
            let incoming = neighbors(&self.graph, k, true);
            let mut other = false;
            let mut q: usize = 0;
            while q < incoming.len()
                invariant
                    q <= incoming@.len(),
                    incoming@ == in_sources(self@.edges, k),
                    other == exists|j: int| 0 <= j < q && #[trigger] incoming@[j] != k,
                decreases incoming@.len() - q,
            {
                if incoming[q] != k {
                    other = true;
                }
                q = q + 1;
            }
            if !other {
                found.push(names[k].clone());
            }
            k = k + 1;
            assert(strs(found@) =~= unrequired_by_others(self@, k as nat));
        }
        sort_paths_exec(found)
    }

    /// All dependency cycles, each as its sorted module paths, in sorted
    /// order. A module requiring itself counts as a cycle.
    pub fn cycles(&self) -> (r: Vec<Vec<String>>)
        ensures
            exists|comps: Seq<Seq<usize>>|
                scc_partition(self@.nodes.len(), self@.edges, comps) && lists_view(r@)
                    == sort_lists(cycle_lists(self@, comps)),
    {
        let comps = strongly_connected(&self.graph);
        let ghost cv = comps@.map_values(|c: Vec<usize>| c@);
        let names = node_weights(&self.graph);
        let mut found: Vec<Vec<String>> = Vec::new();
        let mut i: usize = 0;
        assert(cv.take(0) =~= Seq::<Seq<usize>>::empty());
        assert(lists_view(found@) =~= Seq::<Seq<Seq<char>>>::empty());
        while i < comps.len()
            invariant
                i <= comps@.len(),
                cv == comps@.map_values(|c: Vec<usize>| c@),
                scc_partition(self@.nodes.len(), self@.edges, cv),
                strs(names@) == self@.nodes,
                lists_view(found@) == cycle_lists(self@, cv.take(i as int)),
            decreases comps@.len() - i,
        {
            let c = &comps[i];
            assert(cv[i as int] == c@);
            let cyc = c.len() > 1 || (c.len() == 1 && contains_edge(&self.graph, c[0], c[0]));
            let ghost before = lists_view(found@);
            if cyc {
                let mut members: Vec<String> = Vec::new();
                let mut k: usize = 0;
                while k < c.len()
                    invariant
                        k <= c@.len(),
                        cv[i as int] == c@,
                        i < cv.len(),
                        scc_partition(self@.nodes.len(), self@.edges, cv),
                        strs(names@) == self@.nodes,
                        strs(members@) == names_of(self@.nodes, c@.take(k as int)),
                    decreases c@.len() - k,
                {
                    assert(cv[i as int][k as int] < self@.nodes.len());
                    let t = c[k];
                    assert(names@[t as int]@ == self@.nodes[t as int]);
                    let name = names[t].clone();
                    assert(name@ == self@.nodes[t as int]);
                    let ghost before = members@;
                    members.push(name);
                    assert(strs(members@) =~= strs(before).push(self@.nodes[t as int]));
                    assert(c@.take(k + 1) =~= c@.take(k as int).push(t));
                    assert(names_of(self@.nodes, c@.take(k + 1)) =~= names_of(
                        self@.nodes,
                        c@.take(k as int),
                    ).push(self@.nodes[t as int]));
                    k = k + 1;
                }
                assert(c@.take(c@.len() as int) =~= c@);
                let sorted = sort_paths_exec(members);
                found.push(sorted);
                assert(lists_view(found@) =~= before.push(sort_paths(names_of(self@.nodes, c@))));
            }
            assert(cv.take(i + 1).drop_last() =~= cv.take(i as int));
            assert(lists_view(found@) =~= cycle_lists(self@, cv.take(i + 1)));
            i = i + 1;
        }
        assert(cv.take(comps@.len() as int) =~= cv);
        sort_lists_exec(found)
    }
}

// ---- what the reported cycles are ----

/// Two distinct modules that each reach the other lie in one component,
/// and that component is reported as a cycle.
pub proof fn lemma_mutual_requires_form_a_cycle(
    v: GraphView,
    comps: Seq<Seq<usize>>,
    x: usize,
    y: usize,
)
    requires
        scc_partition(v.nodes.len(), v.edges, comps),
        x < v.nodes.len(),
        y < v.nodes.len(),
        x != y,
        reaches(v.edges, x, y),
        reaches(v.edges, y, x),
    ensures
        exists|i: int|
            0 <= i < comps.len() && #[trigger] is_cycle(v, comps[i]) && comps[i].contains(x)
                && comps[i].contains(y),
{
    assert(in_some(comps, x));
    assert(in_some(comps, y));
    let (i, k) = choose|i: int, k: int| 0 <= i < comps.len() && 0 <= k < comps[i].len() && #[trigger] comps[i][k] == x;
    let (j, l) = choose|j: int, l: int| 0 <= j < comps.len() && 0 <= l < comps[j].len() && #[trigger] comps[j][l] == y;
    assert(i == j);
    assert(k != l);
    assert(comps[i].len() > 1);
    assert(is_cycle(v, comps[i]));
    assert(comps[i].contains(x));
    assert(comps[i].contains(y));
}

/// A module that requires itself is reported as a cycle.
pub proof fn lemma_self_require_is_a_cycle(v: GraphView, comps: Seq<Seq<usize>>, x: usize)
    requires
        scc_partition(v.nodes.len(), v.edges, comps),
        x < v.nodes.len(),
        v.edges.contains((x, x)),
    ensures
        exists|i: int| 0 <= i < comps.len() && #[trigger] is_cycle(v, comps[i]) && comps[i].contains(x),
{
    assert(in_some(comps, x));
    let (i, k) = choose|i: int, k: int| 0 <= i < comps.len() && 0 <= k < comps[i].len() && #[trigger] comps[i][k] == x;
    if comps[i].len() == 1 {
        assert(comps[i][0] == x);
    }
    assert(is_cycle(v, comps[i]));
    assert(comps[i].contains(x));
}

/// Every module of a reported cycle reaches every other one, and a cycle
/// of one module requires itself.
pub proof fn lemma_cycle_members_reach_each_other(
    v: GraphView,
    comps: Seq<Seq<usize>>,
    i: int,
    k: int,
    l: int,
)
    requires
        scc_partition(v.nodes.len(), v.edges, comps),
        0 <= i < comps.len(),
        is_cycle(v, comps[i]),
        0 <= k < comps[i].len(),
        0 <= l < comps[i].len(),
    ensures
        reaches(v.edges, comps[i][k], comps[i][l]),
        comps[i].len() == 1 ==> v.edges.contains((comps[i][0], comps[i][0])),
{
    assert(comps[i][k] == comps[i][k] && comps[i][l] == comps[i][l]);
}

proof fn lemma_sorted_members(s: Seq<Seq<char>>, nodes: Seq<Seq<char>>)
    requires
        forall|k: int| 0 <= k < s.len() ==> nodes.contains(#[trigger] s[k]),
    ensures
        forall|k: int| 0 <= k < sort_paths(s).len() ==> nodes.contains(#[trigger] sort_paths(s)[k]),
{
    broadcast use vstd::seq_lib::group_to_multiset_ensures;
    crate::order::lemma_sort_paths(s);
    let r = sort_paths(s);
    assert forall|k: int| 0 <= k < r.len() implies nodes.contains(#[trigger] r[k]) by {
        assert(r.to_multiset().count(r[k]) > 0);
        assert(s.to_multiset().count(r[k]) > 0);
        let j = choose|j: int| 0 <= j < s.len() && s[j] == r[k];
        assert(nodes.contains(s[j]));
    }
}

/// Every dependency a well-formed graph lists is one of its modules.
pub proof fn lemma_dependencies_are_modules(v: GraphView, module: Seq<char>)
    requires
        graph_wf(v),
    ensures
        forall|k: int|
            0 <= k < dependencies_of(v, module).len() ==> v.nodes.contains(
                #[trigger] dependencies_of(v, module)[k],
            ),
{
    if let Some(a) = vget(v.index, module) {
        lemma_out_targets_bounded(v.edges, a, v.nodes.len());
        let names = names_of(v.nodes, out_targets(v.edges, a));
        assert forall|k: int| 0 <= k < names.len() implies v.nodes.contains(#[trigger] names[k]) by {
            let b = out_targets(v.edges, a)[k];
            assert(v.nodes[b as int] == names[k]);
        }
        lemma_sorted_members(names, v.nodes);
    }
}

proof fn lemma_unrequired_are_modules(v: GraphView, k: nat)
    requires
        k <= v.nodes.len(),
    ensures
        forall|j: int| 0 <= j < unrequired(v, k).len() ==> v.nodes.contains(#[trigger] unrequired(v, k)[j]),
    decreases k,
{
    if k > 0 {
        lemma_unrequired_are_modules(v, (k - 1) as nat);
        let front = unrequired(v, (k - 1) as nat);
        assert forall|j: int| 0 <= j < unrequired(v, k).len() implies v.nodes.contains(
            #[trigger] unrequired(v, k)[j],
        ) by {
            if j < front.len() {
                assert(unrequired(v, k)[j] == front[j]);
            } else {
                assert(unrequired(v, k)[j] == v.nodes[k - 1]);
            }
        }
    }
}

/// Every entry point is one of the graph's modules.
pub proof fn lemma_entry_points_are_modules(v: GraphView)
    ensures
        forall|k: int| 0 <= k < entry_points_of(v).len() ==> v.nodes.contains(#[trigger] entry_points_of(v)[k]),
{
    lemma_unrequired_are_modules(v, v.nodes.len());
    lemma_sorted_members(unrequired(v, v.nodes.len()), v.nodes);
}

/// A module is among those no other module requires exactly when no other
/// module requires it.
pub proof fn lemma_orphans_are_unrequired(v: GraphView)
    ensures
        forall|k: int|
            0 <= k < v.nodes.len() && !required_by_other(v, k as usize) ==> orphans_of(v).contains(
                #[trigger] v.nodes[k],
            ),
        forall|i: int|
            #![trigger orphans_of(v)[i]]
            0 <= i < orphans_of(v).len() ==> exists|k: int|
                0 <= k < v.nodes.len() && !required_by_other(v, k as usize) && #[trigger] v.nodes[k]
                    == orphans_of(v)[i],
{
    broadcast use vstd::seq_lib::group_to_multiset_ensures;
    lemma_unrequired_by_others(v, v.nodes.len());
    let u = unrequired_by_others(v, v.nodes.len());
    crate::order::lemma_sort_paths(u);
    assert forall|k: int| 0 <= k < v.nodes.len() && !required_by_other(v, k as usize) implies orphans_of(
        v,
    ).contains(#[trigger] v.nodes[k]) by {
        assert(u.contains(v.nodes[k]));
        assert(u.to_multiset().count(v.nodes[k]) > 0);
        assert(orphans_of(v).to_multiset().count(v.nodes[k]) > 0);
    }
    assert forall|i: int| #![trigger orphans_of(v)[i]] 0 <= i < orphans_of(v).len() implies exists|k: int|
        0 <= k < v.nodes.len() && !required_by_other(v, k as usize) && #[trigger] v.nodes[k]
            == orphans_of(v)[i] by {
        let x = orphans_of(v)[i];
        assert(orphans_of(v).to_multiset().count(x) > 0);
        assert(u.to_multiset().count(x) > 0);
        assert(u.contains(x));
    }
}

proof fn lemma_unrequired_by_others_distinct(v: GraphView, n: nat)
    requires
        n <= v.nodes.len(),
        v.nodes.no_duplicates(),
    ensures
        unrequired_by_others(v, n).no_duplicates(),
    decreases n,
{
    if n > 0 {
        let m = (n - 1) as nat;
        lemma_unrequired_by_others_distinct(v, m);
        lemma_unrequired_by_others(v, m);
        let front = unrequired_by_others(v, m);
        if !required_by_other(v, m as usize) {
            assert(unrequired_by_others(v, n) == front.push(v.nodes[m as int]));
            assert forall|i: int| 0 <= i < front.len() implies front[i] != v.nodes[m as int] by {
                let k = choose|k: int|
                    0 <= k < m && !required_by_other(v, k as usize) && #[trigger] v.nodes[k] == front[i];
                assert(v.nodes[k] != v.nodes[m as int]);
            }
            assert(unrequired_by_others(v, n).no_duplicates()) by {
                let all = unrequired_by_others(v, n);
                assert forall|i: int, j: int| 0 <= i < all.len() && 0 <= j < all.len() && i != j implies all[i]
                    != all[j] by {
                    if i < front.len() && j < front.len() {
                        assert(all[i] == front[i] && all[j] == front[j]);
                    } else if i < front.len() {
                        assert(all[i] == front[i]);
                    } else {
                        assert(all[j] == front[j]);
                    }
                }
            }
        } else {
            assert(unrequired_by_others(v, n) =~= front);
        }
    }
}

/// Where no path names two nodes, no module is listed twice among those
/// that no other module requires.
pub proof fn lemma_orphans_distinct(v: GraphView)
    requires
        v.nodes.no_duplicates(),
    ensures
        orphans_of(v).no_duplicates(),
{
    broadcast use vstd::multiset::group_multiset_axioms;

    let u = unrequired_by_others(v, v.nodes.len());
    lemma_unrequired_by_others_distinct(v, v.nodes.len());
    crate::order::lemma_sort_paths(u);
    u.lemma_multiset_has_no_duplicates();
    orphans_of(v).lemma_multiset_has_no_duplicates_conv();
}

proof fn lemma_unrequired_by_others(v: GraphView, n: nat)
    requires
        n <= v.nodes.len(),
    ensures
        forall|k: int|
            0 <= k < n && !required_by_other(v, k as usize) ==> unrequired_by_others(v, n).contains(
                #[trigger] v.nodes[k],
            ),
        forall|i: int|
            #![trigger unrequired_by_others(v, n)[i]]
            0 <= i < unrequired_by_others(v, n).len() ==> exists|k: int|
                0 <= k < n && !required_by_other(v, k as usize) && #[trigger] v.nodes[k]
                    == unrequired_by_others(v, n)[i],
    decreases n,
{
    if n > 0 {
        let m = (n - 1) as nat;
        lemma_unrequired_by_others(v, m);
        let front = unrequired_by_others(v, m);
        let all = unrequired_by_others(v, n);
        assert forall|k: int| 0 <= k < n && !required_by_other(v, k as usize) implies all.contains(
            #[trigger] v.nodes[k],
        ) by {
            if k < m {
                let j = choose|j: int| 0 <= j < front.len() && front[j] == v.nodes[k];
                assert(all[j] == front[j]);
            } else {
                assert(all[front.len() as int] == v.nodes[k]);
            }
        }
        assert forall|i: int| #![trigger all[i]] 0 <= i < all.len() implies exists|k: int|
            0 <= k < n && !required_by_other(v, k as usize) && #[trigger] v.nodes[k] == all[i] by {
            if i < front.len() {
                assert(all[i] == front[i]);
                let k = choose|k: int|
                    0 <= k < m && !required_by_other(v, k as usize) && #[trigger] v.nodes[k] == front[i];
                assert(v.nodes[k] == all[i]);
            } else {
                assert(v.nodes[m as int] == all[i]);
            }
        }
    }
}

} // verus!
