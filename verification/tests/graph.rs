use aster_analysis::graph::ModuleGraph;
use aster_analysis::order::{path_less, sort_paths_exec};
use aster_analysis::render::render_tree;

fn p(s: &str) -> String {
    s.to_string()
}

fn edge(a: &str, b: &str) -> (String, String) {
    (p(a), p(b))
}

#[test]
fn builds_nodes_and_edges() {
    let graph = ModuleGraph::build(
        &vec![p("main.lua"), p("a.lua"), p("b.lua")],
        &vec![edge("main.lua", "a.lua"), edge("main.lua", "b.lua")],
    );
    assert_eq!(graph.modules(), vec![p("a.lua"), p("b.lua"), p("main.lua")]);
    assert_eq!(graph.dependencies("main.lua"), vec![p("a.lua"), p("b.lua")]);
    assert!(graph.dependencies("a.lua").is_empty());
    assert!(graph.dependencies("unknown.lua").is_empty());
}

#[test]
fn entry_points_have_no_incoming_edges() {
    let graph = ModuleGraph::build(&vec![p("main.lua"), p("a.lua")], &vec![edge("main.lua", "a.lua")]);
    assert_eq!(graph.entry_points(), vec![p("main.lua")]);
}

#[test]
fn duplicate_edges_are_not_duplicated_in_dependencies() {
    let graph = ModuleGraph::build(
        &vec![p("main.lua"), p("a.lua")],
        &vec![edge("main.lua", "a.lua"), edge("main.lua", "a.lua")],
    );
    assert_eq!(graph.dependencies("main.lua"), vec![p("a.lua")]);
}

#[test]
fn detects_cycles() {
    let graph = ModuleGraph::build(
        &vec![p("a.lua"), p("b.lua")],
        &vec![edge("a.lua", "b.lua"), edge("b.lua", "a.lua")],
    );
    assert_eq!(graph.cycles(), vec![vec![p("a.lua"), p("b.lua")]]);
}

#[test]
fn detects_self_loop_cycle() {
    let graph = ModuleGraph::build(&vec![p("a.lua")], &vec![edge("a.lua", "a.lua")]);
    assert_eq!(graph.cycles(), vec![vec![p("a.lua")]]);
}

#[test]
fn acyclic_graph_has_no_cycles() {
    let graph = ModuleGraph::build(&vec![p("main.lua"), p("a.lua")], &vec![edge("main.lua", "a.lua")]);
    assert!(graph.cycles().is_empty());
}

#[test]
fn edges_to_unknown_files_are_dropped() {
    let graph = ModuleGraph::build(&vec![p("main.lua")], &vec![edge("main.lua", "ghost.lua")]);
    assert!(graph.dependencies("main.lua").is_empty());
    assert_eq!(graph.entry_points(), vec![p("main.lua")]);
}

#[test]
fn cycles_are_sorted_and_separate() {
    let graph = ModuleGraph::build(
        &vec![p("z.lua"), p("y.lua"), p("c.lua"), p("d.lua"), p("main.lua")],
        &vec![
            edge("z.lua", "y.lua"),
            edge("y.lua", "z.lua"),
            edge("d.lua", "c.lua"),
            edge("c.lua", "d.lua"),
            edge("main.lua", "z.lua"),
        ],
    );
    assert_eq!(
        graph.cycles(),
        vec![vec![p("c.lua"), p("d.lua")], vec![p("y.lua"), p("z.lua")]]
    );
    assert_eq!(graph.entry_points(), vec![p("main.lua")]);
}

#[test]
fn paths_sort_component_by_component() {
    assert!(path_less("a/b.lua", "a-b.lua"));
    assert!(path_less("a.lua", "ab/c.lua"));
    assert!(!path_less("b.lua", "a.lua"));
    assert!(!path_less("a.lua", "a.lua"));
    assert_eq!(
        sort_paths_exec(vec![p("lib-x.lua"), p("lib/util.lua"), p("config.lua")]),
        vec![p("config.lua"), p("lib/util.lua"), p("lib-x.lua")]
    );
}

#[test]
fn tree_expands_each_module_once() {
    let graph = ModuleGraph::build(
        &vec![p("main.lua"), p("a.lua"), p("b.lua")],
        &vec![edge("main.lua", "a.lua"), edge("main.lua", "b.lua"), edge("a.lua", "b.lua")],
    );
    assert_eq!(
        render_tree(&graph),
        "└── main.lua\n    ├── a.lua\n    │   └── b.lua\n    └── b.lua\n"
    );
}

#[test]
fn tree_marks_a_module_met_again_on_its_branch() {
    let graph = ModuleGraph::build(
        &vec![p("main.lua"), p("a.lua"), p("b.lua")],
        &vec![edge("main.lua", "a.lua"), edge("a.lua", "b.lua"), edge("b.lua", "a.lua")],
    );
    assert_eq!(
        render_tree(&graph),
        "└── main.lua\n    └── a.lua\n        └── b.lua\n            └── a.lua (cycle)\n"
    );
}

#[test]
fn tree_draws_every_entry_point() {
    let graph = ModuleGraph::build(&vec![p("x.lua"), p("y.lua")], &vec![]);
    assert_eq!(render_tree(&graph), "├── x.lua\n└── y.lua\n");
}
