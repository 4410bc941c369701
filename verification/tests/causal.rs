use sealrun::causal_graph::{build_causal_graph, outgoing_from_node_index, CausalEdge, CausalGraph, CausalNode};
use sealrun::causal_path::trace_path;
use sealrun::causal_query::{
    causal_query_completeness_score, first_divergent_causal_node, node_by_id, query_causes, query_effects,
};
use sealrun::evaluation::causal_graph_completeness_score;
use sealrun::structure_diff::{diff_graph, diff_traces};
use sealrun::trace::{ExecutionEvent, ExecutionTrace};

fn trace(stdout: &str) -> ExecutionTrace {
    ExecutionTrace {
        run_id: "r".to_string(),
        events: vec![
            ExecutionEvent::Spawn { command: "echo hi".to_string() },
            ExecutionEvent::EnvResolved { keys: vec!["PATH".to_string()] },
            ExecutionEvent::Stdout { chunk: stdout.to_string() },
            ExecutionEvent::Exit { code: 0 },
        ],
    }
}

fn node(id: &str, index: usize) -> CausalNode {
    CausalNode { id: id.to_string(), index, event_type: "stdout".to_string(), surface: String::new() }
}

fn edge(from: &str, to: &str) -> CausalEdge {
    CausalEdge { from: from.to_string(), to: to.to_string(), relation: "precedes".to_string() }
}

fn ids(v: &[CausalNode]) -> Vec<&str> {
    v.iter().map(|n| n.id.as_str()).collect()
}

#[test]
fn graph_has_one_node_per_event_and_a_chain_of_edges() {
    let g = build_causal_graph(&trace("hi\n"));
    assert_eq!(g.run_id, "r");
    assert_eq!(ids(&g.nodes), vec!["n0", "n1", "n2", "n3"]);
    assert_eq!(g.nodes[2].event_type, "stdout");
    assert_eq!(g.nodes[2].surface, "hi\n");
    assert_eq!(g.nodes[1].surface, "PATH");
    assert_eq!(g.nodes[3].surface, "0");
    assert_eq!(g.edges.len(), 3);
    assert_eq!(g.edges[1].from, "n1");
    assert_eq!(g.edges[1].to, "n2");
    assert_eq!(g.edges[1].relation, "precedes");
    assert_eq!(outgoing_from_node_index(&g, 3).map(|e| e.to.clone()), None);
    assert_eq!(outgoing_from_node_index(&g, 0).map(|e| e.to.clone()), Some("n1".to_string()));
}

#[test]
fn causes_and_effects_are_index_ordered() {
    let g = CausalGraph {
        run_id: "x".to_string(),
        nodes: vec![node("a", 0), node("b", 1), node("c", 2), node("d", 3)],
        edges: vec![edge("c", "d"), edge("a", "d"), edge("b", "d"), edge("d", "b"), edge("d", "a")],
    };
    assert_eq!(ids(&query_causes(&g, "d")), vec!["a", "b", "c"]);
    assert_eq!(ids(&query_effects(&g, "d")), vec!["a", "b"]);
    assert!(query_causes(&g, "zz").is_empty());
    assert_eq!(node_by_id(&g, "c").map(|n| n.index), Some(2));
}

#[test]
fn trace_path_finds_a_shortest_path() {
    let g = CausalGraph {
        run_id: "x".to_string(),
        nodes: vec![node("a", 0), node("b", 1), node("c", 2), node("d", 3), node("e", 4)],
        edges: vec![edge("a", "b"), edge("b", "c"), edge("c", "d"), edge("a", "e"), edge("e", "d")],
    };
    assert_eq!(ids(&trace_path(&g, "a", "d")), vec!["a", "e", "d"]);
    assert_eq!(ids(&trace_path(&g, "a", "c")), vec!["a", "b", "c"]);
    assert!(trace_path(&g, "d", "a").is_empty());
    assert_eq!(ids(&trace_path(&g, "b", "b")), vec!["b"]);
    assert!(trace_path(&g, "zz", "zz").is_empty());
}

#[test]
fn trace_path_picks_the_shortest_path_whose_edges_come_first() {
    let nodes = || vec![node("a", 0), node("b", 1), node("d", 2), node("e", 3)];
    let g = CausalGraph {
        run_id: "x".to_string(),
        nodes: nodes(),
        edges: vec![edge("a", "b"), edge("a", "e"), edge("e", "d"), edge("b", "d")],
    };
    assert_eq!(ids(&trace_path(&g, "a", "d")), vec!["a", "b", "d"]);
    let h = CausalGraph {
        run_id: "x".to_string(),
        nodes: nodes(),
        edges: vec![edge("a", "e"), edge("a", "b"), edge("b", "d"), edge("e", "d")],
    };
    assert_eq!(ids(&trace_path(&h, "a", "d")), vec!["a", "e", "d"]);
}

#[test]
fn trace_path_skips_ids_without_nodes_and_handles_cycles() {
    let g = CausalGraph {
        run_id: "x".to_string(),
        nodes: vec![node("a", 0), node("c", 2)],
        edges: vec![edge("a", "ghost"), edge("ghost", "a"), edge("ghost", "c")],
    };
    assert_eq!(ids(&trace_path(&g, "a", "c")), vec!["a", "c"]);
}

#[test]
fn trace_path_breaks_ties_by_edge_order() {
    let g = CausalGraph {
        run_id: "x".to_string(),
        nodes: vec![node("s", 0), node("p", 1), node("q", 2), node("t", 3)],
        edges: vec![edge("s", "q"), edge("s", "p"), edge("p", "t"), edge("q", "t")],
    };
    assert_eq!(ids(&trace_path(&g, "s", "t")), vec!["s", "q", "t"]);
}

#[test]
fn divergence_is_found_structurally() {
    let ga = build_causal_graph(&trace("hi\n"));
    let gb = build_causal_graph(&trace("bye\n"));
    let d = first_divergent_causal_node(&ga, &gb).expect("stdout surface differs");
    assert_eq!(d.id, "n2");
    assert_eq!(d.surface, "bye\n");
    assert!(first_divergent_causal_node(&ga, &build_causal_graph(&trace("hi\n"))).is_none());
    let mut short = trace("hi\n");
    short.events.pop();
    let gs = build_causal_graph(&short);
    assert_eq!(first_divergent_causal_node(&gs, &ga).map(|n| n.id), Some("n3".to_string()));
}

#[test]
fn completeness_scores_are_full() {
    assert_eq!(causal_query_completeness_score(), 3);
    assert_eq!(causal_graph_completeness_score(), 3);
}

#[test]
fn trace_diff_reports_changes_removals_and_additions() {
    let a = trace("hi\n");
    let mut b = trace("bye\n");
    b.events.push(ExecutionEvent::Timing { duration_ms: 7 });
    let d = diff_traces(&a, &b);
    assert_eq!(
        d,
        vec![
            "event[2] changed: Stdout { chunk: \"hi\\n\" } → Stdout { chunk: \"bye\\n\" }".to_string(),
            "event[4] added: Timing { duration_ms: 7 }".to_string(),
        ]
    );
    let r = diff_traces(&b, &a);
    assert_eq!(r[1], "event[4] removed: Timing { duration_ms: 7 }");
    assert!(diff_traces(&a, &trace("hi\n")).is_empty());
}

#[test]
fn graph_diff_reports_counts_and_edges() {
    let ga = build_causal_graph(&trace("hi\n"));
    let mut short = trace("hi\n");
    short.events.pop();
    let gs = build_causal_graph(&short);
    assert_eq!(
        diff_graph(&ga, &gs),
        "node count: 4 vs 3\nedge count: 3 vs 2\nedge[2]: n2|n3|precedes vs <missing>\n"
    );
    assert_eq!(diff_graph(&ga, &build_causal_graph(&trace("x"))), "identical causal graphs\n");
}

#[test]
fn graphs_diverge_at_the_first_node_of_another_kind() {
    let g = || CausalGraph {
        run_id: "x".to_string(),
        nodes: vec![node("a", 0), node("b", 1)],
        edges: vec![edge("a", "b")],
    };
    assert!(first_divergent_causal_node(&g(), &g()).is_none());
    let mut other = g();
    other.nodes[1].event_type = "exit".to_string();
    assert_eq!(first_divergent_causal_node(&g(), &other).map(|n| n.event_type), Some("exit".to_string()));
    let mut longer = g();
    longer.nodes.push(node("c", 2));
    assert_eq!(first_divergent_causal_node(&g(), &longer).map(|n| n.id), Some("c".to_string()));
    assert_eq!(first_divergent_causal_node(&longer, &g()).map(|n| n.id), Some("c".to_string()));
}
