use sealrun::bundle::{doctor_ok, graph_to_dot, html_escape, policy_list_report, trim_graph_depth, DocEdge, DocNode, GraphDoc};
use sealrun::envelope::{fingerprint_from_parts, kernel_version_from, freeze_time_ms, hostname_from, sha256_short};
use sealrun::event_store::{
    events_file_name, events_temp_file_name, load_event_stream, save_event_stream, EventStreamFile,
    EVENT_STREAM_SCHEMA_V1,
};
use sealrun::kernel::{
    abs_diff, cmd_spec_json, command_spec_json, duration_drift_json, kernel_library_path, kernel_response,
};
use sealrun::registry::{
    available_tool_names, lookup_entry, register_tools, resolve_tool, route, AionCli, AionError, Executor, ReproTool,
};
use sealrun::trace::{ExecutionEvent, ExecutionTrace};

fn trace() -> ExecutionTrace {
    ExecutionTrace {
        run_id: "run-1".to_string(),
        events: vec![ExecutionEvent::Spawn { command: "echo".to_string() }, ExecutionEvent::Exit { code: 3 }],
    }
}

#[test]
fn event_stream_round_trips() {
    let t = trace();
    let f = save_event_stream("run-1", &t);
    assert_eq!(f.schema, EVENT_STREAM_SCHEMA_V1);
    assert_eq!(f.run_id, "run-1");
    let back = load_event_stream(f, "run-1").expect("same run");
    assert_eq!(back.run_id, "run-1");
    assert_eq!(back.events.len(), 2);
    assert!(back.events[1].same_as(&t.events[1]));
    assert_eq!(events_file_name("run-1"), "run-1.events.json");
    assert_eq!(events_temp_file_name("run-1"), "run-1.events.json.tmp");
}

#[test]
fn event_stream_rejects_other_schema_or_run() {
    let f = EventStreamFile { schema: "v0".to_string(), run_id: "a".to_string(), events: vec![] };
    assert_eq!(load_event_stream(f, "a").unwrap_err(), "unsupported event stream schema: v0");
    let f = save_event_stream("a", &trace());
    assert_eq!(
        load_event_stream(f, "b").unwrap_err(),
        "event stream run_id mismatch: file a vs requested b"
    );
}

#[test]
fn frozen_time_wraps_around() {
    assert_eq!(freeze_time_ms(1_000, 5), 1_005);
    assert_eq!(freeze_time_ms(u64::MAX as u128, 2), 1);
    assert_eq!(freeze_time_ms((1u128 << 64) + 7, 1), 8);
}

#[test]
fn fingerprint_hashes_host_identity() {
    let short = sha256_short("abc");
    assert_eq!(short, "ba7816bf8f01cfea414140de5dae2223");
    let f = fingerprint_from_parts("x86_64", "unix", "linux", "Linux 6.1", "box", "/usr/bin/aion");
    assert_eq!(f.cpu_features, "x86_64 unix");
    assert_eq!(f.os_version, "linux");
    assert_eq!(f.kernel_version, "Linux 6.1");
    assert_eq!(f.hostname_hash, sha256_short("box"));
    assert_eq!(f.binary_hash.len(), 32);
    assert_ne!(f.hostname_hash, f.binary_hash);
    assert_eq!(hostname_from(None, Some("h"), Some("x")), "h");
    assert_eq!(hostname_from(Some("c"), Some("h"), None), "c");
    assert_eq!(hostname_from(None, None, None), "");
}

#[test]
fn registry_has_repro_only() {
    let tools = register_tools();
    assert_eq!(tools.len(), 1);
    assert_eq!(tools[0].spec.name, "repro");
    assert_eq!(tools[0].executor, Executor::Repro);
    let spec = ReproTool::spec();
    assert_eq!(spec.description, "deterministic execution + diff + causal reasoning");
    assert_eq!(spec.version, "0.1.0");
    assert!(lookup_entry("repro").is_some());
    assert!(lookup_entry("nope").is_none());
    assert_eq!(available_tool_names(), "repro");
    match resolve_tool("nope") {
        Err(AionError::ToolNotFound { requested, available }) => {
            assert_eq!(requested, "nope");
            assert_eq!(available, "repro");
        }
        other => panic!("unexpected {other:?}"),
    }
}

#[test]
fn kernel_replies_and_requests() {
    assert_eq!(kernel_response("error: boom"), Err("error: boom".to_string()));
    assert_eq!(kernel_response("{\"ok\":1}"), Ok("{\"ok\":1}".to_string()));
    assert_eq!(kernel_response("err"), Ok("err".to_string()));
    assert_eq!(kernel_library_path(Some("/k.so"), "linux"), "/k.so");
    assert_eq!(kernel_library_path(None, "windows"), "aion-kernel.dll");
    assert_eq!(kernel_library_path(None, "macos"), "libaion-kernel.dylib");
    assert_eq!(kernel_library_path(None, "linux"), "libaion-kernel.so");
    assert_eq!(
        command_spec_json(&vec!["echo".to_string(), "a \"b\"".to_string()]),
        r#"{"command":["echo","a \"b\""]}"#
    );
    assert_eq!(cmd_spec_json("cargo test"), r#"{"cmd":"cargo test"}"#);
    assert_eq!(
        duration_drift_json(100, 250),
        r#"{"changed":true,"fields":[{"field":"duration_ms","baseline":100,"actual":250}]}"#
    );
}

#[test]
fn html_is_escaped_ampersand_first() {
    assert_eq!(html_escape("<a href=\"x\">&amp;</a>"), "&lt;a href=&quot;x&quot;&gt;&amp;amp;&lt;/a&gt;");
    assert_eq!(policy_list_report().policies, vec!["dev", "stage", "prod"]);
}

#[test]
fn kernel_version_is_first_line_trimmed() {
    assert_eq!(kernel_version_from("  Linux version 6.1.0 \nsecond line\n"), "Linux version 6.1.0");
    assert_eq!(kernel_version_from(""), "");
}

#[test]
fn duration_drift_is_symmetric() {
    assert_eq!(abs_diff(3, 10), 7);
    assert_eq!(abs_diff(10, 3), 7);
    assert_eq!(abs_diff(u64::MAX, 0), u64::MAX);
}

fn doc_node(id: Option<&str>, label: Option<&str>) -> DocNode {
    DocNode { id: id.map(String::from), label: label.map(String::from) }
}

fn doc_edge(from: Option<&str>, to: Option<&str>) -> DocEdge {
    DocEdge { from: from.map(String::from), to: to.map(String::from) }
}

#[test]
fn graph_document_as_dot() {
    let g = GraphDoc {
        nodes: Some(vec![doc_node(Some("a"), Some("say \"hi\"")), doc_node(Some("b"), None), doc_node(None, None)]),
        edges: Some(vec![doc_edge(Some("a"), Some("b")), doc_edge(Some("a"), None), doc_edge(Some(""), Some("b"))]),
    };
    assert_eq!(
        graph_to_dot(&g),
        "digraph aion_graph {\n  rankdir=LR;\n  \"a\" [label=\"say 'hi'\"];\n  \"b\" [label=\"b\"];\n  \"node\" [label=\"node\"];\n  \"a\" -> \"b\";\n}\n"
    );
    let empty = GraphDoc { nodes: None, edges: None };
    assert_eq!(graph_to_dot(&empty), "digraph aion_graph {\n  rankdir=LR;\n}\n");
}

#[test]
fn graph_document_cut_to_depth() {
    let g = || GraphDoc {
        nodes: Some(vec![doc_node(Some("a"), None), doc_node(Some("b"), None), doc_node(Some("c"), None)]),
        edges: Some(vec![
            doc_edge(Some("a"), Some("b")),
            doc_edge(Some("b"), Some("c")),
            doc_edge(Some("b"), Some("a")),
            doc_edge(None, Some("a")),
        ]),
    };
    let t = trim_graph_depth(g(), Some(2));
    let ids: Vec<Option<String>> = t.nodes.as_ref().unwrap().iter().map(|n| n.id.clone()).collect();
    assert_eq!(ids, vec![Some("a".to_string()), Some("b".to_string())]);
    let edges: Vec<(Option<String>, Option<String>)> =
        t.edges.as_ref().unwrap().iter().map(|e| (e.from.clone(), e.to.clone())).collect();
    assert_eq!(
        edges,
        vec![(Some("a".to_string()), Some("b".to_string())), (Some("b".to_string()), Some("a".to_string()))]
    );
    assert_eq!(trim_graph_depth(g(), None).nodes.unwrap().len(), 3);
    assert_eq!(trim_graph_depth(g(), Some(10)).edges.unwrap().len(), 3);
    let no_nodes = trim_graph_depth(GraphDoc { nodes: None, edges: Some(vec![doc_edge(Some("x"), Some("y"))]) }, Some(0));
    assert_eq!(no_nodes.edges.unwrap().len(), 1);
}

#[test]
fn shell_routes_to_the_named_tool_with_its_arguments() {
    let cli = AionCli { tool: "repro".to_string(), rest: vec!["diff".to_string(), "last".to_string()] };
    match route(cli) {
        Ok((executor, rest)) => {
            assert_eq!(executor, Executor::Repro);
            assert_eq!(rest, vec!["diff".to_string(), "last".to_string()]);
        }
        Err(e) => panic!("unexpected {e:?}"),
    }
    match route(AionCli { tool: "graph".to_string(), rest: vec![] }) {
        Err(AionError::ToolNotFound { requested, available }) => {
            assert_eq!(requested, "graph");
            assert_eq!(available, "repro");
        }
        other => panic!("unexpected {other:?}"),
    }
}

#[test]
fn doctor_is_ok_only_when_every_check_and_finality_are() {
    let ok = vec!["ok".to_string(), "ok".to_string()];
    assert!(doctor_ok(&ok, "ok"));
    assert!(!doctor_ok(&ok, "error"));
    assert!(!doctor_ok(&vec!["ok".to_string(), "error".to_string()], "ok"));
    assert!(doctor_ok(&vec![], "ok"));
}
