use sealrun::evaluation::maturity::scale_of;
use sealrun::evaluation::{
    architecture_map, competitive_positioning, compute_maturity, data_flow, determinism_guarantees,
    evaluate, feature_inventory, parse_name, render_markdown, sanitize_public_eval_output, scale,
    scan_module, source_paths, ux_flows, ProductGap, SrcFile, CATEGORY_DEFINITION,
};
use sealrun::report::Severity;

fn sources() -> Vec<SrcFile> {
    source_paths()
        .into_iter()
        .map(|path| {
            let text = if path == "src/core/report.rs" {
                "pub enum Severity {\n    High,\n}\npub fn label() {}\n".to_string()
            } else {
                format!("// {path}\n")
            };
            SrcFile { path, text }
        })
        .collect()
}

fn gaps() -> Vec<ProductGap> {
    vec![ProductGap {
        category: "storage".to_string(),
        severity: Severity::High,
        title: "No remote store".to_string(),
        description: "Runs live on one machine.".to_string(),
    }]
}

#[test]
fn evaluation_is_deterministic() {
    let a = evaluate(&sources(), gaps());
    let b = evaluate(&sources(), gaps());
    assert_eq!(a, b);
    assert_eq!(render_markdown(&a, "0.0000 (cap `OS_EXPOSURE_RATIO` = 0.15)"), render_markdown(&b, "0.0000 (cap `OS_EXPOSURE_RATIO` = 0.15)"));
}

#[test]
fn every_source_is_scanned() {
    let r = evaluate(&sources(), gaps());
    let paths: Vec<&str> = r.feature_inventory.iter().map(|m| m.path.as_str()).collect();
    assert!(paths.contains(&"src/core/report.rs"));
    assert!(paths.contains(&"src/core/identity.rs"));
    assert!(paths.contains(&"src/core/artifact.rs"));
    assert!(paths.contains(&"src/core/execution_boundary.rs"));
    assert!(paths.contains(&"src/core/causal_graph.rs"));
    assert!(paths.contains(&"src/core/causal_query.rs"));
    assert!(paths.contains(&"src/analysis/system_evaluation.rs"));
    assert!(paths.contains(&"src/engine/adapter.rs"));
}

#[test]
fn maturity_score_is_within_scale() {
    let m = evaluate(&sources(), gaps()).maturity;
    assert!(m.score <= m.scale_max);
    assert_eq!(m.scale_max, 15);
}

#[test]
fn inventory_is_sorted_by_path() {
    let inv = feature_inventory(&sources());
    assert_eq!(inv.len(), 40);
    for w in inv.windows(2) {
        assert!(w[0].path <= w[1].path);
    }
    assert_eq!(inv[0].path, "src/analysis/mod.rs");
}

#[test]
fn scan_finds_public_declarations_of_each_kind() {
    let text = "pub fn run() {}\n  pub(crate) struct Frame;\npub(super)  enum Mode { A }\npub trait Sink {}\n\
                pub async fn go() {}\nfn private() {}\npub fn alpha<T>(x: T) {}\npub mod nested;\r\npub const X: u8 = 1;\n";
    let m = scan_module(&SrcFile { path: "src/x.rs".to_string(), text: text.to_string() });
    assert_eq!(m.path, "src/x.rs");
    assert_eq!(m.lines, 9);
    assert_eq!(m.pub_fns, vec!["alpha".to_string(), "go (async!)".to_string(), "run".to_string()]);
    assert_eq!(m.pub_structs, vec!["Frame".to_string()]);
    assert_eq!(m.pub_enums, vec!["Mode".to_string()]);
    assert_eq!(m.pub_traits, vec!["Sink".to_string()]);
}

#[test]
fn parse_name_stops_at_delimiters() {
    assert_eq!(parse_name("fn main() {", "fn "), Some("main".to_string()));
    assert_eq!(parse_name("struct Pair<A, B>", "struct "), Some("Pair".to_string()));
    assert_eq!(parse_name("enum E{", "enum "), Some("E".to_string()));
    assert_eq!(parse_name("fn (", "fn "), None);
    assert_eq!(parse_name("struct S", "fn "), None);
    assert_eq!(parse_name("trait T: Send", "trait "), Some("T".to_string()));
}

#[test]
fn scale_rounds_down_and_caps() {
    assert_eq!(scale(14, 14, 3), 3);
    assert_eq!(scale(20, 14, 3), 3);
    assert_eq!(scale(13, 14, 3), 2);
    assert_eq!(scale(4, 7, 2), 1);
    assert_eq!(scale(5, 0, 3), 0);
    let _ = scale_of;
}

#[test]
fn maturity_formula_on_known_inputs() {
    let inv = feature_inventory(&sources());
    // one module carries symbols; 14 guarantees; 7 flows; completeness 3 and 3; one high gap
    let m = compute_maturity(&inv, 14, 7, 3, 3, &gaps());
    assert_eq!(m.breakdown[0].score, 0);
    assert_eq!(m.breakdown[0].note, "1 public modules carry symbols.");
    assert_eq!(m.breakdown[1].score, 3);
    assert_eq!(m.breakdown[2].score, 2);
    assert_eq!(m.breakdown[5].score, 1);
    assert_eq!(m.score, 10);
    assert_eq!(
        m.rationale,
        "Score = feature(0) + determinism(3) + ux(2) + causal_graph(3) + causal_query(3) − honesty_penalty(1), clamped to [0, 15]."
    );
}

#[test]
fn tables_have_their_sizes_and_orders() {
    assert_eq!(determinism_guarantees().len(), 14);
    assert_eq!(ux_flows().len(), 7);
    assert_eq!(ux_flows()[0].steps.len(), 5);
    let arch = architecture_map();
    assert_eq!(arch.len(), 28);
    for w in arch.windows(2) {
        assert!((w[0].layer.as_str(), w[0].module.as_str()) <= (w[1].layer.as_str(), w[1].module.as_str()));
    }
    assert_eq!(arch[0].layer, "analysis");
    let flows = data_flow();
    assert_eq!(flows.len(), 22);
    for w in flows.windows(2) {
        assert!((w[0].from.as_str(), w[0].to.as_str()) <= (w[1].from.as_str(), w[1].to.as_str()));
    }
    let peers = competitive_positioning();
    let names: Vec<&str> = peers.iter().map(|p| p.name.as_str()).collect();
    assert_eq!(
        names,
        vec!["CI artifact logs", "git bisect", "hyperfine", "reprozip", "rr (Mozilla)", "snapshot testing (insta, jest)"]
    );
}

#[test]
fn markdown_has_all_sections() {
    let r = evaluate(&sources(), gaps());
    let md = render_markdown(&r, "0.4000 (cap `OS_EXPOSURE_RATIO` = 0.15)");
    assert!(md.starts_with("# AION Repro — system evaluation\n\n**Category.** "));
    assert!(md.contains(CATEGORY_DEFINITION));
    assert!(md.contains("## 1. Feature inventory"));
    assert!(md.contains("### `src/core/report.rs` (4 lines)\n\n_Public functions_:\n- `label`\n\n_Public enums_:\n- `Severity`\n\n\n"));
    assert!(md.contains("## 9. Maturity score"));
    assert!(md.contains("- **[storage / high]** No remote store — Runs live on one machine.\n"));
    assert!(md.contains("- **OS exposure ratio** (whitelist / budget): 0.4000 (cap `OS_EXPOSURE_RATIO` = 0.15)\n"));
    assert!(md.contains("### `aion repro run -- <cmd>`\n\n1. CLI parses argv into the run subcommand\n2. "));
    assert!(md.ends_with("same run record shape as `repro run`.\n\n"));
}

#[test]
fn public_output_is_scrubbed() {
    assert_eq!(
        sanitize_public_eval_output("cos_core uses ExecutionArtifact via StubCosKernel and cos_adapter"),
        "platform_types uses run record via StubKernelBridge and integration_adapter"
    );
    assert_eq!(sanitize_public_eval_output("CosKernelInterface"), "KernelBridge");
}
