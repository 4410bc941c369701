//! The curated tables of the evaluation: architecture map, data flow,
//! determinism guarantees, UX flows and competitive positioning.

use super::{ArchitectureNode, CompetitivePeer, DataFlowEdge, UxFlow};
use crate::sorting::{key_fn, lemma_sort_by_key_map, sort_by_key, stable_sort, SortKey};
use crate::text::{owned, views};
use vstd::prelude::*;

verus! {

/// Field `k` (0, 1 or 2) of a text triple.
pub open spec fn triple_key(k: int) -> spec_fn((Seq<char>, Seq<char>, Seq<char>)) -> Seq<char> {
    |t: (Seq<char>, Seq<char>, Seq<char>)| if k == 0 {
        t.0
    } else if k == 1 {
        t.1
    } else {
        t.2
    }
}

/// Field `k` (0 to 3) of a text quadruple.
pub open spec fn quad_key(k: int) -> spec_fn((Seq<char>, Seq<char>, Seq<char>, Seq<char>)) -> Seq<char> {
    |t: (Seq<char>, Seq<char>, Seq<char>, Seq<char>)| if k == 0 {
        t.0
    } else if k == 1 {
        t.1
    } else if k == 2 {
        t.2
    } else {
        t.3
    }
}

impl View for ArchitectureNode {
    type V = (Seq<char>, Seq<char>, Seq<char>);

    open spec fn view(&self) -> (Seq<char>, Seq<char>, Seq<char>) {
        (self.layer@, self.module@, self.purpose@)
    }
}

impl View for DataFlowEdge {
    type V = (Seq<char>, Seq<char>, Seq<char>);

    open spec fn view(&self) -> (Seq<char>, Seq<char>, Seq<char>) {
        (self.from@, self.to@, self.carries@)
    }
}

impl View for CompetitivePeer {
    type V = (Seq<char>, Seq<char>, Seq<char>, Seq<char>);

    open spec fn view(&self) -> (Seq<char>, Seq<char>, Seq<char>, Seq<char>) {
        (self.name@, self.category@, self.overlap@, self.distinction@)
    }
}

impl View for UxFlow {
    type V = (Seq<char>, Seq<Seq<char>>, Seq<char>);

    open spec fn view(&self) -> (Seq<char>, Seq<Seq<char>>, Seq<char>) {
        (self.command@, views(self.steps@), self.determinism_notes@)
    }
}

impl SortKey for ArchitectureNode {
    open spec fn sort_key(&self, k: usize) -> Seq<char> {
        if k == 0 {
            self.layer@
        } else {
            self.module@
        }
    }

    fn key_str(&self, k: usize) -> (r: &str) {
        if k == 0 {
            self.layer.as_str()
        } else {
            self.module.as_str()
        }
    }
}

impl SortKey for DataFlowEdge {
    open spec fn sort_key(&self, k: usize) -> Seq<char> {
        if k == 0 {
            self.from@
        } else {
            self.to@
        }
    }

    fn key_str(&self, k: usize) -> (r: &str) {
        if k == 0 {
            self.from.as_str()
        } else {
            self.to.as_str()
        }
    }
}

impl SortKey for CompetitivePeer {
    open spec fn sort_key(&self, k: usize) -> Seq<char> {
        self.name@
    }

    fn key_str(&self, k: usize) -> (r: &str) {
        self.name.as_str()
    }
}

/// Architecture node → view.
pub open spec fn arch_view_fn() -> spec_fn(ArchitectureNode) -> (Seq<char>, Seq<char>, Seq<char>) {
    |n: ArchitectureNode| n@
}

/// Data-flow edge → view.
pub open spec fn flow_view_fn() -> spec_fn(DataFlowEdge) -> (Seq<char>, Seq<char>, Seq<char>) {
    |e: DataFlowEdge| e@
}

/// Peer → view.
pub open spec fn peer_view_fn() -> spec_fn(CompetitivePeer) -> (Seq<char>, Seq<char>, Seq<char>, Seq<char>) {
    |p: CompetitivePeer| p@
}

/// UX flow → view.
pub open spec fn ux_view_fn() -> spec_fn(UxFlow) -> (Seq<char>, Seq<Seq<char>>, Seq<char>) {
    |f: UxFlow| f@
}

/// An architecture node.
pub fn a(layer: &str, module: &str, purpose: &str) -> (n: ArchitectureNode)
    ensures
        n@ == (layer@, module@, purpose@),
{
    ArchitectureNode { layer: owned(layer), module: owned(module), purpose: owned(purpose) }
}

/// A data-flow edge.
pub fn e(from: &str, to: &str, carries: &str) -> (d: DataFlowEdge)
    ensures
        d@ == (from@, to@, carries@),
{
    DataFlowEdge { from: owned(from), to: owned(to), carries: owned(carries) }
}

/// A competitive peer.
pub fn c(name: &str, category: &str, overlap: &str, distinction: &str) -> (p: CompetitivePeer)
    ensures
        p@ == (name@, category@, overlap@, distinction@),
{
    CompetitivePeer {
        name: owned(name),
        category: owned(category),
        overlap: owned(overlap),
        distinction: owned(distinction),
    }
}

/// The modules of the tool by layer, as listed.
pub open spec fn architecture_entries() -> Seq<(Seq<char>, Seq<char>, Seq<char>)> {
    seq![
        ("cli"@, "cli::run_handler"@, "Parse `run` args; delegate capture + save."@),
        ("cli"@, "cli::replay_handler"@, "Load artifact by id/alias and print replay."@),
        ("cli"@, "cli::diff_handler"@, "Resolve both ids, load artifacts, print field diff."@),
        ("cli"@, "cli::graph_handler"@, "Load artifact; print causal graph projection for trace."@),
        ("cli"@, "cli::why_handler"@, "`repro why` — causes, effects, graph divergence vs previous."@),
        ("cli"@, "cli::root_cause_handler"@, "Build execution report; render root-cause summary."@),
        ("cli"@, "cli::eval_handler"@, "Run system_evaluation; print MD + JSON."@),
        ("cli"@, "cli::ci_handler"@, "`repro ci run|ingest|diff|why|list` → CI ledger."@),
        ("core"@, "core::artifact"@, "Single run-record schema (local + CI)."@),
        ("core"@, "core::execution_boundary"@, "15% env slice + OS_EXPOSURE_RATIO budget."@),
        ("core"@, "core::capture"@, "Real subprocess capture → run record."@),
        ("core"@, "core::storage"@, "Local `./repro_runs/` JSON + INDEX persistence."@),
        ("core"@, "core::diff"@, "Ordered field-by-field diff between artifacts."@),
        ("core"@, "core::causal_graph"@, "Deterministic projection ExecutionTrace → CausalGraph."@),
        ("core"@, "core::causal_query"@, "Causes/effects/path queries + graph divergence on CausalGraph."@),
        ("core"@, "core::replay"@, "Re-render a stored artifact; never re-executes."@),
        ("core"@, "core::root_cause"@, "Semantic primary-cause engine (rule-based)."@),
        ("core"@, "core::identity"@, "ExecutionIdentity: command/env/input/trace signatures."@),
        ("core"@, "core::report"@, "Unified ExecutionReport + semantic cause types."@),
        ("core"@, "core::contract"@, "OutputContract validator for deterministic UX."@),
        ("core"@, "core::output"@, "Single source of truth for printed text."@),
        ("analysis"@, "analysis::product_analyzer"@, "Honest gap / failure-mode inventory."@),
        ("analysis"@, "analysis::system_evaluation"@, "This module; full self-introspection."@),
        ("engine"@, "engine::integration_adapter"@, "Integration seam (stub) for future platform wiring."@),
        ("ci"@, "ci::environment"@, "EnvironmentSnapshot + SHA-256 fingerprint."@),
        ("ci"@, "ci::storage"@, "Immutable runs under `./repro_ci_store/` + INDEX.jsonl."@),
        ("ci"@, "ci::diff"@, "Semantic CIComparisonReport between runs."@),
        ("ci"@, "ci::root_cause"@, "RootCauseReport from env / exit / stream heuristics."@),
    ]
}

/// The architecture map, ordered by layer, then by module (stable).
pub fn architecture_map() -> (r: Vec<ArchitectureNode>)
    ensures
        r@.map_values(arch_view_fn()) == sort_by_key(sort_by_key(architecture_entries(), triple_key(1)), triple_key(0)),
{
    let v = vec![
        a("cli", "cli::run_handler", "Parse `run` args; delegate capture + save."),
        a("cli", "cli::replay_handler", "Load artifact by id/alias and print replay."),
        a("cli", "cli::diff_handler", "Resolve both ids, load artifacts, print field diff."),
        a("cli", "cli::graph_handler", "Load artifact; print causal graph projection for trace."),
        a("cli", "cli::why_handler", "`repro why` — causes, effects, graph divergence vs previous."),
        a("cli", "cli::root_cause_handler", "Build execution report; render root-cause summary."),
        a("cli", "cli::eval_handler", "Run system_evaluation; print MD + JSON."),
        a("cli", "cli::ci_handler", "`repro ci run|ingest|diff|why|list` → CI ledger."),
        a("core", "core::artifact", "Single run-record schema (local + CI)."),
        a("core", "core::execution_boundary", "15% env slice + OS_EXPOSURE_RATIO budget."),
        a("core", "core::capture", "Real subprocess capture → run record."),
        a("core", "core::storage", "Local `./repro_runs/` JSON + INDEX persistence."),
        a("core", "core::diff", "Ordered field-by-field diff between artifacts."),
        a("core", "core::causal_graph", "Deterministic projection ExecutionTrace → CausalGraph."),
        a("core", "core::causal_query", "Causes/effects/path queries + graph divergence on CausalGraph."),
        a("core", "core::replay", "Re-render a stored artifact; never re-executes."),
        a("core", "core::root_cause", "Semantic primary-cause engine (rule-based)."),
        a("core", "core::identity", "ExecutionIdentity: command/env/input/trace signatures."),
        a("core", "core::report", "Unified ExecutionReport + semantic cause types."),
        a("core", "core::contract", "OutputContract validator for deterministic UX."),
        a("core", "core::output", "Single source of truth for printed text."),
        a("analysis", "analysis::product_analyzer", "Honest gap / failure-mode inventory."),
        a("analysis", "analysis::system_evaluation", "This module; full self-introspection."),
        a("engine", "engine::integration_adapter", "Integration seam (stub) for future platform wiring."),
        a("ci", "ci::environment", "EnvironmentSnapshot + SHA-256 fingerprint."),
        a("ci", "ci::storage", "Immutable runs under `./repro_ci_store/` + INDEX.jsonl."),
        a("ci", "ci::diff", "Semantic CIComparisonReport between runs."),
        a("ci", "ci::root_cause", "RootCauseReport from env / exit / stream heuristics."),
    ];
    assert(v@.map_values(arch_view_fn()) =~= architecture_entries());
    let ghost v0 = v@;
    let s1 = stable_sort(v, 1);
    proof {
        lemma_sort_by_key_map(v0, arch_view_fn(), key_fn::<ArchitectureNode>(1), triple_key(1));
    }
    let ghost v1 = s1@;
    let s2 = stable_sort(s1, 0);
    proof {
        lemma_sort_by_key_map(v1, arch_view_fn(), key_fn::<ArchitectureNode>(0), triple_key(0));
    }
    s2
}

/// The data flow between the modules, as listed.
pub open spec fn data_flow_entries() -> Seq<(Seq<char>, Seq<char>, Seq<char>)> {
    seq![
        ("user CLI args"@, "cli::mod::run"@, "clap-parsed Command enum"@),
        ("cli::run_handler"@, "core::capture"@, "joined command string"@),
        ("core::capture"@, "core::storage"@, "run record"@),
        ("core::storage"@, "disk: repro_runs/*.json + INDEX"@, "pretty JSON + id log"@),
        ("cli::replay_handler"@, "core::replay"@, "run_id or alias"@),
        ("core::replay"@, "core::output"@, "run record → rendered string"@),
        ("cli::diff_handler"@, "core::storage"@, "two run_ids"@),
        ("cli::graph_handler"@, "core::storage"@, "run_id or alias"@),
        ("cli::graph_handler"@, "core::causal_graph"@, "ExecutionTrace → CausalGraph → text"@),
        ("cli::why_handler"@, "core::causal_query"@, "CausalGraph → causes/effects/divergence text"@),
        ("core::diff"@, "core::output"@, "DiffReport → rendered string"@),
        ("cli::root_cause_handler"@, "core::root_cause"@, "run_id or alias"@),
        ("core::root_cause"@, "core::report"@, "ExecutionReport { identity, trace, diff, root_cause }"@),
        ("core::report"@, "core::output"@, "ExecutionReport → format_root_cause_summary"@),
        ("cli::eval_handler"@, "analysis::system_evaluation"@, "() → SystemReport"@),
        ("analysis::system_evaluation"@, "stdout"@, "Markdown + JSON"@),
        ("cli::ci_handler"@, "core::capture"@, "same argv pipeline as `repro run`"@),
        ("cli::ci_handler"@, "ci::storage"@, "ingested JSON → same INDEX as `ci run`"@),
        ("core::capture"@, "ci::storage"@, "run record + CI execution metadata"@),
        ("ci::storage"@, "disk: repro_ci_store/** + INDEX.jsonl"@, "artifact.json + streams"@),
        ("cli::ci_handler"@, "ci::diff"@, "two run_ids → CIComparisonReport"@),
        ("cli::ci_handler"@, "ci::root_cause"@, "run_id → RootCauseReport"@),
    ]
}

/// The data-flow map, ordered by source, then by target (stable).
pub fn data_flow() -> (r: Vec<DataFlowEdge>)
    ensures
        r@.map_values(flow_view_fn()) == sort_by_key(sort_by_key(data_flow_entries(), triple_key(1)), triple_key(0)),
{
    let v = vec![
        e("user CLI args", "cli::mod::run", "clap-parsed Command enum"),
        e("cli::run_handler", "core::capture", "joined command string"),
        e("core::capture", "core::storage", "run record"),
        e("core::storage", "disk: repro_runs/*.json + INDEX", "pretty JSON + id log"),
        e("cli::replay_handler", "core::replay", "run_id or alias"),
        e("core::replay", "core::output", "run record → rendered string"),
        e("cli::diff_handler", "core::storage", "two run_ids"),
        e("cli::graph_handler", "core::storage", "run_id or alias"),
        e("cli::graph_handler", "core::causal_graph", "ExecutionTrace → CausalGraph → text"),
        e("cli::why_handler", "core::causal_query", "CausalGraph → causes/effects/divergence text"),
        e("core::diff", "core::output", "DiffReport → rendered string"),
        e("cli::root_cause_handler", "core::root_cause", "run_id or alias"),
        e("core::root_cause", "core::report", "ExecutionReport { identity, trace, diff, root_cause }"),
        e("core::report", "core::output", "ExecutionReport → format_root_cause_summary"),
        e("cli::eval_handler", "analysis::system_evaluation", "() → SystemReport"),
        e("analysis::system_evaluation", "stdout", "Markdown + JSON"),
        e("cli::ci_handler", "core::capture", "same argv pipeline as `repro run`"),
        e("cli::ci_handler", "ci::storage", "ingested JSON → same INDEX as `ci run`"),
        e("core::capture", "ci::storage", "run record + CI execution metadata"),
        e("ci::storage", "disk: repro_ci_store/** + INDEX.jsonl", "artifact.json + streams"),
        e("cli::ci_handler", "ci::diff", "two run_ids → CIComparisonReport"),
        e("cli::ci_handler", "ci::root_cause", "run_id → RootCauseReport"),
    ];
    assert(v@.map_values(flow_view_fn()) =~= data_flow_entries());
    let ghost v0 = v@;
    let s1 = stable_sort(v, 1);
    proof {
        lemma_sort_by_key_map(v0, flow_view_fn(), key_fn::<DataFlowEdge>(1), triple_key(1));
    }
    let ghost v1 = s1@;
    let s2 = stable_sort(s1, 0);
    proof {
        lemma_sort_by_key_map(v1, flow_view_fn(), key_fn::<DataFlowEdge>(0), triple_key(0));
    }
    s2
}

/// The determinism guarantees the tool makes.
pub open spec fn guarantee_list() -> Seq<Seq<char>> {
    seq![
        "Same (command, clock, counter) → byte-identical run record."@,
        "Run-record field order is fixed and drives JSON serialization and diff semantics."@,
        "JSON is pretty-printed with 2-space indent via serde_json; field order preserved by `preserve_order`."@,
        "INDEX is append-only and gates `last` / `prev` alias resolution; no reliance on filesystem mtime."@,
        "`diff::FIELDS` is a `const &[&str]` — reordering is a contract change and must be intentional."@,
        "`report::PRIORITY` is a `const &[CauseCategory]` — primary-cause selection is stable by construction."@,
        "`output::format_*` functions are pure string builders; no time, no env, no random sources."@,
        "`OutputContract::validate` rejects `\\r`, ANSI escapes, control chars (other than \\t), and trailing whitespace."@,
        "`system_evaluation::evaluate` is a pure function of embedded source text; no I/O."@,
        "No async, no threads, no network, no clock outside `capture::SystemClock`."@,
        "CI ledger: `INDEX.jsonl` append-only; `artifact.json` matches local schema v4; `meta.json` is non-diff metadata."@,
        "`execution_boundary`: only PATH, HOME, CI, SHELL, LANG (+ cwd) feed `environment_hash`."@,
        "`causal_graph::build_causal_graph` is a pure projection from `ExecutionTrace` (no I/O)."@,
        "`causal_query` functions are pure graph walks (BFS queue is FIFO; no random tie-breaks)."@,
    ]
}

/// The determinism guarantees, in order.
pub fn determinism_guarantees() -> (r: Vec<String>)
    ensures
        views(r@) == guarantee_list(),
{
    let r = vec![
        owned("Same (command, clock, counter) → byte-identical run record."),
        owned("Run-record field order is fixed and drives JSON serialization and diff semantics."),
        owned("JSON is pretty-printed with 2-space indent via serde_json; field order preserved by `preserve_order`."),
        owned("INDEX is append-only and gates `last` / `prev` alias resolution; no reliance on filesystem mtime."),
        owned("`diff::FIELDS` is a `const &[&str]` — reordering is a contract change and must be intentional."),
        owned("`report::PRIORITY` is a `const &[CauseCategory]` — primary-cause selection is stable by construction."),
        owned("`output::format_*` functions are pure string builders; no time, no env, no random sources."),
        owned("`OutputContract::validate` rejects `\\r`, ANSI escapes, control chars (other than \\t), and trailing whitespace."),
        owned("`system_evaluation::evaluate` is a pure function of embedded source text; no I/O."),
        owned("No async, no threads, no network, no clock outside `capture::SystemClock`."),
        owned("CI ledger: `INDEX.jsonl` append-only; `artifact.json` matches local schema v4; `meta.json` is non-diff metadata."),
        owned("`execution_boundary`: only PATH, HOME, CI, SHELL, LANG (+ cwd) feed `environment_hash`."),
        owned("`causal_graph::build_causal_graph` is a pure projection from `ExecutionTrace` (no I/O)."),
        owned("`causal_query` functions are pure graph walks (BFS queue is FIFO; no random tie-breaks)."),
    ];
    assert(views(r@) =~= guarantee_list());
    r
}

/// The command-line flows and their steps.
pub open spec fn ux_table() -> Seq<(Seq<char>, Seq<Seq<char>>, Seq<char>)> {
    seq![
        (
            "aion repro run -- <cmd>"@,
            seq![
                "CLI parses argv into the run subcommand"@,
                "Run handler joins argv and invokes capture"@,
                "Capture builds a run record using the system clock"@,
                "Storage writes JSON and event stream atomically and appends INDEX"@,
                "Summary formatting is printed to stdout"@,
            ],
            "Timestamp comes from the wall clock, so output differs between real executions. All other fields are a pure function of the command."@,
        ),
        (
            "aion repro replay <id|last>"@,
            seq![
                "Resolve id or alias to a concrete run id"@,
                "Load event stream when present (else fall back to embedded trace)"@,
                "Concatenate Stdout events and print raw stdout"@,
            ],
            "Pure transform of stored events: identical inputs → identical replay bytes."@,
        ),
        (
            "aion repro why <id|last>"@,
            seq![
                "resolve_alias, load_run for target artifact"@,
                "build_causal_graph; pick deterministic focal (stdout > stderr > …)"@,
                "causal_query::{query_causes, query_effects}; compare vs previous graph"@,
            ],
            "Pure transforms of stored traces; same artifacts → same CAUSE ANALYSIS block."@,
        ),
        (
            "aion repro graph <id|last>"@,
            seq![
                "resolve_alias then load_run"@,
                "causal_graph::build_causal_graph(&artifact.trace)"@,
                "format_causal_graph_text printed to stdout"@,
            ],
            "Pure transform of stored trace; identical artifact → identical graph text."@,
        ),
        (
            "aion repro diff <a> <b>"@,
            seq![
                "resolve_alias for both ids"@,
                "load_run for both artifacts"@,
                "diff::diff_runs walks FIELDS in fixed order"@,
                "output::format_diff renders `~ <field>` sections"@,
            ],
            "Output ordered by FIELDS; two identical artifacts always produce `no differences`."@,
        ),
        (
            "aion repro root-cause <id|last>"@,
            seq![
                "resolve_alias, list_runs to locate previous"@,
                "Build root-cause report from the run pair"@,
                "classify each FieldDiff into a SemanticCause"@,
                "select_primary picks by (severity rank, PRIORITY)"@,
                "format_root_cause_summary renders primary + all causes"@,
            ],
            "Root-cause human output uses a single semantic block (previous run + primary + diverged fields)."@,
        ),
        (
            "repro eval"@,
            seq![
                "Self-evaluation reads embedded sources (hidden command)"@,
                "Markdown report is printed"@,
                "JSON summary is printed after the divider"@,
            ],
            "Pure function; identical binary → identical report on every machine."@,
        ),
    ]
}

/// A flow from its command, steps and note.
fn flow(command: &str, steps: Vec<String>, notes: &str) -> (f: UxFlow)
    ensures
        f@ == (command@, views(steps@), notes@),
{
    UxFlow { command: owned(command), steps, determinism_notes: owned(notes) }
}

/// The UX flows, in order.
pub fn ux_flows() -> (r: Vec<UxFlow>)
    ensures
        r@.map_values(ux_view_fn()) == ux_table(),
{
    let mut r: Vec<UxFlow> = Vec::new();

    let steps = vec![
        owned("CLI parses argv into the run subcommand"),
        owned("Run handler joins argv and invokes capture"),
        owned("Capture builds a run record using the system clock"),
        owned("Storage writes JSON and event stream atomically and appends INDEX"),
        owned("Summary formatting is printed to stdout"),
    ];

    proof {
        assert(views(steps@) =~= ux_table()[0].1);
    }

    r.push(flow("aion repro run -- <cmd>", steps, "Timestamp comes from the wall clock, so output differs between real executions. All other fields are a pure function of the command."));

    let steps = vec![
        owned("Resolve id or alias to a concrete run id"),
        owned("Load event stream when present (else fall back to embedded trace)"),
        owned("Concatenate Stdout events and print raw stdout"),
    ];

    proof {
        assert(views(steps@) =~= ux_table()[1].1);
    }

    r.push(flow("aion repro replay <id|last>", steps, "Pure transform of stored events: identical inputs → identical replay bytes."));

    let steps = vec![
        owned("resolve_alias, load_run for target artifact"),
        owned("build_causal_graph; pick deterministic focal (stdout > stderr > …)"),
        owned("causal_query::{query_causes, query_effects}; compare vs previous graph"),
    ];

    proof {
        assert(views(steps@) =~= ux_table()[2].1);
    }

    r.push(flow("aion repro why <id|last>", steps, "Pure transforms of stored traces; same artifacts → same CAUSE ANALYSIS block."));

    let steps = vec![
        owned("resolve_alias then load_run"),
        owned("causal_graph::build_causal_graph(&artifact.trace)"),
        owned("format_causal_graph_text printed to stdout"),
    ];

    proof {
        assert(views(steps@) =~= ux_table()[3].1);
    }

    r.push(flow("aion repro graph <id|last>", steps, "Pure transform of stored trace; identical artifact → identical graph text."));

    let steps = vec![
        owned("resolve_alias for both ids"),
        owned("load_run for both artifacts"),
        owned("diff::diff_runs walks FIELDS in fixed order"),
        owned("output::format_diff renders `~ <field>` sections"),
    ];

    proof {
        assert(views(steps@) =~= ux_table()[4].1);
    }

    r.push(flow("aion repro diff <a> <b>", steps, "Output ordered by FIELDS; two identical artifacts always produce `no differences`."));

    let steps = vec![
        owned("resolve_alias, list_runs to locate previous"),
        owned("Build root-cause report from the run pair"),
        owned("classify each FieldDiff into a SemanticCause"),
        owned("select_primary picks by (severity rank, PRIORITY)"),
        owned("format_root_cause_summary renders primary + all causes"),
    ];

    proof {
        assert(views(steps@) =~= ux_table()[5].1);
    }

    r.push(flow("aion repro root-cause <id|last>", steps, "Root-cause human output uses a single semantic block (previous run + primary + diverged fields)."));

    let steps = vec![
        owned("Self-evaluation reads embedded sources (hidden command)"),
        owned("Markdown report is printed"),
        owned("JSON summary is printed after the divider"),
    ];

    proof {
        assert(views(steps@) =~= ux_table()[6].1);
    }

    r.push(flow("repro eval", steps, "Pure function; identical binary → identical report on every machine."));

    assert(r@.map_values(ux_view_fn()) =~= ux_table());
    r
}

/// The neighbouring tools, as listed.
pub open spec fn peer_entries() -> Seq<(Seq<char>, Seq<char>, Seq<char>, Seq<char>)> {
    seq![
        ("rr (Mozilla)"@, "record & replay debugger"@, "Records process execution; supports deterministic replay."@, "rr targets a single debugging session on Linux; AION Repro is artifact-centric, local-first, cross-command, and semantic (root cause + identity, not just replay)."@),
        ("reprozip"@, "computational reproducibility"@, "Captures a command + its env to re-run elsewhere."@, "reprozip targets re-execution on another host. AION Repro targets *truth about a specific execution*: compare, root-cause, explain — not re-run."@),
        ("git bisect"@, "regression localization"@, "Finds the commit that introduced a failure."@, "git bisect needs a repeatable test and N commits. AION Repro needs only two runs and produces a semantic cause immediately."@),
        ("hyperfine"@, "benchmarking"@, "Runs a command N times and reports timing."@, "hyperfine measures. AION Repro explains."@),
        ("CI artifact logs"@, "post-hoc log archive"@, "Keep stdout/stderr per build."@, "Raw logs are unstructured text. AION Repro stores a typed run record with identity and supports field-level diff + semantic root cause."@),
        ("snapshot testing (insta, jest)"@, "output regression detection"@, "Detects that output drifted."@, "Snapshots say *that* something changed. AION Repro says *which semantic axis* changed and ranks it."@),
    ]
}

/// The competitive positioning, ordered by peer name (stable).
pub fn competitive_positioning() -> (r: Vec<CompetitivePeer>)
    ensures
        r@.map_values(peer_view_fn()) == sort_by_key(peer_entries(), quad_key(0)),
{
    let v = vec![
        c(
            "rr (Mozilla)",
            "record & replay debugger",
            "Records process execution; supports deterministic replay.",
            "rr targets a single debugging session on Linux; AION Repro is artifact-centric, local-first, cross-command, and semantic (root cause + identity, not just replay).",
        ),
        c(
            "reprozip",
            "computational reproducibility",
            "Captures a command + its env to re-run elsewhere.",
            "reprozip targets re-execution on another host. AION Repro targets *truth about a specific execution*: compare, root-cause, explain — not re-run.",
        ),
        c(
            "git bisect",
            "regression localization",
            "Finds the commit that introduced a failure.",
            "git bisect needs a repeatable test and N commits. AION Repro needs only two runs and produces a semantic cause immediately.",
        ),
        c(
            "hyperfine",
            "benchmarking",
            "Runs a command N times and reports timing.",
            "hyperfine measures. AION Repro explains.",
        ),
        c(
            "CI artifact logs",
            "post-hoc log archive",
            "Keep stdout/stderr per build.",
            "Raw logs are unstructured text. AION Repro stores a typed run record with identity and supports field-level diff + semantic root cause.",
        ),
        c(
            "snapshot testing (insta, jest)",
            "output regression detection",
            "Detects that output drifted.",
            "Snapshots say *that* something changed. AION Repro says *which semantic axis* changed and ranks it.",
        ),
    ];
    assert(v@.map_values(peer_view_fn()) =~= peer_entries());
    let ghost v0 = v@;
    let s = stable_sort(v, 0);
    proof {
        lemma_sort_by_key_map(v0, peer_view_fn(), key_fn::<CompetitivePeer>(0), quad_key(0));
    }
    s
}

} // verus!
