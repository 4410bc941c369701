//! Terminal rendering of runs, traces, diffs and root causes.
//!
//! Section headers are plain ASCII (`== name ==`), except the branded diff
//! headers (`── AION DIFF ──`, `── AION CAUSAL LAYER ──`), which keep their
//! box-drawing rules; every multi-line value is rendered as a prefixed block so
//! it can never be confused with structural lines.

use crate::artifact::ExecutionArtifact;
use crate::diff::{delta_view, delta_views, fd_view, fd_views, DiffReport};
use crate::report::{bool_str, bool_text, category_label, severity_label, ExecutionReport,
    RootCause, RootCauseSummary, SemanticCause};
use crate::text::{block_text, dec_text, flatten, i32_text, int_text, lemma_flatten_take,
    pad_right, push_block_text, push_padded, push_str, u64_text, usize_text, views};
use crate::trace::{event_debug, event_views, push_event_debug, ExecutionTrace};
use vstd::prelude::*;

verus! {

/// A block under the `"  | "` prefix.
pub open spec fn block(value: Seq<char>) -> Seq<char> {
    block_text(value, "  | "@)
}

/// Appends `value` as a block under `"  | "`.
pub fn push_block(s: &mut String, value: &str)
    ensures
        final(s)@ == old(s)@ + block(value@),
{
    push_block_text(s, value, "  | ")
}

/// Appends `value` as a block under `prefix`: each line prefixed, `<empty>`
/// for an empty value, and a `<no trailing newline>` marker when the value
/// does not end with a newline.
pub fn push_block_indented(s: &mut String, value: &str, prefix: &str)
    ensures
        final(s)@ == old(s)@ + block_text(value@, prefix@),
{
    push_block_text(s, value, prefix)
}

// ---------------------------------------------------------------------------
// Artifact
// ---------------------------------------------------------------------------

/// Number of captured environment variables (0 without a full run record).
pub open spec fn env_count(a: ExecutionArtifact) -> nat {
    match a.repro_run {
        Some(r) => r.env@.len(),
        None => 0,
    }
}

/// The summary of a captured run.
pub open spec fn artifact_text(a: ExecutionArtifact) -> Seq<char> {
    "AION run_id      : "@ + a.run_id@ + "\n"@
    + "command          : "@ + a.command@ + "\n"@
    + "exit_code        : "@ + int_text(a.exit_code as int) + "\n"@
    + "duration_ms      : "@ + dec_text(a.duration_ms as nat) + "\n"@
    + "env_captured     : "@ + dec_text(env_count(a)) + " variables (full map in repro_runs/"@ + a.run_id@ + ".json)\n"@
    + "stdout           :\n"@ + block(a.stdout@)
    + "stderr           :\n"@ + block(a.stderr@)
}

/// Renders the summary of a captured run.
pub fn format_artifact(a: &ExecutionArtifact) -> (s: String)
    ensures
        s@ == artifact_text(*a),
{
    let mut s = String::new();
    push_str(&mut s, "AION run_id      : ");
    push_str(&mut s, a.run_id.as_str());
    push_str(&mut s, "\n");
    push_str(&mut s, "command          : ");
    push_str(&mut s, a.command.as_str());
    push_str(&mut s, "\n");
    push_str(&mut s, "exit_code        : ");
    push_str(&mut s, i32_text(a.exit_code).as_str());
    push_str(&mut s, "\n");
    push_str(&mut s, "duration_ms      : ");
    push_str(&mut s, u64_text(a.duration_ms).as_str());
    push_str(&mut s, "\n");
    let env_n: usize = match &a.repro_run {
        Some(r) => r.env.len(),
        None => 0,
    };
    push_str(&mut s, "env_captured     : ");
    push_str(&mut s, usize_text(env_n).as_str());
    push_str(&mut s, " variables (full map in repro_runs/");
    push_str(&mut s, a.run_id.as_str());
    push_str(&mut s, ".json)\n");
    push_str(&mut s, "stdout           :\n");
    push_block(&mut s, a.stdout.as_str());
    push_str(&mut s, "stderr           :\n");
    push_block(&mut s, a.stderr.as_str());
    assert(s@ =~= artifact_text(*a));
    s
}

// ---------------------------------------------------------------------------
// Trace
// ---------------------------------------------------------------------------

/// One listed event: `  [i] <Debug of event>`.
pub open spec fn trace_line(i: int, e: crate::trace::EventView) -> Seq<char> {
    "  ["@ + dec_text(i as nat) + "] "@ + event_debug(e) + "\n"@
}

/// The listing of a trace.
pub open spec fn trace_text(run_id: Seq<char>, events: Seq<crate::trace::EventView>) -> Seq<char> {
    "== execution trace ==\n"@ + "AION run_id: "@ + run_id + "\n"@ + flatten(
        Seq::new(events.len(), |i: int| trace_line(i, events[i])),
    )
}

/// Renders a trace, one line per event.
pub fn format_trace(trace: &ExecutionTrace) -> (s: String)
    ensures
        s@ == trace_text(trace.run_id@, event_views(trace.events@)),
{
    let mut s = String::new();
    push_str(&mut s, "== execution trace ==\n");
    push_str(&mut s, "AION run_id: ");
    push_str(&mut s, trace.run_id.as_str());
    push_str(&mut s, "\n");
    let ghost evs = event_views(trace.events@);
    let ghost parts = Seq::new(evs.len(), |i: int| trace_line(i, evs[i]));
    let ghost start = s@;
    let n = trace.events.len();
    assert(parts.take(0) =~= Seq::<Seq<char>>::empty());
    for i in 0..n
        invariant
            n == trace.events@.len(),
            evs == event_views(trace.events@),
            parts == Seq::new(evs.len(), |i: int| trace_line(i, evs[i])),
            s@ == start + flatten(parts.take(i as int)),
    {
        proof {
            lemma_flatten_take(parts, i as int);
        }
        let ghost before = s@;
        push_str(&mut s, "  [");
        push_str(&mut s, usize_text(i).as_str());
        push_str(&mut s, "] ");
        push_event_debug(&mut s, &trace.events[i]);
        push_str(&mut s, "\n");
        assert(s@ =~= before + parts[i as int]);
    }
    assert(parts.take(n as int) == parts);
    assert(s@ =~= trace_text(trace.run_id@, evs));
    s
}

// ---------------------------------------------------------------------------
// Diff
// ---------------------------------------------------------------------------

/// Header of a rendered diff.
pub open spec fn diff_header(r: DiffReport) -> Seq<char> {
    "── AION DIFF ──\n"@ + "epoch_a AION run_id: "@ + r.run_a@ + "\n"@ + "epoch_b AION run_id: "@ + r.run_b@
        + "\n"@
}

/// The epoch section, when a temporal context is present.
pub open spec fn temporal_text(r: DiffReport) -> Seq<char> {
    match r.aion.temporal_context {
        Some(t) => "AION EPOCH context:\n"@ + "  AION EPOCH (older): "@ + t.older_run_id@
            + "\n  AION EPOCH (newer): "@ + t.newer_run_id@ + "\n"@ + "\n"@,
        None => Seq::empty(),
    }
}

/// The section for one environment delta.
pub open spec fn env_delta_text(d: (Seq<char>, Seq<char>, Seq<char>)) -> Seq<char> {
    "~ "@ + d.0 + "\n"@ + "  epoch_a: "@ + d.1 + "\n"@ + "  epoch_b: "@ + d.2 + "\n"@ + "\n→ CAUSAL SHIFT:\n"@
        + "  "@ + d.0 + " caused execution divergence\n"@ + "\n"@
}

/// The causal-layer summary of environment deltas.
pub open spec fn layer_text(ds: Seq<(Seq<char>, Seq<char>, Seq<char>)>) -> Seq<char> {
    if ds.len() == 0 {
        Seq::empty()
    } else {
        "── AION CAUSAL LAYER ──\n"@ + "AGE SHIFT DETECTED:\n"@ + flatten(
            ds.map_values(|d: (Seq<char>, Seq<char>, Seq<char>)| "  "@ + d.0 + " changed across AION epochs\n"@),
        ) + "\n"@
    }
}

/// Whether a field diff is shown: never timing fields, and not the
/// environment hash when environment deltas explain it.
pub open spec fn shows_field(d: (Seq<char>, Seq<char>, Seq<char>), skip_env_hash: bool) -> bool {
    d.0 != "timestamp"@ && d.0 != "duration_ms"@ && !(skip_env_hash && d.0 == "environment_hash"@)
}

/// The section for one field diff (empty when not shown).
pub open spec fn field_diff_text(d: (Seq<char>, Seq<char>, Seq<char>), skip_env_hash: bool) -> Seq<char> {
    if shows_field(d, skip_env_hash) {
        "~ "@ + d.0 + "\n"@ + "  a:\n"@ + block_text(d.1, "    "@) + "  b:\n"@ + block_text(d.2, "    "@)
    } else {
        Seq::empty()
    }
}

/// The causal chain section (empty for an empty chain).
pub open spec fn chain_text(chain: Seq<Seq<char>>) -> Seq<char> {
    if chain.len() == 0 {
        Seq::empty()
    } else {
        "causal chain:\n"@ + chain_steps_text(chain)
    }
}

/// The rendered diff: `no differences` when neither fields nor environment
/// differ; otherwise epochs, environment deltas, causal layer, field blocks
/// and causal chain.
pub open spec fn diff_text(r: DiffReport) -> Seq<char> {
    let envs = delta_views(r.aion.env_diff@);
    if r.differences@.len() == 0 && envs.len() == 0 {
        diff_header(r) + "no differences\n"@
    } else {
        diff_header(r) + temporal_text(r) + flatten(envs.map_values(|d: (Seq<char>, Seq<char>, Seq<char>)| env_delta_text(d)))
            + layer_text(envs) + flatten(
            fd_views(r.differences@).map_values(
                |d: (Seq<char>, Seq<char>, Seq<char>)| field_diff_text(d, envs.len() > 0),
            ),
        ) + chain_text(views(r.causal_chain@))
    }
}

fn push_temporal(s: &mut String, report: &DiffReport)
    ensures
        final(s)@ == old(s)@ + temporal_text(*report),
{
    let ghost s0 = s@;
    match &report.aion.temporal_context {
        Some(t) => {
            push_str(s, "AION EPOCH context:\n");
            push_str(s, "  AION EPOCH (older): ");
            push_str(s, t.older_run_id.as_str());
            push_str(s, "\n  AION EPOCH (newer): ");
            push_str(s, t.newer_run_id.as_str());
            push_str(s, "\n");
            push_str(s, "\n");
        },
        None => {},
    }
    assert(s@ =~= s0 + temporal_text(*report));
}

fn push_env_delta(s: &mut String, e: &crate::diff::EnvVarDelta)
    ensures
        final(s)@ == old(s)@ + env_delta_text(delta_view(*e)),
{
    let ghost before = s@;
    push_str(s, "~ ");
    push_str(s, e.key.as_str());
    push_str(s, "\n");
    push_str(s, "  epoch_a: ");
    push_str(s, e.value_a.as_str());
    push_str(s, "\n");
    push_str(s, "  epoch_b: ");
    push_str(s, e.value_b.as_str());
    push_str(s, "\n");
    push_str(s, "\n→ CAUSAL SHIFT:\n");
    push_str(s, "  ");
    push_str(s, e.key.as_str());
    push_str(s, " caused execution divergence\n");
    push_str(s, "\n");
    assert(s@ =~= before + env_delta_text(delta_view(*e)));
}

fn push_env_deltas(s: &mut String, env_diff: &Vec<crate::diff::EnvVarDelta>)
    ensures
        final(s)@ == old(s)@ + flatten(
            delta_views(env_diff@).map_values(|d: (Seq<char>, Seq<char>, Seq<char>)| env_delta_text(d)),
        ),
{
    let ghost s1 = s@;
    let ghost envs = delta_views(env_diff@);
    let ghost eparts = envs.map_values(|d: (Seq<char>, Seq<char>, Seq<char>)| env_delta_text(d));
    let ne = env_diff.len();
    assert(eparts.take(0) =~= Seq::<Seq<char>>::empty());
    for i in 0..ne
        invariant
            ne == env_diff@.len(),
            envs == delta_views(env_diff@),
            eparts == envs.map_values(|d: (Seq<char>, Seq<char>, Seq<char>)| env_delta_text(d)),
            s@ == s1 + flatten(eparts.take(i as int)),
    {
        proof {
            lemma_flatten_take(eparts, i as int);
        }
        push_env_delta(s, &env_diff[i]);
    }
    assert(eparts.take(ne as int) == eparts);
}

fn push_layer(s: &mut String, env_diff: &Vec<crate::diff::EnvVarDelta>)
    ensures
        final(s)@ == old(s)@ + layer_text(delta_views(env_diff@)),
{
    let ghost s2 = s@;
    let ghost envs = delta_views(env_diff@);
    let ne = env_diff.len();
    if ne > 0 {
        push_str(s, "── AION CAUSAL LAYER ──\n");
        push_str(s, "AGE SHIFT DETECTED:\n");
        let ghost s3 = s@;
        let ghost lparts = envs.map_values(|d: (Seq<char>, Seq<char>, Seq<char>)| "  "@ + d.0 + " changed across AION epochs\n"@);
        assert(lparts.take(0) =~= Seq::<Seq<char>>::empty());
        for i in 0..ne
            invariant
                ne == env_diff@.len(),
                envs == delta_views(env_diff@),
                lparts == envs.map_values(|d: (Seq<char>, Seq<char>, Seq<char>)| "  "@ + d.0 + " changed across AION epochs\n"@),
                s@ == s3 + flatten(lparts.take(i as int)),
        {
            proof {
                lemma_flatten_take(lparts, i as int);
            }
            let ghost before = s@;
            push_str(s, "  ");
            push_str(s, env_diff[i].key.as_str());
            push_str(s, " changed across AION epochs\n");
            assert(s@ =~= before + lparts[i as int]);
        }
        assert(lparts.take(ne as int) == lparts);
        push_str(s, "\n");
    }
    assert(s@ =~= s2 + layer_text(envs));
}

fn push_field_diff(s: &mut String, d: &crate::diff::FieldDiff, skip_env_hash: bool)
    ensures
        final(s)@ == old(s)@ + field_diff_text(fd_view(*d), skip_env_hash),
{
    let ghost before = s@;
    let f = d.field.as_str();
    let hidden = crate::text::str_eq(f, "timestamp") || crate::text::str_eq(f, "duration_ms")
        || (skip_env_hash && crate::text::str_eq(f, "environment_hash"));
    if !hidden {
        push_str(s, "~ ");
        push_str(s, f);
        push_str(s, "\n");
        push_str(s, "  a:\n");
        push_block_indented(s, d.a.as_str(), "    ");
        push_str(s, "  b:\n");
        push_block_indented(s, d.b.as_str(), "    ");
    }
    assert(s@ =~= before + field_diff_text(fd_view(*d), skip_env_hash));
}

fn push_field_diffs(s: &mut String, ds: &Vec<crate::diff::FieldDiff>, skip_env_hash: bool)
    ensures
        final(s)@ == old(s)@ + flatten(
            fd_views(ds@).map_values(|d: (Seq<char>, Seq<char>, Seq<char>)| field_diff_text(d, skip_env_hash)),
        ),
{
    let ghost s4 = s@;
    let ghost fds = fd_views(ds@);
    let ghost fparts = fds.map_values(|d: (Seq<char>, Seq<char>, Seq<char>)| field_diff_text(d, skip_env_hash));
    let nd = ds.len();
    assert(fparts.take(0) =~= Seq::<Seq<char>>::empty());
    for i in 0..nd
        invariant
            nd == ds@.len(),
            fds == fd_views(ds@),
            fparts == fds.map_values(|d: (Seq<char>, Seq<char>, Seq<char>)| field_diff_text(d, skip_env_hash)),
            s@ == s4 + flatten(fparts.take(i as int)),
    {
        proof {
            lemma_flatten_take(fparts, i as int);
        }
        push_field_diff(s, &ds[i], skip_env_hash);
    }
    assert(fparts.take(nd as int) == fparts);
}

/// Renders a diff report.
pub fn format_diff(report: &DiffReport) -> (s: String)
    ensures
        s@ == diff_text(*report),
{
    let mut s = String::new();
    push_str(&mut s, "── AION DIFF ──\n");
    push_str(&mut s, "epoch_a AION run_id: ");
    push_str(&mut s, report.run_a.as_str());
    push_str(&mut s, "\n");
    push_str(&mut s, "epoch_b AION run_id: ");
    push_str(&mut s, report.run_b.as_str());
    push_str(&mut s, "\n");
    assert(s@ =~= diff_header(*report));
    let has_semantic = report.differences.len() > 0 || report.aion.env_diff.len() > 0;
    if !has_semantic {
        push_str(&mut s, "no differences\n");
        return s;
    }
    let ghost envs = delta_views(report.aion.env_diff@);
    let ghost s0 = s@;
    push_temporal(&mut s, report);
    let ghost s1 = s@;
    push_env_deltas(&mut s, &report.aion.env_diff);
    let ghost s2 = s@;
    push_layer(&mut s, &report.aion.env_diff);
    let ghost s3 = s@;
    let skip_env_hash = report.aion.env_diff.len() > 0;
    push_field_diffs(&mut s, &report.differences, skip_env_hash);
    let ghost s4 = s@;
    if report.causal_chain.len() > 0 {
        push_str(&mut s, "causal chain:\n");
        push_chain_steps(&mut s, &report.causal_chain);
    }
    assert(s@ =~= s4 + chain_text(views(report.causal_chain@)));
    assert(s@ =~= diff_text(*report));
    s
}

// ---------------------------------------------------------------------------
// Root cause
// ---------------------------------------------------------------------------

/// The legacy root-cause verdict as text.
pub open spec fn root_cause_text(rc: RootCause) -> Seq<char> {
    match rc {
        RootCause::NoPrevious => "no previous run; nothing to compare\n"@,
        RootCause::Identical { previous } => "no divergence from previous run "@ + previous@ + "\n"@,
        RootCause::Divergence { previous, field, previous_value, current_value } => "divergence field: "@
            + field@ + "\n"@ + "previous run: "@ + previous@ + "\n"@ + "previous value:\n"@ + block_text(
            previous_value@,
            "  "@,
        ) + "current value:\n"@ + block_text(current_value@, "  "@),
    }
}

/// Renders the legacy root-cause verdict.
pub fn format_root_cause(rc: &RootCause) -> (s: String)
    ensures
        s@ == root_cause_text(*rc),
{
    let mut s = String::new();
    match rc {
        RootCause::NoPrevious => {
            push_str(&mut s, "no previous run; nothing to compare\n");
        },
        RootCause::Identical { previous } => {
            push_str(&mut s, "no divergence from previous run ");
            push_str(&mut s, previous.as_str());
            push_str(&mut s, "\n");
        },
        RootCause::Divergence { previous, field, previous_value, current_value } => {
            push_str(&mut s, "divergence field: ");
            push_str(&mut s, field.as_str());
            push_str(&mut s, "\n");
            push_str(&mut s, "previous run: ");
            push_str(&mut s, previous.as_str());
            push_str(&mut s, "\n");
            push_str(&mut s, "previous value:\n");
            push_block_indented(&mut s, previous_value.as_str(), "  ");
            push_str(&mut s, "current value:\n");
            push_block_indented(&mut s, current_value.as_str(), "  ");
        },
    }
    assert(s@ =~= root_cause_text(*rc));
    s
}

/// The primary-cause section.
pub open spec fn primary_text(p: SemanticCause) -> Seq<char> {
    "primary cause: "@ + p.field@ + "\n"@ + "category     : "@ + category_label(p.category) + "\n"@
        + "severity     : "@ + severity_label(p.severity) + "\n"@ + "explanation  :\n"@ + block_text(
        p.explanation@,
        "  "@,
    ) + "previous value:\n"@ + block_text(p.previous_value@, "  "@) + "current value:\n"@ + block_text(
        p.current_value@,
        "  "@,
    )
}

/// One listed diverged field.
pub open spec fn cause_line(c: SemanticCause) -> Seq<char> {
    "  - "@ + pad_right(c.field@, 16) + " ("@ + category_label(c.category) + ", "@ + severity_label(
        c.severity,
    ) + ")\n"@
}

/// The structured root-cause summary as text.
pub open spec fn root_cause_summary_text(rc: RootCauseSummary) -> Seq<char> {
    "== root cause ==\n"@ + match rc.previous_run {
        None => "no previous run; nothing to compare\n"@,
        Some(prev) => if rc.primary is None && rc.first_diverging_field is None {
            "no divergence from previous run "@ + prev@ + "\n"@
        } else {
            "previous run: "@ + prev@ + "\n"@ + (match rc.primary {
                Some(p) => primary_text(p),
                None => Seq::empty(),
            }) + (if rc.causes@.len() == 0 {
                Seq::empty()
            } else {
                "~ diverged fields:\n"@ + flatten(rc.causes@.map_values(|c: SemanticCause| cause_line(c)))
            })
        },
    }
}

fn push_primary(s: &mut String, p: &SemanticCause)
    ensures
        final(s)@ == old(s)@ + primary_text(*p),
{
    let ghost start = s@;
    push_str(s, "primary cause: ");
    push_str(s, p.field.as_str());
    push_str(s, "\n");
    push_str(s, "category     : ");
    push_str(s, p.category.as_str());
    push_str(s, "\n");
    push_str(s, "severity     : ");
    push_str(s, p.severity.as_str());
    push_str(s, "\n");
    push_str(s, "explanation  :\n");
    push_block_indented(s, p.explanation.as_str(), "  ");
    push_str(s, "previous value:\n");
    push_block_indented(s, p.previous_value.as_str(), "  ");
    push_str(s, "current value:\n");
    push_block_indented(s, p.current_value.as_str(), "  ");
    assert(s@ =~= start + primary_text(*p));
}

/// Renders the structured root-cause summary: previous run, primary cause and
/// all diverging fields.
#[verifier::spinoff_prover]
#[verifier::rlimit(40)]
pub fn format_root_cause_summary(rc: &RootCauseSummary) -> (s: String)
    ensures
        s@ == root_cause_summary_text(*rc),
{
    let mut s = String::new();
    push_str(&mut s, "== root cause ==\n");
    let ghost s0 = s@;
    match &rc.previous_run {
        None => {
            push_str(&mut s, "no previous run; nothing to compare\n");
        },
        Some(prev) => {
            if rc.primary.is_none() && rc.first_diverging_field.is_none() {
                push_str(&mut s, "no divergence from previous run ");
                push_str(&mut s, prev.as_str());
                push_str(&mut s, "\n");
            } else {
                push_str(&mut s, "previous run: ");
                push_str(&mut s, prev.as_str());
                push_str(&mut s, "\n");
                let ghost s1 = s@;
                match &rc.primary {
                    Some(p) => push_primary(&mut s, p),
                    None => {},
                }
                let ghost s2 = s@;
                let n = rc.causes.len();
                if n > 0 {
                    push_str(&mut s, "~ diverged fields:\n");
                    let ghost s3 = s@;
                    let ghost parts = rc.causes@.map_values(|c: SemanticCause| cause_line(c));
                    assert(parts.take(0) =~= Seq::<Seq<char>>::empty());
                    for i in 0..n
                        invariant
                            n == rc.causes@.len(),
                            parts == rc.causes@.map_values(|c: SemanticCause| cause_line(c)),
                            s@ == s3 + flatten(parts.take(i as int)),
                    {
                        proof {
                            lemma_flatten_take(parts, i as int);
                        }
                        let c = &rc.causes[i];
                        let ghost before = s@;
                        push_str(&mut s, "  - ");
                        push_padded(&mut s, c.field.as_str(), 16);
                        push_str(&mut s, " (");
                        push_str(&mut s, c.category.as_str());
                        push_str(&mut s, ", ");
                        push_str(&mut s, c.severity.as_str());
                        push_str(&mut s, ")\n");
                        assert(s@ =~= before + parts[i as int]);
                    }
                    assert(parts.take(n as int) == parts);
                }
            }
        },
    }
    assert(s@ =~= root_cause_summary_text(*rc));
    s
}

// ---------------------------------------------------------------------------
// Full report
// ---------------------------------------------------------------------------

/// The trace and identity sections of a report.
pub open spec fn report_head_text(r: ExecutionReport) -> Seq<char> {
    "== execution report ==\n"@ + "AION run_id          : "@ + r.trace.run_id@ + "\n"@
        + "command              : "@ + r.trace.command@ + "\n"@ + "exit_code            : "@ + int_text(
        r.trace.exit_code as int,
    ) + "\n"@ + "duration_ms          : "@ + dec_text(r.trace.duration_ms as nat) + "\n"@
        + "stdout_bytes         : "@ + dec_text(r.trace.stdout_bytes as nat) + "\n"@
        + "stderr_bytes         : "@ + dec_text(r.trace.stderr_bytes as nat) + "\n"@ + "== identity ==\n"@
        + "command_signature    : "@ + r.identity.command_signature@ + "\n"@ + "environment_signature: "@
        + r.identity.environment_signature@ + "\n"@ + "input_signature      : "@ + r.identity.input_signature@
        + "\n"@ + "trace_signature      : "@ + r.identity.trace_signature@ + "\n"@
        + "composite            : "@ + r.identity.composite@ + "\n"@
}

/// The identity-delta line of a diff summary.
pub open spec fn identity_delta_text(x: crate::report::IdentityDelta) -> Seq<char> {
    "identity_delta       : command="@ + bool_text(x.command_changed) + " environment="@ + bool_text(
        x.environment_changed,
    ) + " input="@ + bool_text(x.input_changed) + " trace="@ + bool_text(x.trace_changed) + "\n"@
}

/// The diff-summary section of a report.
pub open spec fn report_diff_head(d: crate::report::DiffSummary) -> Seq<char> {
    "== diff summary ==\n"@ + "a: "@ + d.run_a@ + "\n"@ + "b: "@ + d.run_b@ + "\n"@ + identity_delta_text(
        d.identity_delta,
    )
}

/// The diff-summary section of a report (continued).
pub open spec fn report_diff_text(d: crate::report::DiffSummary) -> Seq<char> {
    report_diff_head(d) + (if d.differences@.len() == 0 {
        "no differences\n"@
    } else {
        field_names_text(fd_views(d.differences@)) + (if d.causal_chain@.len() == 0 {
            Seq::empty()
        } else {
            "causal_chain:\n"@ + chain_steps_text(views(d.causal_chain@))
        })
    })
}

/// A full report as text: trace, identity, diff summary and root cause, in that order.
pub open spec fn report_text(r: ExecutionReport) -> Seq<char> {
    report_head_text(r) + (match r.diff {
        Some(d) => report_diff_text(d),
        None => Seq::empty(),
    }) + (match r.root_cause {
        Some(rc) => root_cause_summary_text(rc),
        None => Seq::empty(),
    })
}

/// The listed fields of a diff summary (timing fields omitted).
pub open spec fn field_names_text(ds: Seq<(Seq<char>, Seq<char>, Seq<char>)>) -> Seq<char> {
    flatten(
        ds.map_values(
            |x: (Seq<char>, Seq<char>, Seq<char>)| if x.0 == "timestamp"@ || x.0 == "duration_ms"@ {
                Seq::empty()
            } else {
                "~ "@ + x.0 + "\n"@
            },
        ),
    )
}

/// The steps of a causal chain, one `  -> step` line each.
pub open spec fn chain_steps_text(chain: Seq<Seq<char>>) -> Seq<char> {
    flatten(chain.map_values(|c: Seq<char>| "  -> "@ + c + "\n"@))
}

fn push_field_names(s: &mut String, ds: &Vec<crate::diff::FieldDiff>)
    ensures
        final(s)@ == old(s)@ + field_names_text(fd_views(ds@)),
{
    let ghost mid = s@;
    let ghost fparts = fd_views(ds@).map_values(
        |x: (Seq<char>, Seq<char>, Seq<char>)| if x.0 == "timestamp"@ || x.0 == "duration_ms"@ {
            Seq::empty()
        } else {
            "~ "@ + x.0 + "\n"@
        },
    );
    let n = ds.len();
    assert(fparts.take(0) =~= Seq::<Seq<char>>::empty());
    for i in 0..n
        invariant
            n == ds@.len(),
            fparts == fd_views(ds@).map_values(
                |x: (Seq<char>, Seq<char>, Seq<char>)| if x.0 == "timestamp"@ || x.0 == "duration_ms"@ {
                    Seq::empty()
                } else {
                    "~ "@ + x.0 + "\n"@
                },
            ),
            s@ == mid + flatten(fparts.take(i as int)),
    {
        proof {
            lemma_flatten_take(fparts, i as int);
        }
        let ghost before = s@;
        let f = ds[i].field.as_str();
        if !(crate::text::str_eq(f, "timestamp") || crate::text::str_eq(f, "duration_ms")) {
            push_str(s, "~ ");
            push_str(s, f);
            push_str(s, "\n");
        }
        assert(s@ =~= before + fparts[i as int]);
    }
    assert(fparts.take(n as int) == fparts);
}

fn push_chain_steps(s: &mut String, chain: &Vec<String>)
    ensures
        final(s)@ == old(s)@ + chain_steps_text(views(chain@)),
{
    let ghost s3 = s@;
    let ghost cparts = views(chain@).map_values(|c: Seq<char>| "  -> "@ + c + "\n"@);
    let nc = chain.len();
    assert(cparts.take(0) =~= Seq::<Seq<char>>::empty());
    for i in 0..nc
        invariant
            nc == chain@.len(),
            cparts == views(chain@).map_values(|c: Seq<char>| "  -> "@ + c + "\n"@),
            s@ == s3 + flatten(cparts.take(i as int)),
    {
        proof {
            lemma_flatten_take(cparts, i as int);
        }
        let ghost before = s@;
        push_str(s, "  -> ");
        push_str(s, chain[i].as_str());
        push_str(s, "\n");
        assert(s@ =~= before + cparts[i as int]);
    }
    assert(cparts.take(nc as int) == cparts);
}

fn push_labeled_bool(s: &mut String, label: &str, b: bool)
    ensures
        final(s)@ == old(s)@ + (label@ + bool_text(b)),
{
    let ghost mid = s@;
    push_str(s, label);
    let c = bool_str(b);
    push_str(s, c.as_str());
    assert(s@ =~= mid + (label@ + bool_text(b)));
}

#[verifier::spinoff_prover]
#[verifier::rlimit(50)]
fn push_identity_delta(s: &mut String, x: &crate::report::IdentityDelta)
    ensures
        final(s)@ == old(s)@ + identity_delta_text(*x),
{
    let ghost mid = s@;
    push_labeled_bool(s, "identity_delta       : command=", x.command_changed);
    let ghost p1 = "identity_delta       : command="@ + bool_text(x.command_changed);
    assert(s@ == mid + p1);
    push_labeled_bool(s, " environment=", x.environment_changed);
    let ghost p2 = p1 + (" environment="@ + bool_text(x.environment_changed));
    assert(s@ =~= mid + p2);
    push_labeled_bool(s, " input=", x.input_changed);
    let ghost p3 = p2 + (" input="@ + bool_text(x.input_changed));
    assert(s@ =~= mid + p3);
    push_labeled_bool(s, " trace=", x.trace_changed);
    let ghost p4 = p3 + (" trace="@ + bool_text(x.trace_changed));
    assert(s@ =~= mid + p4);
    push_str(s, "\n");
    assert(p4 + "\n"@ =~= identity_delta_text(*x));
    assert(s@ =~= mid + identity_delta_text(*x));
}

fn push_report_diff_head(s: &mut String, d: &crate::report::DiffSummary)
    ensures
        final(s)@ == old(s)@ + report_diff_head(*d),
{
    let ghost start = s@;
    push_str(s, "== diff summary ==\n");
    push_str(s, "a: ");
    push_str(s, d.run_a.as_str());
    push_str(s, "\n");
    push_str(s, "b: ");
    push_str(s, d.run_b.as_str());
    push_str(s, "\n");
    push_identity_delta(s, &d.identity_delta);
    assert(s@ =~= start + report_diff_head(*d));
}

fn push_report_diff(s: &mut String, d: &crate::report::DiffSummary)
    ensures
        final(s)@ == old(s)@ + report_diff_text(*d),
{
    let ghost start = s@;
    push_report_diff_head(s, d);
    let ghost mid = s@;
    if d.differences.len() == 0 {
        push_str(s, "no differences\n");
    } else {
        push_field_names(s, &d.differences);
        if d.causal_chain.len() > 0 {
            push_str(s, "causal_chain:\n");
            push_chain_steps(s, &d.causal_chain);
        }
        assert(s@ =~= mid + (field_names_text(fd_views(d.differences@)) + (if d.causal_chain@.len() == 0 {
            Seq::empty()
        } else {
            "causal_chain:\n"@ + chain_steps_text(views(d.causal_chain@))
        })));
    }
    assert(s@ =~= start + report_diff_text(*d));
}

/// Renders a full execution report: each section a straight projection of the data.
pub fn format_report(r: &ExecutionReport) -> (s: String)
    ensures
        s@ == report_text(*r),
{
    let mut s = String::new();
    push_str(&mut s, "== execution report ==\n");
    push_str(&mut s, "AION run_id          : ");
    push_str(&mut s, r.trace.run_id.as_str());
    push_str(&mut s, "\n");
    push_str(&mut s, "command              : ");
    push_str(&mut s, r.trace.command.as_str());
    push_str(&mut s, "\n");
    push_str(&mut s, "exit_code            : ");
    push_str(&mut s, i32_text(r.trace.exit_code).as_str());
    push_str(&mut s, "\n");
    push_str(&mut s, "duration_ms          : ");
    push_str(&mut s, u64_text(r.trace.duration_ms).as_str());
    push_str(&mut s, "\n");
    push_str(&mut s, "stdout_bytes         : ");
    push_str(&mut s, usize_text(r.trace.stdout_bytes).as_str());
    push_str(&mut s, "\n");
    push_str(&mut s, "stderr_bytes         : ");
    push_str(&mut s, usize_text(r.trace.stderr_bytes).as_str());
    push_str(&mut s, "\n");
    push_str(&mut s, "== identity ==\n");
    push_str(&mut s, "command_signature    : ");
    push_str(&mut s, r.identity.command_signature.as_str());
    push_str(&mut s, "\n");
    push_str(&mut s, "environment_signature: ");
    push_str(&mut s, r.identity.environment_signature.as_str());
    push_str(&mut s, "\n");
    push_str(&mut s, "input_signature      : ");
    push_str(&mut s, r.identity.input_signature.as_str());
    push_str(&mut s, "\n");
    push_str(&mut s, "trace_signature      : ");
    push_str(&mut s, r.identity.trace_signature.as_str());
    push_str(&mut s, "\n");
    push_str(&mut s, "composite            : ");
    push_str(&mut s, r.identity.composite.as_str());
    push_str(&mut s, "\n");
    assert(s@ =~= report_head_text(*r));
    let ghost s1 = s@;
    match &r.diff {
        Some(d) => push_report_diff(&mut s, d),
        None => {},
    }
    let ghost s2 = s@;
    match &r.root_cause {
        Some(rc) => {
            let t = format_root_cause_summary(rc);
            push_str(&mut s, t.as_str());
        },
        None => {},
    }
    assert(s@ =~= report_text(*r));
    s
}

} // verus!
