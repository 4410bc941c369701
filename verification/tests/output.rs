use sealrun::artifact::EnvSnapshot15;
use sealrun::capture::{capture_command_with_clock, FixedClock, HostSnapshot, SpawnOutcome};
use sealrun::diff::{diff_runs, FieldDiff};
use sealrun::output::{
    format_artifact, format_diff, format_report, format_root_cause, format_root_cause_summary, format_trace,
};
use sealrun::report::{
    CauseCategory, DiffSummary, ExecutionIdentity, ExecutionReport, IdentityDelta, RootCause, RootCauseSummary,
    SemanticCause, Severity, TraceSummary,
};
use sealrun::string_map::StringMap;

fn run(text: &str) -> sealrun::artifact::ExecutionArtifact {
    let host = HostSnapshot {
        env_snapshot: EnvSnapshot15 {
            path: "/bin".to_string(),
            home: "/h".to_string(),
            ci: String::new(),
            shell: "sh".to_string(),
            lang: "C".to_string(),
            cwd: "/w".to_string(),
        },
        env_full: StringMap::new(),
        env_resolved_keys: vec![],
    };
    let outcome = SpawnOutcome::Completed {
        stdout: format!("{text}\n"),
        stderr: String::new(),
        exit_code: 0,
        duration_ms: 1,
    };
    capture_command_with_clock(format!("echo {text}"), &FixedClock(9), host, outcome)
}

#[test]
fn artifact_text_names_its_fields() {
    let a = run("hi");
    let s = format_artifact(&a);
    assert!(s.starts_with(&format!("AION run_id      : {}\ncommand          : echo hi\nexit_code        : 0\nduration_ms      : 1\n", a.run_id)));
    assert!(s.contains("env_captured     : 0 variables"));
}

#[test]
fn trace_text_lists_events() {
    let a = run("hi");
    let s = format_trace(&a.trace);
    assert!(s.starts_with(&format!("== execution trace ==\nAION run_id: {}\n", a.run_id)));
    assert!(s.contains("  [0] Spawn { command: \"echo hi\" }\n"));
    assert!(s.contains("  [2] Stdout { chunk: \"hi\\n\" }\n"));
    assert!(s.ends_with("  [5] Timing { duration_ms: 1 }\n"));
}

#[test]
fn diff_text_marks_changed_fields() {
    let a = run("a");
    let b = run("b");
    let s = format_diff(&diff_runs(&a, &b));
    assert!(s.contains("~ command"));
    assert!(s.contains("~ stdout"));
    let same = format_diff(&diff_runs(&a, &a.duplicate()));
    assert!(same.contains("no differences"));
}

fn cause(field: &str, category: CauseCategory, severity: Severity) -> SemanticCause {
    SemanticCause {
        field: field.to_string(),
        category,
        severity,
        explanation: "changed".to_string(),
        previous_value: "1\n".to_string(),
        current_value: String::new(),
    }
}

#[test]
fn root_cause_verdicts_render_exactly() {
    assert_eq!(format_root_cause(&RootCause::NoPrevious), "no previous run; nothing to compare\n");
    assert_eq!(
        format_root_cause(&RootCause::Identical { previous: "r1".to_string() }),
        "no divergence from previous run r1\n"
    );
    let d = RootCause::Divergence {
        previous: "r1".to_string(),
        field: "stdout".to_string(),
        previous_value: "a\nb".to_string(),
        current_value: String::new(),
    };
    assert_eq!(
        format_root_cause(&d),
        "divergence field: stdout\nprevious run: r1\nprevious value:\n  a\n  b\n  <no trailing newline>\ncurrent value:\n  <empty>\n"
    );
}

#[test]
fn root_cause_summary_lists_primary_and_causes() {
    let none = RootCauseSummary { previous_run: None, primary: None, first_diverging_field: None, causes: vec![] };
    assert_eq!(format_root_cause_summary(&none), "== root cause ==\nno previous run; nothing to compare\n");
    let same = RootCauseSummary {
        previous_run: Some("r0".to_string()),
        primary: None,
        first_diverging_field: None,
        causes: vec![],
    };
    assert_eq!(format_root_cause_summary(&same), "== root cause ==\nno divergence from previous run r0\n");
    let rc = RootCauseSummary {
        previous_run: Some("r0".to_string()),
        primary: Some(cause("exit_code", CauseCategory::ExitCodeChange, Severity::High)),
        first_diverging_field: Some("exit_code".to_string()),
        causes: vec![
            cause("exit_code", CauseCategory::ExitCodeChange, Severity::High),
            cause("stdout", CauseCategory::StdoutChange, Severity::Medium),
        ],
    };
    assert_eq!(
        format_root_cause_summary(&rc),
        "== root cause ==\nprevious run: r0\nprimary cause: exit_code\ncategory     : exit_code_change\nseverity     : high\nexplanation  :\n  changed\n  <no trailing newline>\nprevious value:\n  1\ncurrent value:\n  <empty>\n~ diverged fields:\n  - exit_code        (exit_code_change, high)\n  - stdout           (stdout_change, medium)\n"
    );
}

fn report(diff: Option<DiffSummary>, root_cause: Option<RootCauseSummary>) -> ExecutionReport {
    ExecutionReport {
        trace: TraceSummary {
            run_id: "r1".to_string(),
            command: "echo hi".to_string(),
            exit_code: -1,
            duration_ms: 12,
            stdout_bytes: 3,
            stderr_bytes: 0,
        },
        identity: ExecutionIdentity {
            command_signature: "c".to_string(),
            environment_signature: "e".to_string(),
            input_signature: "i".to_string(),
            trace_signature: "t".to_string(),
            composite: "x".to_string(),
        },
        diff,
        root_cause,
    }
}

const REPORT_HEAD: &str = "== execution report ==\nAION run_id          : r1\ncommand              : echo hi\nexit_code            : -1\nduration_ms          : 12\nstdout_bytes         : 3\nstderr_bytes         : 0\n== identity ==\ncommand_signature    : c\nenvironment_signature: e\ninput_signature      : i\ntrace_signature      : t\ncomposite            : x\n";

#[test]
fn report_renders_sections_in_order() {
    assert_eq!(format_report(&report(None, None)), REPORT_HEAD);
    let d = DiffSummary {
        run_a: "r0".to_string(),
        run_b: "r1".to_string(),
        identity_delta: IdentityDelta {
            command_changed: true,
            environment_changed: false,
            input_changed: false,
            trace_changed: true,
        },
        differences: vec![
            FieldDiff { field: "timestamp".to_string(), a: "1".to_string(), b: "2".to_string() },
            FieldDiff { field: "command".to_string(), a: "a".to_string(), b: "b".to_string() },
        ],
        causal_chain: vec!["command".to_string()],
    };
    let rc = RootCauseSummary { previous_run: None, primary: None, first_diverging_field: None, causes: vec![] };
    assert_eq!(
        format_report(&report(Some(d), Some(rc))),
        format!(
            "{REPORT_HEAD}== diff summary ==\na: r0\nb: r1\nidentity_delta       : command=true environment=false input=false trace=true\n~ command\ncausal_chain:\n  -> command\n== root cause ==\nno previous run; nothing to compare\n"
        )
    );
    let empty = DiffSummary {
        run_a: "r0".to_string(),
        run_b: "r1".to_string(),
        identity_delta: IdentityDelta {
            command_changed: false,
            environment_changed: false,
            input_changed: false,
            trace_changed: false,
        },
        differences: vec![],
        causal_chain: vec![],
    };
    assert!(format_report(&report(Some(empty), None)).ends_with("trace=false\nno differences\n"));
}

#[test]
fn trailing_newline_is_visible_in_the_artifact_text() {
    let with_newline = run("hi");
    let mut without = run("hi");
    without.stdout = "hi".to_string();
    let a = format_artifact(&with_newline);
    let b = format_artifact(&without);
    assert!(a.contains("stdout           :\n  | hi\nstderr"));
    assert!(b.contains("stdout           :\n  | hi\n  | <no trailing newline>\nstderr"));
    assert_ne!(a, b);
    assert!(a.contains("stderr           :\n  | <empty>\n"));
}
