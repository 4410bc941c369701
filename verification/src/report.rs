//! Report types: semantic causes, root-cause summaries and the unified
//! execution report that the renderers project to text.

use crate::diff::FieldDiff;
use crate::text::owned;
use vstd::prelude::*;

verus! {

/// How serious a cause or gap is.
#[derive(PartialEq, Eq, Structural, Clone, Copy, Debug)]
pub enum Severity {
    High,
    Medium,
    Low,
}

/// The label of a severity.
pub open spec fn severity_label(s: Severity) -> Seq<char> {
    match s {
        Severity::High => "high"@,
        Severity::Medium => "medium"@,
        Severity::Low => "low"@,
    }
}

impl Severity {
    /// The label of the severity.
    pub fn as_str(&self) -> (r: &'static str)
        ensures
            r@ == severity_label(*self),
    {
        match self {
            Severity::High => "high",
            Severity::Medium => "medium",
            Severity::Low => "low",
        }
    }
}

/// The semantic axis along which two runs diverge.
#[derive(PartialEq, Eq, Structural, Clone, Copy, Debug)]
pub enum CauseCategory {
    EnvironmentChange,
    CommandChange,
    WorkingDirectoryChange,
    ExitCodeChange,
    StdoutChange,
    StderrChange,
    TimingChange,
}

/// The label of a cause category.
pub open spec fn category_label(c: CauseCategory) -> Seq<char> {
    match c {
        CauseCategory::EnvironmentChange => "environment_change"@,
        CauseCategory::CommandChange => "command_change"@,
        CauseCategory::WorkingDirectoryChange => "working_directory_change"@,
        CauseCategory::ExitCodeChange => "exit_code_change"@,
        CauseCategory::StdoutChange => "stdout_change"@,
        CauseCategory::StderrChange => "stderr_change"@,
        CauseCategory::TimingChange => "timing_change"@,
    }
}

impl CauseCategory {
    /// The label of the category.
    pub fn as_str(&self) -> (r: &'static str)
        ensures
            r@ == category_label(*self),
    {
        match self {
            CauseCategory::EnvironmentChange => "environment_change",
            CauseCategory::CommandChange => "command_change",
            CauseCategory::WorkingDirectoryChange => "working_directory_change",
            CauseCategory::ExitCodeChange => "exit_code_change",
            CauseCategory::StdoutChange => "stdout_change",
            CauseCategory::StderrChange => "stderr_change",
            CauseCategory::TimingChange => "timing_change",
        }
    }
}

/// One classified divergence between a run and its predecessor.
#[derive(Debug)]
pub struct SemanticCause {
    pub field: String,
    pub category: CauseCategory,
    pub severity: Severity,
    pub explanation: String,
    pub previous_value: String,
    pub current_value: String,
}

/// The root-cause verdict for a run against its previous run.
#[derive(Debug)]
pub struct RootCauseSummary {
    pub previous_run: Option<String>,
    pub primary: Option<SemanticCause>,
    pub first_diverging_field: Option<String>,
    pub causes: Vec<SemanticCause>,
}

/// Legacy root-cause verdict.
#[derive(Debug)]
pub enum RootCause {
    NoPrevious,
    Identical { previous: String },
    Divergence { previous: String, field: String, previous_value: String, current_value: String },
}

/// Summary of one run's trace.
#[derive(Debug)]
pub struct TraceSummary {
    pub run_id: String,
    pub command: String,
    pub exit_code: i32,
    pub duration_ms: u64,
    pub stdout_bytes: usize,
    pub stderr_bytes: usize,
}

/// Signatures identifying a run.
#[derive(Debug)]
pub struct ExecutionIdentity {
    pub command_signature: String,
    pub environment_signature: String,
    pub input_signature: String,
    pub trace_signature: String,
    pub composite: String,
}

/// Which identity signatures changed between two runs.
#[derive(Debug)]
pub struct IdentityDelta {
    pub command_changed: bool,
    pub environment_changed: bool,
    pub input_changed: bool,
    pub trace_changed: bool,
}

/// The diff part of an execution report.
#[derive(Debug)]
pub struct DiffSummary {
    pub run_a: String,
    pub run_b: String,
    pub identity_delta: IdentityDelta,
    pub differences: Vec<FieldDiff>,
    pub causal_chain: Vec<String>,
}

/// Unified report of one run: trace, identity, optional diff and root cause.
#[derive(Debug)]
pub struct ExecutionReport {
    pub trace: TraceSummary,
    pub identity: ExecutionIdentity,
    pub diff: Option<DiffSummary>,
    pub root_cause: Option<RootCauseSummary>,
}

/// `true` / `false`.
#[verifier::opaque]
pub open spec fn bool_text(b: bool) -> Seq<char> {
    if b {
        "true"@
    } else {
        "false"@
    }
}

/// The text of a boolean (`to_string`).
pub fn bool_str(b: bool) -> (r: String)
    ensures
        r@ == bool_text(b),
{
    reveal(bool_text);
    if b {
        owned("true")
    } else {
        owned("false")
    }
}

} // verus!
