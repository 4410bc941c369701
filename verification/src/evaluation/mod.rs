//! Self-evaluation of the repro tool: a feature inventory scanned from its
//! sources, curated architecture, data-flow, guarantee, UX and positioning
//! tables, a maturity score, and the markdown rendering of the whole report.
//! Every part is a pure function of its inputs.

pub mod maturity;
pub mod render;
pub mod scan;
pub mod tables;

pub use maturity::{causal_graph_completeness_score, compute_maturity, scale};
pub use render::{evaluate, render_list, render_markdown, sanitize_public_eval_output};
pub use scan::{feature_inventory, parse_name, scan_module, source_paths};
pub use tables::{
    architecture_map, competitive_positioning, data_flow, determinism_guarantees, ux_flows,
};

use crate::report::Severity;
use vstd::prelude::*;

verus! {

/// The product category, in one sentence.
pub const CATEGORY_DEFINITION: &'static str = "Deterministic execution debugging for reproducible systems.";

/// One source file of the tool: its path in the source tree and its text.
#[derive(Debug, PartialEq, Eq)]
pub struct SrcFile {
    pub path: String,
    pub text: String,
}

/// The public items declared in one source file.
#[derive(Debug, PartialEq, Eq)]
pub struct ModuleInventory {
    pub path: String,
    pub lines: usize,
    pub pub_fns: Vec<String>,
    pub pub_structs: Vec<String>,
    pub pub_enums: Vec<String>,
    pub pub_traits: Vec<String>,
}

/// One module in the architecture map.
#[derive(Debug, PartialEq, Eq)]
pub struct ArchitectureNode {
    pub layer: String,
    pub module: String,
    pub purpose: String,
}

/// One edge of the data-flow map.
#[derive(Debug, PartialEq, Eq)]
pub struct DataFlowEdge {
    pub from: String,
    pub to: String,
    pub carries: String,
}

/// One command-line flow and the steps it goes through.
#[derive(Debug, PartialEq, Eq)]
pub struct UxFlow {
    pub command: String,
    pub steps: Vec<String>,
    pub determinism_notes: String,
}

/// A neighbouring tool and how this one differs from it.
#[derive(Debug, PartialEq, Eq)]
pub struct CompetitivePeer {
    pub name: String,
    pub category: String,
    pub overlap: String,
    pub distinction: String,
}

/// The maturity score and how it was reached.
#[derive(Debug, PartialEq, Eq)]
pub struct Maturity {
    pub score: u8,
    pub scale_max: u8,
    pub breakdown: Vec<MaturityComponent>,
    pub rationale: String,
}

/// One scored dimension of the maturity score.
#[derive(Debug, PartialEq, Eq)]
pub struct MaturityComponent {
    pub dimension: String,
    pub score: u8,
    pub max: u8,
    pub note: String,
}

/// A self-reported gap of the product.
#[derive(Debug, PartialEq, Eq)]
pub struct ProductGap {
    pub category: String,
    pub severity: Severity,
    pub title: String,
    pub description: String,
}

/// The whole evaluation.
#[derive(Debug, PartialEq, Eq)]
pub struct SystemReport {
    pub category_definition: String,
    pub feature_inventory: Vec<ModuleInventory>,
    pub architecture_map: Vec<ArchitectureNode>,
    pub data_flow: Vec<DataFlowEdge>,
    pub determinism_guarantees: Vec<String>,
    pub ux_flows: Vec<UxFlow>,
    pub missing_capabilities: Vec<ProductGap>,
    pub competitive_positioning: Vec<CompetitivePeer>,
    pub maturity: Maturity,
}

} // verus!
