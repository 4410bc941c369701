//! SealRun: deterministic execution records, field diffs, causal queries,
//! governance policy evaluation and report rendering, with contracts checked by Verus.

pub mod artifact;
pub mod bundle;
pub mod capture;
pub mod causal_graph;
pub mod causal_path;
pub mod causal_query;
pub mod diff;
pub mod digest;
pub mod enterprise;
pub mod envelope;
pub mod evaluation;
pub mod event_store;
pub mod string_map;
pub mod json;
pub mod kernel;
pub mod laws;
pub mod output;
pub mod registry;
pub mod report;
pub mod structure_diff;
pub mod runs;
pub mod sorting;
pub mod text;
pub mod trace;
