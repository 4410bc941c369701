//! The static tool registry of the `aion` shell: which tools exist, in
//! registration order, and how a tool id is resolved.

use crate::text::{join_seq, join_strings, owned, str_eq, views};
use vstd::prelude::*;

verus! {

/// Version of the `repro` tool surface.
pub const REPRO_CRATE_VERSION: &'static str = "0.1.0";

/// What a tool is.
#[derive(Debug)]
pub struct ToolSpec {
    pub name: String,
    pub description: String,
    pub version: String,
}

/// Which executor runs a tool.
#[derive(Debug, Clone, Copy, PartialEq, Eq, Structural)]
pub enum Executor {
    /// Forwards the arguments to the `repro` command line.
    Repro,
}

/// One registered tool: its metadata and its executor.
#[derive(Debug)]
pub struct ToolEntry {
    pub spec: ToolSpec,
    pub executor: Executor,
}

/// The `repro` tool.
#[derive(Debug)]
pub struct ReproTool;

/// The name, description and version of the `repro` tool.
pub open spec fn repro_spec_view() -> (Seq<char>, Seq<char>, Seq<char>) {
    ("repro"@, "deterministic execution + diff + causal reasoning"@, "0.1.0"@)
}

impl ToolSpec {
    /// Name, description and version.
    pub open spec fn parts(self) -> (Seq<char>, Seq<char>, Seq<char>) {
        (self.name@, self.description@, self.version@)
    }
}

impl ReproTool {
    /// The metadata of the `repro` tool.
    pub fn spec() -> (s: ToolSpec)
        ensures
            s.parts() == repro_spec_view(),
    {
        ToolSpec {
            name: owned("repro"),
            description: owned("deterministic execution + diff + causal reasoning"),
            version: owned(REPRO_CRATE_VERSION),
        }
    }
}

/// The registered tools, in registration order: `(name, description, version, executor)`.
pub open spec fn registry_view() -> Seq<((Seq<char>, Seq<char>, Seq<char>), Executor)> {
    seq![(repro_spec_view(), Executor::Repro)]
}

/// The views of tool entries.
pub open spec fn entry_views(v: Seq<ToolEntry>) -> Seq<((Seq<char>, Seq<char>, Seq<char>), Executor)> {
    v.map_values(|e: ToolEntry| (e.spec.parts(), e.executor))
}

/// The tool names of entries, in order.
pub open spec fn entry_names(v: Seq<((Seq<char>, Seq<char>, Seq<char>), Executor)>) -> Seq<Seq<char>> {
    v.map_values(|e: ((Seq<char>, Seq<char>, Seq<char>), Executor)| e.0.0)
}

/// The tools, in registration order (the order is the contract).
pub fn register_tools() -> (v: Vec<ToolEntry>)
    ensures
        entry_views(v@) == registry_view(),
{
    let v = vec![ToolEntry { spec: ReproTool::spec(), executor: Executor::Repro }];
    assert(entry_views(v@) =~= registry_view());
    v
}

/// The registered tools.
pub fn registered_tools() -> (v: Vec<ToolEntry>)
    ensures
        entry_views(v@) == registry_view(),
{
    register_tools()
}

/// The first position whose tool is named `id`.
pub open spec fn first_named(v: Seq<((Seq<char>, Seq<char>, Seq<char>), Executor)>, id: Seq<char>, i: int) -> bool {
    0 <= i < v.len() && v[i].0.0 == id && forall|j: int| 0 <= j < i ==> (#[trigger] v[j]).0.0 != id
}

/// The registered tool named `tool_id`, if any.
pub fn lookup_entry(tool_id: &str) -> (r: Option<ToolEntry>)
    ensures
        match r {
            Some(e) => exists|i: int| first_named(registry_view(), tool_id@, i) && (e.spec.parts(), e.executor)
                == registry_view()[i],
            None => forall|i: int| 0 <= i < registry_view().len() ==> (#[trigger] registry_view()[i]).0.0
                != tool_id@,
        },
{
    let mut tools = registered_tools();
    let n = tools.len();
    let ghost reg = registry_view();
    for i in 0..n
        invariant
            n == tools@.len(),
            entry_views(tools@) == reg,
            reg == registry_view(),
            forall|j: int| 0 <= j < i ==> (#[trigger] reg[j]).0.0 != tool_id@,
    {
        assert(reg[i as int] == (tools@[i as int].spec.parts(), tools@[i as int].executor));
        if str_eq(tools[i].spec.name.as_str(), tool_id) {
            assert(first_named(reg, tool_id@, i as int));
            let e = tools.remove(i);
            return Some(e);
        }
    }
    None
}

/// The names of the registered tools, comma-separated.
pub fn available_tool_names() -> (r: String)
    ensures
        r@ == join_seq(entry_names(registry_view()), ", "@),
{
    let tools = registered_tools();
    let mut names: Vec<String> = Vec::new();
    let n = tools.len();
    for i in 0..n
        invariant
            n == tools@.len(),
            entry_views(tools@) == registry_view(),
            names@.len() == i,
            forall|j: int| 0 <= j < i ==> (#[trigger] names@[j])@ == tools@[j].spec.name@,
    {
        names.push(tools[i].spec.name.clone());
    }
    assert(views(names@) =~= entry_names(registry_view())) by {
        assert forall|j: int| 0 <= j < n implies views(names@)[j] == entry_names(registry_view())[j] by {
            assert(entry_views(tools@)[j] == registry_view()[j]);
        }
    }
    join_strings(&names, ", ")
}

/// Why the shell could not run a tool.
#[derive(Debug)]
pub enum AionError {
    InvalidArgs(String),
    ToolNotFound { requested: String, available: String },
    ExecutionFailed(String),
}

/// Resolves a tool id to its registry entry, or reports the ids that exist.
pub fn resolve_tool(tool_id: &str) -> (r: Result<ToolEntry, AionError>)
    ensures
        match r {
            Ok(e) => exists|i: int| first_named(registry_view(), tool_id@, i) && (e.spec.parts(), e.executor)
                == registry_view()[i],
            Err(AionError::ToolNotFound { requested, available }) => requested@ == tool_id@ && available@
                == join_seq(entry_names(registry_view()), ", "@) && forall|i: int|
                0 <= i < registry_view().len() ==> (#[trigger] registry_view()[i]).0.0 != tool_id@,
            Err(_) => false,
        },
{
    match lookup_entry(tool_id) {
        Some(e) => Ok(e),
        None => Err(AionError::ToolNotFound { requested: owned(tool_id), available: available_tool_names() }),
    }
}

/// The shell's command line: the tool id, and the arguments handed on to that tool.
#[derive(Debug)]
pub struct AionCli {
    pub tool: String,
    pub rest: Vec<String>,
}

/// Where the shell sends a command line: the executor of the tool it names,
/// with the remaining arguments unchanged, or the ids that exist.
pub fn route(cli: AionCli) -> (r: Result<(Executor, Vec<String>), AionError>)
    ensures
        match r {
            Ok((x, rest)) => exists|i: int| first_named(registry_view(), cli.tool@, i) && x == registry_view()[i].1
                && rest@ == cli.rest@,
            Err(AionError::ToolNotFound { requested, available }) => requested@ == cli.tool@ && available@
                == join_seq(entry_names(registry_view()), ", "@) && forall|i: int|
                0 <= i < registry_view().len() ==> (#[trigger] registry_view()[i]).0.0 != cli.tool@,
            Err(_) => false,
        },
{
    let AionCli { tool, rest } = cli;
    match resolve_tool(tool.as_str()) {
        Ok(entry) => Ok((entry.executor, rest)),
        Err(e) => Err(e),
    }
}

} // verus!
