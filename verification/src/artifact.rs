//! The canonical execution record of one run, and its content-addressed identity.

use crate::digest::{sha256_hex, sha256_hex_of_bytes, sha256_hex_of_text};
use crate::string_map::StringMap;
use crate::json::{run_id_material, run_id_text};
use crate::text::{push_str, views};
use crate::trace::ExecutionTrace;
use crate::trace::clone_strings;
use vstd::prelude::*;

verus! {

/// Schema version of the on-disk record.
pub const EXECUTION_ARTIFACT_SCHEMA_VERSION: u32 = 4;

/// Full environment + argv + stdout of one run (the run's identity material).
#[derive(Debug)]
pub struct ReproRun {
    pub id: String,
    pub command: Vec<String>,
    pub env: StringMap,
    pub stdout: String,
}

/// The environment slice that feeds the environment hash: PATH, HOME, CI,
/// SHELL, LANG (empty when unset) and the working directory.
#[derive(Debug)]
pub struct EnvSnapshot15 {
    pub path: String,
    pub home: String,
    pub ci: String,
    pub shell: String,
    pub lang: String,
    pub cwd: String,
}

/// The canonical record of one execution.
#[derive(Debug)]
pub struct ExecutionArtifact {
    pub schema_version: u32,
    pub run_id: String,
    pub repro_run: Option<ReproRun>,
    pub command: String,
    pub cwd: String,
    pub timestamp: u64,
    pub env_snapshot: EnvSnapshot15,
    pub stdout: String,
    pub stderr: String,
    pub exit_code: i32,
    pub duration_ms: u64,
    pub trace: ExecutionTrace,
}

/// The canonical text hashed for an environment slice: one `NAME=value` line
/// per variable, then `cwd=<dir>`.
pub open spec fn env_snapshot_text(e: EnvSnapshot15) -> Seq<char> {
    "PATH="@ + e.path@ + "\nHOME="@ + e.home@ + "\nCI="@ + e.ci@ + "\nSHELL="@ + e.shell@
        + "\nLANG="@ + e.lang@ + "\ncwd="@ + e.cwd@ + "\n"@
}

/// The environment hash of a snapshot: lowercase hex SHA-256 of its canonical text.
pub open spec fn env_hash_of(e: EnvSnapshot15) -> Seq<char> {
    sha256_hex_of_text(env_snapshot_text(e))
}

/// Environment hash of a snapshot.
pub fn compute_env_hash(e: &EnvSnapshot15) -> (h: String)
    ensures
        h@ == env_hash_of(*e),
        h@.len() == 64,
{
    let mut t = String::new();
    push_str(&mut t, "PATH=");
    push_str(&mut t, e.path.as_str());
    push_str(&mut t, "\nHOME=");
    push_str(&mut t, e.home.as_str());
    push_str(&mut t, "\nCI=");
    push_str(&mut t, e.ci.as_str());
    push_str(&mut t, "\nSHELL=");
    push_str(&mut t, e.shell.as_str());
    push_str(&mut t, "\nLANG=");
    push_str(&mut t, e.lang.as_str());
    push_str(&mut t, "\ncwd=");
    push_str(&mut t, e.cwd.as_str());
    push_str(&mut t, "\n");
    sha256_hex(t.as_str())
}

impl ExecutionArtifact {
    /// Hash of the environment slice recorded with this run.
    pub fn environment_hash(&self) -> (h: String)
        ensures
            h@ == env_hash_of(self.env_snapshot),
            h@.len() == 64,
    {
        compute_env_hash(&self.env_snapshot)
    }
}

/// The run id of a command, environment and stdout: lowercase hex SHA-256 of
/// their compact JSON (`run_id_text`).
pub open spec fn run_id_of(command: Seq<Seq<char>>, env: Seq<(Seq<char>, Seq<char>)>, stdout: Seq<char>) -> Seq<char> {
    sha256_hex_of_text(run_id_text(command, env, stdout))
}

/// Content-addressed run id: SHA-256 (lowercase hex) over the compact JSON of
/// `command`, `env` (keys ascending) and `stdout`.
pub fn deterministic_run_id(command: &Vec<String>, env: &StringMap, stdout: &str) -> (id: String)
    ensures
        id@ == run_id_of(views(command@), env@, stdout@),
        id@.len() == 64,
{
    let pairs = env.to_pairs();
    let m = run_id_material(command, &pairs, stdout);
    sha256_hex_of_bytes(m.as_slice())
}

impl EnvSnapshot15 {
    /// A copy of the snapshot.
    pub fn duplicate(&self) -> (r: EnvSnapshot15)
        ensures
            r == *self,
    {
        EnvSnapshot15 {
            path: self.path.clone(),
            home: self.home.clone(),
            ci: self.ci.clone(),
            shell: self.shell.clone(),
            lang: self.lang.clone(),
            cwd: self.cwd.clone(),
        }
    }
}

impl ReproRun {
    /// A copy of the run identity.
    pub fn duplicate(&self) -> (r: ReproRun)
        ensures
            r.id == self.id,
            r.command@ == self.command@,
            r.env@ == self.env@,
            r.stdout == self.stdout,
    {
        ReproRun {
            id: self.id.clone(),
            command: clone_strings(&self.command),
            env: self.env.duplicate(),
            stdout: self.stdout.clone(),
        }
    }
}

impl ExecutionArtifact {
    /// A copy of the record.
    pub fn duplicate(&self) -> (r: ExecutionArtifact)
        ensures
            r.schema_version == self.schema_version,
            r.run_id == self.run_id,
            match (r.repro_run, self.repro_run) {
                (Some(x), Some(y)) => x.id == y.id && x.command@ == y.command@ && x.env@ == y.env@
                    && x.stdout == y.stdout,
                (None, None) => true,
                _ => false,
            },
            r.command == self.command,
            r.cwd == self.cwd,
            r.timestamp == self.timestamp,
            r.env_snapshot == self.env_snapshot,
            r.stdout == self.stdout,
            r.stderr == self.stderr,
            r.exit_code == self.exit_code,
            r.duration_ms == self.duration_ms,
            r.trace@ == self.trace@,
    {
        ExecutionArtifact {
            schema_version: self.schema_version,
            run_id: self.run_id.clone(),
            repro_run: match &self.repro_run {
                Some(rr) => Some(rr.duplicate()),
                None => None,
            },
            command: self.command.clone(),
            cwd: self.cwd.clone(),
            timestamp: self.timestamp,
            env_snapshot: self.env_snapshot.duplicate(),
            stdout: self.stdout.clone(),
            stderr: self.stderr.clone(),
            exit_code: self.exit_code,
            duration_ms: self.duration_ms,
            trace: self.trace.duplicate(),
        }
    }
}

/// The environment variables whose values feed the environment hash, in order.
pub fn env_whitelist() -> (r: Vec<String>)
    ensures
        views(r@) == seq!["PATH"@, "HOME"@, "CI"@, "SHELL"@, "LANG"@],
{
    let r = vec![
        crate::text::owned("PATH"),
        crate::text::owned("HOME"),
        crate::text::owned("CI"),
        crate::text::owned("SHELL"),
        crate::text::owned("LANG"),
    ];
    assert(views(r@) =~= seq!["PATH"@, "HOME"@, "CI"@, "SHELL"@, "LANG"@]);
    r
}

} // verus!
