//! Capture layer: turns one process execution into an [`ExecutionArtifact`].
//!
//! Spawning the process and reading the host environment are done by the
//! caller; this module decides what the record holds.

use crate::artifact::{
    deterministic_run_id, run_id_of, EnvSnapshot15, ExecutionArtifact, ReproRun,
    EXECUTION_ARTIFACT_SCHEMA_VERSION,
};
use crate::string_map::StringMap;
use crate::text::{is_whitespace, is_ws, chars_of, concat2, join_seq, join_strings, owned, push_str,
    string_of, views};
use crate::trace::{EventView, ExecutionEvent, ExecutionTrace, event_views};
use vstd::prelude::*;

verus! {

/// Source of timestamps (seconds since the UNIX epoch for real runs).
pub trait Clock {
    /// `t` is a reading this clock may give.
    spec fn reads(&self, t: u64) -> bool;

    /// The clock's current reading.
    fn now(&self) -> (t: u64)
        ensures
            self.reads(t),
    ;
}

#[verifier::external_type_specification]
#[verifier::external_body]
pub struct ExSystemTime(std::time::SystemTime);

#[verifier::external_type_specification]
#[verifier::external_body]
pub struct ExSystemTimeError(std::time::SystemTimeError);

/// `SystemTime::now`: the system clock's current time.
/// Trusted: nothing is stated of it, as it depends on the time of the call.
#[verifier::external_body]
fn system_time_now() -> std::time::SystemTime {
    std::time::SystemTime::now()
}

/// `SystemTime::duration_since(UNIX_EPOCH)`: how long after the epoch `t` is, or
/// an error when `t` is before it. Trusted: nothing is stated of which.
#[verifier::external_body]
fn since_unix_epoch(t: &std::time::SystemTime) -> Result<std::time::Duration, std::time::SystemTimeError> {
    t.duration_since(std::time::UNIX_EPOCH)
}

/// `Duration::as_secs`: the whole seconds of `d`. Trusted: nothing is stated
/// of the value, as `Duration` is opaque here.
#[verifier::external_body]
fn whole_seconds(d: &std::time::Duration) -> u64 {
    d.as_secs()
}

/// Seconds since the UNIX epoch by the system clock, 0 if the clock is before the epoch.
fn system_unix_seconds() -> u64 {
    match since_unix_epoch(&system_time_now()) {
        Ok(d) => whole_seconds(&d),
        Err(_) => 0,
    }
}

/// Wall-clock source.
#[derive(Debug)]
pub struct SystemClock;

impl Clock for SystemClock {
    /// Any reading: the value depends on the time of the call.
    open spec fn reads(&self, t: u64) -> bool {
        true
    }

    fn now(&self) -> (t: u64) {
        system_unix_seconds()
    }
}

/// A clock that always reads the same value.
#[derive(Debug)]
pub struct FixedClock(pub u64);

impl Clock for FixedClock {
    /// Only the fixed value.
    open spec fn reads(&self, t: u64) -> bool {
        t == self.0
    }

    fn now(&self) -> (t: u64) {
        self.0
    }
}

/// Run ids are content-addressed, so there is no counter to reset.
pub fn reset_counter_for_tests() {
}

/// Outcome of one subprocess run.
#[derive(Debug)]
pub struct ProcessResult {
    pub stdout: String,
    pub stderr: String,
    pub exit_code: i32,
}

/// What starting the program gave: its streams, exit code and duration, or
/// the error that kept it from starting and the time spent trying.
#[derive(Debug)]
pub enum SpawnOutcome {
    Completed { stdout: String, stderr: String, exit_code: i32, duration_ms: u64 },
    Failed { error: String, elapsed_ms: u64 },
}

/// The host state read at capture time.
#[derive(Debug)]
pub struct HostSnapshot {
    /// The environment slice that feeds the environment hash.
    pub env_snapshot: EnvSnapshot15,
    /// The full process environment.
    pub env_full: StringMap,
    /// Names of the environment variables resolved for the trace.
    pub env_resolved_keys: Vec<String>,
}

/// The command text of a trace's `Spawn` event: program, a space, then the
/// arguments joined by spaces.
pub open spec fn spawn_text(program: Seq<char>, args: Seq<Seq<char>>) -> Seq<char> {
    program + " "@ + join_seq(args, " "@)
}

/// The locked event order: `Spawn`, `EnvResolved`, `Stdout`, `Stderr`, `Exit`, `Timing`.
pub open spec fn trace_events(
    program: Seq<char>,
    args: Seq<Seq<char>>,
    stdout: Seq<char>,
    stderr: Seq<char>,
    exit_code: int,
    duration_ms: nat,
    keys: Seq<Seq<char>>,
) -> Seq<EventView> {
    seq![
        EventView::Spawn(spawn_text(program, args)),
        EventView::EnvResolved(keys),
        EventView::Stdout(stdout),
        EventView::Stderr(stderr),
        EventView::Exit(exit_code),
        EventView::Timing(duration_ms),
    ]
}

/// The canonical event timeline of a completed subprocess capture.
pub fn build_execution_trace(
    program: &str,
    args: &Vec<String>,
    output: &ProcessResult,
    duration_ms: u128,
    run_id: String,
    env_resolved_keys: Vec<String>,
) -> (t: ExecutionTrace)
    ensures
        t.run_id@ == run_id@,
        event_views(t.events@) == trace_events(
            program@,
            views(args@),
            output.stdout@,
            output.stderr@,
            output.exit_code as int,
            duration_ms as nat,
            views(env_resolved_keys@),
        ),
{
    let mut command = concat2(program, " ");
    let joined = join_strings(args, " ");
    push_str(&mut command, joined.as_str());
    let ghost keys = views(env_resolved_keys@);
    let events = vec![
        ExecutionEvent::Spawn { command },
        ExecutionEvent::EnvResolved { keys: env_resolved_keys },
        ExecutionEvent::Stdout { chunk: output.stdout.clone() },
        ExecutionEvent::Stderr { chunk: output.stderr.clone() },
        ExecutionEvent::Exit { code: output.exit_code },
        ExecutionEvent::Timing { duration_ms },
    ];
    let t = ExecutionTrace { run_id, events };
    assert(event_views(t.events@) =~= trace_events(
        program@,
        views(args@),
        output.stdout@,
        output.stderr@,
        output.exit_code as int,
        duration_ms as nat,
        keys,
    ));
    t
}

// ---------------------------------------------------------------------------
// Splitting a command line on whitespace
// ---------------------------------------------------------------------------

/// Ends the current token, if any.
pub open spec fn close_token(tokens: Seq<Seq<char>>, cur: Seq<char>) -> Seq<Seq<char>> {
    if cur.len() == 0 {
        tokens
    } else {
        tokens.push(cur)
    }
}

/// Scans `s` left to right: whitespace ends the current token, other
/// characters extend it.
pub open spec fn scan_tokens(tokens: Seq<Seq<char>>, cur: Seq<char>, s: Seq<char>) -> Seq<Seq<char>>
    decreases s.len(),
{
    if s.len() == 0 {
        close_token(tokens, cur)
    } else if is_ws(s[0]) {
        scan_tokens(close_token(tokens, cur), Seq::empty(), s.drop_first())
    } else {
        scan_tokens(tokens, cur.push(s[0]), s.drop_first())
    }
}

/// The maximal runs of non-whitespace characters of `s`, in order (`split_whitespace`).
pub open spec fn ws_tokens(s: Seq<char>) -> Seq<Seq<char>> {
    scan_tokens(Seq::empty(), Seq::empty(), s)
}

/// Splits a command line into program and arguments on whitespace; an empty
/// or all-blank line gives an empty program and no arguments.
pub fn split_cli_line(command: &str) -> (r: (String, Vec<String>))
    ensures
        ws_tokens(command@).len() == 0 ==> r.0@.len() == 0 && r.1@.len() == 0,
        ws_tokens(command@).len() > 0 ==> r.0@ == ws_tokens(command@)[0] && views(r.1@)
            == ws_tokens(command@).drop_first(),
{
    let v = chars_of(command);
    let mut tokens: Vec<String> = Vec::new();
    let mut cur: Vec<char> = Vec::new();
    let n = v.len();
    assert(v@.skip(0) == v@);
    assert(views(tokens@) =~= Seq::<Seq<char>>::empty());
    assert(cur@ =~= Seq::<char>::empty());
    for i in 0..n
        invariant
            n == v@.len(),
            v@ == command@,
            scan_tokens(views(tokens@), cur@, v@.skip(i as int)) == ws_tokens(command@),
    {
        let c = v[i];
        let ghost t0 = views(tokens@);
        let ghost c0 = cur@;
        assert(v@.skip(i as int)[0] == c);
        assert(v@.skip(i as int).drop_first() == v@.skip(i + 1));
        if is_whitespace(c) {
            if cur.len() > 0 {
                let t = string_of(&cur);
                tokens.push(t);
                assert(views(tokens@) =~= t0.push(c0));
            }
            cur = Vec::new();
            assert(views(tokens@) == crate::capture::close_token(t0, c0));
            assert(cur@ =~= Seq::<char>::empty());
        } else {
            cur.push(c);
            assert(cur@ == c0.push(c));
        }
    }
    if cur.len() > 0 {
        let t = string_of(&cur);
        tokens.push(t);
        assert(views(tokens@) =~= views(tokens@.drop_last()).push(cur@));
    }
    assert(views(tokens@) == ws_tokens(command@));
    if tokens.len() == 0 {
        return (String::new(), Vec::new());
    }
    let program = tokens.remove(0);
    assert(views(tokens@) =~= ws_tokens(command@).drop_first());
    (program, tokens)
}

// ---------------------------------------------------------------------------
// Assembling the record
// ---------------------------------------------------------------------------

/// The streams, exit code and duration recorded for a run: an empty program
/// is not started (`empty program`, exit 2); a start failure records
/// `spawn error: <error>` and exit -1.
pub open spec fn recorded_result(program: Seq<char>, outcome: SpawnOutcome) -> (Seq<char>, Seq<char>, int, nat) {
    if program.len() == 0 {
        (Seq::empty(), "empty program"@, 2, match outcome {
            SpawnOutcome::Completed { duration_ms, .. } => duration_ms as nat,
            SpawnOutcome::Failed { elapsed_ms, .. } => elapsed_ms as nat,
        })
    } else {
        match outcome {
            SpawnOutcome::Completed { stdout, stderr, exit_code, duration_ms } => (
                stdout@,
                stderr@,
                exit_code as int,
                duration_ms as nat,
            ),
            SpawnOutcome::Failed { error, elapsed_ms } => (
                Seq::empty(),
                "spawn error: "@ + error@,
                -1,
                elapsed_ms as nat,
            ),
        }
    }
}

fn result_of(program: &str, outcome: SpawnOutcome) -> (r: (String, String, i32, u64))
    ensures
        (r.0@, r.1@, r.2 as int, r.3 as nat) == recorded_result(program@, outcome),
{
    let ghost o = outcome;
    let empty = program.is_empty();
    match outcome {
        SpawnOutcome::Completed { stdout, stderr, exit_code, duration_ms } => {
            if empty {
                (String::new(), owned("empty program"), 2, duration_ms)
            } else {
                (stdout, stderr, exit_code, duration_ms)
            }
        },
        SpawnOutcome::Failed { error, elapsed_ms } => {
            if empty {
                (String::new(), owned("empty program"), 2, elapsed_ms)
            } else {
                (String::new(), concat2("spawn error: ", error.as_str()), -1, elapsed_ms)
            }
        },
    }
}

/// `[program] ++ args`.
pub open spec fn argv_of(program: Seq<char>, args: Seq<Seq<char>>) -> Seq<Seq<char>> {
    seq![program] + args
}

/// What a capture records, given the clock reading.
pub open spec fn captured(
    a: ExecutionArtifact,
    program: Seq<char>,
    args: Seq<Seq<char>>,
    joined_command: Seq<char>,
    timestamp: u64,
    host: HostSnapshot,
    outcome: SpawnOutcome,
) -> bool {
    let r = recorded_result(program, outcome);
    let id = run_id_of(argv_of(program, args), host.env_full@, r.0);
    &&& a.schema_version == EXECUTION_ARTIFACT_SCHEMA_VERSION
    &&& a.run_id@ == id
    &&& a.repro_run matches Some(rr) && rr.id@ == id && views(rr.command@) == argv_of(program, args)
        && rr.env@ == host.env_full@ && rr.stdout@ == r.0
    &&& a.command@ == joined_command
    &&& a.cwd@ == host.env_snapshot.cwd@
    &&& a.timestamp == timestamp
    &&& a.env_snapshot == host.env_snapshot
    &&& a.stdout@ == r.0
    &&& a.stderr@ == r.1
    &&& a.exit_code as int == r.2
    &&& a.duration_ms as nat == r.3
    &&& a.trace.run_id@ == id
    &&& event_views(a.trace.events@) == trace_events(
        program,
        args,
        r.0,
        r.1,
        r.2,
        r.3,
        views(host.env_resolved_keys@),
    )
}

/// Builds the record of one run from its clock reading, host state and spawn outcome.
pub fn capture_at(
    program: &str,
    args: &Vec<String>,
    joined_command: &str,
    timestamp: u64,
    host: HostSnapshot,
    outcome: SpawnOutcome,
) -> (a: ExecutionArtifact)
    ensures
        captured(a, program@, views(args@), joined_command@, timestamp, host, outcome),
{
    let ghost o = outcome;
    let ghost h = host;
    let (stdout, stderr, exit_code, duration_ms) = result_of(program, outcome);
    let HostSnapshot { env_snapshot, env_full, env_resolved_keys } = host;
    let cwd = env_snapshot.cwd.clone();
    let mut command_argv: Vec<String> = Vec::new();
    command_argv.push(owned(program));
    let n = args.len();
    for i in 0..n
        invariant
            n == args@.len(),
            command_argv@.len() == i + 1,
            command_argv@[0]@ == program@,
            forall|j: int| 0 <= j < i ==> command_argv@[j + 1]@ == args@[j]@,
    {
        command_argv.push(args[i].clone());
    }
    assert(views(command_argv@) =~= argv_of(program@, views(args@)));
    let run_id = deterministic_run_id(&command_argv, &env_full, stdout.as_str());
    let process_result = ProcessResult {
        stdout: stdout.clone(),
        stderr: stderr.clone(),
        exit_code,
    };
    let trace = build_execution_trace(
        program,
        args,
        &process_result,
        duration_ms as u128,
        run_id.clone(),
        env_resolved_keys,
    );
    let repro_run = Some(ReproRun {
        id: run_id.clone(),
        command: command_argv,
        env: env_full,
        stdout: stdout.clone(),
    });
    ExecutionArtifact {
        schema_version: EXECUTION_ARTIFACT_SCHEMA_VERSION,
        run_id,
        repro_run,
        command: owned(joined_command),
        cwd,
        timestamp,
        env_snapshot,
        stdout,
        stderr,
        exit_code,
        duration_ms,
        trace,
    }
}

/// Captures a run of `program args` with an injected clock: the record is
/// [`capture_at`] of the clock's reading.
pub fn capture_command_real_with_clock<C: Clock>(
    program: &str,
    args: &Vec<String>,
    joined_command: &str,
    clock: &C,
    host: HostSnapshot,
    outcome: SpawnOutcome,
) -> (a: ExecutionArtifact)
    ensures
        captured(a, program@, views(args@), joined_command@, a.timestamp, host, outcome),
        clock.reads(a.timestamp),
{
    let timestamp = clock.now();
    capture_at(program, args, joined_command, timestamp, host, outcome)
}

/// Captures a run of `program args` stamped by the system clock.
pub fn capture_command_real(
    program: &str,
    args: &Vec<String>,
    joined_command: &str,
    host: HostSnapshot,
    outcome: SpawnOutcome,
) -> (a: ExecutionArtifact)
    ensures
        captured(a, program@, views(args@), joined_command@, a.timestamp, host, outcome),
{
    capture_command_real_with_clock(program, args, joined_command, &SystemClock, host, outcome)
}

/// Captures a whitespace-separated command line with an injected clock;
/// `outcome` is what running its first word with the remaining words gave.
pub fn capture_command_with_clock<C: Clock>(
    command: String,
    clock: &C,
    host: HostSnapshot,
    outcome: SpawnOutcome,
) -> (a: ExecutionArtifact)
    ensures
        ws_tokens(command@).len() == 0 ==> captured(a, Seq::empty(), Seq::empty(), command@, a.timestamp, host, outcome),
        ws_tokens(command@).len() > 0 ==> captured(
            a,
            ws_tokens(command@)[0],
            ws_tokens(command@).drop_first(),
            command@,
            a.timestamp,
            host,
            outcome,
        ),
        clock.reads(a.timestamp),
{
    let (program, args) = split_cli_line(command.as_str());
    proof {
        if ws_tokens(command@).len() == 0 {
            assert(program@ =~= Seq::<char>::empty());
            assert(views(args@) =~= Seq::<Seq<char>>::empty());
        }
    }
    capture_command_real_with_clock(program.as_str(), &args, command.as_str(), clock, host, outcome)
}

/// Captures a whitespace-separated command line stamped by the system clock.
pub fn capture_command(command: String, host: HostSnapshot, outcome: SpawnOutcome) -> (a: ExecutionArtifact)
    ensures
        ws_tokens(command@).len() == 0 ==> captured(a, Seq::empty(), Seq::empty(), command@, a.timestamp, host, outcome),
        ws_tokens(command@).len() > 0 ==> captured(
            a,
            ws_tokens(command@)[0],
            ws_tokens(command@).drop_first(),
            command@,
            a.timestamp,
            host,
            outcome,
        ),
{
    capture_command_with_clock(command, &SystemClock, host, outcome)
}

} // verus!
