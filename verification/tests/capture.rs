use sealrun::artifact::{env_whitelist, EnvSnapshot15};
use sealrun::capture::{
    build_execution_trace, capture_at, capture_command_real_with_clock, capture_command_with_clock,
    reset_counter_for_tests, FixedClock,
    HostSnapshot, ProcessResult, SpawnOutcome,
};
use sealrun::string_map::StringMap;
use sealrun::runs::replay_stdout;
use sealrun::trace::{ExecutionEvent, ExecutionTrace};

fn host() -> HostSnapshot {
    let mut env = StringMap::new();
    env.insert("HOME".to_string(), "/home/dev".to_string());
    env.insert("PATH".to_string(), "/usr/bin:/bin".to_string());
    HostSnapshot {
        env_snapshot: EnvSnapshot15 {
            path: "/usr/bin:/bin".to_string(),
            home: "/home/dev".to_string(),
            ci: String::new(),
            shell: "/bin/sh".to_string(),
            lang: "C.UTF-8".to_string(),
            cwd: "/work".to_string(),
        },
        env_full: env,
        env_resolved_keys: vec!["HOME".to_string(), "PATH".to_string()],
    }
}

fn echoed(text: &str, duration_ms: u64) -> SpawnOutcome {
    SpawnOutcome::Completed {
        stdout: format!("{text}\n"),
        stderr: String::new(),
        exit_code: 0,
        duration_ms,
    }
}

#[test]
fn same_input_same_artifact_except_timing() {
    reset_counter_for_tests();
    let a = capture_command_with_clock("echo hello".into(), &FixedClock(42), host(), echoed("hello", 3));
    reset_counter_for_tests();
    let b = capture_command_with_clock("echo hello".into(), &FixedClock(42), host(), echoed("hello", 11));
    assert_eq!(a.command, b.command);
    assert_eq!(a.stdout, b.stdout);
    assert_eq!(a.stderr, b.stderr);
    assert_eq!(a.exit_code, b.exit_code);
    assert_eq!(a.environment_hash(), b.environment_hash());
    assert_eq!(a.cwd, b.cwd);
    assert_eq!(a.run_id, b.run_id);
    assert_eq!(a.timestamp, b.timestamp);
    assert_eq!(a.trace.events.len(), b.trace.events.len());
    for (ea, eb) in a.trace.events.iter().zip(b.trace.events.iter()) {
        match (ea, eb) {
            (ExecutionEvent::Timing { .. }, ExecutionEvent::Timing { .. }) => {}
            _ => assert!(ea.same_as(eb)),
        }
    }
}

#[test]
fn echo_round_trips() {
    reset_counter_for_tests();
    let a = capture_command_with_clock("echo hello".into(), &FixedClock(0), host(), echoed("hello", 1));
    assert_eq!(a.stdout, "hello\n");
    assert_eq!(a.stderr, "");
    assert_eq!(a.exit_code, 0);
}

#[test]
fn different_commands_differ() {
    reset_counter_for_tests();
    let a = capture_command_with_clock("echo a".into(), &FixedClock(0), host(), echoed("a", 1));
    let b = capture_command_with_clock("echo b".into(), &FixedClock(0), host(), echoed("b", 1));
    assert_ne!(a.run_id, b.run_id);
    assert_ne!(a.stdout, b.stdout);
}

#[test]
fn capture_records_clock_command_and_environment() {
    let a = capture_command_with_clock("echo hello".into(), &FixedClock(42), host(), echoed("hello", 3));
    assert_eq!(a.timestamp, 42);
    assert_eq!(a.command, "echo hello");
    assert_eq!(a.cwd, "/work");
    assert_eq!(a.duration_ms, 3);
    assert_eq!(a.schema_version, 4);
    assert_eq!(a.run_id.len(), 64);
    assert_eq!(a.trace.run_id, a.run_id);
    let rr = a.repro_run.as_ref().expect("identity material");
    assert_eq!(rr.command, vec!["echo".to_string(), "hello".to_string()]);
    assert_eq!(rr.stdout, "hello\n");
    match &a.trace.events[0] {
        ExecutionEvent::Spawn { command } => assert_eq!(command, "echo hello"),
        other => panic!("expected spawn, got {other:?}"),
    }
}

#[test]
fn failed_spawn_is_recorded_with_its_error() {
    let out = SpawnOutcome::Failed { error: "No such file or directory".to_string(), elapsed_ms: 2 };
    let a = capture_command_with_clock("no-such-tool --flag".into(), &FixedClock(5), host(), out);
    assert_eq!(a.exit_code, -1);
    assert_eq!(a.stdout, "");
    assert_eq!(a.stderr, "spawn error: No such file or directory");
    assert_eq!(a.duration_ms, 2);
}

#[test]
fn empty_command_is_recorded_as_usage_error() {
    let a = capture_command_with_clock("   ".into(), &FixedClock(5), host(), echoed("", 0));
    assert_eq!(a.exit_code, 2);
    assert_eq!(a.stderr, "empty program");
}

#[test]
fn replay_prints_the_recorded_stdout() {
    let a = capture_command_with_clock("echo hello".into(), &FixedClock(7), host(), echoed("hello", 2));
    assert_eq!(replay_stdout(&a.trace), "hello\n");
    let failed = capture_command_with_clock(
        "nope".into(),
        &FixedClock(7),
        host(),
        SpawnOutcome::Failed { error: "not found".to_string(), elapsed_ms: 1 },
    );
    assert_eq!(replay_stdout(&failed.trace), "");
}

#[test]
fn replay_concatenates_stdout_chunks_in_order() {
    let t = ExecutionTrace {
        run_id: "r".to_string(),
        events: vec![
            ExecutionEvent::Stdout { chunk: "a".to_string() },
            ExecutionEvent::Stderr { chunk: "x".to_string() },
            ExecutionEvent::Stdout { chunk: "b\n".to_string() },
            ExecutionEvent::Exit { code: 0 },
        ],
    };
    assert_eq!(replay_stdout(&t), "ab\n");
}

#[test]
fn whitelisted_environment_keys() {
    assert_eq!(env_whitelist(), vec!["PATH", "HOME", "CI", "SHELL", "LANG"]);
}

#[test]
fn capture_at_splits_nothing_and_keeps_the_joined_command() {
    let args = vec!["a b".to_string(), "c".to_string()];
    let a = capture_at("printf", &args, "printf 'a b' c", 77, host(), echoed("a b c", 5));
    assert_eq!(a.command, "printf 'a b' c");
    assert_eq!(a.timestamp, 77);
    assert_eq!(a.stdout, "a b c\n");
    assert!(matches!(&a.trace.events[0], ExecutionEvent::Spawn { command } if command == "printf a b c"));
    let rr = a.repro_run.as_ref().unwrap();
    assert_eq!(rr.command, vec!["printf".to_string(), "a b".to_string(), "c".to_string()]);
    let empty = capture_at("", &vec![], "", 1, host(), echoed("x", 5));
    assert_eq!(empty.exit_code, 2);
    assert_eq!(empty.stderr, "empty program");
    assert_eq!(empty.stdout, "");
}

#[test]
fn trace_has_the_locked_event_order() {
    let out = ProcessResult { stdout: "o".to_string(), stderr: "e".to_string(), exit_code: 3 };
    let t = build_execution_trace("ls", &vec!["-l".to_string()], &out, 9, "rid".to_string(), vec!["PATH".to_string()]);
    assert_eq!(t.run_id, "rid");
    let expected = vec![
        ExecutionEvent::Spawn { command: "ls -l".to_string() },
        ExecutionEvent::EnvResolved { keys: vec!["PATH".to_string()] },
        ExecutionEvent::Stdout { chunk: "o".to_string() },
        ExecutionEvent::Stderr { chunk: "e".to_string() },
        ExecutionEvent::Exit { code: 3 },
        ExecutionEvent::Timing { duration_ms: 9 },
    ];
    assert_eq!(t.events.len(), expected.len());
    for (x, y) in t.events.iter().zip(expected.iter()) {
        assert!(x.same_as(y));
    }
}

#[test]
fn injected_clock_stamps_the_record() {
    let a = capture_command_real_with_clock("", &vec![], "", &FixedClock(7), host(), echoed("x", 1));
    assert_eq!(a.timestamp, 7);
    assert_eq!(a.stdout, "");
    assert_eq!(a.stderr, "empty program");
    assert_eq!(a.exit_code, 2);
    assert_eq!(a.command, "");
    assert_eq!(a.repro_run.as_ref().unwrap().command, vec!["".to_string()]);
    let b = capture_command_with_clock("echo hello".into(), &FixedClock(0), host(), echoed("hello", 1));
    assert_eq!(b.timestamp, 0);
}
