use sealrun::artifact::{EnvSnapshot15, ExecutionArtifact};
use sealrun::capture::{capture_command_with_clock, FixedClock, HostSnapshot, SpawnOutcome};
use sealrun::string_map::StringMap;
use sealrun::trace::ExecutionEvent;

fn echo_hello_run() -> ExecutionArtifact {
    let mut env = StringMap::new();
    env.insert("PATH".to_string(), "/usr/bin:/bin".to_string());
    let host = HostSnapshot {
        env_snapshot: EnvSnapshot15 {
            path: "/usr/bin:/bin".to_string(),
            home: "/root".to_string(),
            ci: String::new(),
            shell: "/bin/bash".to_string(),
            lang: String::new(),
            cwd: "/tmp/run".to_string(),
        },
        env_full: env,
        env_resolved_keys: vec!["PATH".to_string()],
    };
    let outcome = SpawnOutcome::Completed {
        stdout: "hello\n".to_string(),
        stderr: String::new(),
        exit_code: 0,
        duration_ms: 2,
    };
    capture_command_with_clock("echo hello".to_string(), &FixedClock(1_700_000_000), host, outcome)
}

fn is_env_event(e: &ExecutionEvent) -> bool {
    matches!(e, ExecutionEvent::EnvResolved { .. })
}

#[test]
fn echo_hello_run_has_expected_cardinality_and_stdout_chunks() {
    let art = echo_hello_run();
    let ev = &art.trace.events;

    let spawns = ev.iter().filter(|e| matches!(e, ExecutionEvent::Spawn { .. })).count();
    let envs = ev.iter().filter(|e| is_env_event(e)).count();
    let exits = ev.iter().filter(|e| matches!(e, ExecutionEvent::Exit { .. })).count();

    assert_eq!(spawns, 1, "exactly one Spawn");
    assert_eq!(envs, 1, "exactly one env-class event");
    assert_eq!(exits, 1, "exactly one Exit");

    if let Some((last_i, _)) = ev.iter().enumerate().next_back() {
        assert_eq!(last_i + 1, ev.len());
    }

    for (i, e) in ev.iter().enumerate() {
        if let ExecutionEvent::Stdout { chunk } = e {
            assert!(!chunk.is_empty(), "stdout chunk at index {i} must not be empty for echo hello");
        }
    }
}

#[test]
fn spawn_env_streams_exit_timing_order() {
    let art = echo_hello_run();
    let ev = &art.trace.events;
    assert!(!ev.is_empty(), "trace must have events");

    assert!(
        matches!(ev.first(), Some(ExecutionEvent::Spawn { .. })),
        "event[0] must be Spawn, got {:?}",
        ev.first()
    );

    let env_positions: Vec<usize> =
        ev.iter().enumerate().filter(|(_, e)| is_env_event(e)).map(|(i, _)| i).collect();
    assert_eq!(
        env_positions.len(),
        1,
        "exactly one EnvResolved/EnvSnapshot event allowed, positions {env_positions:?}"
    );
    assert_eq!(env_positions[0], 1, "env event must be at index 1");

    let last = ev.len() - 1;
    let second_last = last.saturating_sub(1);
    assert!(
        matches!(ev[second_last], ExecutionEvent::Exit { .. }),
        "last-1 must be Exit, got {:?}",
        ev[second_last]
    );
    assert!(
        matches!(ev[last], ExecutionEvent::Timing { .. }),
        "last must be Timing when present, got {:?}",
        ev[last]
    );

    for (i, e) in ev.iter().enumerate().skip(2).take(second_last.saturating_sub(2)) {
        assert!(
            matches!(e, ExecutionEvent::Stdout { .. } | ExecutionEvent::Stderr { .. }),
            "between env and exit only Stdout/Stderr allowed at index {i}: {:?}",
            e
        );
    }
}

#[test]
fn timeline_carries_the_run_values() {
    let art = echo_hello_run();
    let ev = &art.trace.events;
    assert_eq!(ev.len(), 6);
    match &ev[1] {
        ExecutionEvent::EnvResolved { keys } => assert_eq!(keys, &vec!["PATH".to_string()]),
        other => panic!("unexpected {other:?}"),
    }
    match &ev[4] {
        ExecutionEvent::Exit { code } => assert_eq!(*code, 0),
        other => panic!("unexpected {other:?}"),
    }
    match &ev[5] {
        ExecutionEvent::Timing { duration_ms } => assert_eq!(*duration_ms, 2),
        other => panic!("unexpected {other:?}"),
    }
}
