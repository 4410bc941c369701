use sealrun::artifact::{EnvSnapshot15, ReproRun};
use sealrun::capture::{
    capture_command_with_clock, reset_counter_for_tests, FixedClock, HostSnapshot, SpawnOutcome,
};
use sealrun::diff::{
    build_causal_chain, diff_environment, diff_execution, diff_repro_run_env, diff_runs, diff_runs_with_index,
    fields, filter_timing_noise_fields, infer_temporal_context, project, FieldDiff, FIELD_COUNT,
};
use sealrun::string_map::StringMap;

fn host_with(path: &str) -> HostSnapshot {
    let mut env = StringMap::new();
    env.insert("HOME".to_string(), "/home/dev".to_string());
    env.insert("PATH".to_string(), path.to_string());
    HostSnapshot {
        env_snapshot: EnvSnapshot15 {
            path: path.to_string(),
            home: "/home/dev".to_string(),
            ci: String::new(),
            shell: "/bin/sh".to_string(),
            lang: "C.UTF-8".to_string(),
            cwd: "/work".to_string(),
        },
        env_full: env,
        env_resolved_keys: vec!["HOME".to_string(), "PATH".to_string()],
    }
}

fn host() -> HostSnapshot {
    host_with("/usr/bin:/bin")
}

fn echoed(text: &str) -> SpawnOutcome {
    SpawnOutcome::Completed {
        stdout: format!("{text}\n"),
        stderr: String::new(),
        exit_code: 0,
        duration_ms: 4,
    }
}

#[test]
fn identical_runs_have_no_differences() {
    reset_counter_for_tests();
    let a = capture_command_with_clock("echo x".to_string(), &FixedClock(1), host(), echoed("x"));
    let b = a.duplicate();
    let r = diff_runs(&a, &b);
    assert!(r.differences.is_empty());
    assert!(r.changed_fields.is_empty());
    assert_eq!(r.unchanged_fields.len(), FIELD_COUNT);
    assert!(r.causal_chain.is_empty());
}

#[test]
fn different_commands_surface_as_first_field() {
    reset_counter_for_tests();
    let a = capture_command_with_clock("echo a".to_string(), &FixedClock(1), host(), echoed("a"));
    let b = capture_command_with_clock("echo b".to_string(), &FixedClock(1), host(), echoed("b"));
    let r = diff_runs(&a, &b);
    assert!(!r.differences.is_empty());
    assert_eq!(r.differences[0].field, "command");
    assert_eq!(r.changed_fields[0], "command");
}

#[test]
fn duration_only_differences_filtered_without_stream_or_exit_change() {
    reset_counter_for_tests();
    let a = capture_command_with_clock("echo x".to_string(), &FixedClock(1), host(), echoed("x"));
    let mut b = a.duplicate();
    b.duration_ms = a.duration_ms.saturating_add(999);
    let r = diff_runs(&a, &b);
    assert!(
        r.differences.is_empty(),
        "duration-only drift must be suppressed: {:?}",
        r.differences
    );
}

#[test]
fn timestamp_only_differences_are_filtered_out() {
    reset_counter_for_tests();
    let a = capture_command_with_clock("echo x".to_string(), &FixedClock(1), host(), echoed("x"));
    let mut b = a.duplicate();
    b.timestamp = 99;
    let r = diff_runs(&a, &b);
    assert!(
        r.differences.is_empty(),
        "timestamp-only drift should not surface as a semantic diff: {:?}",
        r.differences
    );
    assert!(r.causal_chain.is_empty());
}

#[test]
fn grouped_diff_subset_of_fields() {
    reset_counter_for_tests();
    let a = capture_command_with_clock("echo a".to_string(), &FixedClock(1), host(), echoed("a"));
    let b = capture_command_with_clock("echo b".to_string(), &FixedClock(1), host(), echoed("b"));
    let g = diff_environment(&a, &b).len() + diff_execution(&a, &b).len();
    let flat = diff_runs(&a, &b).differences.len();
    assert!(flat >= g);
}

#[test]
fn field_order_is_the_contract() {
    assert_eq!(
        fields(),
        vec!["command", "environment_hash", "cwd", "exit_code", "stdout", "stderr", "duration_ms", "timestamp"]
    );
}

#[test]
fn duration_kept_beside_a_stdout_change() {
    let a = capture_command_with_clock("echo x".to_string(), &FixedClock(1), host(), echoed("x"));
    let mut b = a.duplicate();
    b.stdout = "y\n".to_string();
    b.duration_ms = 500;
    let r = diff_runs(&a, &b);
    let names: Vec<&str> = r.differences.iter().map(|d| d.field.as_str()).collect();
    assert_eq!(names, vec!["stdout", "duration_ms"]);
    assert_eq!(r.differences[1].a, "4");
    assert_eq!(r.differences[1].b, "500");
    let stdout_diff = r.aion.stdout_diff.as_ref().expect("stdout diff");
    assert_eq!(stdout_diff.a, "x\n");
    assert_eq!(stdout_diff.b, "y\n");
}

#[test]
fn timing_noise_filter_drops_timestamp_and_lone_duration() {
    let d = |f: &str| FieldDiff { field: f.to_string(), a: "1".to_string(), b: "2".to_string() };
    let kept = filter_timing_noise_fields(vec![d("timestamp"), d("duration_ms"), d("cwd")]);
    assert_eq!(kept.len(), 1);
    assert_eq!(kept[0].field, "cwd");
    let kept = filter_timing_noise_fields(vec![d("exit_code"), d("duration_ms"), d("timestamp")]);
    let names: Vec<&str> = kept.iter().map(|d| d.field.as_str()).collect();
    assert_eq!(names, vec!["exit_code", "duration_ms"]);
}

#[test]
fn environment_change_is_diagnosed_with_deltas() {
    let a = capture_command_with_clock("echo x".to_string(), &FixedClock(1), host(), echoed("x"));
    let b = capture_command_with_clock(
        "echo x".to_string(),
        &FixedClock(2),
        host_with("/opt/bin:/usr/bin"),
        echoed("x"),
    );
    let r = diff_runs(&a, &b);
    assert_eq!(r.changed_fields, vec!["environment_hash".to_string()]);
    assert_eq!(r.aion.env_diff.len(), 1);
    assert_eq!(r.aion.env_diff[0].key, "PATH");
    assert_eq!(r.aion.env_diff[0].value_a, "/usr/bin:/bin");
    assert_eq!(r.aion.env_diff[0].value_b, "/opt/bin:/usr/bin");
    assert_eq!(r.aion.causal_diff, vec!["PATH caused execution divergence".to_string()]);
}

#[test]
fn temporal_context_follows_the_index() {
    let index = vec!["r1".to_string(), "r2".to_string(), "r3".to_string()];
    let t = infer_temporal_context("r3", "r1", &index);
    assert_eq!(t.older_run_id, "r1");
    assert_eq!(t.newer_run_id, "r3");
    assert!(!t.run_a_is_older);
    let a = capture_command_with_clock("echo x".to_string(), &FixedClock(1), host(), echoed("x"));
    let b = a.duplicate();
    let r = diff_runs_with_index(&a, &b, &index);
    let tc = r.aion.temporal_context.as_ref().expect("context");
    assert_eq!(tc.older_run_id, a.run_id);
}

#[test]
fn diff_is_symmetric_in_changed_fields() {
    let a = capture_command_with_clock("echo a".to_string(), &FixedClock(1), host(), echoed("a"));
    let b = capture_command_with_clock("echo b".to_string(), &FixedClock(7), host(), echoed("b"));
    assert_eq!(diff_runs(&a, &b).changed_fields, diff_runs(&b, &a).changed_fields);
}

fn fd(field: &str) -> FieldDiff {
    FieldDiff { field: field.to_string(), a: "x".to_string(), b: "y".to_string() }
}

#[test]
fn causal_chain_puts_causes_before_effects_and_drops_timing() {
    let chain = build_causal_chain(&vec![fd("stdout"), fd("command"), fd("timestamp"), fd("duration_ms")]);
    assert_eq!(chain, vec!["command".to_string(), "stdout".to_string()]);
    let chain = build_causal_chain(&vec![fd("exit_code"), fd("cwd"), fd("environment_hash")]);
    assert_eq!(chain, vec!["environment_hash".to_string(), "cwd".to_string(), "exit_code".to_string()]);
    assert!(build_causal_chain(&vec![fd("timestamp")]).is_empty());
}

fn repro_run(pairs: &[(&str, &str)]) -> ReproRun {
    ReproRun {
        id: "r".to_string(),
        command: vec!["echo".to_string()],
        env: StringMap::from_pairs(pairs.iter().map(|(k, v)| (k.to_string(), v.to_string())).collect()),
        stdout: String::new(),
    }
}

#[test]
fn env_deltas_cover_the_union_of_keys_in_order() {
    let a = repro_run(&[("B", "2"), ("A", "1"), ("D", "same")]);
    let b = repro_run(&[("C", "4"), ("B", "3"), ("D", "same")]);
    let d = diff_repro_run_env(&a, &b);
    let got: Vec<(&str, &str, &str)> =
        d.iter().map(|x| (x.key.as_str(), x.value_a.as_str(), x.value_b.as_str())).collect();
    assert_eq!(got, vec![("A", "1", ""), ("B", "2", "3"), ("C", "", "4")]);
}

#[test]
fn projections_render_each_field() {
    let a = capture_command_with_clock("echo a".into(), &FixedClock(5), host(), echoed("a"));
    let b = capture_command_with_clock("echo b".into(), &FixedClock(6), host(), echoed("b"));
    assert_eq!(project(&a, &b, 0), ("echo a".to_string(), "echo b".to_string()));
    assert_eq!(project(&a, &b, 3), ("0".to_string(), "0".to_string()));
    assert_eq!(project(&a, &b, 4), ("a\n".to_string(), "b\n".to_string()));
    assert_eq!(project(&a, &b, 6), ("4".to_string(), "4".to_string()));
    assert_eq!(project(&a, &b, 7), ("5".to_string(), "6".to_string()));
    let (ha, hb) = project(&a, &b, 1);
    assert_eq!(ha, a.environment_hash());
    assert_eq!(ha, hb);
}

#[test]
fn diff_the_other_way_round_swaps_every_value() {
    let a = capture_command_with_clock("echo a".to_string(), &FixedClock(1), host(), echoed("a"));
    let b = capture_command_with_clock("echo b".to_string(), &FixedClock(7), host_with("/opt/bin:/usr/bin"), echoed("b"));
    let index = vec![a.run_id.clone(), b.run_id.clone()];
    let p = diff_runs_with_index(&a, &b, &index);
    let q = diff_runs_with_index(&b, &a, &index);
    assert_eq!(q.changed_fields, p.changed_fields);
    assert_eq!(q.unchanged_fields, p.unchanged_fields);
    assert_eq!(q.causal_chain, p.causal_chain);
    assert_eq!(p.differences.len(), q.differences.len());
    for (x, y) in p.differences.iter().zip(q.differences.iter()) {
        assert_eq!((&x.field, &x.a, &x.b), (&y.field, &y.b, &y.a));
    }
    assert_eq!(p.aion.env_diff.len(), 1);
    assert_eq!(q.aion.env_diff[0].key, p.aion.env_diff[0].key);
    assert_eq!(q.aion.env_diff[0].value_a, p.aion.env_diff[0].value_b);
    assert_eq!(q.aion.env_diff[0].value_b, p.aion.env_diff[0].value_a);
}
