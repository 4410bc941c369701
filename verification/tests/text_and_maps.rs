use sealrun::enterprise::sinks::otel_payload;
use sealrun::artifact::{compute_env_hash, deterministic_run_id, EnvSnapshot15};
use sealrun::capture::split_cli_line;
use sealrun::digest::sha256_hex;
use sealrun::string_map::StringMap;
use sealrun::runs::resolve_alias;
use sealrun::text::{join_strings, replace_text, split_lines, str_lt};

#[test]
fn string_map_keeps_keys_ascending_and_last_insert_wins() {
    let mut m = StringMap::new();
    m.insert("b".to_string(), "2".to_string());
    m.insert("a".to_string(), "1".to_string());
    m.insert("b".to_string(), "3".to_string());
    assert_eq!(m.len(), 2);
    assert_eq!(m.entry(0).0, "a");
    assert_eq!(m.entry(1).1, "3");
    assert_eq!(m.get("b").map(|s| s.as_str()), Some("3"));
    assert!(m.get("c").is_none());
    assert!(m.contains_key("a"));
    assert_eq!(m.value_or_default("zz"), "");
    let copy = m.duplicate();
    assert_eq!(copy.len(), 2);
    let from = StringMap::from_pairs(vec![("k".to_string(), "1".to_string()), ("k".to_string(), "2".to_string())]);
    assert_eq!(from.len(), 1);
    assert_eq!(from.value_or_default("k"), "2");
}

#[test]
fn sha256_is_the_real_digest() {
    assert_eq!(sha256_hex("abc"), "ba7816bf8f01cfea414140de5dae2223b00361a396177a9cb410ff61f20015ad");
    assert_eq!(sha256_hex(""), "e3b0c44298fc1c149afbf4c8996fb92427ae41e4649b934ca495991b7852b855");
}

#[test]
fn environment_hash_is_sha256_of_the_canonical_text() {
    let e = EnvSnapshot15 {
        path: "/bin".to_string(),
        home: "/h".to_string(),
        ci: String::new(),
        shell: "sh".to_string(),
        lang: "C".to_string(),
        cwd: "/w".to_string(),
    };
    assert_eq!(compute_env_hash(&e), sha256_hex("PATH=/bin\nHOME=/h\nCI=\nSHELL=sh\nLANG=C\ncwd=/w\n"));
}

#[test]
fn run_id_hashes_compact_json_of_identity() {
    let mut env = StringMap::new();
    env.insert("A".to_string(), "1".to_string());
    let id = deterministic_run_id(&vec!["echo".to_string(), "hi".to_string()], &env, "hi\n");
    assert_eq!(id, sha256_hex("{\"command\":[\"echo\",\"hi\"],\"env\":{\"A\":\"1\"},\"stdout\":\"hi\\n\"}"));
}

#[test]
fn otel_body_carries_the_event_as_a_json_string() {
    let body = otel_payload("{\"k\":\"a\\nb\"}");
    assert!(body.ends_with("\"body\":{\"stringValue\":\"{\\\"k\\\":\\\"a\\\\nb\\\"}\"}}]}]}]}"));
    assert!(body.starts_with("{\"resourceLogs\":[{\"resource\":{\"attributes\":[{\"key\":\"service.name\""));
}

#[test]
fn text_helpers() {
    assert!(str_lt("abc", "abd"));
    assert!(str_lt("ab", "abc"));
    assert!(!str_lt("b", "a"));
    assert_eq!(replace_text("a-b-c", "-", "+"), "a+b+c");
    assert_eq!(join_strings(&vec!["x".to_string(), "y".to_string()], ", "), "x, y");
    let lines = split_lines(&"one\r\ntwo\n\nthree".chars().collect());
    let as_strings: Vec<String> = lines.iter().map(|l| l.iter().collect()).collect();
    assert_eq!(as_strings, vec!["one", "two", "", "three"]);
    let (program, args) = split_cli_line("  cargo   build --release ");
    assert_eq!(program, "cargo");
    assert_eq!(args, vec!["build".to_string(), "--release".to_string()]);
}

#[test]
fn aliases_resolve_against_the_index() {
    let index = vec!["r1".to_string(), "r2".to_string(), "r3".to_string()];
    assert_eq!(resolve_alias("last", &index), Some("r3".to_string()));
    assert_eq!(resolve_alias("prev", &index), Some("r2".to_string()));
    assert_eq!(resolve_alias("r1", &index), Some("r1".to_string()));
    assert_eq!(resolve_alias("prev", &vec!["only".to_string()]), None);
    assert_eq!(resolve_alias("last", &vec![]), None);
}
