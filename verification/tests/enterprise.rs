use sealrun::enterprise::attestation::attestation_outcome;
use sealrun::enterprise::rbac::{permission_name, role_name};
use sealrun::enterprise::{parse_permission, parse_role};
use sealrun::enterprise::auth::{
    device_poll_after_refusal, device_poll_interval, oidc_status_at, token_expires_at,
};
use sealrun::enterprise::sinks::{datadog_payload, elastic_payload, otel_payload, splunk_payload};
use sealrun::enterprise::{
    ensure_tenant_exists, evidence_query, evidence_register, legal_hold_set, lifecycle_purge,
    policy_evaluate, policy_validate, rbac_assign, rbac_check, retention_get, retention_set,
    role_permissions, sort_tenants, tenant_capsule_list, tenant_capsule_register,
    tenant_delete_check, tenant_replay_paths, GovernanceEvalInput, GovernancePolicy,
    OidcTokenStore, Permission, RbacPolicyFile, Role, TenantMeta, TenantRecord,
};
use sealrun::string_map::StringMap;

#[test]
fn rbac_evaluator_works() {
    let p = RbacPolicyFile::new();
    let p = rbac_assign(p, "alice", Role::Admin);
    let p = rbac_assign(p, "bob", Role::Viewer);
    assert!(rbac_check(&p, "alice", Permission::TenantAdmin).expect("check alice"));
    assert!(rbac_check(&p, "bob", Permission::Replay).expect("check bob"));
    assert!(!rbac_check(&p, "bob", Permission::Purge).expect("check bob purge"));
}

#[test]
fn rbac_unassigned_subject_is_an_error_and_reassignment_replaces() {
    let p = rbac_assign(RbacPolicyFile::new(), "carol", Role::Auditor);
    assert_eq!(rbac_check(&p, "dave", Permission::Replay), Err("subject_not_assigned".to_string()));
    let p = rbac_assign(p, "carol", Role::Operator);
    assert_eq!(p.len(), 1);
    assert!(rbac_check(&p, "carol", Permission::Purge).unwrap());
    let p = rbac_assign(p, "aaron", Role::Viewer);
    assert_eq!(p.entry(0).0, "aaron");
    assert_eq!(p.entry(1).0, "carol");
    assert_eq!(role_permissions(&Role::Auditor), vec![Permission::Replay, Permission::Diff]);
    assert_eq!(role_permissions(&Role::Admin).len(), 6);
}

#[test]
fn policy_engine_validate_and_evaluate_work() {
    let policy = GovernancePolicy {
        allowed_models: vec!["gpt-4o-mini".into()],
        allowed_seeds: vec![1, 2, 42],
        allowed_external_calls: vec!["https://api.example.com".into()],
        required_evidence_fields: vec!["trace_id".into(), "policy_id".into()],
    };
    let valid = policy_validate(&policy);
    assert!(valid.ok);

    let mut fields = StringMap::new();
    fields.insert("trace_id".into(), "t-1".into());
    fields.insert("policy_id".into(), "p-1".into());
    let input = GovernanceEvalInput {
        model: "gpt-4o-mini".into(),
        seed: 42,
        external_calls: vec!["https://api.example.com".into()],
        evidence_fields: fields,
    };
    let eval = policy_evaluate(&policy, &input);
    assert!(eval.ok);
}

#[test]
fn policy_violations_are_listed_in_order() {
    let empty = GovernancePolicy {
        allowed_models: vec![],
        allowed_seeds: vec![],
        allowed_external_calls: vec![],
        required_evidence_fields: vec![],
    };
    let v = policy_validate(&empty);
    assert!(!v.ok);
    assert_eq!(v.violations, vec!["allowed_models_empty".to_string(), "required_evidence_fields_empty".to_string()]);

    let policy = GovernancePolicy {
        allowed_models: vec!["m1".into()],
        allowed_seeds: vec![7],
        allowed_external_calls: vec!["https://ok".into()],
        required_evidence_fields: vec!["trace_id".into(), "policy_id".into()],
    };
    let mut fields = StringMap::new();
    fields.insert("policy_id".into(), "p".into());
    let input = GovernanceEvalInput {
        model: "m2".into(),
        seed: 8,
        external_calls: vec!["https://ok".into(), "https://bad".into()],
        evidence_fields: fields,
    };
    let r = policy_evaluate(&policy, &input);
    assert!(!r.ok);
    assert_eq!(
        r.violations,
        vec![
            "model_not_allowed".to_string(),
            "seed_not_allowed".to_string(),
            "external_call_not_allowed:https://bad".to_string(),
            "missing_evidence_field:trace_id".to_string(),
        ]
    );
}

#[test]
fn tenant_delete_is_blocked_by_legal_hold() {
    let meta = TenantMeta::new("tenant-h", 1_000);
    let meta = legal_hold_set(meta, true);
    let err = tenant_delete_check(&meta).expect_err("delete should be blocked");
    assert!(err.contains("legal_hold"));
    assert_eq!(err, "tenant_legal_hold_enabled:tenant-h");
    let meta = legal_hold_set(meta, false);
    assert!(tenant_delete_check(&meta).is_ok());
}

#[test]
fn new_tenant_has_default_retention() {
    let meta = TenantMeta::new("t1", 5);
    assert_eq!(meta.tenant.id, "t1");
    assert_eq!(meta.tenant.created_at, 5);
    assert_eq!(retention_get(&meta).days, 30);
    assert!(!meta.legal_hold);
    let meta = retention_set(meta, 1);
    assert_eq!(retention_get(&meta).days, 1);
}

#[test]
fn tenants_list_in_id_order() {
    let v = vec![
        TenantRecord { id: "t2".into(), created_at: 1 },
        TenantRecord { id: "t1".into(), created_at: 2 },
        TenantRecord { id: "a0".into(), created_at: 3 },
    ];
    let ids: Vec<String> = sort_tenants(v).into_iter().map(|t| t.id).collect();
    assert_eq!(ids, vec!["a0", "t1", "t2"]);
}

#[test]
fn capsules_are_registered_per_tenant_in_path_order() {
    assert_eq!(ensure_tenant_exists("ghost", false), Err("tenant_not_found:ghost".to_string()));
    let (rec, idx) =
        tenant_capsule_register("t1", true, vec![], "/caps/b.aionai", None, vec!["prod".into()], 10).unwrap();
    assert_eq!(rec.tenant_id, "t1");
    assert_eq!(rec.labels, vec!["prod".to_string()]);
    let (_, idx) = tenant_capsule_register("t1", true, idx, "/caps/a.aionai", Some("/ev/a"), vec![], 11).unwrap();
    let paths: Vec<&str> = idx.iter().map(|c| c.capsule_path.as_str()).collect();
    assert_eq!(paths, vec!["/caps/a.aionai", "/caps/b.aionai"]);
    assert_eq!(idx[0].evidence_path.as_deref(), Some("/ev/a"));
    let listed = tenant_capsule_list("t1", true, idx).unwrap();
    assert_eq!(listed.len(), 1 + 1);
    let found = tenant_replay_paths("t1", true, listed, "/caps/b.aionai").unwrap();
    assert_eq!(found.created_at, 10);
    assert_eq!(
        tenant_replay_paths("t1", true, vec![], "/caps/x").unwrap_err(),
        "capsule_not_registered_for_tenant"
    );
    assert!(tenant_capsule_register("t9", false, vec![], "/c", None, vec![], 1).is_err());
}

#[test]
fn lifecycle_retention_and_purge() {
    let meta = retention_set(TenantMeta::new("tenant-a", 0), 1);
    let (_, idx) = tenant_capsule_register("tenant-a", true, vec![], "/old", None, vec![], 100).unwrap();
    let (_, idx) = tenant_capsule_register("tenant-a", true, idx, "/new", None, vec![], 100 + 3 * 24 * 3600).unwrap();
    let now = 100 + 3 * 24 * 3600;
    let (removed, kept) = lifecycle_purge(&meta, idx, now).expect("purge");
    assert_eq!(removed, vec!["/old".to_string()]);
    assert_eq!(kept.len(), 1);
    assert_eq!(kept[0].capsule_path, "/new");
    let held = legal_hold_set(meta, true);
    assert_eq!(lifecycle_purge(&held, kept, now).unwrap_err(), "legal_hold_enabled");
}

#[test]
fn purge_keeps_capsules_exactly_at_the_retention_edge() {
    let meta = retention_set(TenantMeta::new("t", 0), 1);
    let (_, idx) = tenant_capsule_register("t", true, vec![], "/edge", None, vec![], 0).unwrap();
    let (removed, kept) = lifecycle_purge(&meta, idx, 86_400).unwrap();
    assert!(removed.is_empty());
    assert_eq!(kept.len(), 1);
}

#[test]
fn tenant_evidence_query_filters_by_metadata() {
    let mut fields = StringMap::new();
    fields.insert("model".into(), "gpt-4o-mini".into());
    let (rec, idx) = evidence_register("tenant-e", true, vec![], "run2", "/ev/2", fields, 9).unwrap();
    assert_eq!(rec.run_id, "run2");
    let mut other = StringMap::new();
    other.insert("model".into(), "other".into());
    let (_, idx) = evidence_register("tenant-e", true, idx, "run1", "/ev/1", other, 10).unwrap();
    assert_eq!(idx[0].run_id, "run1");
    let rows = evidence_query("tenant-e", true, idx, Some("model"), Some("gpt-4o-mini")).expect("query");
    assert_eq!(rows.len(), 1);
    assert_eq!(rows[0].run_id, "run2");
    let all = evidence_query("tenant-e", true, rows, Some("model"), None).unwrap();
    assert_eq!(all.len(), 1);
    assert!(evidence_query("nobody", false, vec![], None, None).is_err());
}

#[test]
fn sink_payloads_wrap_the_event() {
    let ev = r#"{"kind":"test"}"#;
    assert_eq!(splunk_payload(ev), r#"{"event":{"kind":"test"}}"#);
    assert_eq!(datadog_payload(ev), r#"[{"kind":"test"}]"#);
    assert_eq!(elastic_payload(ev), r#"{"docs":[{"kind":"test"}]}"#);
    assert_eq!(
        otel_payload(ev),
        r#"{"resourceLogs":[{"resource":{"attributes":[{"key":"service.name","value":{"stringValue":"sealrun"}}]},"scopeLogs":[{"scope":{"name":"sealrun.enterprise"},"logRecords":[{"severityText":"INFO","body":{"stringValue":"{\"kind\":\"test\"}"}}]}]}]}"#
    );
}

#[test]
fn token_status_and_device_flow_decisions() {
    let tok = OidcTokenStore {
        access_token: "at".into(),
        refresh_token: Some("rt".into()),
        token_type: "Bearer".into(),
        expires_in: 3600,
        issued_at: 1000,
    };
    assert_eq!(token_expires_at(&tok), 4600);
    let s = oidc_status_at(Some(&tok), 4599);
    assert!(s.authenticated);
    assert_eq!(s.token_type.as_deref(), Some("Bearer"));
    assert!(!s.expired);
    assert!(oidc_status_at(Some(&tok), 4600).expired);
    assert!(!oidc_status_at(None, 0).authenticated);
    let huge = OidcTokenStore { expires_in: u64::MAX, ..tok };
    assert_eq!(token_expires_at(&huge), u64::MAX);
    assert_eq!(device_poll_interval(None), 5);
    assert_eq!(device_poll_interval(Some(0)), 1);
    assert_eq!(device_poll_interval(Some(3)), 3);
    assert_eq!(device_poll_after_refusal(100, 150, 60, 5), Ok(5));
    assert_eq!(device_poll_after_refusal(100, 161, 60, 5), Err("oidc_device_code_timeout".to_string()));
}

#[test]
fn role_and_permission_names_round_trip() {
    for r in [Role::Admin, Role::Auditor, Role::Operator, Role::Viewer] {
        assert_eq!(parse_role(role_name(r)), Ok(r));
    }
    for p in [
        Permission::Replay,
        Permission::Diff,
        Permission::Purge,
        Permission::RetentionSet,
        Permission::LegalHold,
        Permission::TenantAdmin,
    ] {
        assert_eq!(parse_permission(permission_name(p)), Ok(p));
    }
    assert_eq!(parse_role("root"), Err("unknown_role".to_string()));
    assert_eq!(parse_permission("retention_set"), Err("unknown_permission".to_string()));
    assert_eq!(permission_name(Permission::TenantAdmin), "tenant-admin");
}

#[test]
fn attestation_outcome_trims_or_reports() {
    assert_eq!(attestation_outcome("cosign sign", true, "  sig==\n", ""), Ok("sig==".to_string()));
    assert_eq!(
        attestation_outcome("cosign verify", false, "", "no key"),
        Err("cosign verify failed: no key".to_string())
    );
}

#[test]
fn registered_capsules_replay_and_keep_their_order_within_a_path() {
    let (_, idx) = tenant_capsule_register("t", true, vec![], "/p", None, vec![], 1).unwrap();
    let (_, idx) = tenant_capsule_register("t", true, idx, "/a", None, vec![], 2).unwrap();
    let (rec, idx) = tenant_capsule_register("t", true, idx, "/p", None, vec![], 3).unwrap();
    let order: Vec<(String, u64)> = idx.iter().map(|r| (r.capsule_path.clone(), r.created_at)).collect();
    assert_eq!(order, vec![("/a".to_string(), 2), ("/p".to_string(), 1), ("/p".to_string(), 3)]);
    let found = tenant_replay_paths("t", true, idx, &rec.capsule_path).unwrap();
    assert_eq!(found.capsule_path, "/p");
    assert_eq!(found.created_at, 1);
}

#[test]
fn retention_reads_back_what_was_set() {
    let meta = TenantMeta::new("t", 5);
    assert_eq!(retention_get(&meta).days, 30);
    assert!(!meta.legal_hold);
    let meta = retention_set(meta, 90);
    assert_eq!(retention_get(&meta).days, 90);
    let meta = legal_hold_set(meta, true);
    assert_eq!(retention_get(&meta).days, 90);
    assert!(meta.legal_hold);
    assert_eq!(meta.tenant.id, "t");
    assert_eq!(meta.tenant.created_at, 5);
}
