//! Enterprise features: tenants and their capsule and evidence indexes,
//! retention and legal hold, role-based access control, governance policies,
//! and the payloads sent to log sinks.

pub mod attestation;
pub mod auth;
pub mod governance;
pub mod rbac;
pub mod sinks;
pub mod tenants;

pub use rbac::{
    parse_permission, parse_role, rbac_assign, rbac_check, role_permissions, Permission,
    RbacPolicyFile, Role,
};
pub use tenants::{
    ensure_tenant_exists, evidence_query, evidence_register, legal_hold_set, lifecycle_purge,
    retention_get, retention_set, sort_tenants, tenant_capsule_list, tenant_capsule_register,
    tenant_delete_check, tenant_replay_paths, CapsuleRecord, EvidenceRecord, RetentionPolicy,
    TenantMeta, TenantRecord,
};
pub use governance::{
    policy_evaluate, policy_validate, GovernanceEvalInput, GovernanceEvalResult, GovernancePolicy,
};
pub use auth::{OidcConfig, OidcTokenStore};
pub use sinks::SinkConfig;
