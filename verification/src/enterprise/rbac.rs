//! Role-based access control: the permissions of each role, the subject → role
//! assignments, and the check that combines them.

use crate::string_map::{has_key, keys_ascending, lemma_lookup_absent, lemma_lookup_at_position,
    lemma_lookup_insert, lemma_lookup_update, lookup};
use crate::text::{lemma_seq_lt_total, owned, seq_lt, str_eq, str_lt};
use vstd::prelude::*;

verus! {

/// An action that a role may be allowed to take (declared in ascending order).
#[derive(Clone, Copy, Debug, PartialEq, Eq, Structural, PartialOrd, Ord, Hash)]
pub enum Permission {
    Replay,
    Diff,
    Purge,
    RetentionSet,
    LegalHold,
    TenantAdmin,
}

/// A role that a subject can be assigned.
#[derive(Clone, Copy, Debug, PartialEq, Eq, Structural)]
pub enum Role {
    Admin,
    Auditor,
    Operator,
    Viewer,
}

/// The permissions of `role`, in ascending order.
pub open spec fn permissions_of(role: Role) -> Seq<Permission> {
    match role {
        Role::Admin => seq![
            Permission::Replay,
            Permission::Diff,
            Permission::Purge,
            Permission::RetentionSet,
            Permission::LegalHold,
            Permission::TenantAdmin,
        ],
        Role::Auditor => seq![Permission::Replay, Permission::Diff],
        Role::Operator => seq![
            Permission::Replay,
            Permission::Diff,
            Permission::Purge,
            Permission::RetentionSet,
        ],
        Role::Viewer => seq![Permission::Replay],
    }
}

/// Whether `role` carries `permission`.
pub open spec fn grants(role: Role, permission: Permission) -> bool {
    permissions_of(role).contains(permission)
}

/// The permissions of `role`, in ascending order.
pub fn role_permissions(role: &Role) -> (r: Vec<Permission>)
    ensures
        r@ == permissions_of(*role),
{
    let r = match role {
        Role::Admin => vec![
            Permission::Replay,
            Permission::Diff,
            Permission::Purge,
            Permission::RetentionSet,
            Permission::LegalHold,
            Permission::TenantAdmin,
        ],
        Role::Auditor => vec![Permission::Replay, Permission::Diff],
        Role::Operator => vec![
            Permission::Replay,
            Permission::Diff,
            Permission::Purge,
            Permission::RetentionSet,
        ],
        Role::Viewer => vec![Permission::Replay],
    };
    assert(r@ =~= permissions_of(*role));
    r
}

/// The views of subject/role pairs.
pub open spec fn assignments_view(v: Seq<(String, Role)>) -> Seq<(Seq<char>, Role)> {
    v.map_values(|e: (String, Role)| (e.0@, e.1))
}

/// Subject → role assignments, in ascending subject order.
#[derive(Debug)]
pub struct RbacPolicyFile {
    assignments: Vec<(String, Role)>,
}

impl View for RbacPolicyFile {
    type V = Seq<(Seq<char>, Role)>;

    closed spec fn view(&self) -> Seq<(Seq<char>, Role)> {
        assignments_view(self.assignments@)
    }
}

impl RbacPolicyFile {
    #[verifier::type_invariant]
    pub open spec fn subjects_ascending(&self) -> bool {
        keys_ascending(self@)
    }

    /// No assignments.
    pub fn new() -> (p: RbacPolicyFile)
        ensures
            p@ == Seq::<(Seq<char>, Role)>::empty(),
    {
        let p = RbacPolicyFile { assignments: Vec::new() };
        assert(p@ =~= Seq::<(Seq<char>, Role)>::empty());
        p
    }

    /// Number of assigned subjects.
    pub fn len(&self) -> (n: usize)
        ensures
            n == self@.len(),
    {
        self.assignments.len()
    }

    /// The subject and role at position `i` in ascending subject order.
    pub fn entry(&self, i: usize) -> (r: (&String, Role))
        requires
            i < self@.len(),
        ensures
            r.0@ == self@[i as int].0,
            r.1 == self@[i as int].1,
    {
        let e = &self.assignments[i];
        (&e.0, e.1)
    }

    /// The role assigned to `subject`, if any.
    pub fn role_of(&self, subject: &str) -> (r: Option<Role>)
        ensures
            r == lookup(self@, subject@),
    {
        proof {
            use_type_invariant(self);
        }
        let n = self.assignments.len();
        for i in 0..n
            invariant
                n == self@.len(),
                keys_ascending(self@),
                forall|j: int| 0 <= j < i ==> self@[j].0 != subject@,
        {
            if str_eq(self.assignments[i].0.as_str(), subject) {
                proof {
                    lemma_lookup_at_position(self@, i as int);
                }
                return Some(self.assignments[i].1);
            }
        }
        proof {
            assert(!has_key(self@, subject@));
            lemma_lookup_absent(self@, subject@);
        }
        None
    }

    /// Assigns `role` to `subject`, replacing an earlier assignment (`BTreeMap::insert`).
    pub fn assign(&mut self, subject: String, role: Role)
        ensures
            assigned(old(self)@, final(self)@, subject@, role),
    {
        proof {
            use_type_invariant(&*self);
        }
        let ghost s0 = self@;
        let mut es: Vec<(String, Role)> = Vec::new();
        std::mem::swap(&mut es, &mut self.assignments);
        assert(assignments_view(es@) == s0);
        let n = es.len();
        let mut i: usize = 0;
        let mut stop = false;
        while i < n && !stop
            invariant
                n == es@.len(),
                s0 == assignments_view(es@),
                keys_ascending(s0),
                i <= n,
                forall|j: int| 0 <= j < i ==> seq_lt(#[trigger] s0[j].0, subject@),
                stop ==> i < n && !seq_lt(s0[i as int].0, subject@),
            decreases n - i + (if stop { 0int } else { 1int }),
        {
            if !str_lt(es[i].0.as_str(), subject.as_str()) {
                stop = true;
            } else {
                i = i + 1;
            }
        }
        let ghost ks = subject@;
        if i < n && str_eq(es[i].0.as_str(), subject.as_str()) {
            let key = es[i].0.clone();
            es.set(i, (key, role));
            proof {
                assert(assignments_view(es@) =~= s0.update(i as int, (ks, role)));
                lemma_lookup_update(s0, i as int, role);
            }
        } else {
            proof {
                if i < n {
                    lemma_seq_lt_total(s0[i as int].0, ks);
                }
            }
            es.insert(i, (subject, role));
            proof {
                assert(assignments_view(es@) =~= s0.insert(i as int, (ks, role)));
                lemma_lookup_insert(s0, i as int, ks, role);
            }
        }
        self.assignments = es;
    }
}

/// `after` is `before` with `role` recorded for `subject`: that subject has the
/// role, and every other subject is as it was.
pub open spec fn assigned(
    before: Seq<(Seq<char>, Role)>,
    after: Seq<(Seq<char>, Role)>,
    subject: Seq<char>,
    role: Role,
) -> bool {
    &&& lookup(after, subject) == Some(role)
    &&& forall|q: Seq<char>|
        q != subject ==> (has_key(after, q) == has_key(before, q) && #[trigger] lookup(after, q) == lookup(
            before,
            q,
        ))
}

/// Records `role` for `subject` in `policy` (the updated policy is what gets saved).
pub fn rbac_assign(policy: RbacPolicyFile, subject: &str, role: Role) -> (r: RbacPolicyFile)
    ensures
        assigned(policy@, r@, subject@, role),
{
    let mut p = policy;
    p.assign(owned(subject), role);
    p
}

/// The answer to whether `subject` may use `permission` under `policy`: whether
/// its role grants it, or the error for a subject without a role.
pub open spec fn check_outcome(policy: Seq<(Seq<char>, Role)>, subject: Seq<char>, permission: Permission) -> Result<
    bool,
    Seq<char>,
> {
    match lookup(policy, subject) {
        Some(role) => Ok(grants(role, permission)),
        None => Err("subject_not_assigned"@),
    }
}

/// A check result with its error as text.
pub open spec fn outcome_of(r: Result<bool, String>) -> Result<bool, Seq<char>> {
    match r {
        Ok(b) => Ok(b),
        Err(e) => Err(e@),
    }
}

/// Whether `subject`'s role carries `permission`; an unassigned subject is an error.
pub fn rbac_check(policy: &RbacPolicyFile, subject: &str, permission: Permission) -> (r: Result<bool, String>)
    ensures
        outcome_of(r) == check_outcome(policy@, subject@, permission),
{
    match policy.role_of(subject) {
        None => Err(owned("subject_not_assigned")),
        Some(role) => {
            let perms = role_permissions(&role);
            let n = perms.len();
            for i in 0..n
                invariant
                    n == perms@.len(),
                    perms@ == permissions_of(role),
                    lookup(policy@, subject@) == Some(role),
                    forall|j: int| 0 <= j < i ==> perms@[j] != permission,
            {
                if perms[i] == permission {
                    assert(perms@[i as int] == permission);
                    assert(perms@.contains(permission));
                    return Ok(true);
                }
            }
            assert(!perms@.contains(permission));
            Ok(false)
        },
    }
}

/// The name of a role (as stored in policy files).
pub open spec fn role_label(r: Role) -> Seq<char> {
    match r {
        Role::Admin => "admin"@,
        Role::Auditor => "auditor"@,
        Role::Operator => "operator"@,
        Role::Viewer => "viewer"@,
    }
}

/// The name of a permission (as stored in policy files).
pub open spec fn permission_label(p: Permission) -> Seq<char> {
    match p {
        Permission::Replay => "replay"@,
        Permission::Diff => "diff"@,
        Permission::Purge => "purge"@,
        Permission::RetentionSet => "retention-set"@,
        Permission::LegalHold => "legal-hold"@,
        Permission::TenantAdmin => "tenant-admin"@,
    }
}

/// The name of a role.
pub fn role_name(r: Role) -> (s: &'static str)
    ensures
        s@ == role_label(r),
{
    match r {
        Role::Admin => "admin",
        Role::Auditor => "auditor",
        Role::Operator => "operator",
        Role::Viewer => "viewer",
    }
}

/// The name of a permission.
pub fn permission_name(p: Permission) -> (s: &'static str)
    ensures
        s@ == permission_label(p),
{
    match p {
        Permission::Replay => "replay",
        Permission::Diff => "diff",
        Permission::Purge => "purge",
        Permission::RetentionSet => "retention-set",
        Permission::LegalHold => "legal-hold",
        Permission::TenantAdmin => "tenant-admin",
    }
}

/// Reads a role name; any other text is `unknown_role`.
pub fn parse_role(role: &str) -> (r: Result<Role, String>)
    ensures
        forall|x: Role| role@ == role_label(x) ==> r == Ok::<Role, String>(x),
        (forall|x: Role| role@ != role_label(x)) ==> (r matches Err(e) && e@ == "unknown_role"@),
{
    proof {
        reveal_strlit("admin");
        reveal_strlit("auditor");
        reveal_strlit("operator");
        reveal_strlit("viewer");
    }
    if str_eq(role, "admin") {
        assert(role@ == role_label(Role::Admin));
        Ok(Role::Admin)
    } else if str_eq(role, "auditor") {
        assert(role@ == role_label(Role::Auditor));
        Ok(Role::Auditor)
    } else if str_eq(role, "operator") {
        assert(role@ == role_label(Role::Operator));
        Ok(Role::Operator)
    } else if str_eq(role, "viewer") {
        assert(role@ == role_label(Role::Viewer));
        Ok(Role::Viewer)
    } else {
        proof {
            assert forall|x: Role| role@ != role_label(x) by {
                match x {
                    Role::Admin => {},
                    Role::Auditor => {},
                    Role::Operator => {},
                    Role::Viewer => {},
                }
            }
        }
        Err(owned("unknown_role"))
    }
}

/// Reads a permission name; any other text is `unknown_permission`.
pub fn parse_permission(permission: &str) -> (r: Result<Permission, String>)
    ensures
        forall|x: Permission| permission@ == permission_label(x) ==> r == Ok::<Permission, String>(x),
        (forall|x: Permission| permission@ != permission_label(x)) ==> (r matches Err(e) && e@
            == "unknown_permission"@),
{
    proof {
        reveal_strlit("replay");
        reveal_strlit("diff");
        reveal_strlit("purge");
        reveal_strlit("retention-set");
        reveal_strlit("legal-hold");
        reveal_strlit("tenant-admin");
    }
    if str_eq(permission, "replay") {
        assert(permission@ == permission_label(Permission::Replay));
        Ok(Permission::Replay)
    } else if str_eq(permission, "diff") {
        assert(permission@ == permission_label(Permission::Diff));
        Ok(Permission::Diff)
    } else if str_eq(permission, "purge") {
        assert(permission@ == permission_label(Permission::Purge));
        Ok(Permission::Purge)
    } else if str_eq(permission, "retention-set") {
        assert(permission@ == permission_label(Permission::RetentionSet));
        Ok(Permission::RetentionSet)
    } else if str_eq(permission, "legal-hold") {
        assert(permission@ == permission_label(Permission::LegalHold));
        Ok(Permission::LegalHold)
    } else if str_eq(permission, "tenant-admin") {
        assert(permission@ == permission_label(Permission::TenantAdmin));
        Ok(Permission::TenantAdmin)
    } else {
        proof {
            assert forall|x: Permission| permission@ != permission_label(x) by {
                match x {
                    Permission::Replay => {},
                    Permission::Diff => {},
                    Permission::Purge => {},
                    Permission::RetentionSet => {},
                    Permission::LegalHold => {},
                    Permission::TenantAdmin => {},
                }
            }
        }
        Err(owned("unknown_permission"))
    }
}

} // verus!
