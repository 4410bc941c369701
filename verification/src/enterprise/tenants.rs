//! Tenants: their metadata (retention, legal hold), the capsule index and the
//! evidence index of each tenant, and the rules that read and update them.
//! The records are loaded from and saved to the tenant's directory by the caller.

use crate::sorting::{key_ascending, key_fn, lemma_sort_by_key_ascending, lemma_sort_by_key_map, sort_by_key, stable_sort, SortKey};
use crate::string_map::{lookup, StringMap};
use crate::text::{concat2, owned, str_eq, views};
use crate::trace::clone_strings;
use vstd::prelude::*;

verus! {

/// A tenant and when it was created (seconds since the Unix epoch).
#[derive(Debug)]
pub struct TenantRecord {
    pub id: String,
    pub created_at: u64,
}

/// How many days capsules are kept.
#[derive(Debug, Clone, Copy)]
pub struct RetentionPolicy {
    pub days: u32,
}

impl Default for RetentionPolicy {
    /// Thirty days.
    fn default() -> (r: Self)
        ensures
            r.days == 30,
    {
        RetentionPolicy { days: 30 }
    }
}

/// The metadata file of a tenant.
#[derive(Debug)]
pub struct TenantMeta {
    pub tenant: TenantRecord,
    pub retention: RetentionPolicy,
    pub legal_hold: bool,
}

/// A capsule registered for a tenant.
#[derive(Debug)]
pub struct CapsuleRecord {
    pub tenant_id: String,
    pub capsule_path: String,
    pub evidence_path: Option<String>,
    pub created_at: u64,
    pub labels: Vec<String>,
}

/// An evidence file registered for a tenant, with its metadata fields.
#[derive(Debug)]
pub struct EvidenceRecord {
    pub tenant_id: String,
    pub run_id: String,
    pub evidence_path: String,
    pub fields: StringMap,
    pub created_at: u64,
}

/// What a capsule record holds.
pub struct CapsuleView {
    pub tenant_id: Seq<char>,
    pub capsule_path: Seq<char>,
    pub evidence_path: Option<Seq<char>>,
    pub created_at: u64,
    pub labels: Seq<Seq<char>>,
}

/// What an evidence record holds.
pub struct EvidenceView {
    pub tenant_id: Seq<char>,
    pub run_id: Seq<char>,
    pub evidence_path: Seq<char>,
    pub fields: Seq<(Seq<char>, Seq<char>)>,
    pub created_at: u64,
}

/// The view of an optional string.
pub open spec fn opt_view(o: Option<String>) -> Option<Seq<char>> {
    match o {
        Some(s) => Some(s@),
        None => None,
    }
}

impl View for CapsuleRecord {
    type V = CapsuleView;

    open spec fn view(&self) -> CapsuleView {
        CapsuleView {
            tenant_id: self.tenant_id@,
            capsule_path: self.capsule_path@,
            evidence_path: opt_view(self.evidence_path),
            created_at: self.created_at,
            labels: views(self.labels@),
        }
    }
}

impl View for EvidenceRecord {
    type V = EvidenceView;

    open spec fn view(&self) -> EvidenceView {
        EvidenceView {
            tenant_id: self.tenant_id@,
            run_id: self.run_id@,
            evidence_path: self.evidence_path@,
            fields: self.fields@,
            created_at: self.created_at,
        }
    }
}

impl SortKey for TenantRecord {
    open spec fn sort_key(&self, k: usize) -> Seq<char> {
        self.id@
    }

    fn key_str(&self, k: usize) -> (r: &str) {
        self.id.as_str()
    }
}

impl SortKey for CapsuleRecord {
    open spec fn sort_key(&self, k: usize) -> Seq<char> {
        self.capsule_path@
    }

    fn key_str(&self, k: usize) -> (r: &str) {
        self.capsule_path.as_str()
    }
}

impl SortKey for EvidenceRecord {
    open spec fn sort_key(&self, k: usize) -> Seq<char> {
        self.run_id@
    }

    fn key_str(&self, k: usize) -> (r: &str) {
        self.run_id.as_str()
    }
}

/// Capsule record → view.
pub open spec fn capsule_view_fn() -> spec_fn(CapsuleRecord) -> CapsuleView {
    |c: CapsuleRecord| c@
}

/// Evidence record → view.
pub open spec fn evidence_view_fn() -> spec_fn(EvidenceRecord) -> EvidenceView {
    |e: EvidenceRecord| e@
}

/// The views of capsule records.
pub open spec fn capsule_views(s: Seq<CapsuleRecord>) -> Seq<CapsuleView> {
    s.map_values(capsule_view_fn())
}

/// The views of evidence records.
pub open spec fn evidence_views(s: Seq<EvidenceRecord>) -> Seq<EvidenceView> {
    s.map_values(evidence_view_fn())
}

/// Capsule index order: by capsule path.
pub open spec fn capsule_order() -> spec_fn(CapsuleView) -> Seq<char> {
    |c: CapsuleView| c.capsule_path
}

/// Evidence index order: by run id.
pub open spec fn evidence_order() -> spec_fn(EvidenceView) -> Seq<char> {
    |e: EvidenceView| e.run_id
}

/// The error for a tenant without a metadata file.
pub open spec fn tenant_not_found(tenant_id: Seq<char>) -> Seq<char> {
    "tenant_not_found:"@ + tenant_id
}

/// Checks that the tenant has a metadata file (`meta_present`).
pub fn ensure_tenant_exists(tenant_id: &str, meta_present: bool) -> (r: Result<(), String>)
    ensures
        meta_present ==> r is Ok,
        !meta_present ==> (r matches Err(e) && e@ == tenant_not_found(tenant_id@)),
{
    if !meta_present {
        return Err(concat2("tenant_not_found:", tenant_id));
    }
    Ok(())
}

impl TenantMeta {
    /// The metadata of a tenant created at `created_at`: default retention, no legal hold.
    pub fn new(tenant_id: &str, created_at: u64) -> (m: TenantMeta)
        ensures
            fresh_meta(m, tenant_id@, created_at),
    {
        TenantMeta {
            tenant: TenantRecord { id: owned(tenant_id), created_at },
            retention: RetentionPolicy::default(),
            legal_hold: false,
        }
    }
}

/// `m` is the metadata of a new tenant `tenant_id` created at `created_at`:
/// capsules kept 30 days, no legal hold.
pub open spec fn fresh_meta(m: TenantMeta, tenant_id: Seq<char>, created_at: u64) -> bool {
    &&& m.tenant.id@ == tenant_id
    &&& m.tenant.created_at == created_at
    &&& m.retention.days == 30
    &&& !m.legal_hold
}

/// `after` is `before` with its retention set to `days`.
pub open spec fn retention_updated(before: TenantMeta, after: TenantMeta, days: u32) -> bool {
    &&& after.retention.days == days
    &&& after.tenant == before.tenant
    &&& after.legal_hold == before.legal_hold
}

/// `after` is `before` with its legal hold set to `enabled`.
pub open spec fn hold_updated(before: TenantMeta, after: TenantMeta, enabled: bool) -> bool {
    &&& after.legal_hold == enabled
    &&& after.tenant == before.tenant
    &&& after.retention == before.retention
}

/// The error for deleting a tenant under legal hold.
pub open spec fn tenant_on_hold(tenant_id: Seq<char>) -> Seq<char> {
    "tenant_legal_hold_enabled:"@ + tenant_id
}

/// A tenant can be deleted unless it is under legal hold.
pub fn tenant_delete_check(meta: &TenantMeta) -> (r: Result<(), String>)
    ensures
        !meta.legal_hold ==> r is Ok,
        meta.legal_hold ==> (r matches Err(e) && e@ == tenant_on_hold(meta.tenant.id@)),
{
    if meta.legal_hold {
        return Err(concat2("tenant_legal_hold_enabled:", meta.tenant.id.as_str()));
    }
    Ok(())
}

/// Tenants in ascending id order (stable).
pub fn sort_tenants(tenants: Vec<TenantRecord>) -> (r: Vec<TenantRecord>)
    ensures
        r@ == sort_by_key(tenants@, key_fn::<TenantRecord>(0)),
        key_ascending(r@, key_fn::<TenantRecord>(0)),
{
    stable_sort(tenants, 0)
}

/// The retention policy of a tenant.
pub fn retention_get(meta: &TenantMeta) -> (r: RetentionPolicy)
    ensures
        r.days == meta.retention.days,
{
    meta.retention
}

/// Sets the retention of a tenant to `days`.
pub fn retention_set(meta: TenantMeta, days: u32) -> (r: TenantMeta)
    ensures
        retention_updated(meta, r, days),
{
    let mut m = meta;
    m.retention.days = days;
    m
}

/// Turns the legal hold of a tenant on or off.
pub fn legal_hold_set(meta: TenantMeta, enabled: bool) -> (r: TenantMeta)
    ensures
        hold_updated(meta, r, enabled),
{
    let mut m = meta;
    m.legal_hold = enabled;
    m
}

impl CapsuleRecord {
    /// A copy with the same contents.
    pub fn duplicate(&self) -> (r: CapsuleRecord)
        ensures
            r@ == self@,
    {
        let evidence_path = match &self.evidence_path {
            Some(p) => Some(p.clone()),
            None => None,
        };
        CapsuleRecord {
            tenant_id: self.tenant_id.clone(),
            capsule_path: self.capsule_path.clone(),
            evidence_path,
            created_at: self.created_at,
            labels: clone_strings(&self.labels),
        }
    }
}

impl EvidenceRecord {
    /// A copy with the same contents.
    pub fn duplicate(&self) -> (r: EvidenceRecord)
        ensures
            r@ == self@,
    {
        EvidenceRecord {
            tenant_id: self.tenant_id.clone(),
            run_id: self.run_id.clone(),
            evidence_path: self.evidence_path.clone(),
            fields: self.fields.duplicate(),
            created_at: self.created_at,
        }
    }
}

/// Registers a capsule for a tenant: returns the new record and the index with
/// it added, kept in capsule-path order (stable).
pub fn tenant_capsule_register(
    tenant_id: &str,
    meta_present: bool,
    index: Vec<CapsuleRecord>,
    capsule_path: &str,
    evidence_path: Option<&str>,
    labels: Vec<String>,
    created_at: u64,
) -> (r: Result<(CapsuleRecord, Vec<CapsuleRecord>), String>)
    ensures
        !meta_present ==> (r matches Err(e) && e@ == tenant_not_found(tenant_id@)),
        meta_present ==> (r matches Ok((rec, idx)) && rec@ == (CapsuleView {
            tenant_id: tenant_id@,
            capsule_path: capsule_path@,
            evidence_path: match evidence_path {
                Some(p) => Some(p@),
                None => None,
            },
            created_at: created_at,
            labels: views(labels@),
        }) && capsule_views(idx@) == sort_by_key(capsule_views(index@).push(rec@), capsule_order())
            && key_ascending(capsule_views(idx@), capsule_order())),
{
    match ensure_tenant_exists(tenant_id, meta_present) {
        Err(e) => return Err(e),
        Ok(()) => {},
    }
    let rec = CapsuleRecord {
        tenant_id: owned(tenant_id),
        capsule_path: owned(capsule_path),
        evidence_path: match evidence_path {
            Some(p) => Some(owned(p)),
            None => None,
        },
        created_at,
        labels,
    };
    let mut idx = index;
    idx.push(rec.duplicate());
    let ghost pushed = idx@;
    let sorted = stable_sort(idx, 0);
    proof {
        lemma_sort_by_key_map(pushed, capsule_view_fn(), key_fn::<CapsuleRecord>(0), capsule_order());
        assert(capsule_views(pushed) =~= capsule_views(index@).push(rec@));
        lemma_sort_by_key_ascending(capsule_views(pushed), capsule_order());
    }
    Ok((rec, sorted))
}

/// The capsule index of a tenant.
pub fn tenant_capsule_list(tenant_id: &str, meta_present: bool, index: Vec<CapsuleRecord>) -> (r: Result<
    Vec<CapsuleRecord>,
    String,
>)
    ensures
        !meta_present ==> (r matches Err(e) && e@ == tenant_not_found(tenant_id@)),
        meta_present ==> (r matches Ok(v) && v@ == index@),
{
    match ensure_tenant_exists(tenant_id, meta_present) {
        Err(e) => Err(e),
        Ok(()) => Ok(index),
    }
}

/// The first position in `s` whose capsule path is `path`.
pub open spec fn first_capsule_at(s: Seq<CapsuleRecord>, path: Seq<char>, i: int) -> bool {
    0 <= i < s.len() && s[i].capsule_path@ == path && forall|j: int|
        0 <= j < i ==> (#[trigger] s[j]).capsule_path@ != path
}

/// The capsule record registered for a tenant under `capsule_path`.
pub fn tenant_replay_paths(
    tenant_id: &str,
    meta_present: bool,
    index: Vec<CapsuleRecord>,
    capsule_path: &str,
) -> (r: Result<CapsuleRecord, String>)
    ensures
        !meta_present ==> (r matches Err(e) && e@ == tenant_not_found(tenant_id@)),
        meta_present && (exists|i: int| first_capsule_at(index@, capsule_path@, i)) ==> (r matches Ok(
            rec,
        ) && exists|i: int| first_capsule_at(index@, capsule_path@, i) && rec == index@[i]),
        meta_present && !(exists|i: int| first_capsule_at(index@, capsule_path@, i)) ==> (r matches Err(
            e,
        ) && e@ == "capsule_not_registered_for_tenant"@),
{
    match ensure_tenant_exists(tenant_id, meta_present) {
        Err(e) => return Err(e),
        Ok(()) => {},
    }
    let n = index.len();
    for i in 0..n
        invariant
            n == index@.len(),
            meta_present,
            forall|j: int| 0 <= j < i ==> (#[trigger] index@[j]).capsule_path@ != capsule_path@,
    {
        if str_eq(index[i].capsule_path.as_str(), capsule_path) {
            assert(first_capsule_at(index@, capsule_path@, i as int));
            let mut idx = index;
            let rec = idx.remove(i);
            return Ok(rec);
        }
    }
    proof {
        assert forall|i: int| !first_capsule_at(index@, capsule_path@, i) by {
            if 0 <= i < index@.len() {
                assert(index@[i].capsule_path@ != capsule_path@);
            }
        }
    }
    Err(owned("capsule_not_registered_for_tenant"))
}

/// Registers an evidence file for a tenant: returns the new record and the
/// index with it added, kept in run-id order (stable).
pub fn evidence_register(
    tenant_id: &str,
    meta_present: bool,
    index: Vec<EvidenceRecord>,
    run_id: &str,
    evidence_path: &str,
    fields: StringMap,
    created_at: u64,
) -> (r: Result<(EvidenceRecord, Vec<EvidenceRecord>), String>)
    ensures
        !meta_present ==> (r matches Err(e) && e@ == tenant_not_found(tenant_id@)),
        meta_present ==> (r matches Ok((rec, idx)) && rec@ == (EvidenceView {
            tenant_id: tenant_id@,
            run_id: run_id@,
            evidence_path: evidence_path@,
            fields: fields@,
            created_at: created_at,
        }) && evidence_views(idx@) == sort_by_key(evidence_views(index@).push(rec@), evidence_order())
            && key_ascending(evidence_views(idx@), evidence_order())),
{
    match ensure_tenant_exists(tenant_id, meta_present) {
        Err(e) => return Err(e),
        Ok(()) => {},
    }
    let rec = EvidenceRecord {
        tenant_id: owned(tenant_id),
        run_id: owned(run_id),
        evidence_path: owned(evidence_path),
        fields,
        created_at,
    };
    let mut idx = index;
    idx.push(rec.duplicate());
    let ghost pushed = idx@;
    let sorted = stable_sort(idx, 0);
    proof {
        lemma_sort_by_key_map(pushed, evidence_view_fn(), key_fn::<EvidenceRecord>(0), evidence_order());
        assert(evidence_views(pushed) =~= evidence_views(index@).push(rec@));
        lemma_sort_by_key_ascending(evidence_views(pushed), evidence_order());
    }
    Ok((rec, sorted))
}

/// The evidence records whose field `k` holds `v`.
pub open spec fn field_is(k: Seq<char>, v: Seq<char>) -> spec_fn(EvidenceRecord) -> bool {
    |r: EvidenceRecord| lookup(r.fields@, k) == Some(v)
}

/// The evidence index of a tenant; when both a field key and a value are given,
/// only the records whose field holds that value, in index order.
pub fn evidence_query(
    tenant_id: &str,
    meta_present: bool,
    rows: Vec<EvidenceRecord>,
    field_key: Option<&str>,
    field_value: Option<&str>,
) -> (r: Result<Vec<EvidenceRecord>, String>)
    ensures
        !meta_present ==> (r matches Err(e) && e@ == tenant_not_found(tenant_id@)),
        meta_present ==> (r matches Ok(out) && out@ == match (field_key, field_value) {
            (Some(k), Some(v)) => rows@.filter(field_is(k@, v@)),
            _ => rows@,
        }),
{
    match ensure_tenant_exists(tenant_id, meta_present) {
        Err(e) => return Err(e),
        Ok(()) => {},
    }
    match (field_key, field_value) {
        (Some(k), Some(v)) => {
            let ghost all = rows@;
            let ghost pred = field_is(k@, v@);
            let mut rest = rows;
            let mut out: Vec<EvidenceRecord> = Vec::new();
            let ghost mut taken: int = 0;
            assert(all.skip(0) =~= all);
            while rest.len() > 0
                invariant
                    0 <= taken <= all.len(),
                    rest@ == all.skip(taken),
                    pred == field_is(k@, v@),
                    out@ == all.take(taken).filter(pred),
                decreases rest.len(),
            {
                let row = rest.remove(0);
                proof {
                    assert(row == all[taken]);
                    assert(all.take(taken + 1).drop_last() =~= all.take(taken));
                    reveal_with_fuel(Seq::<_>::filter, 1);
                }
                let keep = match row.fields.get(k) {
                    Some(x) => str_eq(x.as_str(), v),
                    None => false,
                };
                assert(keep == pred(row));
                if keep {
                    out.push(row);
                }
                proof {
                    taken = taken + 1;
                    assert(rest@ =~= all.skip(taken));
                }
            }
            assert(all.take(all.len() as int) =~= all);
            Ok(out)
        },
        _ => Ok(rows),
    }
}

/// `a - b`, or zero when `b` is larger.
pub open spec fn saturating_diff(a: u64, b: u64) -> int {
    if a >= b {
        a - b
    } else {
        0
    }
}

/// Capsules older than the retention (`days` of 86400 seconds) at `now`.
pub open spec fn expired(now: u64, days: u32) -> spec_fn(CapsuleRecord) -> bool {
    |c: CapsuleRecord| saturating_diff(now, c.created_at) > days * 86400
}

/// Capsules within the retention at `now`.
pub open spec fn retained(now: u64, days: u32) -> spec_fn(CapsuleRecord) -> bool {
    |c: CapsuleRecord| !(saturating_diff(now, c.created_at) > days * 86400)
}

/// The capsule paths of records.
pub open spec fn capsule_paths(s: Seq<CapsuleRecord>) -> Seq<Seq<char>> {
    s.map_values(|c: CapsuleRecord| c.capsule_path@)
}

/// Purges the capsules older than the tenant's retention at `now`: returns the
/// removed capsule paths and the remaining index, both in index order. A tenant
/// under legal hold is left alone.
pub fn lifecycle_purge(meta: &TenantMeta, index: Vec<CapsuleRecord>, now: u64) -> (r: Result<
    (Vec<String>, Vec<CapsuleRecord>),
    String,
>)
    ensures
        meta.legal_hold ==> (r matches Err(e) && e@ == "legal_hold_enabled"@),
        !meta.legal_hold ==> (r matches Ok((removed, kept)) && kept@ == index@.filter(
            retained(now, meta.retention.days),
        ) && views(removed@) == capsule_paths(index@.filter(expired(now, meta.retention.days)))
            && removed.len() + kept.len() == index.len()),
{
    if meta.legal_hold {
        return Err(owned("legal_hold_enabled"));
    }
    let days = meta.retention.days;
    let max_age: u64 = (days as u64) * 24 * 3600;
    let ghost all = index@;
    let ghost keep_p = retained(now, days);
    let ghost drop_p = expired(now, days);
    let mut rest = index;
    let mut kept: Vec<CapsuleRecord> = Vec::new();
    let mut removed: Vec<String> = Vec::new();
    let ghost mut taken: int = 0;
    assert(all.skip(0) =~= all);
    while rest.len() > 0
        invariant
            0 <= taken <= all.len(),
            rest@ == all.skip(taken),
            max_age == days * 86400,
            keep_p == retained(now, days),
            drop_p == expired(now, days),
            kept@ == all.take(taken).filter(keep_p),
            views(removed@) == capsule_paths(all.take(taken).filter(drop_p)),
            kept.len() + removed.len() == taken,
        decreases rest.len(),
    {
        let row = rest.remove(0);
        proof {
            assert(row == all[taken]);
            assert(all.take(taken + 1).drop_last() =~= all.take(taken));
            reveal_with_fuel(Seq::<_>::filter, 1);
        }
        let age = now.saturating_sub(row.created_at);
        let is_expired = age > max_age;
        assert(is_expired == drop_p(row));
        assert(!is_expired == keep_p(row));
        if is_expired {
            let ghost before = removed@;
            removed.push(row.capsule_path.clone());
            proof {
                assert(views(removed@) =~= views(before).push(row.capsule_path@));
                assert(capsule_paths(all.take(taken).filter(drop_p).push(row)) =~= capsule_paths(
                    all.take(taken).filter(drop_p),
                ).push(row.capsule_path@));
            }
        } else {
            kept.push(row);
        }
        proof {
            taken = taken + 1;
            assert(rest@ =~= all.skip(taken));
        }
    }
    assert(all.take(all.len() as int) =~= all);
    Ok((removed, kept))
}

} // verus!
