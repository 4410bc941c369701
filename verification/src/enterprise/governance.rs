//! Governance policies: which models, seeds and external calls a run may use,
//! and which evidence fields it must record.

use crate::string_map::{has_key, StringMap};
use crate::text::{concat2, owned, str_eq, views};
use vstd::prelude::*;

verus! {

/// What a governed run may use and must record.
#[derive(Debug)]
pub struct GovernancePolicy {
    pub allowed_models: Vec<String>,
    pub allowed_seeds: Vec<u64>,
    pub allowed_external_calls: Vec<String>,
    pub required_evidence_fields: Vec<String>,
}

/// What a run used and recorded.
#[derive(Debug)]
pub struct GovernanceEvalInput {
    pub model: String,
    pub seed: u64,
    pub external_calls: Vec<String>,
    pub evidence_fields: StringMap,
}

/// The outcome of a policy check: `ok` exactly when there is no violation.
#[derive(Debug)]
pub struct GovernanceEvalResult {
    pub ok: bool,
    pub violations: Vec<String>,
}

/// One violation, `prefix` followed by the item, for each item of `items`
/// (in order) that `fine` rejects.
pub open spec fn flagged(items: Seq<Seq<char>>, fine: spec_fn(Seq<char>) -> bool, prefix: Seq<char>) -> Seq<
    Seq<char>,
>
    decreases items.len(),
{
    if items.len() == 0 {
        Seq::empty()
    } else {
        let rest = flagged(items.drop_last(), fine, prefix);
        if fine(items.last()) {
            rest
        } else {
            rest.push(prefix + items.last())
        }
    }
}

/// Nothing is flagged exactly when `fine` accepts every item.
pub proof fn lemma_flagged_empty(items: Seq<Seq<char>>, fine: spec_fn(Seq<char>) -> bool, prefix: Seq<char>)
    ensures
        flagged(items, fine, prefix).len() == 0 <==> forall|i: int| 0 <= i < items.len() ==> #[trigger] fine(
            items[i],
        ),
    decreases items.len(),
{
    if items.len() > 0 {
        lemma_flagged_empty(items.drop_last(), fine, prefix);
        if !fine(items.last()) {
            assert(!fine(items[items.len() - 1]));
        } else {
            assert forall|i: int| 0 <= i < items.len() - 1 implies #[trigger] fine(items[i]) == fine(
                items.drop_last()[i],
            ) by {}
        }
    }
}

/// The problems with a policy itself: no allowed model, no required evidence field.
pub open spec fn policy_problems(policy: GovernancePolicy) -> Seq<Seq<char>> {
    (if policy.allowed_models@.len() == 0 {
        seq!["allowed_models_empty"@]
    } else {
        Seq::empty()
    }) + (if policy.required_evidence_fields@.len() == 0 {
        seq!["required_evidence_fields_empty"@]
    } else {
        Seq::empty()
    })
}

/// Checks that a policy allows some model and requires some evidence field.
pub fn policy_validate(policy: &GovernancePolicy) -> (r: GovernanceEvalResult)
    ensures
        views(r.violations@) == policy_problems(*policy),
        r.ok == (r.violations@.len() == 0),
{
    let mut violations: Vec<String> = Vec::new();
    if policy.allowed_models.len() == 0 {
        violations.push(owned("allowed_models_empty"));
    }
    if policy.required_evidence_fields.len() == 0 {
        violations.push(owned("required_evidence_fields_empty"));
    }
    assert(views(violations@) =~= policy_problems(*policy));
    let ok = violations.len() == 0;
    GovernanceEvalResult { ok, violations }
}

/// The violations of `input` against `policy`, in the order they are reported.
pub open spec fn policy_violations(policy: GovernancePolicy, input: GovernanceEvalInput) -> Seq<Seq<char>> {
    let allowed_models = views(policy.allowed_models@);
    let allowed_calls = views(policy.allowed_external_calls@);
    let fields = input.evidence_fields@;
    (if allowed_models.contains(input.model@) {
        Seq::empty()
    } else {
        seq!["model_not_allowed"@]
    }) + (if policy.allowed_seeds@.contains(input.seed) {
        Seq::empty()
    } else {
        seq!["seed_not_allowed"@]
    }) + flagged(
        views(input.external_calls@),
        |c: Seq<char>| allowed_calls.contains(c),
        "external_call_not_allowed:"@,
    ) + flagged(
        views(policy.required_evidence_fields@),
        |f: Seq<char>| has_key(fields, f),
        "missing_evidence_field:"@,
    )
}

/// Whether `s` occurs in `v`.
fn contains_text(v: &Vec<String>, s: &str) -> (r: bool)
    ensures
        r == views(v@).contains(s@),
{
    let n = v.len();
    for i in 0..n
        invariant
            n == v@.len(),
            forall|j: int| 0 <= j < i ==> v@[j]@ != s@,
    {
        if str_eq(v[i].as_str(), s) {
            assert(views(v@)[i as int] == s@);
            return true;
        }
    }
    assert forall|j: int| 0 <= j < views(v@).len() implies views(v@)[j] != s@ by {
        assert(views(v@)[j] == v@[j]@);
    }
    false
}

/// Whether `x` occurs in `v`.
fn contains_seed(v: &Vec<u64>, x: u64) -> (r: bool)
    ensures
        r == v@.contains(x),
{
    let n = v.len();
    for i in 0..n
        invariant
            n == v@.len(),
            forall|j: int| 0 <= j < i ==> v@[j] != x,
    {
        if v[i] == x {
            assert(v@[i as int] == x);
            return true;
        }
    }
    false
}

/// Checks a run against a policy: its model and seed must be allowed, each of its
/// external calls must be allowed, and each required evidence field must be recorded.
pub fn policy_evaluate(policy: &GovernancePolicy, input: &GovernanceEvalInput) -> (r: GovernanceEvalResult)
    ensures
        views(r.violations@) == policy_violations(*policy, *input),
        r.ok == (r.violations@.len() == 0),
        r.ok <==> (views(policy.allowed_models@).contains(input.model@) && policy.allowed_seeds@.contains(
            input.seed,
        ) && (forall|i: int|
            0 <= i < input.external_calls@.len() ==> views(policy.allowed_external_calls@).contains(
                #[trigger] input.external_calls@[i]@,
            )) && (forall|i: int|
            0 <= i < policy.required_evidence_fields@.len() ==> has_key(
                input.evidence_fields@,
                #[trigger] policy.required_evidence_fields@[i]@,
            ))),
{
    let mut violations: Vec<String> = Vec::new();
    if !contains_text(&policy.allowed_models, input.model.as_str()) {
        violations.push(owned("model_not_allowed"));
    }
    if !contains_seed(&policy.allowed_seeds, input.seed) {
        violations.push(owned("seed_not_allowed"));
    }
    let ghost head = views(violations@);
    let ghost allowed_calls = views(policy.allowed_external_calls@);
    let ghost call_ok = |c: Seq<char>| allowed_calls.contains(c);
    let ghost calls = views(input.external_calls@);
    let n = input.external_calls.len();
    for i in 0..n
        invariant
            n == input.external_calls@.len(),
            calls == views(input.external_calls@),
            allowed_calls == views(policy.allowed_external_calls@),
            call_ok == (|c: Seq<char>| allowed_calls.contains(c)),
            views(violations@) == head + flagged(calls.take(i as int), call_ok, "external_call_not_allowed:"@),
    {
        let call = &input.external_calls[i];
        assert(calls.take(i + 1).drop_last() =~= calls.take(i as int));
        assert(calls.take(i + 1).last() == call@);
        if !contains_text(&policy.allowed_external_calls, call.as_str()) {
            let ghost before = violations@;
            violations.push(concat2("external_call_not_allowed:", call.as_str()));
            assert(views(violations@) =~= views(before).push("external_call_not_allowed:"@ + call@));
        }
    }
    assert(calls.take(n as int) =~= calls);
    let ghost mid = views(violations@);
    let ghost fields = input.evidence_fields@;
    let ghost field_ok = |f: Seq<char>| has_key(fields, f);
    let ghost required = views(policy.required_evidence_fields@);
    let m = policy.required_evidence_fields.len();
    for i in 0..m
        invariant
            m == policy.required_evidence_fields@.len(),
            required == views(policy.required_evidence_fields@),
            fields == input.evidence_fields@,
            field_ok == (|f: Seq<char>| has_key(fields, f)),
            views(violations@) == mid + flagged(required.take(i as int), field_ok, "missing_evidence_field:"@),
    {
        let field = &policy.required_evidence_fields[i];
        assert(required.take(i + 1).drop_last() =~= required.take(i as int));
        assert(required.take(i + 1).last() == field@);
        if !input.evidence_fields.contains_key(field.as_str()) {
            let ghost before = violations@;
            violations.push(concat2("missing_evidence_field:", field.as_str()));
            assert(views(violations@) =~= views(before).push("missing_evidence_field:"@ + field@));
        }
    }
    assert(required.take(m as int) =~= required);
    proof {
        assert(views(violations@) =~= policy_violations(*policy, *input));
        lemma_flagged_empty(calls, call_ok, "external_call_not_allowed:"@);
        lemma_flagged_empty(required, field_ok, "missing_evidence_field:"@);
        let fc = flagged(calls, call_ok, "external_call_not_allowed:"@);
        let ff = flagged(required, field_ok, "missing_evidence_field:"@);
        let p3 = forall|i: int|
            0 <= i < input.external_calls@.len() ==> views(policy.allowed_external_calls@).contains(
                #[trigger] input.external_calls@[i]@,
            );
        let p4 = forall|i: int|
            0 <= i < policy.required_evidence_fields@.len() ==> has_key(
                input.evidence_fields@,
                #[trigger] policy.required_evidence_fields@[i]@,
            );
        assert((fc.len() == 0) == p3) by {
            if fc.len() == 0 {
                assert forall|i: int| 0 <= i < input.external_calls@.len() implies views(
                    policy.allowed_external_calls@,
                ).contains(#[trigger] input.external_calls@[i]@) by {
                    assert(calls[i] == input.external_calls@[i]@);
                    assert(call_ok(calls[i]));
                }
            }
            if p3 {
                assert forall|i: int| 0 <= i < calls.len() implies #[trigger] call_ok(calls[i]) by {
                    assert(calls[i] == input.external_calls@[i]@);
                }
            }
        }
        assert((ff.len() == 0) == p4) by {
            if ff.len() == 0 {
                assert forall|i: int| 0 <= i < policy.required_evidence_fields@.len() implies has_key(
                    input.evidence_fields@,
                    #[trigger] policy.required_evidence_fields@[i]@,
                ) by {
                    assert(required[i] == policy.required_evidence_fields@[i]@);
                    assert(field_ok(required[i]));
                }
            }
            if p4 {
                assert forall|i: int| 0 <= i < required.len() implies #[trigger] field_ok(required[i]) by {
                    assert(required[i] == policy.required_evidence_fields@[i]@);
                }
            }
        }
    }
    let ok = violations.len() == 0;
    GovernanceEvalResult { ok, violations }
}

} // verus!
