//! Properties that hold across calls and for every input: what a diff of a run
//! with itself contains, which differences are never reported and which always
//! are, symmetry of diffs (the same fields, each with its two values
//! exchanged), which run's value a rendered diff shows under `a:` and `b:`, the
//! shape of every captured timeline, determinism of captures and their
//! fixed-clock timestamps, what a run id hashes, what replaying a capture
//! prints, what loading a saved event stream gives back, what a permission
//! check answers for each role, that a registered capsule can be replayed,
//! retention read back after it is set, which capsules a purge removes, where
//! two causal graphs diverge, that a missing final newline shows in a run
//! summary, that the evaluation is a function of its inputs, and the ordering
//! of roles.

use crate::artifact::{env_hash_of, run_id_of, ExecutionArtifact};
use crate::capture::{argv_of, captured, trace_events, Clock, FixedClock, HostSnapshot, SpawnOutcome};
use crate::causal_graph::CausalGraph;
use crate::causal_query::{divergence_of, first_from, outgoing_differs, surface_differs, type_differs};
use crate::diff::{
    all_fields, causal_chain_of, chain_upto, changed, delta_views, diffs_among, env_deltas_of, env_differs,
    fd_view, fd_views, field_diff_of, field_name, field_value, first_named, keeps, names_field,
    raw_differences, report_of, semantic_differences, unchanged_of, DiffReport,
};
use crate::digest::sha256_hex_of_text;
use crate::enterprise::rbac::{
    assigned, check_outcome, grants, permission_label, permissions_of, role_label, Permission, Role,
};
use crate::enterprise::tenants::{
    capsule_order, capsule_paths, capsule_views, expired, first_capsule_at, fresh_meta, hold_updated,
    retained, retention_updated, CapsuleRecord, TenantMeta,
};
use crate::evaluation::render::{evaluation_of, markdown_of};
use crate::evaluation::{ProductGap, SrcFile, SystemReport};
use crate::event_store::{loaded_stream, run_id_error, saved_stream, EventStreamFile};
use crate::json::{
    json_string, json_string_array, json_string_map, lemma_run_id_text_stdout_injective, run_id_text,
};
use crate::output::{
    artifact_text, block, chain_text, diff_header, diff_text, env_count, env_delta_text, field_diff_text,
    layer_text, shows_field, temporal_text,
};
use crate::runs::stdout_of;
use crate::sorting::{lemma_sort_by_key_permutes, sort_by_key};
use crate::string_map::lookup;
use crate::text::{
    block_text, dec_text, flatten, int_text, lemma_dec_text_injective, lemma_flatten_take,
    lemma_int_text_injective, lemma_lines_of_final_newline, lemma_seq_lt_irreflexive, lemma_seq_lt_transitive,
    seq_lt, views,
};
use crate::trace::{event_views, EventView, ExecutionTrace};
use vstd::prelude::*;

verus! {

proof fn lemma_diffs_among_self(a: ExecutionArtifact, fs: Seq<int>)
    ensures
        diffs_among(a, a, fs).len() == 0,
    decreases fs.len(),
{
    if fs.len() > 0 {
        lemma_diffs_among_self(a, fs.drop_first());
        assert(!changed(a, a, fs[0]));
    }
}

/// A run compared with itself shows no difference at all.
pub proof fn lemma_self_diff_empty(a: ExecutionArtifact)
    ensures
        raw_differences(a, a).len() == 0,
        semantic_differences(a, a).len() == 0,
{
    lemma_diffs_among_self(a, all_fields());
    let raw = raw_differences(a, a);
    assert(raw =~= Seq::<(Seq<char>, Seq<char>, Seq<char>)>::empty());
    reveal_with_fuel(Seq::<_>::filter, 1);
    assert(semantic_differences(a, a) =~= Seq::<(Seq<char>, Seq<char>, Seq<char>)>::empty());
}

/// A reported difference is never the timestamp, and a reported duration
/// difference always comes with an exit-code, stdout or stderr difference.
pub proof fn lemma_timing_noise_dropped(a: ExecutionArtifact, b: ExecutionArtifact, i: int)
    requires
        0 <= i < semantic_differences(a, b).len(),
    ensures
        semantic_differences(a, b)[i].0 != "timestamp"@,
        semantic_differences(a, b)[i].0 == "duration_ms"@ ==> (names_field(raw_differences(a, b), "exit_code"@)
            || names_field(raw_differences(a, b), "stdout"@) || names_field(raw_differences(a, b), "stderr"@)),
{
    let raw = raw_differences(a, b);
    let p = |d: (Seq<char>, Seq<char>, Seq<char>)| keeps(raw, d);
    broadcast use vstd::seq_lib::group_filter_ensures;

    assert(semantic_differences(a, b) == raw.filter(p));
    assert(p(raw.filter(p)[i]));
}

/// A changed field among `fs` has its diff in `diffs_among`.
proof fn lemma_diffs_among_has(a: ExecutionArtifact, b: ExecutionArtifact, fs: Seq<int>, k: int) -> (j: int)
    requires
        0 <= k < fs.len(),
        changed(a, b, fs[k]),
    ensures
        0 <= j < diffs_among(a, b, fs).len(),
        diffs_among(a, b, fs)[j] == field_diff_of(a, b, fs[k]),
    decreases fs.len(),
{
    let head = if changed(a, b, fs[0]) {
        seq![field_diff_of(a, b, fs[0])]
    } else {
        Seq::empty()
    };
    let tail = diffs_among(a, b, fs.drop_first());
    assert(diffs_among(a, b, fs) == head + tail);
    if k == 0 {
        0
    } else {
        let t = lemma_diffs_among_has(a, b, fs.drop_first(), k - 1);
        assert(fs.drop_first()[k - 1] == fs[k]);
        head.len() + t
    }
}

/// A changed field that is not timing noise is among the reported differences.
proof fn lemma_reported(a: ExecutionArtifact, b: ExecutionArtifact, f: int)
    requires
        0 <= f < 6,
        changed(a, b, f),
    ensures
        semantic_differences(a, b).contains(field_diff_of(a, b, f)),
{
    let raw = raw_differences(a, b);
    let p = |d: (Seq<char>, Seq<char>, Seq<char>)| keeps(raw, d);
    assert(all_fields()[f] == f);
    let j = lemma_diffs_among_has(a, b, all_fields(), f);
    reveal_strlit("timestamp");
    reveal_strlit("duration_ms");
    reveal_strlit("command");
    reveal_strlit("environment_hash");
    reveal_strlit("cwd");
    reveal_strlit("exit_code");
    reveal_strlit("stdout");
    reveal_strlit("stderr");
    assert(field_name(f)[0] != 't' && field_name(f)[0] != 'd');
    assert("timestamp"@[0] == 't' && "duration_ms"@[0] == 'd');
    assert(p(raw[j]));
    raw.lemma_filter_contains(p, j);
    assert(semantic_differences(a, b) == raw.filter(p));
}

/// A changed duration is reported when a field among `others` (exit code,
/// stdout, stderr) also changed.
proof fn lemma_duration_reported(a: ExecutionArtifact, b: ExecutionArtifact, g: int)
    requires
        3 <= g < 6,
        changed(a, b, 6),
        changed(a, b, g),
    ensures
        semantic_differences(a, b).contains(field_diff_of(a, b, 6)),
{
    let raw = raw_differences(a, b);
    let p = |d: (Seq<char>, Seq<char>, Seq<char>)| keeps(raw, d);
    assert(all_fields()[6] == 6);
    assert(all_fields()[g] == g);
    let j = lemma_diffs_among_has(a, b, all_fields(), 6);
    let e = lemma_diffs_among_has(a, b, all_fields(), g);
    reveal_strlit("timestamp");
    reveal_strlit("duration_ms");
    assert("timestamp"@[0] == 't' && "duration_ms"@[0] == 'd');
    assert(raw[j].0 != "timestamp"@);
    assert(raw[e].0 == "exit_code"@ || raw[e].0 == "stdout"@ || raw[e].0 == "stderr"@);
    assert(p(raw[j]));
    raw.lemma_filter_contains(p, j);
    assert(semantic_differences(a, b) == raw.filter(p));
}

/// The timing-noise filter drops nothing but timing: whenever the command, the
/// environment hash, the working directory, the exit code, stdout or stderr
/// differ, the report lists that field with the first run's value and then the
/// second's, and names it among the changed fields. A duration difference is
/// listed too when the exit code, stdout or stderr also differ.
#[verifier::spinoff_prover]
pub proof fn lemma_non_timing_differences_reported(
    r: DiffReport,
    a: ExecutionArtifact,
    b: ExecutionArtifact,
    index: Seq<Seq<char>>,
)
    requires
        report_of(r, a, b, index),
    ensures
        a.command@ != b.command@ ==> fd_views(r.differences@).contains(("command"@, a.command@, b.command@)),
        env_hash_of(a.env_snapshot) != env_hash_of(b.env_snapshot) ==> fd_views(r.differences@).contains(
            ("environment_hash"@, env_hash_of(a.env_snapshot), env_hash_of(b.env_snapshot)),
        ),
        a.cwd@ != b.cwd@ ==> fd_views(r.differences@).contains(("cwd"@, a.cwd@, b.cwd@)),
        a.exit_code != b.exit_code ==> fd_views(r.differences@).contains(
            ("exit_code"@, int_text(a.exit_code as int), int_text(b.exit_code as int)),
        ),
        a.stdout@ != b.stdout@ ==> fd_views(r.differences@).contains(("stdout"@, a.stdout@, b.stdout@)),
        a.stderr@ != b.stderr@ ==> fd_views(r.differences@).contains(("stderr"@, a.stderr@, b.stderr@)),
        a.stderr@ != b.stderr@ ==> views(r.changed_fields@).contains("stderr"@),
        a.duration_ms != b.duration_ms && (a.exit_code != b.exit_code || a.stdout@ != b.stdout@
            || a.stderr@ != b.stderr@) ==> fd_views(r.differences@).contains(
            ("duration_ms"@, dec_text(a.duration_ms as nat), dec_text(b.duration_ms as nat)),
        ),
{
    let ds = semantic_differences(a, b);
    assert(fd_views(r.differences@) == ds);
    if a.command@ != b.command@ {
        lemma_reported(a, b, 0);
    }
    if env_hash_of(a.env_snapshot) != env_hash_of(b.env_snapshot) {
        lemma_reported(a, b, 1);
    }
    if a.cwd@ != b.cwd@ {
        lemma_reported(a, b, 2);
    }
    if a.exit_code != b.exit_code {
        if int_text(a.exit_code as int) == int_text(b.exit_code as int) {
            lemma_int_text_injective(a.exit_code as int, b.exit_code as int);
        }
        lemma_reported(a, b, 3);
    }
    if a.stdout@ != b.stdout@ {
        lemma_reported(a, b, 4);
    }
    if a.stderr@ != b.stderr@ {
        lemma_reported(a, b, 5);
        let names = ds.map_values(|d: (Seq<char>, Seq<char>, Seq<char>)| d.0);
        let k = choose|k: int| 0 <= k < ds.len() && ds[k] == field_diff_of(a, b, 5);
        assert(names[k] == "stderr"@);
        assert(views(r.changed_fields@) == names);
    }
    if a.duration_ms != b.duration_ms && (a.exit_code != b.exit_code || a.stdout@ != b.stdout@
        || a.stderr@ != b.stderr@) {
        if dec_text(a.duration_ms as nat) == dec_text(b.duration_ms as nat) {
            lemma_dec_text_injective(a.duration_ms as nat, b.duration_ms as nat);
        }
        if a.exit_code != b.exit_code {
            if int_text(a.exit_code as int) == int_text(b.exit_code as int) {
                lemma_int_text_injective(a.exit_code as int, b.exit_code as int);
            }
            lemma_duration_reported(a, b, 3);
        } else if a.stdout@ != b.stdout@ {
            lemma_duration_reported(a, b, 4);
        } else {
            lemma_duration_reported(a, b, 5);
        }
    }
}

/// Whether `seg` occurs in `t` as a run of consecutive characters.
pub open spec fn has_segment(t: Seq<char>, seg: Seq<char>) -> bool {
    exists|i: int| 0 <= i && i + seg.len() <= t.len() && #[trigger] t.subrange(i, i + seg.len()) == seg
}

proof fn lemma_segment_within(x: Seq<char>, w: Seq<char>, y: Seq<char>, seg: Seq<char>)
    requires
        has_segment(w, seg),
    ensures
        has_segment(x + w + y, seg),
{
    let i = choose|i: int| 0 <= i && i + seg.len() <= w.len() && #[trigger] w.subrange(i, i + seg.len()) == seg;
    let t = x + w + y;
    let at = x.len() + i;
    assert(t.subrange(at, at + seg.len()) =~= w.subrange(i, i + seg.len()));
}

proof fn lemma_flatten_append(s: Seq<Seq<char>>, t: Seq<Seq<char>>)
    ensures
        flatten(s + t) == flatten(s) + flatten(t),
    decreases t.len(),
{
    if t.len() == 0 {
        assert(s + t =~= s);
        assert(flatten(s) + flatten(t) =~= flatten(s));
    } else {
        lemma_flatten_append(s, t.drop_last());
        assert((s + t).drop_last() =~= s + t.drop_last());
        assert((s + t).last() == t.last());
        assert(flatten(s) + flatten(t.drop_last()) + t.last() =~= flatten(s) + (flatten(t.drop_last()) + t.last()));
    }
}

proof fn lemma_flatten_has_part(parts: Seq<Seq<char>>, k: int)
    requires
        0 <= k < parts.len(),
    ensures
        has_segment(flatten(parts), parts[k]),
{
    assert(parts =~= parts.take(k + 1) + parts.skip(k + 1));
    lemma_flatten_append(parts.take(k + 1), parts.skip(k + 1));
    lemma_flatten_take(parts, k);
    let pre = flatten(parts.take(k));
    let whole = flatten(parts);
    assert(whole == pre + parts[k] + flatten(parts.skip(k + 1)));
    assert(whole.subrange(pre.len() as int, (pre.len() + parts[k].len()) as int) =~= parts[k]);
}

/// A rendered diff opens by naming the first run's id as `epoch_a` and the
/// second's as `epoch_b`; and every reported change to the command, the
/// working directory, the exit code, stdout or stderr (and to the environment
/// hash when no environment delta explains it) appears as its `~ <field>`
/// section: the first run's value as the block under `  a:`, then the second
/// run's value as the block under `  b:`.
pub proof fn lemma_diff_text_shows_both_sides(
    r: DiffReport,
    a: ExecutionArtifact,
    b: ExecutionArtifact,
    index: Seq<Seq<char>>,
    f: int,
)
    requires
        report_of(r, a, b, index),
        0 <= f < 6,
        f == 1 ==> r.aion.env_diff@.len() == 0,
        changed(a, b, f),
    ensures
        diff_text(r).take(diff_header(r).len() as int) == "── AION DIFF ──\n"@ + "epoch_a AION run_id: "@
            + a.run_id@ + "\n"@ + "epoch_b AION run_id: "@ + b.run_id@ + "\n"@,
        has_segment(
            diff_text(r),
            "~ "@ + field_name(f) + "\n"@ + "  a:\n"@ + block_text(field_value(a, f), "    "@) + "  b:\n"@
                + block_text(field_value(b, f), "    "@),
        ),
{
    let ds = fd_views(r.differences@);
    let envs = delta_views(r.aion.env_diff@);
    let skip = envs.len() > 0;
    lemma_reported(a, b, f);
    assert(ds == semantic_differences(a, b));
    let k = choose|k: int| 0 <= k < ds.len() && ds[k] == field_diff_of(a, b, f);
    assert(ds.len() == r.differences@.len());
    let parts = ds.map_values(|d: (Seq<char>, Seq<char>, Seq<char>)| field_diff_text(d, skip));
    reveal_strlit("timestamp");
    reveal_strlit("duration_ms");
    reveal_strlit("environment_hash");
    reveal_strlit("command");
    reveal_strlit("cwd");
    reveal_strlit("exit_code");
    reveal_strlit("stdout");
    reveal_strlit("stderr");
    assert(field_name(f)[0] != 't' && field_name(f)[0] != 'd');
    assert(f != 1 ==> field_name(f).len() != 16);
    assert("timestamp"@[0] == 't' && "duration_ms"@[0] == 'd' && "environment_hash"@.len() == 16);
    assert(shows_field(field_diff_of(a, b, f), skip));
    assert(parts[k] == field_diff_text(field_diff_of(a, b, f), skip));
    lemma_flatten_has_part(parts, k);
    let head = diff_header(r) + temporal_text(r) + flatten(
        envs.map_values(|d: (Seq<char>, Seq<char>, Seq<char>)| env_delta_text(d)),
    ) + layer_text(envs);
    assert(diff_text(r) == head + flatten(parts) + chain_text(views(r.causal_chain@)));
    lemma_segment_within(head, flatten(parts), chain_text(views(r.causal_chain@)), parts[k]);
    assert(diff_text(r).take(diff_header(r).len() as int) =~= diff_header(r));
}

/// The field names of `diffs_among` are the same both ways round.
proof fn lemma_diffs_among_names(a: ExecutionArtifact, b: ExecutionArtifact, fs: Seq<int>)
    ensures
        diffs_among(a, b, fs).len() == diffs_among(b, a, fs).len(),
        forall|i: int|
            0 <= i < diffs_among(a, b, fs).len() ==> (#[trigger] diffs_among(a, b, fs)[i]).0 == diffs_among(
                b,
                a,
                fs,
            )[i].0,
    decreases fs.len(),
{
    if fs.len() > 0 {
        lemma_diffs_among_names(a, b, fs.drop_first());
        assert(changed(a, b, fs[0]) == changed(b, a, fs[0]));
        let head_ab = if changed(a, b, fs[0]) {
            seq![field_diff_of(a, b, fs[0])]
        } else {
            Seq::empty()
        };
        let head_ba = if changed(b, a, fs[0]) {
            seq![field_diff_of(b, a, fs[0])]
        } else {
            Seq::empty()
        };
        let x = diffs_among(a, b, fs);
        let y = diffs_among(b, a, fs);
        assert(x == head_ab + diffs_among(a, b, fs.drop_first()));
        assert(y == head_ba + diffs_among(b, a, fs.drop_first()));
        assert forall|i: int| 0 <= i < x.len() implies (#[trigger] x[i]).0 == y[i].0 by {
            if head_ab.len() == 1 && i == 0 {
                assert(x[0] == field_diff_of(a, b, fs[0]));
                assert(y[0] == field_diff_of(b, a, fs[0]));
            } else {
                let k = i - head_ab.len();
                assert(x[i] == diffs_among(a, b, fs.drop_first())[k]);
                assert(y[i] == diffs_among(b, a, fs.drop_first())[k]);
            }
        }
    }
}

/// Filtering two sequences with the same names by predicates that agree
/// position by position keeps the same names.
proof fn lemma_filter_same_names(
    x: Seq<(Seq<char>, Seq<char>, Seq<char>)>,
    y: Seq<(Seq<char>, Seq<char>, Seq<char>)>,
    p: spec_fn((Seq<char>, Seq<char>, Seq<char>)) -> bool,
    q: spec_fn((Seq<char>, Seq<char>, Seq<char>)) -> bool,
)
    requires
        x.len() == y.len(),
        forall|i: int| 0 <= i < x.len() ==> (#[trigger] x[i]).0 == y[i].0 && p(x[i]) == q(y[i]),
    ensures
        x.filter(p).len() == y.filter(q).len(),
        forall|i: int| 0 <= i < x.filter(p).len() ==> (#[trigger] x.filter(p)[i]).0 == y.filter(q)[i].0,
    decreases x.len(),
{
    reveal_with_fuel(Seq::<_>::filter, 1);
    if x.len() > 0 {
        lemma_filter_same_names(x.drop_last(), y.drop_last(), p, q);
        assert(x.last() == x[x.len() - 1]);
        assert(y.last() == y[y.len() - 1]);
        let fx = x.drop_last().filter(p);
        let fy = y.drop_last().filter(q);
        if p(x.last()) {
            assert forall|i: int| 0 <= i < fx.push(x.last()).len() implies (#[trigger] fx.push(x.last())[i]).0
                == fy.push(y.last())[i].0 by {
                if i < fx.len() {
                    assert(fx.push(x.last())[i] == fx[i]);
                    assert(fy.push(y.last())[i] == fy[i]);
                }
            }
        }
    }
}

/// The fields that differ are the same whichever run comes first.
pub proof fn lemma_diff_names_symmetric(a: ExecutionArtifact, b: ExecutionArtifact)
    ensures
        semantic_differences(a, b).len() == semantic_differences(b, a).len(),
        forall|i: int|
            0 <= i < semantic_differences(a, b).len() ==> (#[trigger] semantic_differences(a, b)[i]).0
                == semantic_differences(b, a)[i].0,
{
    let x = raw_differences(a, b);
    let y = raw_differences(b, a);
    lemma_diffs_among_names(a, b, all_fields());
    let p = |d: (Seq<char>, Seq<char>, Seq<char>)| keeps(x, d);
    let q = |d: (Seq<char>, Seq<char>, Seq<char>)| keeps(y, d);
    assert forall|n: Seq<char>| names_field(x, n) == names_field(y, n) by {
        if names_field(x, n) {
            let i = choose|i: int| 0 <= i < x.len() && #[trigger] x[i].0 == n;
            assert(y[i].0 == n);
        }
        if names_field(y, n) {
            let i = choose|i: int| 0 <= i < y.len() && #[trigger] y[i].0 == n;
            assert(x[i].0 == y[i].0);
        }
    }
    assert forall|i: int| 0 <= i < x.len() implies (#[trigger] x[i]).0 == y[i].0 && p(x[i]) == q(y[i]) by {
        assert(names_field(x, "exit_code"@) == names_field(y, "exit_code"@));
        assert(names_field(x, "stdout"@) == names_field(y, "stdout"@));
        assert(names_field(x, "stderr"@) == names_field(y, "stderr"@));
    }
    lemma_filter_same_names(x, y, p, q);
}

/// A difference with its two sides exchanged.
pub open spec fn swap_sides(d: (Seq<char>, Seq<char>, Seq<char>)) -> (Seq<char>, Seq<char>, Seq<char>) {
    (d.0, d.2, d.1)
}

/// Differences with their two sides exchanged, in the same order.
pub open spec fn swapped(ds: Seq<(Seq<char>, Seq<char>, Seq<char>)>) -> Seq<(Seq<char>, Seq<char>, Seq<char>)> {
    ds.map_values(|d: (Seq<char>, Seq<char>, Seq<char>)| swap_sides(d))
}

proof fn lemma_diffs_among_swap(a: ExecutionArtifact, b: ExecutionArtifact, fs: Seq<int>)
    ensures
        diffs_among(b, a, fs) == swapped(diffs_among(a, b, fs)),
    decreases fs.len(),
{
    if fs.len() == 0 {
        assert(swapped(diffs_among(a, b, fs)) =~= Seq::<(Seq<char>, Seq<char>, Seq<char>)>::empty());
    } else {
        lemma_diffs_among_swap(a, b, fs.drop_first());
        assert(changed(a, b, fs[0]) == changed(b, a, fs[0]));
        let head_ab = if changed(a, b, fs[0]) {
            seq![field_diff_of(a, b, fs[0])]
        } else {
            Seq::empty()
        };
        let head_ba = if changed(b, a, fs[0]) {
            seq![field_diff_of(b, a, fs[0])]
        } else {
            Seq::empty()
        };
        let rest = diffs_among(a, b, fs.drop_first());
        assert(diffs_among(a, b, fs) == head_ab + rest);
        assert(diffs_among(b, a, fs) == head_ba + swapped(rest));
        assert(head_ba =~= swapped(head_ab));
        assert(swapped(head_ab + rest) =~= swapped(head_ab) + swapped(rest));
    }
}

proof fn lemma_names_swapped(ds: Seq<(Seq<char>, Seq<char>, Seq<char>)>, n: Seq<char>)
    ensures
        names_field(swapped(ds), n) == names_field(ds, n),
{
    if names_field(ds, n) {
        let i = choose|i: int| 0 <= i < ds.len() && #[trigger] ds[i].0 == n;
        assert(swapped(ds)[i].0 == n);
    }
    if names_field(swapped(ds), n) {
        let i = choose|i: int| 0 <= i < swapped(ds).len() && #[trigger] swapped(ds)[i].0 == n;
        assert(ds[i].0 == n);
    }
}

proof fn lemma_filter_swapped(
    x: Seq<(Seq<char>, Seq<char>, Seq<char>)>,
    p: spec_fn((Seq<char>, Seq<char>, Seq<char>)) -> bool,
    q: spec_fn((Seq<char>, Seq<char>, Seq<char>)) -> bool,
)
    requires
        forall|d: (Seq<char>, Seq<char>, Seq<char>)| #[trigger] q(swap_sides(d)) == p(d),
    ensures
        swapped(x).filter(q) == swapped(x.filter(p)),
    decreases x.len(),
{
    reveal_with_fuel(Seq::<_>::filter, 1);
    if x.len() == 0 {
        assert(swapped(x) =~= x);
    } else {
        lemma_filter_swapped(x.drop_last(), p, q);
        assert(swapped(x).drop_last() =~= swapped(x.drop_last()));
        assert(swapped(x).last() == swap_sides(x.last()));
        assert(q(swap_sides(x.last())) == p(x.last()));
        let f = x.drop_last().filter(p);
        assert(swapped(f.push(x.last())) =~= swapped(f).push(swap_sides(x.last())));
    }
}

proof fn lemma_chain_same_names(
    x: Seq<(Seq<char>, Seq<char>, Seq<char>)>,
    y: Seq<(Seq<char>, Seq<char>, Seq<char>)>,
    k: nat,
)
    requires
        forall|n: Seq<char>| #[trigger] names_field(x, n) == names_field(y, n),
    ensures
        chain_upto(x, k) == chain_upto(y, k),
    decreases k,
{
    if k > 0 {
        lemma_chain_same_names(x, y, (k - 1) as nat);
        assert(names_field(x, field_name(k - 1)) == names_field(y, field_name(k - 1)));
    }
}

proof fn lemma_first_named_swapped(ds: Seq<(Seq<char>, Seq<char>, Seq<char>)>, name: Seq<char>)
    ensures
        first_named(swapped(ds), name) == match first_named(ds, name) {
            Some(d) => Some(swap_sides(d)),
            None => None,
        },
    decreases ds.len(),
{
    if ds.len() > 0 {
        assert(swapped(ds).drop_first() =~= swapped(ds.drop_first()));
        assert(swapped(ds)[0] == swap_sides(ds[0]));
        lemma_first_named_swapped(ds.drop_first(), name);
    }
}

/// Diffing `b` against `a` lists the same differences as `a` against `b`, in
/// the same order, each with its two values exchanged; the unchanged fields,
/// the causal chain and the stdout difference follow suit.
pub proof fn lemma_diff_swap(a: ExecutionArtifact, b: ExecutionArtifact)
    ensures
        semantic_differences(b, a) == swapped(semantic_differences(a, b)),
        unchanged_of(semantic_differences(b, a)) == unchanged_of(semantic_differences(a, b)),
        causal_chain_of(semantic_differences(b, a)) == causal_chain_of(semantic_differences(a, b)),
        first_named(semantic_differences(b, a), "stdout"@) == match first_named(semantic_differences(a, b), "stdout"@) {
            Some(d) => Some(swap_sides(d)),
            None => None,
        },
{
    let x = raw_differences(a, b);
    let y = raw_differences(b, a);
    lemma_diffs_among_swap(a, b, all_fields());
    assert(y == swapped(x));
    let p = |d: (Seq<char>, Seq<char>, Seq<char>)| keeps(x, d);
    let q = |d: (Seq<char>, Seq<char>, Seq<char>)| keeps(y, d);
    assert forall|n: Seq<char>| #[trigger] names_field(y, n) == names_field(x, n) by {
        lemma_names_swapped(x, n);
    }
    assert forall|d: (Seq<char>, Seq<char>, Seq<char>)| #[trigger] q(swap_sides(d)) == p(d) by {
        assert(names_field(y, "exit_code"@) == names_field(x, "exit_code"@));
        assert(names_field(y, "stdout"@) == names_field(x, "stdout"@));
        assert(names_field(y, "stderr"@) == names_field(x, "stderr"@));
    }
    lemma_filter_swapped(x, p, q);
    let sa = semantic_differences(a, b);
    let sb = semantic_differences(b, a);
    assert(sb == swapped(sa));
    assert forall|n: Seq<char>| #[trigger] names_field(sb, n) == names_field(sa, n) by {
        lemma_names_swapped(sa, n);
    }
    assert((|n: Seq<char>| !names_field(sb, n)) =~= (|n: Seq<char>| !names_field(sa, n)));
    lemma_chain_same_names(sb, sa, 6);
    lemma_first_named_swapped(sa, "stdout"@);
}

proof fn lemma_sorted_keys_equal(k1: Seq<Seq<char>>, k2: Seq<Seq<char>>)
    requires
        forall|p: int, q: int| 0 <= p < q < k1.len() ==> seq_lt(#[trigger] k1[p], #[trigger] k1[q]),
        forall|p: int, q: int| 0 <= p < q < k2.len() ==> seq_lt(#[trigger] k2[p], #[trigger] k2[q]),
        forall|k: Seq<char>| #![trigger k1.contains(k)] #![trigger k2.contains(k)] k1.contains(k) == k2.contains(k),
    ensures
        k1 == k2,
    decreases k1.len(),
{
    if k1.len() == 0 {
        if k2.len() > 0 {
            assert(k2.contains(k2[0]));
            assert(k1.contains(k2[0]));
        }
        assert(k1 =~= k2);
    } else {
        assert(k1.contains(k1[0]));
        assert(k2.len() > 0);
        assert(k2.contains(k2[0]));
        assert(k1.contains(k2[0]));
        assert(k2.contains(k1[0]));
        let i = choose|i: int| 0 <= i < k1.len() && k1[i] == k2[0];
        let j = choose|j: int| 0 <= j < k2.len() && k2[j] == k1[0];
        if k1[0] != k2[0] {
            assert(i > 0 && j > 0);
            assert(seq_lt(k1[0], k1[i]));
            assert(seq_lt(k2[0], k2[j]));
            lemma_seq_lt_transitive(k1[0], k2[0], k1[0]);
            lemma_seq_lt_irreflexive(k1[0]);
        }
        let r1 = k1.drop_first();
        let r2 = k2.drop_first();
        assert forall|k: Seq<char>| #![trigger r1.contains(k)] #![trigger r2.contains(k)] r1.contains(k) == r2.contains(k) by {
            if r1.contains(k) {
                let a = choose|a: int| 0 <= a < r1.len() && r1[a] == k;
                assert(k1[a + 1] == k);
                assert(seq_lt(k1[0], k1[a + 1]));
                if k == k1[0] {
                    lemma_seq_lt_irreflexive(k);
                }
                assert(k1.contains(k));
                let c = choose|c: int| 0 <= c < k2.len() && k2[c] == k;
                assert(c != 0);
                assert(r2[c - 1] == k);
            }
            if r2.contains(k) {
                let a = choose|a: int| 0 <= a < r2.len() && r2[a] == k;
                assert(k2[a + 1] == k);
                assert(seq_lt(k2[0], k2[a + 1]));
                if k == k2[0] {
                    lemma_seq_lt_irreflexive(k);
                }
                assert(k2.contains(k));
                let c = choose|c: int| 0 <= c < k1.len() && k1[c] == k;
                assert(c != 0);
                assert(r1[c - 1] == k);
            }
        }
        assert forall|p: int, q: int| 0 <= p < q < r1.len() implies seq_lt(#[trigger] r1[p], #[trigger] r1[q]) by {
            assert(r1[p] == k1[p + 1] && r1[q] == k1[q + 1]);
        }
        assert forall|p: int, q: int| 0 <= p < q < r2.len() implies seq_lt(#[trigger] r2[p], #[trigger] r2[q]) by {
            assert(r2[p] == k2[p + 1] && r2[q] == k2[q + 1]);
        }
        lemma_sorted_keys_equal(r1, r2);
        assert(k1 =~= seq![k1[0]] + r1);
        assert(k2 =~= seq![k2[0]] + r2);
    }
}

/// The environment deltas of `b` against `a` are those of `a` against `b`, key
/// for key, with the two values exchanged.
pub proof fn lemma_env_deltas_swap(
    d1: Seq<(Seq<char>, Seq<char>, Seq<char>)>,
    d2: Seq<(Seq<char>, Seq<char>, Seq<char>)>,
    ea: Seq<(Seq<char>, Seq<char>)>,
    eb: Seq<(Seq<char>, Seq<char>)>,
)
    requires
        env_deltas_of(d1, ea, eb),
        env_deltas_of(d2, eb, ea),
    ensures
        d2 == swapped(d1),
{
    let k1 = d1.map_values(|d: (Seq<char>, Seq<char>, Seq<char>)| d.0);
    let k2 = d2.map_values(|d: (Seq<char>, Seq<char>, Seq<char>)| d.0);
    assert forall|p: int, q: int| 0 <= p < q < k1.len() implies seq_lt(#[trigger] k1[p], #[trigger] k1[q]) by {
        assert(seq_lt(d1[p].0, d1[q].0));
    }
    assert forall|p: int, q: int| 0 <= p < q < k2.len() implies seq_lt(#[trigger] k2[p], #[trigger] k2[q]) by {
        assert(seq_lt(d2[p].0, d2[q].0));
    }
    assert forall|k: Seq<char>| #![trigger k1.contains(k)] #![trigger k2.contains(k)] k1.contains(k) == k2.contains(k) by {
        if k1.contains(k) {
            let p = choose|p: int| 0 <= p < k1.len() && k1[p] == k;
            assert(env_differs(ea, eb, d1[p].0));
            assert(env_differs(eb, ea, k));
            let q = choose|q: int| 0 <= q < d2.len() && #[trigger] d2[q].0 == k;
            assert(k2[q] == k);
        }
        if k2.contains(k) {
            let p = choose|p: int| 0 <= p < k2.len() && k2[p] == k;
            assert(env_differs(eb, ea, d2[p].0));
            assert(env_differs(ea, eb, k));
            let q = choose|q: int| 0 <= q < d1.len() && #[trigger] d1[q].0 == k;
            assert(k1[q] == k);
        }
    }
    lemma_sorted_keys_equal(k1, k2);
    assert forall|p: int| 0 <= p < d2.len() implies #[trigger] d2[p] == swapped(d1)[p] by {
        assert(k1[p] == k2[p]);
        assert(d1[p].0 == d2[p].0);
    }
    assert(d2 =~= swapped(d1));
}

/// Diffing `b` against `a` reports the same fields, unchanged fields and causal
/// chain as `a` against `b`; each difference, the stdout difference and each
/// environment delta come with their two values exchanged.
pub proof fn lemma_diff_report_swap(
    p: DiffReport,
    q: DiffReport,
    a: ExecutionArtifact,
    b: ExecutionArtifact,
    index: Seq<Seq<char>>,
)
    requires
        report_of(p, a, b, index),
        report_of(q, b, a, index),
    ensures
        q.run_a@ == p.run_b@,
        q.run_b@ == p.run_a@,
        fd_views(q.differences@) == swapped(fd_views(p.differences@)),
        views(q.changed_fields@) == views(p.changed_fields@),
        views(q.unchanged_fields@) == views(p.unchanged_fields@),
        views(q.causal_chain@) == views(p.causal_chain@),
        delta_views(q.aion.env_diff@) == swapped(delta_views(p.aion.env_diff@)),
        match (p.aion.stdout_diff, q.aion.stdout_diff) {
            (Some(x), Some(y)) => fd_view(y) == swap_sides(fd_view(x)),
            (None, None) => true,
            _ => false,
        },
{
    lemma_diff_swap(a, b);
    let sa = semantic_differences(a, b);
    let sb = semantic_differences(b, a);
    assert(sb.map_values(|d: (Seq<char>, Seq<char>, Seq<char>)| d.0) =~= sa.map_values(
        |d: (Seq<char>, Seq<char>, Seq<char>)| d.0,
    ));
    match (a.repro_run, b.repro_run) {
        (Some(ra), Some(rb)) => {
            lemma_env_deltas_swap(delta_views(p.aion.env_diff@), delta_views(q.aion.env_diff@), ra.env@, rb.env@);
        },
        _ => {
            assert(delta_views(q.aion.env_diff@) =~= swapped(delta_views(p.aion.env_diff@)));
        },
    }
}

/// Every captured timeline is `Spawn`, `EnvResolved`, then only stream events,
/// then `Exit` and last `Timing`: one spawn, one environment event, one exit.
pub open spec fn well_ordered_timeline(evs: Seq<EventView>) -> bool {
    &&& evs.len() >= 4
    &&& evs[0] is Spawn
    &&& evs[1] is EnvResolved
    &&& evs[evs.len() - 2] is Exit
    &&& evs[evs.len() - 1] is Timing
    &&& forall|i: int| 2 <= i < evs.len() - 2 ==> (#[trigger] evs[i] is Stdout || evs[i] is Stderr)
}

/// The timeline of every capture has the locked order.
pub proof fn lemma_timeline_order(
    program: Seq<char>,
    args: Seq<Seq<char>>,
    stdout: Seq<char>,
    stderr: Seq<char>,
    exit_code: int,
    duration_ms: nat,
    keys: Seq<Seq<char>>,
)
    ensures
        well_ordered_timeline(trace_events(program, args, stdout, stderr, exit_code, duration_ms, keys)),
{
    let evs = trace_events(program, args, stdout, stderr, exit_code, duration_ms, keys);
    assert(evs.len() == 6);
    assert forall|i: int| 2 <= i < evs.len() - 2 implies (#[trigger] evs[i] is Stdout || evs[i] is Stderr) by {
        if i == 2 {
            assert(evs[2] is Stdout);
        } else {
            assert(evs[3] is Stderr);
        }
    }
}

/// Two captures of the same command, host and outcome differ at most in their
/// timestamp.
pub proof fn lemma_capture_deterministic(
    a1: ExecutionArtifact,
    a2: ExecutionArtifact,
    program: Seq<char>,
    args: Seq<Seq<char>>,
    joined_command: Seq<char>,
    t1: u64,
    t2: u64,
    host: HostSnapshot,
    outcome: SpawnOutcome,
)
    requires
        captured(a1, program, args, joined_command, t1, host, outcome),
        captured(a2, program, args, joined_command, t2, host, outcome),
    ensures
        a1.schema_version == a2.schema_version,
        a1.run_id@ == a2.run_id@,
        a1.command@ == a2.command@,
        a1.cwd@ == a2.cwd@,
        a1.env_snapshot == a2.env_snapshot,
        a1.stdout@ == a2.stdout@,
        a1.stderr@ == a2.stderr@,
        a1.exit_code == a2.exit_code,
        a1.duration_ms == a2.duration_ms,
        a1.trace.run_id@ == a2.trace.run_id@,
        event_views(a1.trace.events@) == event_views(a2.trace.events@),
{
}

/// The run id of a capture is the lowercase hex SHA-256 of the compact JSON of
/// its own argv, full environment and recorded stdout, so it covers what the run
/// printed; and captures of one command in one environment whose stdout
/// differs hash different material.
pub proof fn lemma_run_id_covers_stdout(
    a1: ExecutionArtifact,
    a2: ExecutionArtifact,
    program: Seq<char>,
    args: Seq<Seq<char>>,
    joined_command: Seq<char>,
    t1: u64,
    t2: u64,
    host: HostSnapshot,
    o1: SpawnOutcome,
    o2: SpawnOutcome,
)
    requires
        captured(a1, program, args, joined_command, t1, host, o1),
        captured(a2, program, args, joined_command, t2, host, o2),
    ensures
        a1.repro_run matches Some(rr) && a1.run_id@ == run_id_of(views(rr.command@), rr.env@, a1.stdout@),
        a1.run_id@ == sha256_hex_of_text(
            "{\"command\":"@ + json_string_array(argv_of(program, args)) + ",\"env\":"@ + json_string_map(
                host.env_full@,
            ) + ",\"stdout\":"@ + json_string(a1.stdout@) + "}"@,
        ),
        a1.stdout@ != a2.stdout@ ==> run_id_text(argv_of(program, args), host.env_full@, a1.stdout@)
            != run_id_text(argv_of(program, args), host.env_full@, a2.stdout@),
{
    if run_id_text(argv_of(program, args), host.env_full@, a1.stdout@) == run_id_text(
        argv_of(program, args),
        host.env_full@,
        a2.stdout@,
    ) {
        lemma_run_id_text_stdout_injective(argv_of(program, args), host.env_full@, a1.stdout@, a2.stdout@);
    }
}

/// Two captures of the same command, host and outcome stamped by one fixed
/// clock agree on the timestamp too: it is the clock's value.
pub proof fn lemma_fixed_clock_capture(
    a1: ExecutionArtifact,
    a2: ExecutionArtifact,
    program: Seq<char>,
    args: Seq<Seq<char>>,
    joined_command: Seq<char>,
    host: HostSnapshot,
    outcome: SpawnOutcome,
    clock: FixedClock,
)
    requires
        captured(a1, program, args, joined_command, a1.timestamp, host, outcome),
        captured(a2, program, args, joined_command, a2.timestamp, host, outcome),
        clock.reads(a1.timestamp),
        clock.reads(a2.timestamp),
    ensures
        a1.timestamp == clock.0,
        a2.timestamp == clock.0,
        a1.run_id@ == a2.run_id@,
        event_views(a1.trace.events@) == event_views(a2.trace.events@),
{
}

/// Replaying a captured run prints exactly the stdout that the capture recorded.
pub proof fn lemma_replay_gives_recorded_stdout(
    a: ExecutionArtifact,
    program: Seq<char>,
    args: Seq<Seq<char>>,
    joined_command: Seq<char>,
    timestamp: u64,
    host: HostSnapshot,
    outcome: SpawnOutcome,
)
    requires
        captured(a, program, args, joined_command, timestamp, host, outcome),
    ensures
        stdout_of(event_views(a.trace.events@)) == a.stdout@,
{
    let evs = event_views(a.trace.events@);
    assert(evs.len() == 6);
    assert(evs.take(3).drop_last() =~= evs.take(2));
    assert(evs.take(2).drop_last() =~= evs.take(1));
    assert(evs.take(1).drop_last() =~= evs.take(0));
    assert(stdout_of(evs.take(0)) == Seq::<char>::empty());
    assert(stdout_of(evs.take(1)) =~= Seq::<char>::empty());
    assert(stdout_of(evs.take(2)) =~= Seq::<char>::empty());
    assert(stdout_of(evs.take(3)) =~= a.stdout@);
    assert(evs.take(4).drop_last() =~= evs.take(3));
    assert(evs.take(5).drop_last() =~= evs.take(4));
    assert(evs.take(6).drop_last() =~= evs.take(5));
    assert(stdout_of(evs.take(4)) =~= a.stdout@);
    assert(stdout_of(evs.take(5)) =~= a.stdout@);
    assert(stdout_of(evs.take(6)) =~= a.stdout@);
    assert(evs.take(6) =~= evs);
}

/// Loading the event stream saved for a run, under that run's id, gives back a
/// trace of that run with the saved events; under another id it is refused.
pub proof fn lemma_event_stream_round_trip(
    f: EventStreamFile,
    run_id: Seq<char>,
    events: Seq<EventView>,
    requested: Seq<char>,
    r: Result<ExecutionTrace, String>,
)
    requires
        saved_stream(f, run_id, events),
        loaded_stream(f, requested, r),
    ensures
        requested == run_id ==> (r matches Ok(t) && t.run_id@ == run_id && event_views(t.events@) == events),
        requested != run_id ==> (r matches Err(e) && e@ == run_id_error(run_id, requested)),
{
}

/// After a role is recorded for a subject, checking a permission for that
/// subject answers whether the role grants it, and every other subject gets
/// the answer it got before.
pub proof fn lemma_assign_then_check(
    before: Seq<(Seq<char>, Role)>,
    after: Seq<(Seq<char>, Role)>,
    subject: Seq<char>,
    role: Role,
    other: Seq<char>,
    permission: Permission,
)
    requires
        assigned(before, after, subject, role),
    ensures
        check_outcome(after, subject, permission) == Ok::<bool, Seq<char>>(grants(role, permission)),
        other != subject ==> check_outcome(after, other, permission) == check_outcome(before, other, permission),
{
    if other != subject {
        assert(lookup(after, other) == lookup(before, other));
    }
}

proof fn lemma_first_capsule_exists(s: Seq<CapsuleRecord>, path: Seq<char>, j: int)
    requires
        0 <= j < s.len(),
        s[j].capsule_path@ == path,
    ensures
        exists|i: int| first_capsule_at(s, path, i),
    decreases j,
{
    if exists|k: int| 0 <= k < j && #[trigger] s[k].capsule_path@ == path {
        let k = choose|k: int| 0 <= k < j && #[trigger] s[k].capsule_path@ == path;
        lemma_first_capsule_exists(s, path, k);
    } else {
        assert(first_capsule_at(s, path, j));
    }
}

/// A registered capsule can be replayed: once a capsule is registered, the
/// tenant's index holds a record under its path, so looking that path up finds one.
pub proof fn lemma_register_then_replay(index: Seq<CapsuleRecord>, rec: CapsuleRecord, idx: Seq<CapsuleRecord>)
    requires
        capsule_views(idx) == sort_by_key(capsule_views(index).push(rec@), capsule_order()),
    ensures
        exists|i: int| first_capsule_at(idx, rec.capsule_path@, i),
{
    broadcast use vstd::seq_lib::group_to_multiset_ensures;

    let pushed = capsule_views(index).push(rec@);
    lemma_sort_by_key_permutes(pushed, capsule_order());
    assert(pushed[pushed.len() - 1] == rec@);
    assert(pushed.contains(rec@));
    assert(pushed.to_multiset().count(rec@) > 0);
    assert(capsule_views(idx).to_multiset() == pushed.to_multiset());
    assert(capsule_views(idx).to_multiset().count(rec@) > 0);
    assert(capsule_views(idx).contains(rec@));
    let j = choose|j: int| 0 <= j < capsule_views(idx).len() && capsule_views(idx)[j] == rec@;
    assert(capsule_views(idx)[j] == idx[j]@);
    lemma_first_capsule_exists(idx, rec.capsule_path@, j);
}

/// A new tenant keeps capsules 30 days and is not on hold; once its retention
/// is set, the retention read back is the one set, and turning the legal hold
/// on or off leaves that retention and the tenant as they were.
pub proof fn lemma_retention_round_trip(
    created: TenantMeta,
    tenant_id: Seq<char>,
    created_at: u64,
    set: TenantMeta,
    days: u32,
    held: TenantMeta,
    hold: bool,
)
    requires
        fresh_meta(created, tenant_id, created_at),
        retention_updated(created, set, days),
        hold_updated(set, held, hold),
    ensures
        created.retention.days == 30,
        !created.legal_hold,
        set.retention.days == days,
        held.retention.days == days,
        held.legal_hold == hold,
        held.tenant.id@ == tenant_id,
        held.tenant.created_at == created_at,
{
}

proof fn lemma_first_from_at(k: int, n: int, p: spec_fn(int) -> bool, i: int)
    requires
        k <= i < n,
        p(i),
        forall|j: int| k <= j < i ==> !#[trigger] p(j),
    ensures
        first_from(k, n, p) == Some(i),
    decreases i - k,
{
    if k < i {
        assert(!p(k));
        lemma_first_from_at(k + 1, n, p, i);
    }
}

proof fn lemma_first_from_none(k: int, n: int, p: spec_fn(int) -> bool)
    requires
        forall|j: int| k <= j < n ==> !#[trigger] p(j),
    ensures
        first_from(k, n, p) is None,
    decreases n - k,
{
    if k < n {
        assert(!p(k));
        lemma_first_from_none(k + 1, n, p);
    }
}

/// A graph does not diverge from itself. Of two graphs, the larger one's node
/// just past the smaller one's end is where they diverge; of two graphs of one
/// size, the first node whose kind differs is, reported as `b`'s node.
pub proof fn lemma_divergence(a: CausalGraph, b: CausalGraph, i: int)
    ensures
        divergence_of(a, a) is None,
        a.nodes@.len() < b.nodes@.len() ==> divergence_of(a, b) == Some(b.nodes@[a.nodes@.len() as int]@),
        a.nodes@.len() > b.nodes@.len() ==> divergence_of(a, b) == Some(a.nodes@[b.nodes@.len() as int]@),
        a.nodes@.len() == b.nodes@.len() && 0 <= i < a.nodes@.len() && a.nodes@[i].event_type@
            != b.nodes@[i].event_type@ && (forall|j: int|
            0 <= j < i ==> #[trigger] a.nodes@[j].event_type@ == b.nodes@[j].event_type@) ==> divergence_of(a, b)
            == Some(b.nodes@[i]@),
{
    let n = a.nodes@.len() as int;
    lemma_first_from_none(0, n, type_differs(a, a));
    lemma_first_from_none(0, n, surface_differs(a, a));
    lemma_first_from_none(0, n, outgoing_differs(a, a));
    if a.nodes@.len() == b.nodes@.len() && 0 <= i < n && a.nodes@[i].event_type@ != b.nodes@[i].event_type@
        && (forall|j: int| 0 <= j < i ==> #[trigger] a.nodes@[j].event_type@ == b.nodes@[j].event_type@) {
        let p = type_differs(a, b);
        assert forall|j: int| 0 <= j < i implies !#[trigger] p(j) by {
            assert(a.nodes@[j].event_type@ == b.nodes@[j].event_type@);
        }
        lemma_first_from_at(0, n, p, i);
    }
}

/// The evaluation is a function of its sources and gaps: two evaluations of
/// the same sources and gaps give the same report, and so the same markdown.
pub proof fn lemma_evaluation_deterministic(
    r1: SystemReport,
    r2: SystemReport,
    sources: Seq<SrcFile>,
    gaps: Seq<ProductGap>,
    exposure: Seq<char>,
)
    requires
        r1@ == evaluation_of(sources, gaps),
        r2@ == evaluation_of(sources, gaps),
    ensures
        r1@ == r2@,
        markdown_of(r1@, exposure) == markdown_of(r2@, exposure),
{
}

/// A stream that ends without a newline (nor a carriage return) renders as the
/// same stream ended by one, followed by the `<no trailing newline>` marker, so
/// the two never render alike.
pub proof fn lemma_trailing_newline_marked(s: Seq<char>, prefix: Seq<char>)
    requires
        s.len() > 0,
        s.last() != '\n',
        s.last() != '\r',
    ensures
        block_text(s, prefix) == block_text(s.push('\n'), prefix) + prefix + "<no trailing newline>\n"@,
        block_text(s, prefix) != block_text(s.push('\n'), prefix),
{
    lemma_lines_of_final_newline(s);
    assert(s.push('\n').last() == '\n');
    let marked = block_text(s.push('\n'), prefix) + prefix + "<no trailing newline>\n"@;
    assert(marked.len() > block_text(s.push('\n'), prefix).len()) by {
        reveal_strlit("<no trailing newline>\n");
    }
}

/// Two run summaries that differ only in a final newline of stdout render
/// differently: the one without it carries the `<no trailing newline>` marker.
/// An empty stream renders as the single line `  | <empty>`.
pub proof fn lemma_artifact_text_marks_missing_newline(a: ExecutionArtifact, b: ExecutionArtifact)
    requires
        a.stdout@.len() > 0,
        a.stdout@.last() != '\n',
        a.stdout@.last() != '\r',
        b.stdout@ == a.stdout@.push('\n'),
        b.run_id@ == a.run_id@,
        b.command@ == a.command@,
        b.exit_code == a.exit_code,
        b.duration_ms == a.duration_ms,
        env_count(b) == env_count(a),
        b.stderr@ == a.stderr@,
    ensures
        artifact_text(a).len() == artifact_text(b).len() + "  | <no trailing newline>\n"@.len(),
        artifact_text(a) != artifact_text(b),
        block(Seq::<char>::empty()) == "  | <empty>\n"@,
{
    lemma_trailing_newline_marked(a.stdout@, "  | "@);
    assert("  | "@ + "<no trailing newline>\n"@ =~= "  | <no trailing newline>\n"@) by {
        reveal_strlit("  | ");
        reveal_strlit("<no trailing newline>\n");
        reveal_strlit("  | <no trailing newline>\n");
    }
    assert("  | "@ + "<empty>\n"@ =~= "  | <empty>\n"@) by {
        reveal_strlit("  | ");
        reveal_strlit("<empty>\n");
        reveal_strlit("  | <empty>\n");
    }
    assert("  | <no trailing newline>\n"@.len() > 0) by {
        reveal_strlit("  | <no trailing newline>\n");
    }
}

/// Roles are nested: a viewer's permissions are an auditor's, an auditor's
/// are an operator's, an operator's are an admin's; an admin has them all.
pub proof fn lemma_role_hierarchy(p: Permission)
    ensures
        grants(Role::Viewer, p) ==> grants(Role::Auditor, p),
        grants(Role::Auditor, p) ==> grants(Role::Operator, p),
        grants(Role::Operator, p) ==> grants(Role::Admin, p),
        grants(Role::Admin, p),
{
    let admin = permissions_of(Role::Admin);
    match p {
        Permission::Replay => assert(admin[0] == p),
        Permission::Diff => assert(admin[1] == p),
        Permission::Purge => assert(admin[2] == p),
        Permission::RetentionSet => assert(admin[3] == p),
        Permission::LegalHold => assert(admin[4] == p),
        Permission::TenantAdmin => assert(admin[5] == p),
    }
    if grants(Role::Viewer, p) {
        assert(permissions_of(Role::Viewer)[0] == p);
        assert(permissions_of(Role::Auditor)[0] == p);
    }
    if grants(Role::Auditor, p) {
        let i = choose|i: int| 0 <= i < permissions_of(Role::Auditor).len() && permissions_of(Role::Auditor)[i] == p;
        assert(permissions_of(Role::Operator)[i] == p);
    }
    if grants(Role::Operator, p) {
        let i = choose|i: int| 0 <= i < permissions_of(Role::Operator).len() && permissions_of(Role::Operator)[i] == p;
        assert(admin[i] == p);
    }
}

/// What each role may do: an admin everything; an operator replay, diff,
/// purge and retention changes; an auditor replay and diff; a viewer replay.
pub open spec fn role_may(role: Role, p: Permission) -> bool {
    match role {
        Role::Admin => true,
        Role::Operator => p is Replay || p is Diff || p is Purge || p is RetentionSet,
        Role::Auditor => p is Replay || p is Diff,
        Role::Viewer => p is Replay,
    }
}

proof fn lemma_grants_table(role: Role, p: Permission)
    ensures
        grants(role, p) == role_may(role, p),
{
    let ps = permissions_of(role);
    if role_may(role, p) {
        match role {
            Role::Admin => match p {
                Permission::Replay => assert(ps[0] == p),
                Permission::Diff => assert(ps[1] == p),
                Permission::Purge => assert(ps[2] == p),
                Permission::RetentionSet => assert(ps[3] == p),
                Permission::LegalHold => assert(ps[4] == p),
                Permission::TenantAdmin => assert(ps[5] == p),
            },
            Role::Operator => match p {
                Permission::Replay => assert(ps[0] == p),
                Permission::Diff => assert(ps[1] == p),
                Permission::Purge => assert(ps[2] == p),
                Permission::RetentionSet => assert(ps[3] == p),
                _ => {},
            },
            Role::Auditor => match p {
                Permission::Replay => assert(ps[0] == p),
                Permission::Diff => assert(ps[1] == p),
                _ => {},
            },
            Role::Viewer => assert(ps[0] == p),
        }
    } else if grants(role, p) {
        let i = choose|i: int| 0 <= i < ps.len() && ps[i] == p;
        assert(role_may(role, ps[i]));
    }
}

/// The answer of a permission check, for every policy, subject and permission:
/// for a subject with a role, whether that role may use the permission
/// (an admin anything; an operator replay, diff, purge and retention changes;
/// an auditor replay and diff; a viewer replay only); for a subject without
/// one, the `subject_not_assigned` error.
pub proof fn lemma_check_answers_by_role(policy: Seq<(Seq<char>, Role)>, subject: Seq<char>, p: Permission)
    ensures
        match lookup(policy, subject) {
            Some(role) => check_outcome(policy, subject, p) == Ok::<bool, Seq<char>>(role_may(role, p)),
            None => check_outcome(policy, subject, p) == Err::<bool, Seq<char>>("subject_not_assigned"@),
        },
{
    if let Some(role) = lookup(policy, subject) {
        lemma_grants_table(role, p);
    }
}

/// A purge goes by age alone: of the capsules in the index, one created more
/// than the retention's days times 24 * 3600 seconds before `now` has its path
/// among the removed ones and is not kept; any other is kept.
pub proof fn lemma_purge_by_age(
    meta: TenantMeta,
    index: Seq<CapsuleRecord>,
    now: u64,
    removed: Seq<Seq<char>>,
    kept: Seq<CapsuleRecord>,
    i: int,
)
    requires
        kept == index.filter(retained(now, meta.retention.days)),
        removed == capsule_paths(index.filter(expired(now, meta.retention.days))),
        0 <= i < index.len(),
    ensures
        now >= index[i].created_at && now - index[i].created_at > meta.retention.days * 24 * 3600 ==> removed.contains(
            index[i].capsule_path@,
        ) && !kept.contains(index[i]),
        !(now >= index[i].created_at && now - index[i].created_at > meta.retention.days * 24 * 3600)
            ==> kept.contains(index[i]),
{
    broadcast use vstd::seq_lib::group_filter_ensures;

    let days = meta.retention.days;
    let c = index[i];
    let old_enough = now >= c.created_at && now - c.created_at > days * 24 * 3600;
    assert(expired(now, days)(c) == old_enough);
    assert(retained(now, days)(c) == !old_enough);
    if old_enough {
        let f = index.filter(expired(now, days));
        assert(f.contains(c));
        let j = choose|j: int| 0 <= j < f.len() && f[j] == c;
        assert(capsule_paths(f)[j] == c.capsule_path@);
        if kept.contains(c) {
            let k = choose|k: int| 0 <= k < kept.len() && kept[k] == c;
            assert(retained(now, days)(kept[k]));
        }
    } else {
        assert(kept.contains(c));
    }
}

/// Distinct roles have distinct names, so a name read back gives the role it names.
pub proof fn lemma_role_labels_distinct(a: Role, b: Role)
    ensures
        role_label(a) == role_label(b) ==> a == b,
{
    reveal_strlit("admin");
    reveal_strlit("auditor");
    reveal_strlit("operator");
    reveal_strlit("viewer");
    if role_label(a) == role_label(b) && a != b {
        match (a, b) {
            (Role::Admin, _) => assert(role_label(a)[1] != role_label(b)[1] || role_label(a).len() != role_label(b).len()),
            (Role::Auditor, _) => assert(role_label(a)[1] != role_label(b)[1] || role_label(a).len() != role_label(b).len()),
            (Role::Operator, _) => assert(role_label(a)[0] != role_label(b)[0]),
            (Role::Viewer, _) => assert(role_label(a)[0] != role_label(b)[0]),
        }
    }
}

/// Distinct permissions have distinct names, so a name read back gives the permission it names.
pub proof fn lemma_permission_labels_distinct(a: Permission, b: Permission)
    ensures
        permission_label(a) == permission_label(b) ==> a == b,
{
    reveal_strlit("replay");
    reveal_strlit("diff");
    reveal_strlit("purge");
    reveal_strlit("retention-set");
    reveal_strlit("legal-hold");
    reveal_strlit("tenant-admin");
    if permission_label(a) == permission_label(b) && a != b {
        assert(permission_label(a).len() != permission_label(b).len() || permission_label(a)[0] != permission_label(
            b,
        )[0] || permission_label(a)[2] != permission_label(b)[2]);
    }
}

} // verus!
