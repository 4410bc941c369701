//! Deterministic field-by-field diff between two execution artifacts.
//!
//! The field list is the contract: its order defines divergence order.

use crate::artifact::{env_hash_of, ExecutionArtifact, ReproRun};
use crate::string_map::{has_key, keys_ascending, lemma_value_absent, lemma_value_at_position,
    value_or_empty};
use crate::text::{concat2, dec_text, i32_text, int_text, owned, seq_le, seq_lt, str_eq, str_lt,
    u64_text, lemma_seq_lt_irreflexive, lemma_seq_lt_total, lemma_seq_lt_transitive};
use vstd::prelude::*;

verus! {

/// Number of compared fields.
pub const FIELD_COUNT: usize = 8;

/// The compared fields, in divergence order.
pub open spec fn field_name(f: int) -> Seq<char> {
    if f == 0 {
        "command"@
    } else if f == 1 {
        "environment_hash"@
    } else if f == 2 {
        "cwd"@
    } else if f == 3 {
        "exit_code"@
    } else if f == 4 {
        "stdout"@
    } else if f == 5 {
        "stderr"@
    } else if f == 6 {
        "duration_ms"@
    } else {
        "timestamp"@
    }
}

/// The field names in order (`FIELDS`).
pub open spec fn fields_spec() -> Seq<Seq<char>> {
    Seq::new(8, |f: int| field_name(f))
}

/// Name of field `f` (0..8).
pub fn field(f: usize) -> (r: String)
    requires
        f < FIELD_COUNT,
    ensures
        r@ == field_name(f as int),
{
    if f == 0 {
        owned("command")
    } else if f == 1 {
        owned("environment_hash")
    } else if f == 2 {
        owned("cwd")
    } else if f == 3 {
        owned("exit_code")
    } else if f == 4 {
        owned("stdout")
    } else if f == 5 {
        owned("stderr")
    } else if f == 6 {
        owned("duration_ms")
    } else {
        owned("timestamp")
    }
}

/// The ordered list of compared field names.
pub fn fields() -> (r: Vec<String>)
    ensures
        r@.len() == 8,
        forall|f: int| 0 <= f < 8 ==> #[trigger] r@[f]@ == field_name(f),
{
    let mut r: Vec<String> = Vec::new();
    for f in 0..FIELD_COUNT
        invariant
            r@.len() == f,
            forall|g: int| 0 <= g < f ==> #[trigger] r@[g]@ == field_name(g),
    {
        r.push(field(f));
    }
    r
}

/// One differing field.
#[derive(Debug)]
pub struct FieldDiff {
    pub field: String,
    pub a: String,
    pub b: String,
}

/// One environment key whose value differs between two runs.
#[derive(Debug)]
pub struct EnvVarDelta {
    pub key: String,
    pub value_a: String,
    pub value_b: String,
}

/// Which run is the older and which the newer epoch.
#[derive(Debug)]
pub struct TemporalContext {
    pub older_run_id: String,
    pub newer_run_id: String,
    pub run_a_is_older: bool,
}

/// Environment-aware projection layered on top of the field diff.
#[derive(Debug)]
pub struct AionDiff {
    pub env_diff: Vec<EnvVarDelta>,
    pub stdout_diff: Option<FieldDiff>,
    pub causal_diff: Vec<String>,
    pub temporal_context: Option<TemporalContext>,
}

/// The full diff between two runs.
#[derive(Debug)]
pub struct DiffReport {
    pub run_a: String,
    pub run_b: String,
    pub differences: Vec<FieldDiff>,
    pub changed_fields: Vec<String>,
    pub unchanged_fields: Vec<String>,
    pub causal_chain: Vec<String>,
    pub aion: AionDiff,
}

/// The text of a field diff.
pub open spec fn fd_view(d: FieldDiff) -> (Seq<char>, Seq<char>, Seq<char>) {
    (d.field@, d.a@, d.b@)
}

/// The texts of a sequence of field diffs.
pub open spec fn fd_views(v: Seq<FieldDiff>) -> Seq<(Seq<char>, Seq<char>, Seq<char>)> {
    v.map_values(|d: FieldDiff| fd_view(d))
}

/// The text of an environment delta.
pub open spec fn delta_view(d: EnvVarDelta) -> (Seq<char>, Seq<char>, Seq<char>) {
    (d.key@, d.value_a@, d.value_b@)
}

impl FieldDiff {
    /// A copy of the field diff.
    pub fn duplicate(&self) -> (r: FieldDiff)
        ensures
            fd_view(r) == fd_view(*self),
    {
        FieldDiff { field: self.field.clone(), a: self.a.clone(), b: self.b.clone() }
    }
}

// ---------------------------------------------------------------------------
// Projection of one field
// ---------------------------------------------------------------------------

/// The rendered value of field `f` of an artifact.
pub open spec fn field_value(a: ExecutionArtifact, f: int) -> Seq<char> {
    if f == 0 {
        a.command@
    } else if f == 1 {
        env_hash_of(a.env_snapshot)
    } else if f == 2 {
        a.cwd@
    } else if f == 3 {
        int_text(a.exit_code as int)
    } else if f == 4 {
        a.stdout@
    } else if f == 5 {
        a.stderr@
    } else if f == 6 {
        dec_text(a.duration_ms as nat)
    } else {
        dec_text(a.timestamp as nat)
    }
}

/// Whether field `f` differs between `a` and `b`.
pub open spec fn changed(a: ExecutionArtifact, b: ExecutionArtifact, f: int) -> bool {
    field_value(a, f) != field_value(b, f)
}

/// The rendered values of field `f` in both artifacts.
pub fn project(a: &ExecutionArtifact, b: &ExecutionArtifact, f: usize) -> (r: (String, String))
    requires
        f < FIELD_COUNT,
    ensures
        r.0@ == field_value(*a, f as int),
        r.1@ == field_value(*b, f as int),
{
    if f == 0 {
        (a.command.clone(), b.command.clone())
    } else if f == 1 {
        (a.environment_hash(), b.environment_hash())
    } else if f == 2 {
        (a.cwd.clone(), b.cwd.clone())
    } else if f == 3 {
        (i32_text(a.exit_code), i32_text(b.exit_code))
    } else if f == 4 {
        (a.stdout.clone(), b.stdout.clone())
    } else if f == 5 {
        (a.stderr.clone(), b.stderr.clone())
    } else if f == 6 {
        (u64_text(a.duration_ms), u64_text(b.duration_ms))
    } else {
        (u64_text(a.timestamp), u64_text(b.timestamp))
    }
}

/// The diff of field `f` when it differs.
pub open spec fn field_diff_of(a: ExecutionArtifact, b: ExecutionArtifact, f: int) -> (Seq<char>, Seq<char>, Seq<char>) {
    (field_name(f), field_value(a, f), field_value(b, f))
}

/// The diffs of the fields `fs` (in that order) that differ.
pub open spec fn diffs_among(a: ExecutionArtifact, b: ExecutionArtifact, fs: Seq<int>) -> Seq<(Seq<char>, Seq<char>, Seq<char>)>
    decreases fs.len(),
{
    if fs.len() == 0 {
        Seq::empty()
    } else {
        (if changed(a, b, fs[0]) {
            seq![field_diff_of(a, b, fs[0])]
        } else {
            Seq::empty()
        }) + diffs_among(a, b, fs.drop_first())
    }
}

proof fn lemma_diffs_among_push(a: ExecutionArtifact, b: ExecutionArtifact, fs: Seq<int>, f: int)
    ensures
        diffs_among(a, b, fs.push(f)) == diffs_among(a, b, fs) + (if changed(a, b, f) {
            seq![field_diff_of(a, b, f)]
        } else {
            Seq::empty()
        }),
    decreases fs.len(),
{
    if fs.len() == 0 {
        assert(fs.push(f).drop_first() =~= Seq::<int>::empty());
        assert(diffs_among(a, b, Seq::<int>::empty()) =~= Seq::empty());
    } else {
        assert(fs.push(f).drop_first() =~= fs.drop_first().push(f));
        lemma_diffs_among_push(a, b, fs.drop_first(), f);
    }
}

/// Appends the diffs among fields `fs` that differ.
fn push_changed(out: &mut Vec<FieldDiff>, a: &ExecutionArtifact, b: &ExecutionArtifact, fs: &Vec<usize>)
    requires
        forall|i: int| 0 <= i < fs@.len() ==> fs@[i] < FIELD_COUNT,
    ensures
        fd_views(final(out)@) == fd_views(old(out)@) + diffs_among(*a, *b, fs@.map_values(|f: usize| f as int)),
{
    let ghost start = fd_views(out@);
    let n = fs.len();
    let ghost ints = fs@.map_values(|f: usize| f as int);
    for i in 0..n
        invariant
            n == fs@.len(),
            forall|i: int| 0 <= i < fs@.len() ==> fs@[i] < FIELD_COUNT,
            ints == fs@.map_values(|f: usize| f as int),
            fd_views(out@) == start + diffs_among(*a, *b, ints.take(i as int)),
    {
        let f = fs[i];
        let (va, vb) = project(a, b, f);
        proof {
            assert(ints.take(i + 1) =~= ints.take(i as int).push(f as int));
            lemma_diffs_among_push(*a, *b, ints.take(i as int), f as int);
        }
        let ghost before = out@;
        if !str_eq(va.as_str(), vb.as_str()) {
            out.push(FieldDiff { field: field(f), a: va, b: vb });
            assert(out@ == before.push(out@.last()));
            assert(fd_views(out@) =~= fd_views(before).push(field_diff_of(*a, *b, f as int)));
            assert(fd_views(out@) =~= fd_views(before) + seq![field_diff_of(*a, *b, f as int)]);
        } else {
            assert(fd_views(out@) =~= fd_views(before) + Seq::empty());
        }
    }
    assert(ints.take(n as int) == ints);
}

/// Environment-class diffs: `environment_hash`, then `cwd`, each when it differs.
pub fn diff_environment(a: &ExecutionArtifact, b: &ExecutionArtifact) -> (v: Vec<FieldDiff>)
    ensures
        fd_views(v@) == diffs_among(*a, *b, seq![1int, 2int]),
{
    let mut v: Vec<FieldDiff> = Vec::new();
    let fs: Vec<usize> = vec![1, 2];
    push_changed(&mut v, a, b, &fs);
    assert(fs@.map_values(|f: usize| f as int) =~= seq![1int, 2int]);
    assert(fd_views(Seq::<FieldDiff>::empty()) =~= Seq::empty());
    v
}

/// Execution-class diffs: `stdout`, `stderr`, `exit_code`, `duration_ms`, each when it differs.
pub fn diff_execution(a: &ExecutionArtifact, b: &ExecutionArtifact) -> (v: Vec<FieldDiff>)
    ensures
        fd_views(v@) == diffs_among(*a, *b, seq![4int, 5int, 3int, 6int]),
{
    let mut v: Vec<FieldDiff> = Vec::new();
    let fs: Vec<usize> = vec![4, 5, 3, 6];
    push_changed(&mut v, a, b, &fs);
    assert(fs@.map_values(|f: usize| f as int) =~= seq![4int, 5int, 3int, 6int]);
    assert(fd_views(Seq::<FieldDiff>::empty()) =~= Seq::empty());
    v
}

// ---------------------------------------------------------------------------
// Timing noise
// ---------------------------------------------------------------------------

/// Whether some diff names field `f`.
pub open spec fn names_field(ds: Seq<(Seq<char>, Seq<char>, Seq<char>)>, name: Seq<char>) -> bool {
    exists|i: int| 0 <= i < ds.len() && #[trigger] ds[i].0 == name
}

/// Whether a diff survives the timing-noise filter of `ds`: `timestamp` never;
/// `duration_ms` only beside an exit-code or stream change.
pub open spec fn keeps(ds: Seq<(Seq<char>, Seq<char>, Seq<char>)>, d: (Seq<char>, Seq<char>, Seq<char>)) -> bool {
    d.0 != "timestamp"@ && (d.0 == "duration_ms"@ ==> (names_field(ds, "exit_code"@) || names_field(
        ds,
        "stdout"@,
    ) || names_field(ds, "stderr"@)))
}

fn names(ds: &Vec<FieldDiff>, name: &str) -> (r: bool)
    ensures
        r == names_field(fd_views(ds@), name@),
{
    let n = ds.len();
    for i in 0..n
        invariant
            n == ds@.len(),
            forall|j: int| 0 <= j < i ==> ds@[j].field@ != name@,
    {
        if str_eq(ds[i].field.as_str(), name) {
            assert(fd_views(ds@)[i as int].0 == name@);
            return true;
        }
    }
    assert forall|j: int| 0 <= j < fd_views(ds@).len() implies #[trigger] fd_views(ds@)[j].0 != name@ by {
        assert(fd_views(ds@)[j] == fd_view(ds@[j]));
    }
    false
}

/// Drops timing noise: `timestamp` always, and `duration_ms` unless the exit
/// code or a stream also differs. Order is kept.
pub fn filter_timing_noise_fields(differences: Vec<FieldDiff>) -> (r: Vec<FieldDiff>)
    ensures
        fd_views(r@) == fd_views(differences@).filter(
            |d: (Seq<char>, Seq<char>, Seq<char>)| keeps(fd_views(differences@), d),
        ),
{
    let has_exit = names(&differences, "exit_code");
    let has_stdout = names(&differences, "stdout");
    let has_stderr = names(&differences, "stderr");
    let ghost all = fd_views(differences@);
    let ghost pred = |d: (Seq<char>, Seq<char>, Seq<char>)| keeps(all, d);
    let mut r: Vec<FieldDiff> = Vec::new();
    let n = differences.len();
    for i in 0..n
        invariant
            n == differences@.len(),
            all == fd_views(differences@),
            pred == (|d: (Seq<char>, Seq<char>, Seq<char>)| keeps(all, d)),
            has_exit == names_field(all, "exit_code"@),
            has_stdout == names_field(all, "stdout"@),
            has_stderr == names_field(all, "stderr"@),
            fd_views(r@) == all.take(i as int).filter(pred),
    {
        let d = &differences[i];
        let is_ts = str_eq(d.field.as_str(), "timestamp");
        let is_dur = str_eq(d.field.as_str(), "duration_ms");
        let keep = !is_ts && (!is_dur || has_exit || has_stdout || has_stderr);
        assert(all.take(i + 1).drop_last() == all.take(i as int));
        assert(all.take(i + 1).last() == fd_view(differences@[i as int]));
        reveal_with_fuel(Seq::<_>::filter, 1);
        assert(keep == pred(fd_view(differences@[i as int])));
        if keep {
            r.push(d.duplicate());
            assert(fd_views(r@) =~= fd_views(r@.drop_last()).push(fd_view(differences@[i as int])));
        }
    }
    assert(all.take(n as int) == all);
    r
}

// ---------------------------------------------------------------------------
// Causal chain
// ---------------------------------------------------------------------------

/// The names of the fields among the first `k` that some diff names, in field order.
pub open spec fn chain_upto(ds: Seq<(Seq<char>, Seq<char>, Seq<char>)>, k: nat) -> Seq<Seq<char>>
    decreases k,
{
    if k == 0 {
        Seq::empty()
    } else {
        chain_upto(ds, (k - 1) as nat) + (if names_field(ds, field_name(k - 1)) {
            seq![field_name(k - 1)]
        } else {
            Seq::empty()
        })
    }
}

/// The causal chain of a set of diffs: the names of the fields among
/// `command`, `environment_hash`, `cwd`, `exit_code`, `stdout`, `stderr`
/// that some diff names, in field order (upstream causes first).
pub open spec fn causal_chain_of(ds: Seq<(Seq<char>, Seq<char>, Seq<char>)>) -> Seq<Seq<char>> {
    chain_upto(ds, 6)
}

proof fn lemma_chain_excludes(ds: Seq<(Seq<char>, Seq<char>, Seq<char>)>, k: nat, f: int)
    requires
        k <= f < 8,
    ensures
        !chain_upto(ds, k).contains(field_name(f)),
    decreases k,
{
    if k > 0 {
        lemma_chain_excludes(ds, (k - 1) as nat, f);
        lemma_field_names_distinct(k - 1, f);
        let prev = chain_upto(ds, (k - 1) as nat);
        let cur = chain_upto(ds, k);
        if cur.contains(field_name(f)) {
            let i = choose|i: int| 0 <= i < cur.len() && cur[i] == field_name(f);
            if i < prev.len() {
                assert(prev[i] == cur[i]);
            }
        }
    }
}

proof fn lemma_chain_includes(ds: Seq<(Seq<char>, Seq<char>, Seq<char>)>, k: nat, g: int)
    requires
        0 <= g < k <= 8,
        names_field(ds, field_name(g)),
    ensures
        chain_upto(ds, k).contains(field_name(g)),
    decreases k,
{
    let prev = chain_upto(ds, (k - 1) as nat);
    let cur = chain_upto(ds, k);
    if g < k - 1 {
        lemma_chain_includes(ds, (k - 1) as nat, g);
        let i = choose|i: int| 0 <= i < prev.len() && prev[i] == field_name(g);
        assert(cur[i] == prev[i]);
    } else {
        assert(cur[prev.len() as int] == field_name(g));
    }
}

proof fn lemma_field_names_distinct(f: int, g: int)
    requires
        0 <= f < 8,
        0 <= g < 8,
        f != g,
    ensures
        field_name(f) != field_name(g),
{
    reveal_strlit("command");
    reveal_strlit("environment_hash");
    reveal_strlit("cwd");
    reveal_strlit("exit_code");
    reveal_strlit("stdout");
    reveal_strlit("stderr");
    reveal_strlit("duration_ms");
    reveal_strlit("timestamp");
    if field_name(f) == field_name(g) {
        assert(field_name(f).len() == field_name(g).len());
        assert(field_name(f)[0] == field_name(g)[0]);
        assert(field_name(f)[1] == field_name(g)[1]);
        assert(field_name(f)[3] == field_name(g)[3]);
    }
}

fn push_unique(v: &mut Vec<String>, s: &str)
    ensures
        (exists|i: int| 0 <= i < old(v)@.len() && #[trigger] old(v)@[i]@ == s@) ==> final(v)@ == old(v)@,
        !(exists|i: int| 0 <= i < old(v)@.len() && #[trigger] old(v)@[i]@ == s@) ==> final(v)@.len()
            == old(v)@.len() + 1 && final(v)@.drop_last() == old(v)@ && final(v)@.last()@ == s@,
{
    let n = v.len();
    for i in 0..n
        invariant
            n == v@.len(),
            v@ == old(v)@,
            forall|j: int| 0 <= j < i ==> v@[j]@ != s@,
    {
        if str_eq(v[i].as_str(), s) {
            return;
        }
    }
    v.push(owned(s));
}

/// Deterministic causal chain: when streams or the exit code differ, any
/// environment or command change is listed first as the plausible upstream cause.
pub fn build_causal_chain(differences: &Vec<FieldDiff>) -> (out: Vec<String>)
    ensures
        crate::text::views(out@) == causal_chain_of(fd_views(differences@)),
{
    let ghost ds = fd_views(differences@);
    let mut out: Vec<String> = Vec::new();
    let has_command = names(differences, "command");
    let has_env = names(differences, "environment_hash");
    let has_cwd = names(differences, "cwd");
    assert(crate::text::views(out@) =~= chain_upto(ds, 0));
    for f in 0..FIELD_COUNT
        invariant
            ds == fd_views(differences@),
            has_command == names_field(ds, "command"@),
            has_env == names_field(ds, "environment_hash"@),
            has_cwd == names_field(ds, "cwd"@),
            crate::text::views(out@) == chain_upto(ds, if f < 6 { f as nat } else { 6 }),
    {
        let name = field(f);
        let present = names(differences, name.as_str());
        let ghost k: nat = if f < 6 { f as nat } else { 6 };
        if present {
            if f == 3 || f == 4 || f == 5 || f == 6 {
                // Upstream fields already appear in the chain when present.
                if has_env {
                    proof {
                        lemma_chain_includes(ds, k, 1);
                    }
                    let ghost i = choose|i: int| 0 <= i < chain_upto(ds, k).len() && chain_upto(ds, k)[i] == field_name(1);
                    assert(crate::text::views(out@)[i] == out@[i]@);
                    assert(out@[i]@ == "environment_hash"@);
                    push_unique(&mut out, "environment_hash");
                }
                if has_cwd {
                    proof {
                        lemma_chain_includes(ds, k, 2);
                    }
                    let ghost i = choose|i: int| 0 <= i < chain_upto(ds, k).len() && chain_upto(ds, k)[i] == field_name(2);
                    assert(crate::text::views(out@)[i] == out@[i]@);
                    assert(out@[i]@ == "cwd"@);
                    push_unique(&mut out, "cwd");
                }
                if has_command {
                    proof {
                        lemma_chain_includes(ds, k, 0);
                    }
                    let ghost i = choose|i: int| 0 <= i < chain_upto(ds, k).len() && chain_upto(ds, k)[i] == field_name(0);
                    assert(crate::text::views(out@)[i] == out@[i]@);
                    assert(out@[i]@ == "command"@);
                    push_unique(&mut out, "command");
                }
            }
            if f != 7 && f != 6 {
                proof {
                    lemma_chain_excludes(ds, k, f as int);
                    assert forall|i: int| 0 <= i < out@.len() implies #[trigger] out@[i]@ != name@ by {
                        assert(crate::text::views(out@)[i] == out@[i]@);
                    }
                }
                push_unique(&mut out, name.as_str());
                assert(crate::text::views(out@) =~= crate::text::views(out@.drop_last()).push(name@));
            }
        }
        assert(crate::text::views(out@) =~= chain_upto(ds, if f + 1 < 6 { (f + 1) as nat } else { 6 }));
    }
    out
}

// ---------------------------------------------------------------------------
// Environment deltas
// ---------------------------------------------------------------------------

/// Whether key `k` is set in one environment and its value (empty when unset)
/// differs between the two.
pub open spec fn env_differs(ea: Seq<(Seq<char>, Seq<char>)>, eb: Seq<(Seq<char>, Seq<char>)>, k: Seq<char>) -> bool {
    (has_key(ea, k) || has_key(eb, k)) && value_or_empty(ea, k) != value_or_empty(eb, k)
}

/// `ds` lists, with strictly ascending keys, exactly the keys on which the two
/// environments differ, each with its value on either side (empty when unset).
pub open spec fn env_deltas_of(
    ds: Seq<(Seq<char>, Seq<char>, Seq<char>)>,
    ea: Seq<(Seq<char>, Seq<char>)>,
    eb: Seq<(Seq<char>, Seq<char>)>,
) -> bool {
    &&& forall|p: int, q: int| 0 <= p < q < ds.len() ==> seq_lt(#[trigger] ds[p].0, #[trigger] ds[q].0)
    &&& forall|p: int|
        0 <= p < ds.len() ==> env_differs(ea, eb, #[trigger] ds[p].0) && ds[p].1 == value_or_empty(
            ea,
            ds[p].0,
        ) && ds[p].2 == value_or_empty(eb, ds[p].0)
    &&& forall|k: Seq<char>|
        env_differs(ea, eb, k) ==> exists|p: int| 0 <= p < ds.len() && #[trigger] ds[p].0 == k
}

/// The texts of a sequence of environment deltas.
pub open spec fn delta_views(v: Seq<EnvVarDelta>) -> Seq<(Seq<char>, Seq<char>, Seq<char>)> {
    v.map_values(|d: EnvVarDelta| delta_view(d))
}

proof fn lemma_absent_after(s: Seq<(Seq<char>, Seq<char>)>, j: int, k: Seq<char>)
    requires
        keys_ascending(s),
        0 <= j <= s.len(),
        forall|y: int| 0 <= y < j ==> seq_lt(#[trigger] s[y].0, k),
        j < s.len() ==> seq_lt(k, s[j].0),
    ensures
        !has_key(s, k),
        value_or_empty(s, k) == Seq::<char>::empty(),
{
    lemma_seq_lt_irreflexive(k);
    assert forall|y: int| 0 <= y < s.len() implies #[trigger] s[y].0 != k by {
        if y < j {
            assert(seq_lt(s[y].0, k));
        } else if y > j {
            assert(seq_lt(s[j].0, s[y].0));
            lemma_seq_lt_transitive(k, s[j].0, s[y].0);
        }
    }
    lemma_value_absent(s, k);
}

/// The environment keys whose values differ between two runs, in ascending
/// key order (a key missing on one side counts as the empty value there).
pub fn diff_repro_run_env(a: &ReproRun, b: &ReproRun) -> (out: Vec<EnvVarDelta>)
    ensures
        env_deltas_of(delta_views(out@), a.env@, b.env@),
{
    proof {
        use_type_invariant(&a.env);
        use_type_invariant(&b.env);
    }
    let ghost ea = a.env@;
    let ghost eb = b.env@;
    let na = a.env.len();
    let nb = b.env.len();
    let mut out: Vec<EnvVarDelta> = Vec::new();
    let mut i: usize = 0;
    let mut j: usize = 0;
    while i < na || j < nb
        invariant
            na == ea.len(),
            nb == eb.len(),
            ea == a.env@,
            eb == b.env@,
            keys_ascending(ea),
            keys_ascending(eb),
            i <= na,
            j <= nb,
            forall|p: int, q: int|
                0 <= p < q < out@.len() ==> seq_lt(#[trigger] out@[p].key@, #[trigger] out@[q].key@),
            forall|p: int|
                0 <= p < out@.len() ==> env_differs(ea, eb, #[trigger] out@[p].key@) && out@[p].value_a@
                    == value_or_empty(ea, out@[p].key@) && out@[p].value_b@ == value_or_empty(
                    eb,
                    out@[p].key@,
                ),
            forall|p: int|
                0 <= p < out@.len() ==> (i < na ==> seq_lt(#[trigger] out@[p].key@, ea[i as int].0)) && (j
                    < nb ==> seq_lt(out@[p].key@, eb[j as int].0)),
            forall|x: int| 0 <= x < i ==> (j < nb ==> seq_lt(#[trigger] ea[x].0, eb[j as int].0)),
            forall|y: int| 0 <= y < j ==> (i < na ==> seq_lt(#[trigger] eb[y].0, ea[i as int].0)),
            forall|k: Seq<char>|
                env_differs(ea, eb, k) && ((exists|x: int| 0 <= x < i && #[trigger] ea[x].0 == k) || (exists|
                    y: int,
                | 0 <= y < j && #[trigger] eb[y].0 == k)) ==> exists|p: int|
                    0 <= p < out@.len() && #[trigger] out@[p].key@ == k,
        decreases (na - i) + (nb - j),
    {
        let ghost out0 = out@;
        let ghost i0 = i;
        let ghost j0 = j;
        let both = i < na && j < nb;
        let mut same = false;
        let mut a_first = false;
        if both {
            let (ka, _) = a.env.entry(i);
            let (kb, _) = b.env.entry(j);
            same = str_eq(ka.as_str(), kb.as_str());
            a_first = str_lt(ka.as_str(), kb.as_str());
        }
        if same {
            let (ka, va) = a.env.entry(i);
            let (_, vb) = b.env.entry(j);
            let ghost k = ea[i as int].0;
            proof {
                lemma_value_at_position(ea, i as int);
                lemma_value_at_position(eb, j as int);
                assert(has_key(ea, k));
            }
            if !str_eq(va.as_str(), vb.as_str()) {
                out.push(EnvVarDelta { key: ka.clone(), value_a: va.clone(), value_b: vb.clone() });
            }
            i = i + 1;
            j = j + 1;
            proof {
                assert forall|p: int| 0 <= p < out@.len() implies (i < na ==> seq_lt(
                    #[trigger] out@[p].key@,
                    ea[i as int].0,
                )) && (j < nb ==> seq_lt(out@[p].key@, eb[j as int].0)) by {
                    if p < out0.len() {
                        if i < na {
                            assert(seq_lt(ea[i0 as int].0, ea[i as int].0));
                            lemma_seq_lt_transitive(out@[p].key@, ea[i0 as int].0, ea[i as int].0);
                        }
                        if j < nb {
                            assert(seq_lt(eb[j0 as int].0, eb[j as int].0));
                            lemma_seq_lt_transitive(out@[p].key@, eb[j0 as int].0, eb[j as int].0);
                        }
                    } else {
                        if i < na {
                            assert(seq_lt(ea[i0 as int].0, ea[i as int].0));
                        }
                        if j < nb {
                            assert(seq_lt(eb[j0 as int].0, eb[j as int].0));
                        }
                    }
                }
                assert forall|x: int| 0 <= x < i && j < nb implies seq_lt(#[trigger] ea[x].0, eb[j as int].0) by {
                    if j < nb {
                        assert(seq_lt(eb[j0 as int].0, eb[j as int].0));
                        if x < i0 {
                            lemma_seq_lt_transitive(ea[x].0, eb[j0 as int].0, eb[j as int].0);
                        }
                    }
                }
                assert forall|y: int| 0 <= y < j && i < na implies seq_lt(#[trigger] eb[y].0, ea[i as int].0) by {
                    if i < na {
                        assert(seq_lt(ea[i0 as int].0, ea[i as int].0));
                        if y < j0 {
                            lemma_seq_lt_transitive(eb[y].0, ea[i0 as int].0, ea[i as int].0);
                        }
                    }
                }
                assert forall|kk: Seq<char>|
                    env_differs(ea, eb, kk) && ((exists|x: int| 0 <= x < i && #[trigger] ea[x].0 == kk) || (exists|
                        y: int,
                    | 0 <= y < j && #[trigger] eb[y].0 == kk)) implies exists|p: int|
                    0 <= p < out@.len() && #[trigger] out@[p].key@ == kk by {
                    if kk == k {
                        assert(out@[out@.len() - 1].key@ == kk);
                    } else {
                        if exists|x: int| 0 <= x < i && #[trigger] ea[x].0 == kk {
                            let x = choose|x: int| 0 <= x < i && #[trigger] ea[x].0 == kk;
                            assert(x < i0);
                        } else {
                            let y = choose|y: int| 0 <= y < j && #[trigger] eb[y].0 == kk;
                            assert(y < j0);
                        }
                        let p = choose|p: int| 0 <= p < out0.len() && #[trigger] out0[p].key@ == kk;
                        assert(out@[p] == out0[p]);
                    }
                }
            }
        } else if i < na && (j >= nb || a_first) {
            let (ka, va) = a.env.entry(i);
            let ghost k = ea[i as int].0;
            proof {
                lemma_value_at_position(ea, i as int);
                lemma_absent_after(eb, j as int, k);
                assert(has_key(ea, k));
            }
            if !va.as_str().is_empty() {
                proof {
                    assert(va@.len() > 0);
                }
                out.push(EnvVarDelta { key: ka.clone(), value_a: va.clone(), value_b: String::new() });
            } else {
                proof {
                    assert(va@ =~= Seq::<char>::empty());
                }
            }
            i = i + 1;
            proof {
                assert forall|p: int| 0 <= p < out@.len() implies (i < na ==> seq_lt(
                    #[trigger] out@[p].key@,
                    ea[i as int].0,
                )) && (j < nb ==> seq_lt(out@[p].key@, eb[j as int].0)) by {
                    if i < na {
                        assert(seq_lt(ea[i0 as int].0, ea[i as int].0));
                        if p < out0.len() {
                            lemma_seq_lt_transitive(out@[p].key@, ea[i0 as int].0, ea[i as int].0);
                        }
                    }
                }
                assert forall|y: int| 0 <= y < j && i < na implies seq_lt(#[trigger] eb[y].0, ea[i as int].0) by {
                    if i < na {
                        assert(seq_lt(ea[i0 as int].0, ea[i as int].0));
                        lemma_seq_lt_transitive(eb[y].0, ea[i0 as int].0, ea[i as int].0);
                    }
                }
                assert forall|kk: Seq<char>|
                    env_differs(ea, eb, kk) && ((exists|x: int| 0 <= x < i && #[trigger] ea[x].0 == kk) || (exists|
                        y: int,
                    | 0 <= y < j && #[trigger] eb[y].0 == kk)) implies exists|p: int|
                    0 <= p < out@.len() && #[trigger] out@[p].key@ == kk by {
                    if kk == k {
                        assert(out@[out@.len() - 1].key@ == kk);
                    } else {
                        if exists|x: int| 0 <= x < i && #[trigger] ea[x].0 == kk {
                            let x = choose|x: int| 0 <= x < i && #[trigger] ea[x].0 == kk;
                            assert(x < i0);
                        }
                        let p = choose|p: int| 0 <= p < out0.len() && #[trigger] out0[p].key@ == kk;
                        assert(out@[p] == out0[p]);
                    }
                }
            }
        } else {
            proof {
                if i < na {
                    lemma_seq_lt_total(ea[i as int].0, eb[j as int].0);
                }
            }
            let (kb, vb) = b.env.entry(j);
            let ghost k = eb[j as int].0;
            proof {
                lemma_value_at_position(eb, j as int);
                lemma_absent_after(ea, i as int, k);
                assert(has_key(eb, k));
            }
            if !vb.as_str().is_empty() {
                proof {
                    assert(vb@.len() > 0);
                }
                out.push(EnvVarDelta { key: kb.clone(), value_a: String::new(), value_b: vb.clone() });
            } else {
                proof {
                    assert(vb@ =~= Seq::<char>::empty());
                }
            }
            j = j + 1;
            proof {
                assert forall|p: int| 0 <= p < out@.len() implies (i < na ==> seq_lt(
                    #[trigger] out@[p].key@,
                    ea[i as int].0,
                )) && (j < nb ==> seq_lt(out@[p].key@, eb[j as int].0)) by {
                    if j < nb {
                        assert(seq_lt(eb[j0 as int].0, eb[j as int].0));
                        if p < out0.len() {
                            lemma_seq_lt_transitive(out@[p].key@, eb[j0 as int].0, eb[j as int].0);
                        }
                    }
                }
                assert forall|x: int| 0 <= x < i && j < nb implies seq_lt(#[trigger] ea[x].0, eb[j as int].0) by {
                    if j < nb {
                        assert(seq_lt(eb[j0 as int].0, eb[j as int].0));
                        lemma_seq_lt_transitive(ea[x].0, eb[j0 as int].0, eb[j as int].0);
                    }
                }
                assert forall|kk: Seq<char>|
                    env_differs(ea, eb, kk) && ((exists|x: int| 0 <= x < i && #[trigger] ea[x].0 == kk) || (exists|
                        y: int,
                    | 0 <= y < j && #[trigger] eb[y].0 == kk)) implies exists|p: int|
                    0 <= p < out@.len() && #[trigger] out@[p].key@ == kk by {
                    if kk == k {
                        assert(out@[out@.len() - 1].key@ == kk);
                    } else {
                        if exists|y: int| 0 <= y < j && #[trigger] eb[y].0 == kk {
                            let y = choose|y: int| 0 <= y < j && #[trigger] eb[y].0 == kk;
                            assert(y < j0);
                        }
                        let p = choose|p: int| 0 <= p < out0.len() && #[trigger] out0[p].key@ == kk;
                        assert(out@[p] == out0[p]);
                    }
                }
            }
        }
    }
    proof {
        let ds = delta_views(out@);
        assert forall|k: Seq<char>| env_differs(ea, eb, k) implies exists|p: int|
            0 <= p < ds.len() && #[trigger] ds[p].0 == k by {
            if has_key(ea, k) {
                let x = choose|x: int| 0 <= x < ea.len() && #[trigger] ea[x].0 == k;
                assert(ea[x].0 == k);
            } else {
                let y = choose|y: int| 0 <= y < eb.len() && #[trigger] eb[y].0 == k;
                assert(eb[y].0 == k);
            }
            let p = choose|p: int| 0 <= p < out@.len() && #[trigger] out@[p].key@ == k;
            assert(ds[p].0 == k);
        }
        assert forall|p: int, q: int| 0 <= p < q < ds.len() implies seq_lt(#[trigger] ds[p].0, #[trigger] ds[q].0) by {
            assert(ds[p].0 == out@[p].key@);
            assert(ds[q].0 == out@[q].key@);
        }
        assert forall|p: int| 0 <= p < ds.len() implies env_differs(ea, eb, #[trigger] ds[p].0) && ds[p].1
            == value_or_empty(ea, ds[p].0) && ds[p].2 == value_or_empty(eb, ds[p].0) by {
            assert(ds[p] == delta_view(out@[p]));
        }
    }
    out
}

// ---------------------------------------------------------------------------
// Temporal context
// ---------------------------------------------------------------------------

/// Position of the first occurrence of `x` in `index`.
pub open spec fn first_index(index: Seq<Seq<char>>, x: Seq<char>) -> Option<int>
    decreases index.len(),
{
    if index.len() == 0 {
        None
    } else if index[0] == x {
        Some(0)
    } else {
        match first_index(index.drop_first(), x) {
            Some(i) => Some(i + 1),
            None => None,
        }
    }
}

/// `(older, newer, run_a_is_older)`: by position in `index` when both runs are
/// listed at different positions, else by lexicographic run-id order.
pub open spec fn temporal_of(run_a: Seq<char>, run_b: Seq<char>, index: Seq<Seq<char>>) -> (Seq<char>, Seq<char>, bool) {
    match (first_index(index, run_a), first_index(index, run_b)) {
        (Some(ia), Some(ib)) if ia < ib => (run_a, run_b, true),
        (Some(ia), Some(ib)) if ia > ib => (run_b, run_a, false),
        _ => if seq_le(run_a, run_b) {
            (run_a, run_b, true)
        } else {
            (run_b, run_a, false)
        },
    }
}

fn position_of(index: &Vec<String>, x: &str) -> (r: Option<usize>)
    ensures
        match r {
            Some(i) => first_index(crate::text::views(index@), x@) == Some(i as int),
            None => first_index(crate::text::views(index@), x@) is None,
        },
{
    let n = index.len();
    let ghost vs = crate::text::views(index@);
    for i in 0..n
        invariant
            n == index@.len(),
            vs == crate::text::views(index@),
            forall|j: int| 0 <= j < i ==> vs[j] != x@,
    {
        if str_eq(index[i].as_str(), x) {
            proof {
                lemma_first_index_is(vs, i as int, x@);
            }
            return Some(i);
        }
    }
    proof {
        lemma_first_index_none(vs, x@);
    }
    None
}

proof fn lemma_first_index_is(s: Seq<Seq<char>>, i: int, x: Seq<char>)
    requires
        0 <= i < s.len(),
        s[i] == x,
        forall|j: int| 0 <= j < i ==> s[j] != x,
    ensures
        first_index(s, x) == Some(i),
    decreases i,
{
    if i > 0 {
        lemma_first_index_is(s.drop_first(), i - 1, x);
    }
}

proof fn lemma_first_index_none(s: Seq<Seq<char>>, x: Seq<char>)
    requires
        forall|j: int| 0 <= j < s.len() ==> s[j] != x,
    ensures
        first_index(s, x) is None,
    decreases s.len(),
{
    if s.len() > 0 {
        lemma_first_index_none(s.drop_first(), x);
    }
}

/// Which of two runs is the older epoch: by `index` order (oldest first)
/// when both appear at distinct positions, else by run-id order.
pub fn infer_temporal_context(run_a: &str, run_b: &str, index: &Vec<String>) -> (t: TemporalContext)
    ensures
        (t.older_run_id@, t.newer_run_id@, t.run_a_is_older) == temporal_of(
            run_a@,
            run_b@,
            crate::text::views(index@),
        ),
{
    let pos_a = position_of(index, run_a);
    let pos_b = position_of(index, run_b);
    match (pos_a, pos_b) {
        (Some(ia), Some(ib)) => {
            if ia < ib {
                return TemporalContext { older_run_id: owned(run_a), newer_run_id: owned(run_b), run_a_is_older: true };
            } else if ia > ib {
                return TemporalContext { older_run_id: owned(run_b), newer_run_id: owned(run_a), run_a_is_older: false };
            }
        },
        _ => {},
    }
    if !str_lt(run_b, run_a) {
        TemporalContext { older_run_id: owned(run_a), newer_run_id: owned(run_b), run_a_is_older: true }
    } else {
        TemporalContext { older_run_id: owned(run_b), newer_run_id: owned(run_a), run_a_is_older: false }
    }
}

// ---------------------------------------------------------------------------
// The full report
// ---------------------------------------------------------------------------

/// All compared fields, in order.
pub open spec fn all_fields() -> Seq<int> {
    seq![0int, 1, 2, 3, 4, 5, 6, 7]
}

/// Every differing field, in field order, before timing noise is dropped.
pub open spec fn raw_differences(a: ExecutionArtifact, b: ExecutionArtifact) -> Seq<(Seq<char>, Seq<char>, Seq<char>)> {
    diffs_among(a, b, all_fields())
}

/// The differences a report lists: the raw ones without timing noise.
pub open spec fn semantic_differences(a: ExecutionArtifact, b: ExecutionArtifact) -> Seq<(Seq<char>, Seq<char>, Seq<char>)> {
    raw_differences(a, b).filter(
        |d: (Seq<char>, Seq<char>, Seq<char>)| keeps(raw_differences(a, b), d),
    )
}

/// Field names that no difference names, in field order.
pub open spec fn unchanged_of(ds: Seq<(Seq<char>, Seq<char>, Seq<char>)>) -> Seq<Seq<char>> {
    fields_spec().filter(|n: Seq<char>| !names_field(ds, n))
}

/// The first difference on `stdout`, if any.
pub open spec fn first_named(ds: Seq<(Seq<char>, Seq<char>, Seq<char>)>, name: Seq<char>) -> Option<(Seq<char>, Seq<char>, Seq<char>)>
    decreases ds.len(),
{
    if ds.len() == 0 {
        None
    } else if ds[0].0 == name {
        Some(ds[0])
    } else {
        first_named(ds.drop_first(), name)
    }
}

/// The causal narration of environment deltas.
pub open spec fn causal_lines(ds: Seq<(Seq<char>, Seq<char>, Seq<char>)>) -> Seq<Seq<char>> {
    ds.map_values(|d: (Seq<char>, Seq<char>, Seq<char>)| d.0 + " caused execution divergence"@)
}

/// What [`diff_runs_with_index`] reports for two artifacts and an index.
pub open spec fn report_of(r: DiffReport, a: ExecutionArtifact, b: ExecutionArtifact, index: Seq<Seq<char>>) -> bool {
    let ds = semantic_differences(a, b);
    &&& r.run_a@ == a.run_id@
    &&& r.run_b@ == b.run_id@
    &&& fd_views(r.differences@) == ds
    &&& crate::text::views(r.changed_fields@) == ds.map_values(|d: (Seq<char>, Seq<char>, Seq<char>)| d.0)
    &&& crate::text::views(r.unchanged_fields@) == unchanged_of(ds)
    &&& crate::text::views(r.causal_chain@) == causal_chain_of(ds)
    &&& r.aion.temporal_context matches Some(t) && (t.older_run_id@, t.newer_run_id@, t.run_a_is_older) == temporal_of(a.run_id@, b.run_id@, index)
    &&& (match (a.repro_run, b.repro_run) {
        (Some(ra), Some(rb)) => env_deltas_of(delta_views(r.aion.env_diff@), ra.env@, rb.env@),
        _ => r.aion.env_diff@.len() == 0,
    })
    &&& (match r.aion.stdout_diff {
        Some(d) => first_named(ds, "stdout"@) == Some(fd_view(d)),
        None => first_named(ds, "stdout"@) is None,
    })
    &&& crate::text::views(r.aion.causal_diff@) == causal_lines(delta_views(r.aion.env_diff@))
}

fn find_named(ds: &Vec<FieldDiff>, name: &str) -> (r: Option<FieldDiff>)
    ensures
        match r {
            Some(d) => first_named(fd_views(ds@), name@) == Some(fd_view(d)),
            None => first_named(fd_views(ds@), name@) is None,
        },
{
    let n = ds.len();
    let ghost vs = fd_views(ds@);
    assert(vs.skip(0) == vs);
    for i in 0..n
        invariant
            n == ds@.len(),
            vs == fd_views(ds@),
            first_named(vs, name@) == first_named(vs.skip(i as int), name@),
    {
        assert(vs.skip(i as int)[0] == fd_view(ds@[i as int]));
        assert(vs.skip(i as int).drop_first() == vs.skip(i + 1));
        if str_eq(ds[i].field.as_str(), name) {
            return Some(ds[i].duplicate());
        }
    }
    None
}

fn narrate(env_diff: &Vec<EnvVarDelta>) -> (r: Vec<String>)
    ensures
        crate::text::views(r@) == causal_lines(delta_views(env_diff@)),
{
    let mut r: Vec<String> = Vec::new();
    let n = env_diff.len();
    for i in 0..n
        invariant
            n == env_diff@.len(),
            r@.len() == i,
            forall|j: int| 0 <= j < i ==> #[trigger] r@[j]@ == env_diff@[j].key@ + " caused execution divergence"@,
    {
        r.push(concat2(env_diff[i].key.as_str(), " caused execution divergence"));
    }
    assert(crate::text::views(r@) =~= causal_lines(delta_views(env_diff@)));
    r
}

/// Field diff between two runs, with the ordered index of known runs (oldest
/// first) used to tell the older epoch from the newer.
pub fn diff_runs_with_index(a: &ExecutionArtifact, b: &ExecutionArtifact, index: &Vec<String>) -> (r: DiffReport)
    ensures
        report_of(r, *a, *b, crate::text::views(index@)),
{
    let mut raw: Vec<FieldDiff> = Vec::new();
    let all: Vec<usize> = vec![0, 1, 2, 3, 4, 5, 6, 7];
    push_changed(&mut raw, a, b, &all);
    proof {
        assert(all@.map_values(|f: usize| f as int) =~= all_fields());
        assert(fd_views(Seq::<FieldDiff>::empty()) =~= Seq::empty());
    }
    let differences = filter_timing_noise_fields(raw);
    let ghost ds = fd_views(differences@);
    let mut changed_fields: Vec<String> = Vec::new();
    let n = differences.len();
    for i in 0..n
        invariant
            n == differences@.len(),
            changed_fields@.len() == i,
            forall|j: int| 0 <= j < i ==> #[trigger] changed_fields@[j]@ == differences@[j].field@,
    {
        changed_fields.push(differences[i].field.clone());
    }
    assert(crate::text::views(changed_fields@) =~= fd_views(differences@).map_values(
        |d: (Seq<char>, Seq<char>, Seq<char>)| d.0,
    ));
    let mut unchanged_fields: Vec<String> = Vec::new();
    let ghost fs = fields_spec();
    let ghost pred = |nm: Seq<char>| !names_field(ds, nm);
    for f in 0..FIELD_COUNT
        invariant
            ds == fd_views(differences@),
            fs == fields_spec(),
            pred == (|nm: Seq<char>| !names_field(ds, nm)),
            crate::text::views(unchanged_fields@) == fs.take(f as int).filter(pred),
    {
        let name = field(f);
        let present = names(&differences, name.as_str());
        assert(fs.take(f + 1).drop_last() == fs.take(f as int));
        assert(fs.take(f + 1).last() == name@);
        reveal_with_fuel(Seq::<_>::filter, 1);
        if !present {
            unchanged_fields.push(name);
            assert(crate::text::views(unchanged_fields@) =~= crate::text::views(unchanged_fields@.drop_last()).push(fs[f as int]));
        }
    }
    assert(fs.take(8) == fs);
    let causal_chain = build_causal_chain(&differences);
    let temporal_context = Some(infer_temporal_context(a.run_id.as_str(), b.run_id.as_str(), index));
    let env_diff = match (&a.repro_run, &b.repro_run) {
        (Some(ra), Some(rb)) => diff_repro_run_env(ra, rb),
        _ => Vec::new(),
    };
    let stdout_diff = find_named(&differences, "stdout");
    let causal_diff = narrate(&env_diff);
    DiffReport {
        run_a: a.run_id.clone(),
        run_b: b.run_id.clone(),
        differences,
        changed_fields,
        unchanged_fields,
        causal_chain,
        aion: AionDiff { env_diff, stdout_diff, causal_diff, temporal_context },
    }
}

/// Field diff between two runs without an index (epochs ordered by run id).
pub fn diff_runs(a: &ExecutionArtifact, b: &ExecutionArtifact) -> (r: DiffReport)
    ensures
        report_of(r, *a, *b, Seq::empty()),
{
    let index: Vec<String> = Vec::new();
    assert(crate::text::views(index@) =~= Seq::<Seq<char>>::empty());
    diff_runs_with_index(a, b, &index)
}

} // verus!
