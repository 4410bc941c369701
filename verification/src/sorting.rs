//! Stable ordering of records by a text key (what `sort_by` with `cmp` on
//! that key produces).

use crate::text::{
    str_lt,
    lemma_seq_le_reflexive, lemma_seq_le_total, lemma_seq_le_transitive, seq_le, seq_lt,
};
use vstd::prelude::*;

verus! {

/// Inserts `x` after every element whose key is not above its own.
pub open spec fn insert_by_key<T>(sorted: Seq<T>, x: T, key: spec_fn(T) -> Seq<char>) -> Seq<T>
    decreases sorted.len(),
{
    if sorted.len() == 0 {
        seq![x]
    } else if seq_le(key(sorted.last()), key(x)) {
        sorted.push(x)
    } else {
        insert_by_key(sorted.drop_last(), x, key).push(sorted.last())
    }
}

/// Stable sort by key.
pub open spec fn sort_by_key<T>(s: Seq<T>, key: spec_fn(T) -> Seq<char>) -> Seq<T>
    decreases s.len(),
{
    if s.len() == 0 {
        Seq::empty()
    } else {
        insert_by_key(sort_by_key(s.drop_last(), key), s.last(), key)
    }
}

/// Keys never decrease along `s`.
pub open spec fn key_ascending<T>(s: Seq<T>, key: spec_fn(T) -> Seq<char>) -> bool {
    forall|i: int, j: int| 0 <= i <= j < s.len() ==> seq_le(key(#[trigger] s[i]), key(#[trigger] s[j]))
}

/// Inserting at the position after the last key not above `x`'s is `insert_by_key`.
pub proof fn lemma_insert_by_key_at<T>(s: Seq<T>, p: int, x: T, key: spec_fn(T) -> Seq<char>)
    requires
        0 <= p <= s.len(),
        forall|j: int| p <= j < s.len() ==> seq_lt(key(x), key(#[trigger] s[j])),
        p > 0 ==> seq_le(key(s[p - 1]), key(x)),
    ensures
        insert_by_key(s, x, key) == s.insert(p, x),
    decreases s.len(),
{
    if s.len() == 0 {
        assert(s.insert(p, x) =~= seq![x]);
    } else if p == s.len() {
        assert(s.insert(p, x) =~= s.push(x));
    } else {
        assert(seq_lt(key(x), key(s[s.len() - 1])));
        lemma_insert_by_key_at(s.drop_last(), p, x, key);
        assert(s.insert(p, x) =~= s.drop_last().insert(p, x).push(s.last()));
    }
}

proof fn lemma_insert_by_key_members<T>(s: Seq<T>, x: T, key: spec_fn(T) -> Seq<char>)
    ensures
        insert_by_key(s, x, key).len() == s.len() + 1,
        forall|i: int|
            0 <= i < insert_by_key(s, x, key).len() ==> insert_by_key(s, x, key)[i] == x || exists|k: int|
                0 <= k < s.len() && s[k] == #[trigger] insert_by_key(s, x, key)[i],
    decreases s.len(),
{
    if s.len() > 0 && !seq_le(key(s.last()), key(x)) {
        lemma_insert_by_key_members(s.drop_last(), x, key);
        let t = insert_by_key(s.drop_last(), x, key);
        assert forall|i: int| 0 <= i < t.push(s.last()).len() implies t.push(s.last())[i] == x || exists|
            k: int,
        | 0 <= k < s.len() && s[k] == #[trigger] t.push(s.last())[i] by {
            if i == t.len() {
                assert(s[s.len() - 1] == t.push(s.last())[i]);
            } else if t[i] != x {
                let k = choose|k: int| 0 <= k < s.drop_last().len() && s.drop_last()[k] == #[trigger] t[i];
                assert(s[k] == t.push(s.last())[i]);
            }
        }
    } else if s.len() > 0 {
        assert forall|i: int| 0 <= i < s.push(x).len() implies s.push(x)[i] == x || exists|k: int|
            0 <= k < s.len() && s[k] == #[trigger] s.push(x)[i] by {
            if i < s.len() {
                assert(s[i] == s.push(x)[i]);
            }
        }
    }
}

proof fn lemma_insert_by_key_ascending<T>(s: Seq<T>, x: T, key: spec_fn(T) -> Seq<char>)
    requires
        key_ascending(s, key),
    ensures
        key_ascending(insert_by_key(s, x, key), key),
    decreases s.len(),
{
    if s.len() == 0 {
        lemma_seq_le_reflexive(key(x));
    } else if seq_le(key(s.last()), key(x)) {
        let r = s.push(x);
        assert forall|i: int, j: int| 0 <= i <= j < r.len() implies seq_le(
            key(#[trigger] r[i]),
            key(#[trigger] r[j]),
        ) by {
            if i == j {
                lemma_seq_le_reflexive(key(r[i]));
            } else if j == s.len() {
                assert(r[i] == s[i]);
                assert(seq_le(key(s[i]), key(s[s.len() - 1])));
                lemma_seq_le_transitive(key(s[i]), key(s[s.len() - 1]), key(x));
            } else {
                assert(r[i] == s[i]);
                assert(r[j] == s[j]);
            }
        }
    } else {
        lemma_insert_by_key_ascending(s.drop_last(), x, key);
        lemma_insert_by_key_members(s.drop_last(), x, key);
        let t = insert_by_key(s.drop_last(), x, key);
        let r = t.push(s.last());
        assert(key_ascending(t, key));
        assert forall|i: int, j: int| 0 <= i <= j < r.len() implies seq_le(
            key(#[trigger] r[i]),
            key(#[trigger] r[j]),
        ) by {
            if i == j {
                lemma_seq_le_reflexive(key(r[i]));
            } else if j == t.len() {
                let w = t[i];
                assert(r[i] == w);
                assert(r[j] == s.last());
                if w == x {
                    lemma_seq_le_total(key(s.last()), key(x));
                } else {
                    let k = choose|k: int| 0 <= k < s.drop_last().len() && s.drop_last()[k] == #[trigger] t[i];
                    assert(s[k] == w);
                    assert(seq_le(key(s[k]), key(s[s.len() - 1])));
                }
            } else {
                assert(r[i] == t[i]);
                assert(r[j] == t[j]);
            }
        }
    }
}

/// A stable sort by key leaves keys in non-decreasing order.
pub proof fn lemma_sort_by_key_ascending<T>(s: Seq<T>, key: spec_fn(T) -> Seq<char>)
    ensures
        key_ascending(sort_by_key(s, key), key),
    decreases s.len(),
{
    if s.len() > 0 {
        lemma_sort_by_key_ascending(s.drop_last(), key);
        lemma_insert_by_key_ascending(sort_by_key(s.drop_last(), key), s.last(), key);
    }
}

proof fn lemma_insert_by_key_multiset<T>(s: Seq<T>, x: T, key: spec_fn(T) -> Seq<char>)
    ensures
        insert_by_key(s, x, key).to_multiset() == s.to_multiset().insert(x),
    decreases s.len(),
{
    broadcast use vstd::seq_lib::group_to_multiset_ensures;

    if s.len() == 0 {
        assert(seq![x] =~= s.push(x));
    } else if !seq_le(key(s.last()), key(x)) {
        lemma_insert_by_key_multiset(s.drop_last(), x, key);
        assert(s =~= s.drop_last().push(s.last()));
        assert(insert_by_key(s, x, key).to_multiset() =~= s.to_multiset().insert(x));
    }
}

/// Sorting keeps exactly the records it is given: the result is a permutation of the input.
pub proof fn lemma_sort_by_key_permutes<T>(s: Seq<T>, key: spec_fn(T) -> Seq<char>)
    ensures
        sort_by_key(s, key).to_multiset() == s.to_multiset(),
    decreases s.len(),
{
    broadcast use vstd::seq_lib::group_to_multiset_ensures;

    if s.len() == 0 {
        assert(sort_by_key(s, key) =~= s);
    } else {
        lemma_sort_by_key_permutes(s.drop_last(), key);
        lemma_insert_by_key_multiset(sort_by_key(s.drop_last(), key), s.last(), key);
        assert(s =~= s.drop_last().push(s.last()));
    }
}

/// Whether a record's key is `k`.
pub open spec fn key_is<T>(key: spec_fn(T) -> Seq<char>, k: Seq<char>) -> spec_fn(T) -> bool {
    |t: T| key(t) == k
}

/// The records of `s` whose key is `k`, in order.
pub open spec fn with_key<T>(s: Seq<T>, key: spec_fn(T) -> Seq<char>, k: Seq<char>) -> Seq<T> {
    s.filter(key_is(key, k))
}

proof fn lemma_filter_push<T>(s: Seq<T>, x: T, p: spec_fn(T) -> bool)
    ensures
        s.push(x).filter(p) == if p(x) {
            s.filter(p).push(x)
        } else {
            s.filter(p)
        },
{
    reveal_with_fuel(Seq::<_>::filter, 1);
    assert(s.push(x).drop_last() =~= s);
}

proof fn lemma_insert_by_key_stable<T>(s: Seq<T>, x: T, key: spec_fn(T) -> Seq<char>, k: Seq<char>)
    requires
        key_ascending(s, key),
    ensures
        with_key(insert_by_key(s, x, key), key, k) == if key(x) == k {
            with_key(s, key, k).push(x)
        } else {
            with_key(s, key, k)
        },
    decreases s.len(),
{
    let p = key_is(key, k);
    if s.len() == 0 {
        lemma_filter_push(s, x, p);
        assert(seq![x] =~= s.push(x));
    } else if seq_le(key(s.last()), key(x)) {
        lemma_filter_push(s, x, p);
    } else {
        let d = s.drop_last();
        assert(key_ascending(d, key)) by {
            assert forall|i: int, j: int| 0 <= i <= j < d.len() implies seq_le(key(#[trigger] d[i]), key(#[trigger] d[j])) by {
                assert(d[i] == s[i] && d[j] == s[j]);
            }
        }
        lemma_insert_by_key_stable(d, x, key, k);
        let t = insert_by_key(d, x, key);
        lemma_filter_push(t, s.last(), p);
        lemma_filter_push(d, s.last(), p);
        assert(s =~= d.push(s.last()));
        if key(x) == k && key(s.last()) == k {
            lemma_seq_le_reflexive(k);
        }
    }
}

/// Sorting is stable: the records that share a key come out in the order they came in.
pub proof fn lemma_sort_by_key_stable<T>(s: Seq<T>, key: spec_fn(T) -> Seq<char>, k: Seq<char>)
    ensures
        with_key(sort_by_key(s, key), key, k) == with_key(s, key, k),
    decreases s.len(),
{
    let p = key_is(key, k);
    if s.len() == 0 {
        assert(sort_by_key(s, key) =~= s);
    } else {
        let d = s.drop_last();
        lemma_sort_by_key_stable(d, key, k);
        lemma_sort_by_key_ascending(d, key);
        lemma_insert_by_key_stable(sort_by_key(d, key), s.last(), key, k);
        lemma_filter_push(d, s.last(), p);
        assert(s =~= d.push(s.last()));
    }
}

/// Inserting commutes with mapping the records, when the key is read through the map.
pub proof fn lemma_insert_by_key_map<T, U>(
    s: Seq<T>,
    x: T,
    f: spec_fn(T) -> U,
    kt: spec_fn(T) -> Seq<char>,
    ku: spec_fn(U) -> Seq<char>,
)
    requires
        forall|t: T| #[trigger] kt(t) == ku(f(t)),
    ensures
        insert_by_key(s, x, kt).map_values(f) == insert_by_key(s.map_values(f), f(x), ku),
    decreases s.len(),
{
    let m = s.map_values(f);
    assert(kt(x) == ku(f(x)));
    if s.len() == 0 {
        assert(insert_by_key(s, x, kt).map_values(f) =~= seq![f(x)]);
    } else {
        assert(m.last() == f(s.last()));
        assert(kt(s.last()) == ku(f(s.last())));
        assert(m.drop_last() =~= s.drop_last().map_values(f));
        if seq_le(kt(s.last()), kt(x)) {
            assert(s.push(x).map_values(f) =~= m.push(f(x)));
        } else {
            lemma_insert_by_key_map(s.drop_last(), x, f, kt, ku);
            let t = insert_by_key(s.drop_last(), x, kt);
            assert(t.push(s.last()).map_values(f) =~= t.map_values(f).push(f(s.last())));
        }
    }
}

/// Sorting commutes with mapping the records, when the key is read through the map.
pub proof fn lemma_sort_by_key_map<T, U>(
    s: Seq<T>,
    f: spec_fn(T) -> U,
    kt: spec_fn(T) -> Seq<char>,
    ku: spec_fn(U) -> Seq<char>,
)
    requires
        forall|t: T| #[trigger] kt(t) == ku(f(t)),
    ensures
        sort_by_key(s, kt).map_values(f) == sort_by_key(s.map_values(f), ku),
    decreases s.len(),
{
    if s.len() == 0 {
        assert(sort_by_key(s, kt).map_values(f) =~= Seq::<U>::empty());
        assert(s.map_values(f) =~= Seq::<U>::empty());
    } else {
        lemma_sort_by_key_map(s.drop_last(), f, kt, ku);
        lemma_insert_by_key_map(sort_by_key(s.drop_last(), kt), s.last(), f, kt, ku);
        assert(s.map_values(f).drop_last() =~= s.drop_last().map_values(f));
        assert(s.map_values(f).last() == f(s.last()));
    }
}

/// A record with text keys it can be ordered by (key `0`, `1`, ...).
pub trait SortKey {
    spec fn sort_key(&self, k: usize) -> Seq<char>;

    fn key_str(&self, k: usize) -> (r: &str)
        ensures
            r@ == self.sort_key(k),
    ;
}

/// Key `k` of a `SortKey` type, as a spec closure.
pub open spec fn key_fn<T: SortKey>(k: usize) -> spec_fn(T) -> Seq<char> {
    |t: T| t.sort_key(k)
}

/// Stable sort of `v` by key `k` of its records.
pub fn stable_sort<T: SortKey>(v: Vec<T>, k: usize) -> (r: Vec<T>)
    ensures
        r@ == sort_by_key(v@, key_fn::<T>(k)),
        key_ascending(r@, key_fn::<T>(k)),
{
    let ghost key = key_fn::<T>(k);
    let ghost orig = v@;
    let mut out: Vec<T> = Vec::new();
    let mut rest = v;
    let ghost n = orig.len();
    assert(orig.take(0) =~= Seq::<T>::empty());
    assert(orig.skip(0) =~= orig);
    while rest.len() > 0
        invariant
            key == key_fn::<T>(k),
            n == orig.len(),
            out.len() + rest.len() == n,
            out@ == sort_by_key(orig.take(out.len() as int), key),
            key_ascending(out@, key),
            rest@ == orig.skip(out.len() as int),
        decreases rest.len(),
    {
        let ghost before = out@;
        let ghost i = out.len() as int;
        let x = rest.remove(0);
        assert(x == orig[i]);
        assert(rest@ =~= orig.skip(i + 1));
        let mut p = out.len();
        while p > 0 && str_lt(x.key_str(k), out[p - 1].key_str(k))
            invariant
                p <= out.len(),
                out@ == before,
                key == key_fn::<T>(k),
                forall|j: int| p <= j < out.len() ==> seq_lt(key(x), key(#[trigger] out@[j])),
            decreases p,
        {
            p = p - 1;
        }
        proof {
            lemma_insert_by_key_at(out@, p as int, x, key);
            assert(orig.take(i + 1).drop_last() =~= orig.take(i));
            assert(orig.take(i + 1).last() == x);
            lemma_insert_by_key_ascending(out@, x, key);
        }
        out.insert(p, x);
    }
    assert(orig.take(n as int) =~= orig);
    out
}

} // verus!
