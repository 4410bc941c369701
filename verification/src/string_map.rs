//! An ordered string map (keys kept strictly ascending): captured process
//! environments, evidence fields.

use crate::text::{seq_lt, str_eq, str_lt, lemma_seq_lt_irreflexive, lemma_seq_lt_total, lemma_seq_lt_transitive};
use vstd::prelude::*;

verus! {

/// Keys strictly ascending in lexicographic order (hence pairwise distinct).
pub open spec fn keys_ascending<V>(s: Seq<(Seq<char>, V)>) -> bool {
    forall|i: int, j: int| 0 <= i < j < s.len() ==> seq_lt(#[trigger] s[i].0, #[trigger] s[j].0)
}

/// Whether `k` is a key of `s`.
pub open spec fn has_key<V>(s: Seq<(Seq<char>, V)>, k: Seq<char>) -> bool {
    exists|i: int| 0 <= i < s.len() && #[trigger] s[i].0 == k
}

/// The value of the first entry whose key is `k`.
pub open spec fn lookup<V>(s: Seq<(Seq<char>, V)>, k: Seq<char>) -> Option<V>
    decreases s.len(),
{
    if s.len() == 0 {
        None
    } else if s[0].0 == k {
        Some(s[0].1)
    } else {
        lookup(s.drop_first(), k)
    }
}

/// The texts of key/value pairs.
pub open spec fn pair_texts(pairs: Seq<(String, String)>) -> Seq<(Seq<char>, Seq<char>)> {
    pairs.map_values(|p: (String, String)| (p.0@, p.1@))
}

/// The value of the last pair whose key is `k`.
pub open spec fn last_value(pairs: Seq<(Seq<char>, Seq<char>)>, k: Seq<char>) -> Option<Seq<char>>
    decreases pairs.len(),
{
    if pairs.len() == 0 {
        None
    } else if pairs.last().0 == k {
        Some(pairs.last().1)
    } else {
        last_value(pairs.drop_last(), k)
    }
}

/// The value stored under `k`, or the empty text when `k` is absent.
pub open spec fn value_or_empty(s: Seq<(Seq<char>, Seq<char>)>, k: Seq<char>) -> Seq<char> {
    match lookup(s, k) {
        Some(v) => v,
        None => Seq::empty(),
    }
}

/// The views of key/value string pairs.
pub open spec fn pairs_view(v: Seq<(String, String)>) -> Seq<(Seq<char>, Seq<char>)> {
    v.map_values(|e: (String, String)| (e.0@, e.1@))
}

/// A map from strings to strings, iterated in ascending key order.
#[derive(Debug)]
pub struct StringMap {
    entries: Vec<(String, String)>,
}

impl View for StringMap {
    type V = Seq<(Seq<char>, Seq<char>)>;

    closed spec fn view(&self) -> Seq<(Seq<char>, Seq<char>)> {
        pairs_view(self.entries@)
    }
}

impl StringMap {
    #[verifier::type_invariant]
    pub open spec fn ascending(&self) -> bool {
        keys_ascending(self@)
    }

    /// The empty map.
    pub fn new() -> (m: StringMap)
        ensures
            m@ == Seq::<(Seq<char>, Seq<char>)>::empty(),
    {
        let m = StringMap { entries: Vec::new() };
        assert(m@ =~= Seq::<(Seq<char>, Seq<char>)>::empty());
        m
    }

    /// Number of entries.
    pub fn len(&self) -> (n: usize)
        ensures
            n == self@.len(),
    {
        self.entries.len()
    }

    /// The key and value at position `i` in ascending key order.
    pub fn entry(&self, i: usize) -> (r: (&String, &String))
        requires
            i < self@.len(),
        ensures
            r.0@ == self@[i as int].0,
            r.1@ == self@[i as int].1,
    {
        let e = &self.entries[i];
        (&e.0, &e.1)
    }

    /// Position of the entry whose key is `k`, if any.
    pub fn position(&self, k: &str) -> (r: Option<usize>)
        ensures
            match r {
                Some(i) => i < self@.len() && self@[i as int].0 == k@,
                None => !has_key(self@, k@),
            },
    {
        let n = self.entries.len();
        for i in 0..n
            invariant
                n == self@.len(),
                forall|j: int| 0 <= j < i ==> self@[j].0 != k@,
        {
            if str_eq(self.entries[i].0.as_str(), k) {
                return Some(i);
            }
        }
        None
    }

    /// The value under `k`, or the empty string (`get(k).cloned().unwrap_or_default()`).
    pub fn value_or_default(&self, k: &str) -> (v: String)
        ensures
            v@ == value_or_empty(self@, k@),
    {
        proof {
            use_type_invariant(self);
        }
        match self.position(k) {
            Some(i) => {
                proof {
                    lemma_value_at_position(self@, i as int);
                }
                self.entries[i].1.clone()
            },
            None => {
                proof {
                    lemma_value_absent(self@, k@);
                }
                String::new()
            },
        }
    }

    /// Whether `k` is a key of the map.
    pub fn contains_key(&self, k: &str) -> (r: bool)
        ensures
            r == has_key(self@, k@),
    {
        match self.position(k) {
            Some(i) => {
                assert(self@[i as int].0 == k@);
                true
            },
            None => false,
        }
    }

    /// The value under `k`, if any.
    pub fn get(&self, k: &str) -> (r: Option<&String>)
        ensures
            match r {
                Some(v) => lookup(self@, k@) == Some(v@),
                None => lookup(self@, k@) == None::<Seq<char>>,
            },
    {
        proof {
            use_type_invariant(self);
        }
        match self.position(k) {
            Some(i) => {
                proof {
                    lemma_lookup_at_position(self@, i as int);
                }
                Some(&self.entries[i].1)
            },
            None => {
                proof {
                    lemma_lookup_absent(self@, k@);
                }
                None
            },
        }
    }

    /// An equal copy of the map.
    pub fn duplicate(&self) -> (m: StringMap)
        ensures
            m@ == self@,
    {
        proof {
            use_type_invariant(self);
        }
        let n = self.entries.len();
        let mut es: Vec<(String, String)> = Vec::new();
        for i in 0..n
            invariant
                n == self.entries@.len(),
                es@.len() == i,
                forall|j: int|
                    0 <= j < i ==> (#[trigger] es@[j]).0@ == self.entries@[j].0@ && es@[j].1@
                        == self.entries@[j].1@,
        {
            let e = &self.entries[i];
            es.push((e.0.clone(), e.1.clone()));
        }
        assert(pairs_view(es@) =~= pairs_view(self.entries@));
        StringMap { entries: es }
    }

    /// Sets `k` to `v`, keeping keys ascending (`BTreeMap::insert`).
    pub fn insert(&mut self, k: String, v: String)
        ensures
            has_key(final(self)@, k@),
            lookup(final(self)@, k@) == Some(v@),
            forall|q: Seq<char>|
                q != k@ ==> (has_key(final(self)@, q) == has_key(old(self)@, q) && lookup(
                    final(self)@,
                    q,
                ) == lookup(old(self)@, q)),
    {
        proof {
            use_type_invariant(&*self);
        }
        let ghost s0 = self@;
        let mut es: Vec<(String, String)> = Vec::new();
        std::mem::swap(&mut es, &mut self.entries);
        assert(pairs_view(es@) == s0);
        let n = es.len();
        let mut i: usize = 0;
        let mut stop = false;
        while i < n && !stop
            invariant
                n == es@.len(),
                s0 == pairs_view(es@),
                keys_ascending(s0),
                i <= n,
                forall|j: int| 0 <= j < i ==> seq_lt(#[trigger] s0[j].0, k@),
                stop ==> i < n && !seq_lt(s0[i as int].0, k@),
            decreases n - i + (if stop { 0int } else { 1int }),
        {
            if !str_lt(es[i].0.as_str(), k.as_str()) {
                stop = true;
            } else {
                i = i + 1;
            }
        }
        // Every key before `i` is below `k`; the key at `i`, if any, is not.
        if i < n && str_eq(es[i].0.as_str(), k.as_str()) {
            let ghost ks = k@;
            let ghost vs = v@;
            let key = es[i].0.clone();
            es.set(i, (key, v));
            proof {
                assert(pairs_view(es@) =~= s0.update(i as int, (ks, vs)));
                lemma_lookup_update(s0, i as int, vs);
            }
        } else {
            proof {
                if i < n {
                    lemma_seq_lt_total(s0[i as int].0, k@);
                }
            }
            let ghost ks = k@;
            let ghost vs = v@;
            es.insert(i, (k, v));
            proof {
                assert(pairs_view(es@) =~= s0.insert(i as int, (ks, vs)));
                lemma_lookup_insert(s0, i as int, ks, vs);
            }
        }
        self.entries = es;
    }

    /// The entries as key/value pairs, keys ascending.
    pub fn to_pairs(&self) -> (r: Vec<(String, String)>)
        ensures
            pair_texts(r@) == self@,
            keys_ascending(self@),
    {
        proof {
            use_type_invariant(self);
        }
        let mut r: Vec<(String, String)> = Vec::new();
        let n = self.len();
        for i in 0..n
            invariant
                n == self@.len(),
                pair_texts(r@) == self@.take(i as int),
        {
            let (k, v) = self.entry(i);
            let ghost before = r@;
            r.push((k.clone(), v.clone()));
            assert(pair_texts(r@) =~= pair_texts(before).push((k@, v@)));
            assert(self@.take(i + 1) =~= self@.take(i as int).push(self@[i as int]));
        }
        assert(self@.take(n as int) =~= self@);
        r
    }

    /// Builds a map from key/value pairs; a later pair overrides an earlier one with the same key.
    pub fn from_pairs(pairs: Vec<(String, String)>) -> (m: StringMap)
        ensures
            forall|q: Seq<char>|
                has_key(m@, q) == (exists|i: int| 0 <= i < pairs@.len() && #[trigger] pairs@[i].0@ == q),
            forall|q: Seq<char>| #[trigger] lookup(m@, q) == last_value(pair_texts(pairs@), q),
    {
        let mut m = StringMap::new();
        let mut rest = pairs;
        let ghost all = rest@;
        assert(all.len() == rest.len());
        let mut taken: usize = 0;
        while rest.len() > 0
            invariant
                taken + rest@.len() == all.len(),
                all.len() <= usize::MAX,
                rest@ == all.skip(taken as int),
                forall|q: Seq<char>|
                    has_key(m@, q) == (exists|i: int| 0 <= i < taken && #[trigger] all[i].0@ == q),
                forall|q: Seq<char>| #[trigger] lookup(m@, q) == last_value(pair_texts(all).take(taken as int), q),
            decreases rest@.len(),
        {
            let (k, v) = rest.remove(0);
            let ghost kk = k@;
            proof {
                assert(all[taken as int].0@ == kk);
            }
            let ghost vv = v@;
            let ghost before = pair_texts(all).take(taken as int);
            m.insert(k, v);
            taken = taken + 1;
            proof {
                assert(rest@ =~= all.skip(taken as int));
                let after = pair_texts(all).take(taken as int);
                assert(after.drop_last() =~= before);
                assert(after.last() == (kk, vv));
                assert forall|q: Seq<char>| #[trigger] lookup(m@, q) == last_value(after, q) by {
                    if q != kk {
                        assert(last_value(after, q) == last_value(before, q));
                    }
                }
                assert forall|q: Seq<char>|
                    has_key(m@, q) == (exists|i: int| 0 <= i < taken && #[trigger] all[i].0@ == q) by {
                    if q == kk {
                        assert(all[taken - 1].0@ == q);
                    } else {
                        if exists|i: int| 0 <= i < taken && #[trigger] all[i].0@ == q {
                            let i = choose|i: int| 0 <= i < taken && #[trigger] all[i].0@ == q;
                            assert(i < taken - 1);
                        }
                    }
                }
            }
        }
        assert(all.skip(0) == all);
        assert(pair_texts(all).take(all.len() as int) =~= pair_texts(all));
        m
    }
}

/// In a map with ascending keys, the key at position `i` looks up the value there.
pub proof fn lemma_lookup_at_position<V>(s: Seq<(Seq<char>, V)>, i: int)
    requires
        keys_ascending(s),
        0 <= i < s.len(),
    ensures
        lookup(s, s[i].0) == Some(s[i].1),
    decreases i,
{
    if i > 0 {
        assert(seq_lt(s[0].0, s[i].0));
        lemma_seq_lt_irreflexive(s[i].0);
        assert(keys_ascending(s.drop_first())) by {
            assert forall|a: int, b: int| 0 <= a < b < s.drop_first().len() implies seq_lt(
                #[trigger] s.drop_first()[a].0,
                #[trigger] s.drop_first()[b].0,
            ) by {
                assert(s.drop_first()[a] == s[a + 1]);
                assert(s.drop_first()[b] == s[b + 1]);
            }
        }
        lemma_lookup_at_position(s.drop_first(), i - 1);
    }
}

/// An absent key looks up nothing.
pub proof fn lemma_lookup_absent<V>(s: Seq<(Seq<char>, V)>, k: Seq<char>)
    requires
        !has_key(s, k),
    ensures
        lookup(s, k) == None::<V>,
    decreases s.len(),
{
    if s.len() > 0 {
        assert(s[0].0 != k);
        assert(!has_key(s.drop_first(), k)) by {
            if has_key(s.drop_first(), k) {
                let j = choose|j: int| 0 <= j < s.drop_first().len() && #[trigger] s.drop_first()[j].0 == k;
                assert(s[j + 1].0 == k);
            }
        }
        lemma_lookup_absent(s.drop_first(), k);
    }
}

pub proof fn lemma_value_at_position(s: Seq<(Seq<char>, Seq<char>)>, i: int)
    requires
        keys_ascending(s),
        0 <= i < s.len(),
    ensures
        value_or_empty(s, s[i].0) == s[i].1,
{
    lemma_lookup_at_position(s, i);
}

pub proof fn lemma_value_absent(s: Seq<(Seq<char>, Seq<char>)>, k: Seq<char>)
    requires
        !has_key(s, k),
    ensures
        value_or_empty(s, k) == Seq::<char>::empty(),
{
    lemma_lookup_absent(s, k);
}

/// Replacing the value at `i` keeps keys ascending and changes the lookup of that key only.
pub proof fn lemma_lookup_update<V>(s: Seq<(Seq<char>, V)>, i: int, v: V)
    requires
        keys_ascending(s),
        0 <= i < s.len(),
    ensures
        keys_ascending(s.update(i, (s[i].0, v))),
        has_key(s.update(i, (s[i].0, v)), s[i].0),
        lookup(s.update(i, (s[i].0, v)), s[i].0) == Some(v),
        forall|q: Seq<char>|
            q != s[i].0 ==> (has_key(s.update(i, (s[i].0, v)), q) == has_key(s, q) && lookup(
                s.update(i, (s[i].0, v)),
                q,
            ) == lookup(s, q)),
{
    let t = s.update(i, (s[i].0, v));
    assert(keys_ascending(t)) by {
        assert forall|a: int, b: int| 0 <= a < b < t.len() implies seq_lt(
            #[trigger] t[a].0,
            #[trigger] t[b].0,
        ) by {
            assert(t[a].0 == s[a].0);
            assert(t[b].0 == s[b].0);
        }
    }
    assert(t[i].0 == s[i].0);
    lemma_lookup_at_position(t, i);
    assert forall|q: Seq<char>| q != s[i].0 implies (has_key(t, q) == has_key(s, q) && lookup(t, q)
        == lookup(s, q)) by {
        if has_key(s, q) {
            let j = choose|j: int| 0 <= j < s.len() && #[trigger] s[j].0 == q;
            assert(t[j].0 == q);
            lemma_lookup_at_position(s, j);
            lemma_lookup_at_position(t, j);
        } else {
            if has_key(t, q) {
                let j = choose|j: int| 0 <= j < t.len() && #[trigger] t[j].0 == q;
                assert(s[j].0 == q);
            }
            lemma_lookup_absent(s, q);
            lemma_lookup_absent(t, q);
        }
    }
}

/// Inserting a new key at its ascending position keeps keys ascending and adds just that key.
pub proof fn lemma_lookup_insert<V>(s: Seq<(Seq<char>, V)>, i: int, k: Seq<char>, v: V)
    requires
        keys_ascending(s),
        0 <= i <= s.len(),
        forall|j: int| 0 <= j < i ==> seq_lt(#[trigger] s[j].0, k),
        i < s.len() ==> seq_lt(k, s[i].0),
    ensures
        keys_ascending(s.insert(i, (k, v))),
        has_key(s.insert(i, (k, v)), k),
        lookup(s.insert(i, (k, v)), k) == Some(v),
        forall|q: Seq<char>|
            q != k ==> (has_key(s.insert(i, (k, v)), q) == has_key(s, q) && lookup(
                s.insert(i, (k, v)),
                q,
            ) == lookup(s, q)),
{
    let t = s.insert(i, (k, v));
    assert(keys_ascending(t)) by {
        assert forall|a: int, b: int| 0 <= a < b < t.len() implies seq_lt(
            #[trigger] t[a].0,
            #[trigger] t[b].0,
        ) by {
            if b < i {
                assert(t[a] == s[a] && t[b] == s[b]);
            } else if b == i {
                assert(t[a] == s[a]);
            } else if a == i {
                assert(t[b] == s[b - 1]);
                if b - 1 > i {
                    assert(seq_lt(s[i].0, s[b - 1].0));
                    lemma_seq_lt_transitive(k, s[i].0, s[b - 1].0);
                }
            } else if a < i {
                assert(t[a] == s[a] && t[b] == s[b - 1]);
                assert(seq_lt(s[a].0, k));
                if b - 1 == i {
                } else {
                    assert(seq_lt(s[i].0, s[b - 1].0));
                }
            } else {
                assert(t[a] == s[a - 1] && t[b] == s[b - 1]);
            }
        }
    }
    assert(t[i].0 == k);
    lemma_lookup_at_position(t, i);
    assert forall|q: Seq<char>| q != k implies (has_key(t, q) == has_key(s, q) && lookup(t, q) == lookup(
        s,
        q,
    )) by {
        if has_key(s, q) {
            let j = choose|j: int| 0 <= j < s.len() && #[trigger] s[j].0 == q;
            let jj = if j < i { j } else { j + 1 };
            assert(t[jj].0 == q);
            lemma_lookup_at_position(s, j);
            lemma_lookup_at_position(t, jj);
        } else {
            if has_key(t, q) {
                let j = choose|j: int| 0 <= j < t.len() && #[trigger] t[j].0 == q;
                if j < i {
                    assert(s[j].0 == q);
                } else if j > i {
                    assert(s[j - 1].0 == q);
                }
            }
            lemma_lookup_absent(s, q);
            lemma_lookup_absent(t, q);
        }
    }
}

} // verus!
