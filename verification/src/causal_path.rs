//! Shortest causal paths: breadth-first search over the edges of a causal graph.

use crate::causal_graph::{edge_views, node_views, CausalGraph, CausalNode, NodeView};
use crate::causal_query::{find_node, node_by_id};
use crate::text::{owned, str_eq, views};
use vstd::prelude::*;

verus! {

/// Edge `j` of `es` goes from `u` to `v`.
pub open spec fn edge_at(es: Seq<(Seq<char>, Seq<char>, Seq<char>)>, j: int, u: Seq<char>, v: Seq<char>) -> bool {
    0 <= j < es.len() && es[j].0 == u && es[j].1 == v
}

/// Some edge goes from `u` to `v`.
pub open spec fn step(es: Seq<(Seq<char>, Seq<char>, Seq<char>)>, u: Seq<char>, v: Seq<char>) -> bool {
    exists|j: int| #[trigger] edge_at(es, j, u, v)
}

/// Position `k` of `p` is joined to position `k + 1` by an edge.
pub open spec fn linked_at(es: Seq<(Seq<char>, Seq<char>, Seq<char>)>, p: Seq<Seq<char>>, k: int) -> bool {
    step(es, p[k], p[k + 1])
}

/// `p` is a non-empty sequence of node ids, each joined to the next by an edge.
pub open spec fn is_walk(es: Seq<(Seq<char>, Seq<char>, Seq<char>)>, p: Seq<Seq<char>>) -> bool {
    p.len() >= 1 && forall|k: int| 0 <= k < p.len() - 1 ==> #[trigger] linked_at(es, p, k)
}

/// `p` is a walk from `a` to `b`.
pub open spec fn walk_between(
    es: Seq<(Seq<char>, Seq<char>, Seq<char>)>,
    p: Seq<Seq<char>>,
    a: Seq<char>,
    b: Seq<char>,
) -> bool {
    is_walk(es, p) && p[0] == a && p[p.len() - 1] == b
}

/// `p` is a walk from `a` to `b` and no walk from `a` to `b` is shorter.
pub open spec fn shortest_walk(
    es: Seq<(Seq<char>, Seq<char>, Seq<char>)>,
    p: Seq<Seq<char>>,
    a: Seq<char>,
    b: Seq<char>,
) -> bool {
    walk_between(es, p, a, b) && forall|q: Seq<Seq<char>>| #[trigger] walk_between(es, q, a, b) ==> p.len() <= q.len()
}

/// Some walk leads from `a` to `b`.
pub open spec fn connected(es: Seq<(Seq<char>, Seq<char>, Seq<char>)>, a: Seq<char>, b: Seq<char>) -> bool {
    exists|p: Seq<Seq<char>>| #[trigger] walk_between(es, p, a, b)
}

/// The nodes named by `ids`, in order, skipping ids that name no node.
pub open spec fn nodes_on(nodes: Seq<NodeView>, ids: Seq<Seq<char>>) -> Seq<NodeView>
    decreases ids.len(),
{
    if ids.len() == 0 {
        Seq::empty()
    } else {
        let rest = nodes_on(nodes, ids.drop_last());
        match find_node(nodes, ids.last()) {
            Some(n) => rest.push(n),
            None => rest,
        }
    }
}

// ---------------------------------------------------------------------------
// The search tree: visited ids, each with the position of the id it was reached from.
// ---------------------------------------------------------------------------

/// Number of tree edges from the root to entry `i`.
pub open spec fn depth(par: Seq<usize>, i: int) -> nat
    decreases i,
{
    if 0 < i < par.len() && par[i] < i {
        depth(par, par[i] as int) + 1
    } else {
        0
    }
}

/// The ids on the tree path from the root to entry `i`.
pub open spec fn chain(vis: Seq<Seq<char>>, par: Seq<usize>, i: int) -> Seq<Seq<char>>
    decreases i,
{
    if 0 < i < par.len() && par[i] < i {
        chain(vis, par, par[i] as int).push(vis[i])
    } else {
        seq![vis[0]]
    }
}

/// Every entry but the root is reached by an edge from an earlier entry.
pub open spec fn tree_ok(
    es: Seq<(Seq<char>, Seq<char>, Seq<char>)>,
    vis: Seq<Seq<char>>,
    par: Seq<usize>,
    root: Seq<char>,
) -> bool {
    &&& vis.len() == par.len()
    &&& vis.len() >= 1
    &&& vis[0] == root
    &&& forall|i: int| 0 < i < vis.len() ==> (#[trigger] par[i]) < i && step(es, vis[par[i] as int], vis[i])
}

proof fn lemma_depth_push(par: Seq<usize>, x: usize, i: int)
    requires
        0 <= i < par.len(),
    ensures
        depth(par.push(x), i) == depth(par, i),
    decreases i,
{
    if 0 < i && par[i] < i {
        lemma_depth_push(par, x, par[i] as int);
    }
}

proof fn lemma_chain_push(vis: Seq<Seq<char>>, par: Seq<usize>, v: Seq<char>, x: usize, i: int)
    requires
        0 <= i < par.len(),
        vis.len() == par.len(),
    ensures
        chain(vis.push(v), par.push(x), i) == chain(vis, par, i),
    decreases i,
{
    if 0 < i && par[i] < i {
        lemma_chain_push(vis, par, v, x, par[i] as int);
    }
}

/// The tree path to entry `i` is a walk from the root of length `depth + 1`.
proof fn lemma_chain_walk(
    es: Seq<(Seq<char>, Seq<char>, Seq<char>)>,
    vis: Seq<Seq<char>>,
    par: Seq<usize>,
    root: Seq<char>,
    i: int,
)
    requires
        tree_ok(es, vis, par, root),
        0 <= i < vis.len(),
    ensures
        walk_between(es, chain(vis, par, i), root, vis[i]),
        chain(vis, par, i).len() == depth(par, i) + 1,
    decreases i,
{
    if i > 0 {
        let pi = par[i] as int;
        assert(par[i] < i);
        lemma_chain_walk(es, vis, par, root, pi);
        let c = chain(vis, par, pi);
        let d = c.push(vis[i]);
        assert(chain(vis, par, i) == d);
        assert forall|k: int| 0 <= k < d.len() - 1 implies #[trigger] linked_at(es, d, k) by {
            if k < c.len() - 1 {
                assert(linked_at(es, c, k));
                assert(d[k] == c[k] && d[k + 1] == c[k + 1]);
            } else {
                assert(d[k] == vis[pi]);
                assert(d[k + 1] == vis[i]);
            }
        }
    }
}

/// A walk with a last step: its prefix is a walk, and the last step is an edge.
proof fn lemma_walk_prefix(es: Seq<(Seq<char>, Seq<char>, Seq<char>)>, p: Seq<Seq<char>>)
    requires
        is_walk(es, p),
        p.len() >= 2,
    ensures
        is_walk(es, p.drop_last()),
        step(es, p[p.len() - 2], p[p.len() - 1]),
{
    let d = p.drop_last();
    assert forall|k: int| 0 <= k < d.len() - 1 implies #[trigger] linked_at(es, d, k) by {
        assert(linked_at(es, p, k));
    }
    assert(linked_at(es, p, p.len() - 2));
}

/// Extending the tree path of entry `i` by one edge gives a walk one longer.
proof fn lemma_chain_extend(
    es: Seq<(Seq<char>, Seq<char>, Seq<char>)>,
    vis: Seq<Seq<char>>,
    par: Seq<usize>,
    root: Seq<char>,
    i: int,
    v: Seq<char>,
)
    requires
        tree_ok(es, vis, par, root),
        0 <= i < vis.len(),
        step(es, vis[i], v),
    ensures
        walk_between(es, chain(vis, par, i).push(v), root, v),
        chain(vis, par, i).push(v).len() == depth(par, i) + 2,
{
    lemma_chain_walk(es, vis, par, root, i);
    let c = chain(vis, par, i);
    let d = c.push(v);
    assert forall|k: int| 0 <= k < d.len() - 1 implies #[trigger] linked_at(es, d, k) by {
        if k < c.len() - 1 {
            assert(linked_at(es, c, k));
            assert(d[k] == c[k] && d[k + 1] == c[k + 1]);
        } else {
            assert(d[k] == vis[i]);
        }
    }
}

/// A tree without repeated ids has at most one entry per edge, plus the root.
proof fn lemma_tree_size(
    es: Seq<(Seq<char>, Seq<char>, Seq<char>)>,
    vis: Seq<Seq<char>>,
    par: Seq<usize>,
    root: Seq<char>,
)
    requires
        tree_ok(es, vis, par, root),
        vis.no_duplicates(),
    ensures
        vis.len() <= es.len() + 1,
{
    let rest = vis.drop_first();
    let targets = es.map_values(|e: (Seq<char>, Seq<char>, Seq<char>)| e.1);
    assert(rest.no_duplicates()) by {
        assert forall|a: int, b: int| 0 <= a < b < rest.len() implies rest[a] != rest[b] by {
            assert(rest[a] == vis[a + 1] && rest[b] == vis[b + 1]);
        }
    }
    rest.unique_seq_to_set();
    assert(rest.to_set().subset_of(targets.to_set())) by {
        assert forall|x: Seq<char>| rest.to_set().contains(x) implies targets.to_set().contains(x) by {
            let a = choose|a: int| 0 <= a < rest.len() && rest[a] == x;
            assert(rest[a] == vis[a + 1]);
            assert(step(es, vis[par[a + 1] as int], vis[a + 1]));
            let j = choose|j: int| #[trigger] edge_at(es, j, vis[par[a + 1] as int], vis[a + 1]);
            assert(targets[j] == x);
        }
    }
    targets.lemma_cardinality_of_set();
    vstd::set_lib::lemma_len_subset(rest.to_set(), targets.to_set());
}

/// When no tree entry is at the frontier depth, every id reachable from the root is in the tree.
proof fn lemma_closed(
    es: Seq<(Seq<char>, Seq<char>, Seq<char>)>,
    vis: Seq<Seq<char>>,
    par: Seq<usize>,
    root: Seq<char>,
    level: nat,
    p: Seq<Seq<char>>,
    k: int,
)
    requires
        tree_ok(es, vis, par, root),
        forall|i: int| 0 <= i < vis.len() ==> depth(par, i) < level,
        forall|v: Seq<char>, q: Seq<Seq<char>>|
            #[trigger] walk_between(es, q, root, v) && q.len() <= level + 1 ==> vis.contains(v),
        is_walk(es, p),
        p[0] == root,
        0 <= k < p.len(),
    ensures
        vis.contains(p[k]),
    decreases k,
{
    if k == 0 {
        assert(vis[0] == root);
    } else {
        lemma_closed(es, vis, par, root, level, p, k - 1);
        let i = choose|i: int| 0 <= i < vis.len() && vis[i] == p[k - 1];
        assert(linked_at(es, p, k - 1));
        lemma_chain_extend(es, vis, par, root, i, p[k]);
        let w = chain(vis, par, i).push(p[k]);
        assert(walk_between(es, w, root, p[k]));
    }
}

// ---------------------------------------------------------------------------
// Which shortest walk comes first: walks are ranked by the positions of the
// edges they take, compared lexicographically.
// ---------------------------------------------------------------------------

/// Edge `j` is the first edge from `u` to `v`.
pub open spec fn is_first_edge(es: Seq<(Seq<char>, Seq<char>, Seq<char>)>, j: int, u: Seq<char>, v: Seq<char>) -> bool {
    edge_at(es, j, u, v) && forall|i: int| 0 <= i < j ==> !#[trigger] edge_at(es, i, u, v)
}

/// The position of the first edge from `u` to `v`.
pub open spec fn first_edge(es: Seq<(Seq<char>, Seq<char>, Seq<char>)>, u: Seq<char>, v: Seq<char>) -> int {
    choose|j: int| is_first_edge(es, j, u, v)
}

/// The edge positions a walk takes, each step by the first edge joining its two ids.
pub open spec fn walk_key(es: Seq<(Seq<char>, Seq<char>, Seq<char>)>, p: Seq<Seq<char>>) -> Seq<int> {
    Seq::new((p.len() - 1) as nat, |k: int| first_edge(es, p[k], p[k + 1]))
}

/// `a` and `b` agree before position `k` and `a` is smaller at `k`.
pub open spec fn lex_at(a: Seq<int>, b: Seq<int>, k: int) -> bool {
    0 <= k < a.len() && a.take(k) == b.take(k) && a[k] < b[k]
}

/// `a` comes strictly before `b`, both of one length, in lexicographic order.
pub open spec fn lex_lt(a: Seq<int>, b: Seq<int>) -> bool {
    a.len() == b.len() && exists|k: int| #[trigger] lex_at(a, b, k)
}

/// `a` is `b` or comes before it.
pub open spec fn lex_le(a: Seq<int>, b: Seq<int>) -> bool {
    a == b || lex_lt(a, b)
}

/// `p` is a shortest walk from `a` to `b` whose edge positions come first among all of them.
pub open spec fn first_shortest_walk(
    es: Seq<(Seq<char>, Seq<char>, Seq<char>)>,
    p: Seq<Seq<char>>,
    a: Seq<char>,
    b: Seq<char>,
) -> bool {
    shortest_walk(es, p, a, b) && forall|q: Seq<Seq<char>>| #[trigger] shortest_walk(es, q, a, b) ==> lex_le(
        walk_key(es, p),
        walk_key(es, q),
    )
}

proof fn lemma_first_edge(es: Seq<(Seq<char>, Seq<char>, Seq<char>)>, j: int, u: Seq<char>, v: Seq<char>)
    requires
        is_first_edge(es, j, u, v),
    ensures
        first_edge(es, u, v) == j,
{
    let c = first_edge(es, u, v);
    assert(is_first_edge(es, c, u, v));
    if c < j {
        assert(!edge_at(es, c, u, v));
    } else if c > j {
        assert(!edge_at(es, j, u, v));
    }
}

proof fn lemma_key_push(es: Seq<(Seq<char>, Seq<char>, Seq<char>)>, c: Seq<Seq<char>>, x: Seq<char>)
    requires
        c.len() >= 1,
    ensures
        walk_key(es, c.push(x)) == walk_key(es, c).push(first_edge(es, c[c.len() - 1], x)),
{
    let d = c.push(x);
    assert forall|k: int| 0 <= k < d.len() - 1 implies #[trigger] walk_key(es, d)[k] == walk_key(es, c).push(
        first_edge(es, c[c.len() - 1], x),
    )[k] by {
        if k < c.len() - 1 {
            assert(d[k] == c[k] && d[k + 1] == c[k + 1]);
        }
    }
    assert(walk_key(es, d) =~= walk_key(es, c).push(first_edge(es, c[c.len() - 1], x)));
}

proof fn lemma_lex_push_prefix(a: Seq<int>, b: Seq<int>, x: int, y: int)
    requires
        lex_lt(a, b),
    ensures
        lex_lt(a.push(x), b.push(y)),
{
    let k = choose|k: int| #[trigger] lex_at(a, b, k);
    assert(a.push(x).take(k) =~= a.take(k));
    assert(b.push(y).take(k) =~= b.take(k));
    assert(lex_at(a.push(x), b.push(y), k));
}

proof fn lemma_lex_push_last(a: Seq<int>, x: int, y: int)
    requires
        x < y,
    ensures
        lex_lt(a.push(x), a.push(y)),
{
    let k = a.len() as int;
    assert(a.push(x).take(k) =~= a);
    assert(a.push(y).take(k) =~= a);
    assert(lex_at(a.push(x), a.push(y), k));
}

proof fn lemma_lex_trans(a: Seq<int>, b: Seq<int>, c: Seq<int>)
    requires
        lex_lt(a, b),
        lex_le(b, c),
    ensures
        lex_lt(a, c),
{
    if b != c {
        let k1 = choose|k: int| #[trigger] lex_at(a, b, k);
        let k2 = choose|k: int| #[trigger] lex_at(b, c, k);
        if k1 <= k2 {
            assert(a.take(k1) =~= c.take(k1)) by {
                assert forall|i: int| 0 <= i < k1 implies a.take(k1)[i] == c.take(k1)[i] by {
                    assert(a.take(k1)[i] == b.take(k1)[i]);
                    assert(b.take(k2)[i] == c.take(k2)[i]);
                }
            }
            if k1 < k2 {
                assert(b.take(k2)[k1] == c.take(k2)[k1]);
            }
            assert(lex_at(a, c, k1));
        } else {
            assert(a.take(k2) =~= c.take(k2)) by {
                assert forall|i: int| 0 <= i < k2 implies a.take(k2)[i] == c.take(k2)[i] by {
                    assert(a.take(k1)[i] == b.take(k1)[i]);
                    assert(b.take(k2)[i] == c.take(k2)[i]);
                }
            }
            assert(a.take(k1)[k2] == b.take(k1)[k2]);
            assert(lex_at(a, c, k2));
        }
    }
}

/// The edge positions of the tree path to entry `i`.
pub open spec fn tree_key(
    es: Seq<(Seq<char>, Seq<char>, Seq<char>)>,
    vis: Seq<Seq<char>>,
    par: Seq<usize>,
    i: int,
) -> Seq<int> {
    walk_key(es, chain(vis, par, i))
}

/// A tree entry's key is its parent's key and the first edge from the parent to it.
proof fn lemma_tree_key_step(
    es: Seq<(Seq<char>, Seq<char>, Seq<char>)>,
    vis: Seq<Seq<char>>,
    par: Seq<usize>,
    root: Seq<char>,
    i: int,
)
    requires
        tree_ok(es, vis, par, root),
        0 < i < vis.len(),
    ensures
        tree_key(es, vis, par, i) == tree_key(es, vis, par, par[i] as int).push(
            first_edge(es, vis[par[i] as int], vis[i]),
        ),
{
    let pi = par[i] as int;
    lemma_chain_walk(es, vis, par, root, pi);
    let c = chain(vis, par, pi);
    assert(chain(vis, par, i) == c.push(vis[i]));
    lemma_key_push(es, c, vis[i]);
}

/// An id `v` not yet in the tree, reached from frontier entry `idx` by the first
/// edge `j` joining them, while the frontier entries before `idx` are fully
/// scanned: extending the tree path of `idx` by `j` gives the least key among
/// the walks to `v` one step longer than the frontier.
proof fn lemma_new_entry_first(
    es: Seq<(Seq<char>, Seq<char>, Seq<char>)>,
    vis: Seq<Seq<char>>,
    par: Seq<usize>,
    root: Seq<char>,
    lo: int,
    hi0: int,
    idx: int,
    j: int,
    level: nat,
    v: Seq<char>,
)
    requires
        tree_ok(es, vis, par, root),
        0 <= lo <= idx < hi0 <= vis.len(),
        !vis.contains(v),
        is_first_edge(es, j, vis[idx], v),
        forall|i: int| 0 <= i < lo ==> depth(par, i) < level,
        forall|i: int| lo <= i < hi0 ==> depth(par, i) == level,
        forall|w: Seq<char>, q: Seq<Seq<char>>|
            #[trigger] walk_between(es, q, root, w) && q.len() <= level + 1 ==> vis.take(hi0).contains(w),
        forall|i: int, jj: int| lo <= i < idx && 0 <= jj < es.len() ==> #[trigger] scanned(es, vis, i, jj),
        forall|i: int, q: Seq<Seq<char>>|
            0 <= i < vis.len() && #[trigger] walk_between(es, q, root, vis[i]) && q.len() == depth(par, i) + 1
                ==> lex_le(tree_key(es, vis, par, i), walk_key(es, q)),
        forall|i: int, k: int|
            lo <= i < k < hi0 ==> lex_lt(#[trigger] tree_key(es, vis, par, i), #[trigger] tree_key(es, vis, par, k)),
    ensures
        forall|q: Seq<Seq<char>>|
            #[trigger] walk_between(es, q, root, v) && q.len() == level + 2 ==> lex_le(
                tree_key(es, vis, par, idx).push(j),
                walk_key(es, q),
            ),
{
    assert forall|q: Seq<Seq<char>>| #[trigger] walk_between(es, q, root, v) && q.len() == level + 2 implies lex_le(
        tree_key(es, vis, par, idx).push(j),
        walk_key(es, q),
    ) by {
        lemma_walk_prefix(es, q);
        let d = q.drop_last();
        let w = q[q.len() - 2];
        assert(walk_between(es, d, root, w));
        assert(vis.take(hi0).contains(w));
        let iw = choose|iw: int| 0 <= iw < vis.take(hi0).len() && vis.take(hi0)[iw] == w;
        assert(vis.take(hi0).len() == hi0);
        assert(vis.take(hi0)[iw] == vis[iw]);
        assert(vis[iw] == w);
        let jq = choose|jq: int| #[trigger] edge_at(es, jq, w, v);
        if iw < lo {
            lemma_chain_extend(es, vis, par, root, iw, v);
            let c = chain(vis, par, iw).push(v);
            assert(walk_between(es, c, root, v));
            assert(vis.take(hi0).contains(v));
            let a = choose|a: int| 0 <= a < vis.take(hi0).len() && vis.take(hi0)[a] == v;
            assert(vis[a] == v);
            assert(false);
        }
        if iw < idx {
            assert(scanned(es, vis, iw, jq));
            assert(false);
        }
        assert(walk_between(es, d, root, vis[iw]) && d.len() == depth(par, iw) + 1);
        assert(lex_le(tree_key(es, vis, par, iw), walk_key(es, d)));
        assert(q =~= d.push(v));
        lemma_key_push(es, d, v);
        assert(d[d.len() - 1] == w);
        let tk = tree_key(es, vis, par, idx);
        if iw == idx {
            lemma_first_edge(es, j, w, v);
            if tk != walk_key(es, d) {
                lemma_lex_push_prefix(tk, walk_key(es, d), j, j);
            }
        } else {
            assert(lex_lt(tk, tree_key(es, vis, par, iw)));
            lemma_lex_trans(tk, tree_key(es, vis, par, iw), walk_key(es, d));
            lemma_lex_push_prefix(tk, walk_key(es, d), j, first_edge(es, w, v));
        }
    }
}

/// The entries of the next level come in key order before the tree path of
/// frontier entry `idx` extended by an edge `j` later than any taken from it.
proof fn lemma_new_entry_last(
    es: Seq<(Seq<char>, Seq<char>, Seq<char>)>,
    vis: Seq<Seq<char>>,
    par: Seq<usize>,
    root: Seq<char>,
    lo: int,
    hi0: int,
    idx: int,
    j: int,
    level: nat,
)
    requires
        tree_ok(es, vis, par, root),
        0 <= lo <= idx < hi0 <= vis.len(),
        forall|i: int| 0 <= i < lo ==> depth(par, i) < level,
        forall|i: int| lo <= i < hi0 ==> depth(par, i) == level,
        forall|i: int| hi0 <= i < vis.len() ==> depth(par, i) == level + 1,
        forall|i: int, k: int|
            lo <= i < k < hi0 ==> lex_lt(#[trigger] tree_key(es, vis, par, i), #[trigger] tree_key(es, vis, par, k)),
        forall|i: int|
            hi0 <= i < vis.len() ==> (#[trigger] par[i] as int) < idx || (par[i] == idx && first_edge(
                es,
                vis[idx],
                vis[i],
            ) < j),
    ensures
        forall|i: int|
            hi0 <= i < vis.len() ==> lex_lt(#[trigger] tree_key(es, vis, par, i), tree_key(es, vis, par, idx).push(j)),
{
    assert forall|i: int| hi0 <= i < vis.len() implies lex_lt(
        #[trigger] tree_key(es, vis, par, i),
        tree_key(es, vis, par, idx).push(j),
    ) by {
        let pi = par[i] as int;
        assert(par[i] < i);
        lemma_tree_key_step(es, vis, par, root, i);
        assert(depth(par, i) == depth(par, pi) + 1);
        let fe = first_edge(es, vis[pi], vis[i]);
        if pi < idx {
            assert(lex_lt(tree_key(es, vis, par, pi), tree_key(es, vis, par, idx)));
            lemma_lex_push_prefix(tree_key(es, vis, par, pi), tree_key(es, vis, par, idx), fe, j);
        } else {
            lemma_lex_push_last(tree_key(es, vis, par, idx), fe, j);
        }
    }
}

/// Appending `v`, reached from frontier entry `idx` by edge `j`, keeps the
/// tree paths least among walks of their length, and each level in key order.
proof fn lemma_push_keys(
    es: Seq<(Seq<char>, Seq<char>, Seq<char>)>,
    vis: Seq<Seq<char>>,
    par: Seq<usize>,
    root: Seq<char>,
    lo: int,
    hi0: int,
    idx: usize,
    j: int,
    level: nat,
    v: Seq<char>,
)
    requires
        tree_ok(es, vis, par, root),
        tree_ok(es, vis.push(v), par.push(idx), root),
        0 <= lo <= idx < hi0 <= vis.len(),
        !vis.contains(v),
        edge_at(es, j, vis[idx as int], v),
        forall|jj: int| 0 <= jj < j ==> #[trigger] scanned(es, vis, idx as int, jj),
        forall|i: int| 0 <= i < lo ==> depth(par, i) < level,
        forall|i: int| lo <= i < hi0 ==> depth(par, i) == level,
        forall|i: int| hi0 <= i < vis.len() ==> depth(par, i) == level + 1,
        forall|w: Seq<char>, q: Seq<Seq<char>>|
            #[trigger] walk_between(es, q, root, w) && q.len() <= level + 1 ==> vis.take(hi0).contains(w),
        forall|i: int, jj: int| lo <= i < idx && 0 <= jj < es.len() ==> #[trigger] scanned(es, vis, i, jj),
        forall|i: int, q: Seq<Seq<char>>|
            0 <= i < vis.len() && #[trigger] walk_between(es, q, root, vis[i]) && q.len() == depth(par, i) + 1
                ==> lex_le(tree_key(es, vis, par, i), walk_key(es, q)),
        forall|i: int, k: int|
            lo <= i < k < hi0 ==> lex_lt(#[trigger] tree_key(es, vis, par, i), #[trigger] tree_key(es, vis, par, k)),
        forall|i: int, k: int|
            hi0 <= i < k < vis.len() ==> lex_lt(
                #[trigger] tree_key(es, vis, par, i),
                #[trigger] tree_key(es, vis, par, k),
            ),
        forall|i: int|
            hi0 <= i < vis.len() ==> (#[trigger] par[i] as int) < idx || (par[i] == idx && first_edge(
                es,
                vis[idx as int],
                vis[i],
            ) < j),
    ensures
        forall|i: int, q: Seq<Seq<char>>|
            0 <= i < vis.len() + 1 && #[trigger] walk_between(es, q, root, vis.push(v)[i]) && q.len() == depth(
                par.push(idx),
                i,
            ) + 1 ==> lex_le(tree_key(es, vis.push(v), par.push(idx), i), walk_key(es, q)),
        forall|i: int, k: int|
            lo <= i < k < hi0 ==> lex_lt(
                #[trigger] tree_key(es, vis.push(v), par.push(idx), i),
                #[trigger] tree_key(es, vis.push(v), par.push(idx), k),
            ),
        forall|i: int, k: int|
            hi0 <= i < k < vis.len() + 1 ==> lex_lt(
                #[trigger] tree_key(es, vis.push(v), par.push(idx), i),
                #[trigger] tree_key(es, vis.push(v), par.push(idx), k),
            ),
        forall|i: int|
            hi0 <= i < vis.len() + 1 ==> (#[trigger] par.push(idx)[i] as int) < idx || (par.push(idx)[i] == idx
                && first_edge(es, vis.push(v)[idx as int], vis.push(v)[i]) < j + 1),
{
    let nv = vis.push(v);
    let np = par.push(idx);
    let last = vis.len() as int;
    let ii = idx as int;
    assert forall|jj: int| 0 <= jj < j implies !#[trigger] edge_at(es, jj, vis[ii], v) by {
        assert(scanned(es, vis, ii, jj));
        if edge_at(es, jj, vis[ii], v) {
            assert(vis.contains(v));
        }
    }
    assert(is_first_edge(es, j, vis[ii], v));
    lemma_first_edge(es, j, vis[ii], v);
    lemma_new_entry_first(es, vis, par, root, lo, hi0, ii, j, level, v);
    lemma_new_entry_last(es, vis, par, root, lo, hi0, ii, j, level);
    assert forall|i: int| 0 <= i < last implies #[trigger] tree_key(es, nv, np, i) == tree_key(es, vis, par, i)
        && depth(np, i) == depth(par, i) by {
        lemma_chain_push(vis, par, v, idx, i);
        lemma_depth_push(par, idx, i);
    }
    lemma_depth_push(par, idx, ii);
    assert(depth(np, last) == depth(par, ii) + 1);
    lemma_tree_key_step(es, nv, np, root, last);
    assert(nv[ii] == vis[ii] && nv[last] == v && np[last] == idx);
    assert(tree_key(es, nv, np, ii) == tree_key(es, vis, par, ii));
    assert(tree_key(es, nv, np, last) == tree_key(es, vis, par, ii).push(j));
    assert forall|i: int, q: Seq<Seq<char>>|
        0 <= i < last + 1 && #[trigger] walk_between(es, q, root, nv[i]) && q.len() == depth(np, i) + 1 implies lex_le(
        tree_key(es, nv, np, i),
        walk_key(es, q),
    ) by {
        if i < last {
            assert(tree_key(es, nv, np, i) == tree_key(es, vis, par, i) && depth(np, i) == depth(par, i));
            assert(nv[i] == vis[i]);
        }
    }
    assert forall|i: int, k: int| lo <= i < k < hi0 implies lex_lt(
        #[trigger] tree_key(es, nv, np, i),
        #[trigger] tree_key(es, nv, np, k),
    ) by {
        assert(tree_key(es, nv, np, i) == tree_key(es, vis, par, i));
        assert(tree_key(es, nv, np, k) == tree_key(es, vis, par, k));
    }
    assert forall|i: int, k: int| hi0 <= i < k < last + 1 implies lex_lt(
        #[trigger] tree_key(es, nv, np, i),
        #[trigger] tree_key(es, nv, np, k),
    ) by {
        assert(tree_key(es, nv, np, i) == tree_key(es, vis, par, i));
        if k < last {
            assert(tree_key(es, nv, np, k) == tree_key(es, vis, par, k));
        } else {
            assert(lex_lt(tree_key(es, vis, par, i), tree_key(es, vis, par, ii).push(j)));
        }
    }
    assert forall|i: int| hi0 <= i < last + 1 implies (#[trigger] np[i] as int) < idx || (np[i] == idx && first_edge(
        es,
        nv[ii],
        nv[i],
    ) < j + 1) by {
        if i < last {
            assert(np[i] == par[i] && nv[i] == vis[i]);
        }
    }
}

/// If edge `j` leaves tree entry `i`, its target is in the tree.
pub open spec fn scanned(es: Seq<(Seq<char>, Seq<char>, Seq<char>)>, vis: Seq<Seq<char>>, i: int, j: int) -> bool {
    es[j].0 == vis[i] ==> vis.contains(es[j].1)
}

/// Position of `s` among `v`.
fn position_of(v: &Vec<String>, s: &str) -> (r: Option<usize>)
    ensures
        match r {
            Some(i) => i < v@.len() && v@[i as int]@ == s@,
            None => !views(v@).contains(s@),
        },
{
    let n = v.len();
    for i in 0..n
        invariant
            n == v@.len(),
            forall|j: int| 0 <= j < i ==> v@[j]@ != s@,
    {
        if str_eq(v[i].as_str(), s) {
            return Some(i);
        }
    }
    assert forall|j: int| 0 <= j < views(v@).len() implies views(v@)[j] != s@ by {
        assert(views(v@)[j] == v@[j]@);
    }
    None
}

/// The nodes on the tree path to entry `i`.
fn chain_nodes(graph: &CausalGraph, vis: &Vec<String>, par: &Vec<usize>, i: usize) -> (r: Vec<CausalNode>)
    requires
        i < vis@.len(),
        vis@.len() == par@.len(),
    ensures
        node_views(r@) == nodes_on(node_views(graph.nodes@), chain(views(vis@), par@, i as int)),
    decreases i,
{
    let ghost ns = node_views(graph.nodes@);
    let ghost vv = views(vis@);
    let mut r: Vec<CausalNode>;
    if 0 < i && par[i] < i {
        r = chain_nodes(graph, vis, par, par[i]);
        assert(chain(vv, par@, i as int) == chain(vv, par@, par@[i as int] as int).push(vv[i as int]));
    } else {
        r = Vec::new();
        assert(chain(vv, par@, i as int) == seq![vv[0]]);
    }
    let k = if 0 < i && par[i] < i { i } else { 0 };
    let ghost c = chain(vv, par@, i as int);
    assert(c.last() == vv[k as int]);
    assert(c.drop_last() =~= (if 0 < i && par@[i as int] < i { chain(vv, par@, par@[i as int] as int) } else { Seq::empty() }));
    proof {
        if !(0 < i && par@[i as int] < i) {
            assert(nodes_on(ns, Seq::<Seq<char>>::empty()) == Seq::<NodeView>::empty());
            assert(node_views(r@) =~= Seq::<NodeView>::empty());
        }
    }
    match node_by_id(graph, vis[k].as_str()) {
        Some(n) => {
            let ghost before = r@;
            r.push(n.duplicate());
            assert(node_views(r@) =~= node_views(before).push(n@));
        },
        None => {},
    }
    r
}

/// A shortest path of node ids from `from` to `to`, as the nodes those ids name:
/// breadth-first over the edges in order, the first path found, which is the
/// shortest walk whose edge positions come first lexicographically. From a node
/// to itself it is that node alone; with no path it is empty.
pub fn trace_path(graph: &CausalGraph, from: &str, to: &str) -> (r: Vec<CausalNode>)
    ensures
        from@ == to@ ==> node_views(r@) == nodes_on(node_views(graph.nodes@), seq![from@]),
        from@ != to@ && connected(edge_views(graph.edges@), from@, to@) ==> exists|p: Seq<Seq<char>>|
            first_shortest_walk(edge_views(graph.edges@), p, from@, to@) && node_views(r@) == nodes_on(
                node_views(graph.nodes@),
                p,
            ),
        from@ != to@ && !connected(edge_views(graph.edges@), from@, to@) ==> r@.len() == 0,
{
    let ghost es = edge_views(graph.edges@);
    let ghost ns = node_views(graph.nodes@);
    if str_eq(from, to) {
        let mut r: Vec<CausalNode> = Vec::new();
        match node_by_id(graph, from) {
            Some(n) => {
                r.push(n.duplicate());
                assert(node_views(r@) =~= seq![n@]);
            },
            None => {
                assert(node_views(r@) =~= Seq::<NodeView>::empty());
            },
        }
        assert(seq![from@].drop_last() =~= Seq::<Seq<char>>::empty());
        assert(seq![from@].last() == from@);
        assert(nodes_on(ns, Seq::<Seq<char>>::empty()) =~= Seq::<NodeView>::empty());
        return r;
    }
    let ne = graph.edges.len();
    let mut vis: Vec<String> = Vec::new();
    vis.push(owned(from));
    let mut par: Vec<usize> = Vec::new();
    par.push(0);
    let mut lo: usize = 0;
    let ghost mut level: nat = 0;
    proof {
        assert(views(vis@) =~= seq![from@]);
        assert forall|v: Seq<char>, q: Seq<Seq<char>>|
            #[trigger] walk_between(es, q, from@, v) && q.len() <= level + 1 implies views(vis@).contains(v) by {
            assert(q[0] == from@);
            assert(views(vis@)[0] == from@);
        }
        assert(depth(par@, 0) == 0);
        assert(chain(views(vis@), par@, 0) == seq![from@]);
        assert(tree_key(es, views(vis@), par@, 0) =~= Seq::<int>::empty());
        assert forall|i: int, q: Seq<Seq<char>>|
            0 <= i < vis@.len() && #[trigger] walk_between(es, q, from@, views(vis@)[i]) && q.len() == depth(par@, i)
                + 1 implies lex_le(tree_key(es, views(vis@), par@, i), walk_key(es, q)) by {
            assert(walk_key(es, q) =~= Seq::<int>::empty());
        }
    }
    while lo < vis.len()
        invariant
            ne == graph.edges@.len(),
            es == edge_views(graph.edges@),
            ns == node_views(graph.nodes@),
            from@ != to@,
            tree_ok(es, views(vis@), par@, from@),
            views(vis@).no_duplicates(),
            lo <= vis@.len() <= ne + 1,
            forall|i: int| 0 <= i < lo ==> depth(par@, i) < level,
            forall|i: int| lo <= i < vis@.len() ==> depth(par@, i) == level,
            forall|v: Seq<char>, q: Seq<Seq<char>>|
                #[trigger] walk_between(es, q, from@, v) && q.len() <= level + 1 ==> views(vis@).contains(v),
            forall|i: int, q: Seq<Seq<char>>|
                0 <= i < vis@.len() && #[trigger] walk_between(es, q, from@, views(vis@)[i]) ==> q.len()
                    >= depth(par@, i) + 1,
            forall|i: int, q: Seq<Seq<char>>|
                0 <= i < vis@.len() && #[trigger] walk_between(es, q, from@, views(vis@)[i]) && q.len() == depth(
                    par@,
                    i,
                ) + 1 ==> lex_le(tree_key(es, views(vis@), par@, i), walk_key(es, q)),
            forall|i: int, k: int|
                lo <= i < k < vis@.len() ==> lex_lt(
                    #[trigger] tree_key(es, views(vis@), par@, i),
                    #[trigger] tree_key(es, views(vis@), par@, k),
                ),
            !views(vis@).contains(to@),
        decreases ne + 1 - lo,
    {
        let hi0 = vis.len();
        let ghost vis0 = views(vis@);
        let mut idx = lo;
        while idx < hi0
            invariant
                ne == graph.edges@.len(),
                es == edge_views(graph.edges@),
                ns == node_views(graph.nodes@),
                from@ != to@,
                lo <= idx <= hi0 <= vis@.len(),
                lo < hi0,
                vis0.len() == hi0,
                views(vis@).take(hi0 as int) == vis0,
                tree_ok(es, views(vis@), par@, from@),
                views(vis@).no_duplicates(),
                forall|i: int| 0 <= i < lo ==> depth(par@, i) < level,
                forall|i: int| lo <= i < hi0 ==> depth(par@, i) == level,
                forall|i: int| hi0 <= i < vis@.len() ==> depth(par@, i) == level + 1,
                forall|v: Seq<char>, q: Seq<Seq<char>>|
                    #[trigger] walk_between(es, q, from@, v) && q.len() <= level + 1 ==> vis0.contains(v),
                forall|i: int, j: int| lo <= i < idx && 0 <= j < ne ==> #[trigger] scanned(es, views(vis@), i, j),
                forall|i: int, q: Seq<Seq<char>>|
                    0 <= i < vis@.len() && #[trigger] walk_between(es, q, from@, views(vis@)[i]) ==> q.len()
                        >= depth(par@, i) + 1,
                forall|i: int, q: Seq<Seq<char>>|
                    0 <= i < vis@.len() && #[trigger] walk_between(es, q, from@, views(vis@)[i]) && q.len() == depth(
                        par@,
                        i,
                    ) + 1 ==> lex_le(tree_key(es, views(vis@), par@, i), walk_key(es, q)),
                forall|i: int, k: int|
                    lo <= i < k < hi0 ==> lex_lt(
                        #[trigger] tree_key(es, views(vis@), par@, i),
                        #[trigger] tree_key(es, views(vis@), par@, k),
                    ),
                forall|i: int, k: int|
                    hi0 <= i < k < vis@.len() ==> lex_lt(
                        #[trigger] tree_key(es, views(vis@), par@, i),
                        #[trigger] tree_key(es, views(vis@), par@, k),
                    ),
                forall|i: int| hi0 <= i < vis@.len() ==> (#[trigger] par@[i] as int) < idx,
                !views(vis@).contains(to@),
            decreases hi0 - idx,
        {
            let mut j: usize = 0;
            while j < ne
                invariant
                    ne == graph.edges@.len(),
                    es == edge_views(graph.edges@),
                    ns == node_views(graph.nodes@),
                    from@ != to@,
                    lo <= idx < hi0 <= vis@.len(),
                    j <= ne,
                    vis0.len() == hi0,
                    views(vis@).take(hi0 as int) == vis0,
                    tree_ok(es, views(vis@), par@, from@),
                    views(vis@).no_duplicates(),
                    forall|i: int| 0 <= i < lo ==> depth(par@, i) < level,
                    forall|i: int| lo <= i < hi0 ==> depth(par@, i) == level,
                    forall|i: int| hi0 <= i < vis@.len() ==> depth(par@, i) == level + 1,
                    forall|v: Seq<char>, q: Seq<Seq<char>>|
                        #[trigger] walk_between(es, q, from@, v) && q.len() <= level + 1 ==> vis0.contains(v),
                    forall|i: int, jj: int| lo <= i < idx && 0 <= jj < ne ==> #[trigger] scanned(es, views(vis@), i, jj),
                    forall|jj: int| 0 <= jj < j ==> #[trigger] scanned(es, views(vis@), idx as int, jj),
                    forall|i: int, q: Seq<Seq<char>>|
                        0 <= i < vis@.len() && #[trigger] walk_between(es, q, from@, views(vis@)[i])
                            ==> q.len() >= depth(par@, i) + 1,
                    forall|i: int, q: Seq<Seq<char>>|
                        0 <= i < vis@.len() && #[trigger] walk_between(es, q, from@, views(vis@)[i]) && q.len() == depth(
                            par@,
                            i,
                        ) + 1 ==> lex_le(tree_key(es, views(vis@), par@, i), walk_key(es, q)),
                    forall|i: int, k: int|
                        lo <= i < k < hi0 ==> lex_lt(
                            #[trigger] tree_key(es, views(vis@), par@, i),
                            #[trigger] tree_key(es, views(vis@), par@, k),
                        ),
                    forall|i: int, k: int|
                        hi0 <= i < k < vis@.len() ==> lex_lt(
                            #[trigger] tree_key(es, views(vis@), par@, i),
                            #[trigger] tree_key(es, views(vis@), par@, k),
                        ),
                    forall|i: int|
                        hi0 <= i < vis@.len() ==> (#[trigger] par@[i] as int) < idx || (par@[i] == idx && first_edge(
                            es,
                            views(vis@)[idx as int],
                            views(vis@)[i],
                        ) < j),
                    !views(vis@).contains(to@),
                decreases ne - j,
            {
                assert(es[j as int] == graph.edges@[j as int]@);
                let ghost vis_before = views(vis@);
                let is_from = str_eq(graph.edges[j].from.as_str(), vis[idx].as_str());
                if is_from {
                    let pos = position_of(&vis, graph.edges[j].to.as_str());
                    if let Some(at) = pos {
                        assert(vis_before[at as int] == es[j as int].1);
                        assert(vis_before.contains(es[j as int].1));
                    } else {
                        let ghost old_vis = views(vis@);
                        let ghost old_par = par@;
                        let ghost v = es[j as int].1;
                        proof {
                            assert(edge_at(es, j as int, old_vis[idx as int], v));
                            assert(step(es, old_vis[idx as int], v));
                        }
                        vis.push(graph.edges[j].to.clone());
                        par.push(idx);
                        proof {
                            let nv = views(vis@);
                            assert(nv =~= old_vis.push(v));
                            assert(nv.take(hi0 as int) =~= old_vis.take(hi0 as int));
                            let last = old_vis.len() as int;
                            assert forall|i: int| 0 < i < nv.len() implies (#[trigger] par@[i]) < i && step(
                                es,
                                nv[par@[i] as int],
                                nv[i],
                            ) by {
                                if i < last {
                                    assert(par@[i] == old_par[i]);
                                    assert(nv[i] == old_vis[i]);
                                    assert(nv[par@[i] as int] == old_vis[old_par[i] as int]);
                                }
                            }
                            assert(nv.no_duplicates()) by {
                                assert forall|a: int, b: int| 0 <= a < b < nv.len() implies nv[a] != nv[b] by {
                                    if b == last {
                                        assert(old_vis[a] == nv[a]);
                                    } else {
                                        assert(old_vis[a] == nv[a] && old_vis[b] == nv[b]);
                                    }
                                }
                            }
                            assert forall|i: int| 0 <= i < last implies #[trigger] depth(par@, i) == depth(old_par, i) by {
                                lemma_depth_push(old_par, idx, i);
                            }
                            assert(depth(par@, last) == depth(old_par, idx as int) + 1) by {
                                lemma_depth_push(old_par, idx, idx as int);
                            }
                            assert forall|x: Seq<char>| old_vis.contains(x) implies nv.contains(x) by {
                                let a = choose|a: int| 0 <= a < old_vis.len() && old_vis[a] == x;
                                assert(nv[a] == x);
                            }
                            assert(nv[last] == v);
                            assert forall|i: int, q: Seq<Seq<char>>|
                                0 <= i < nv.len() && #[trigger] walk_between(es, q, from@, nv[i]) implies q.len()
                                    >= depth(par@, i) + 1 by {
                                if i < last {
                                    assert(nv[i] == old_vis[i]);
                                    assert(walk_between(es, q, from@, old_vis[i]));
                                } else {
                                    if q.len() <= level + 1 {
                                        assert(vis0.contains(v));
                                        let a = choose|a: int| 0 <= a < vis0.len() && vis0[a] == v;
                                        assert(old_vis.take(hi0 as int)[a] == old_vis[a]);
                                        assert(old_vis.contains(v));
                                    }
                                }
                            }
                        }
                        proof {
                            lemma_push_keys(es, old_vis, old_par, from@, lo as int, hi0 as int, idx, j as int, level, v);
                        }
                        assert(views(vis@)[vis@.len() - 1] == es[j as int].1);
                        assert(views(vis@).contains(es[j as int].1));
                        if str_eq(graph.edges[j].to.as_str(), to) {
                            let found = vis.len() - 1;
                            let r = chain_nodes(graph, &vis, &par, found);
                            proof {
                                let nv = views(vis@);
                                let p = chain(nv, par@, found as int);
                                lemma_chain_walk(es, nv, par@, from@, found as int);
                                assert(nv[found as int] == to@);
                                assert forall|q: Seq<Seq<char>>| #[trigger] walk_between(es, q, from@, to@) implies p.len()
                                    <= q.len() by {
                                    assert(walk_between(es, q, from@, nv[found as int]));
                                }
                                assert(shortest_walk(es, p, from@, to@));
                                assert forall|q: Seq<Seq<char>>| #[trigger] shortest_walk(es, q, from@, to@) implies lex_le(
                                    walk_key(es, p),
                                    walk_key(es, q),
                                ) by {
                                    assert(walk_between(es, p, from@, to@));
                                    assert(walk_between(es, q, from@, nv[found as int]));
                                }
                            }
                            return r;
                        }
                    }
                }
                proof {
                    let nv = views(vis@);
                    assert(nv.len() >= vis_before.len());
                    assert forall|a: int| 0 <= a < vis_before.len() implies nv[a] == vis_before[a] by {
                        assert(nv.take(hi0 as int) == vis0);
                        if nv.len() > vis_before.len() {
                            assert(nv == vis_before.push(nv.last()));
                        }
                    }
                    assert forall|x: Seq<char>| vis_before.contains(x) implies nv.contains(x) by {
                        let a = choose|a: int| 0 <= a < vis_before.len() && vis_before[a] == x;
                        assert(nv[a] == x);
                    }
                    assert forall|i: int, jj: int| lo <= i < idx && 0 <= jj < ne implies #[trigger] scanned(
                        es,
                        nv,
                        i,
                        jj,
                    ) by {
                        assert(scanned(es, vis_before, i, jj));
                        assert(nv[i] == vis_before[i]);
                    }
                    assert forall|jj: int| 0 <= jj < j + 1 implies #[trigger] scanned(es, nv, idx as int, jj) by {
                        assert(nv[idx as int] == vis_before[idx as int]);
                        if jj < j {
                            assert(scanned(es, vis_before, idx as int, jj));
                        }
                    }
                }
                j = j + 1;
            }
            idx = idx + 1;
        }
        proof {
            let nv = views(vis@);
            lemma_tree_size(es, nv, par@, from@);
            assert forall|v: Seq<char>, q: Seq<Seq<char>>|
                #[trigger] walk_between(es, q, from@, v) && q.len() <= level + 2 implies nv.contains(v) by {
                if q.len() <= level + 1 {
                    assert(vis0.contains(v));
                    let a = choose|a: int| 0 <= a < vis0.len() && vis0[a] == v;
                    assert(nv.take(hi0 as int)[a] == nv[a]);
                } else {
                    lemma_walk_prefix(es, q);
                    let u = q[q.len() - 2];
                    let d = q.drop_last();
                    assert(walk_between(es, d, from@, u));
                    assert(vis0.contains(u));
                    let iu = choose|iu: int| 0 <= iu < vis0.len() && vis0[iu] == u;
                    assert(nv.take(hi0 as int)[iu] == nv[iu]);
                    assert(nv[iu] == u);
                    let jj = choose|jj: int| #[trigger] edge_at(es, jj, u, v);
                    if iu >= lo {
                        assert(es[jj].0 == nv[iu]);
                        assert(scanned(es, nv, iu, jj));
                    } else {
                        lemma_chain_extend(es, nv, par@, from@, iu, v);
                        let w = chain(nv, par@, iu).push(v);
                        assert(walk_between(es, w, from@, v));
                        assert(vis0.contains(v));
                        let a = choose|a: int| 0 <= a < vis0.len() && vis0[a] == v;
                        assert(nv.take(hi0 as int)[a] == nv[a]);
                    }
                }
            }
            level = level + 1;
        }
        lo = hi0;
    }
    proof {
        if connected(es, from@, to@) {
            let p = choose|p: Seq<Seq<char>>| #[trigger] walk_between(es, p, from@, to@);
            lemma_closed(es, views(vis@), par@, from@, level, p, p.len() - 1);
        }
    }
    Vec::new()
}

} // verus!
