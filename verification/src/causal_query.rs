//! Deterministic causal queries over a [`CausalGraph`]: immediate causes and
//! effects, paths, and the first structural divergence between two graphs.

use crate::causal_graph::{
    edge_views, node_views, outgoing_from_node_index, outgoing_spec, CausalGraph,
    CausalNode, NodeView,
};
use crate::causal_graph::{build_causal_graph, graph_of, node_id, node_of};
use crate::causal_path::trace_path;
use crate::text::{dec_text, owned, str_eq};
use crate::trace::{event_views, EventView, ExecutionEvent, ExecutionTrace};
use vstd::prelude::*;

verus! {

/// The first node of `nodes` with id `id`.
pub open spec fn find_node(nodes: Seq<NodeView>, id: Seq<char>) -> Option<NodeView>
    decreases nodes.len(),
{
    if nodes.len() == 0 {
        None
    } else if nodes[0].id == id {
        Some(nodes[0])
    } else {
        find_node(nodes.drop_first(), id)
    }
}

/// Looks up a node by id (first match).
pub fn node_by_id<'a>(g: &'a CausalGraph, id: &str) -> (r: Option<&'a CausalNode>)
    ensures
        match r {
            Some(n) => find_node(node_views(g.nodes@), id@) == Some(n@),
            None => find_node(node_views(g.nodes@), id@) is None,
        },
{
    let n = g.nodes.len();
    let ghost ns = node_views(g.nodes@);
    assert(ns.skip(0) == ns);
    for k in 0..n
        invariant
            n == g.nodes@.len(),
            ns == node_views(g.nodes@),
            find_node(ns, id@) == find_node(ns.skip(k as int), id@),
    {
        assert(ns.skip(k as int)[0] == g.nodes@[k as int]@);
        assert(ns.skip(k as int).drop_first() == ns.skip(k + 1));
        if str_eq(g.nodes[k].id.as_str(), id) {
            return Some(&g.nodes[k]);
        }
    }
    None
}

// ---------------------------------------------------------------------------
// Stable ordering by node index
// ---------------------------------------------------------------------------

/// Inserts `x` after every element whose index is not above its own.
pub open spec fn insert_by_index(sorted: Seq<NodeView>, x: NodeView) -> Seq<NodeView>
    decreases sorted.len(),
{
    if sorted.len() == 0 {
        seq![x]
    } else if sorted.last().index <= x.index {
        sorted.push(x)
    } else {
        insert_by_index(sorted.drop_last(), x).push(sorted.last())
    }
}

/// Stable sort by node index (what `sort_by_key(|n| n.index)` produces).
pub open spec fn sort_by_index(s: Seq<NodeView>) -> Seq<NodeView>
    decreases s.len(),
{
    if s.len() == 0 {
        Seq::empty()
    } else {
        insert_by_index(sort_by_index(s.drop_last()), s.last())
    }
}

/// Indexes never decrease along `s`.
pub open spec fn index_ascending(s: Seq<NodeView>) -> bool {
    forall|i: int, j: int| 0 <= i <= j < s.len() ==> #[trigger] s[i].index <= #[trigger] s[j].index
}

proof fn lemma_insert_at(s: Seq<NodeView>, p: int, x: NodeView)
    requires
        0 <= p <= s.len(),
        forall|j: int| p <= j < s.len() ==> #[trigger] s[j].index > x.index,
        p > 0 ==> s[p - 1].index <= x.index,
    ensures
        insert_by_index(s, x) == s.insert(p, x),
    decreases s.len(),
{
    if s.len() == 0 {
        assert(s.insert(p, x) =~= seq![x]);
    } else if p == s.len() {
        assert(s.insert(p, x) =~= s.push(x));
    } else {
        lemma_insert_at(s.drop_last(), p, x);
        assert(s.insert(p, x) =~= s.drop_last().insert(p, x).push(s.last()));
    }
}

/// Inserts `x` into an index-ordered vector after all entries whose index is not above its own.
fn insert_node(v: &mut Vec<CausalNode>, x: CausalNode)
    ensures
        node_views(final(v)@) == insert_by_index(node_views(old(v)@), x@),
{
    let ghost s = node_views(v@);
    let mut p = v.len();
    while p > 0 && v[p - 1].index > x.index
        invariant
            p <= v@.len(),
            s == node_views(v@),
            forall|j: int| p <= j < v@.len() ==> #[trigger] s[j].index > x.index,
        decreases p,
    {
        p = p - 1;
    }
    proof {
        lemma_insert_at(s, p as int, x@);
    }
    let ghost xv = x@;
    v.insert(p, x);
    assert(node_views(v@) =~= s.insert(p as int, xv));
}

/// Stable sort of nodes by index.
fn sort_nodes(v: Vec<CausalNode>) -> (r: Vec<CausalNode>)
    ensures
        node_views(r@) == sort_by_index(node_views(v@)),
{
    let mut r: Vec<CausalNode> = Vec::new();
    let n = v.len();
    let ghost s = node_views(v@);
    let mut rest = v;
    let mut i: usize = 0;
    assert(s.take(0) =~= Seq::<NodeView>::empty());
    assert(node_views(r@) =~= sort_by_index(s.take(0)));
    while i < n
        invariant
            n == s.len(),
            i <= n,
            node_views(rest@) == s.skip(i as int),
            rest@.len() == n - i,
            node_views(r@) == sort_by_index(s.take(i as int)),
        decreases n - i,
    {
        assert(node_views(rest@)[0] == rest@[0]@);
        let ghost r0 = rest@;
        let x = rest.remove(0);
        assert(rest@ == r0.subrange(1, r0.len() as int));
        assert(node_views(rest@) =~= node_views(r0).drop_first());
        assert(s.skip(i as int).drop_first() =~= s.skip(i + 1));
        assert(x@ == s[i as int]);
        assert(s.take(i + 1).drop_last() == s.take(i as int));
        assert(s.take(i + 1).last() == s[i as int]);
        insert_node(&mut r, x);
        i = i + 1;
    }
    assert(s.take(n as int) == s);
    r
}

proof fn lemma_insert_ascending(s: Seq<NodeView>, x: NodeView)
    requires
        index_ascending(s),
    ensures
        index_ascending(insert_by_index(s, x)),
        insert_by_index(s, x).len() == s.len() + 1,
    decreases s.len(),
{
    if s.len() > 0 && s.last().index > x.index {
        lemma_insert_ascending(s.drop_last(), x);
        let t = insert_by_index(s.drop_last(), x);
        // Every element of `t` is `x` or from `s.drop_last()`, all at most `s.last().index`.
        lemma_insert_members(s.drop_last(), x);
        assert forall|i: int, j: int| 0 <= i <= j < t.push(s.last()).len() implies #[trigger] t.push(
            s.last(),
        )[i].index <= #[trigger] t.push(s.last())[j].index by {
            if j == t.len() {
                if i < t.len() {
                    let w = t[i];
                    if w != x {
                        let k = choose|k: int| 0 <= k < s.drop_last().len() && s.drop_last()[k] == w;
                        assert(s[k] == w);
                    }
                }
            }
        }
    } else if s.len() > 0 {
        assert forall|i: int, j: int| 0 <= i <= j < s.push(x).len() implies #[trigger] s.push(x)[i].index
            <= #[trigger] s.push(x)[j].index by {
            if j == s.len() && i < s.len() {
                assert(s[i].index <= s[s.len() - 1].index);
            }
        }
    }
}

proof fn lemma_insert_members(s: Seq<NodeView>, x: NodeView)
    ensures
        forall|i: int|
            0 <= i < insert_by_index(s, x).len() ==> insert_by_index(s, x)[i] == x || exists|k: int|
                0 <= k < s.len() && s[k] == #[trigger] insert_by_index(s, x)[i],
        insert_by_index(s, x).len() == s.len() + 1,
    decreases s.len(),
{
    if s.len() > 0 && s.last().index > x.index {
        lemma_insert_members(s.drop_last(), x);
        let t = insert_by_index(s.drop_last(), x);
        assert forall|i: int| 0 <= i < t.push(s.last()).len() implies t.push(s.last())[i] == x || exists|
            k: int,
        | 0 <= k < s.len() && s[k] == #[trigger] t.push(s.last())[i] by {
            if i == t.len() {
                assert(s[s.len() - 1] == t.push(s.last())[i]);
            } else if t[i] != x {
                let k = choose|k: int| 0 <= k < s.drop_last().len() && s.drop_last()[k] == #[trigger] t[i];
                assert(s[k] == t.push(s.last())[i]);
            }
        }
    } else if s.len() > 0 {
        assert forall|i: int| 0 <= i < s.push(x).len() implies s.push(x)[i] == x || exists|k: int|
            0 <= k < s.len() && s[k] == #[trigger] s.push(x)[i] by {
            if i < s.len() {
                assert(s[i] == s.push(x)[i]);
            }
        }
    }
}

/// Sorting by index yields nodes in non-decreasing index order.
pub proof fn lemma_sort_by_index_ascending(s: Seq<NodeView>)
    ensures
        index_ascending(sort_by_index(s)),
        sort_by_index(s).len() == s.len(),
    decreases s.len(),
{
    if s.len() > 0 {
        lemma_sort_by_index_ascending(s.drop_last());
        lemma_insert_ascending(sort_by_index(s.drop_last()), s.last());
    }
}

// ---------------------------------------------------------------------------
// Causes and effects
// ---------------------------------------------------------------------------

/// The nodes at the other end of the edges of `es` that touch `id`, in edge
/// order: sources of edges into `id` when `incoming`, targets of edges out of
/// `id` otherwise. Ids without a node are skipped.
pub open spec fn linked(nodes: Seq<NodeView>, es: Seq<(Seq<char>, Seq<char>, Seq<char>)>, id: Seq<char>, incoming: bool) -> Seq<NodeView>
    decreases es.len(),
{
    if es.len() == 0 {
        Seq::empty()
    } else {
        let e = es.last();
        let (here, there) = if incoming { (e.1, e.0) } else { (e.0, e.1) };
        linked(nodes, es.drop_last(), id, incoming) + (if here == id && find_node(nodes, there) is Some {
            seq![find_node(nodes, there)->0]
        } else {
            Seq::empty()
        })
    }
}

fn linked_nodes(graph: &CausalGraph, node_id: &str, incoming: bool) -> (v: Vec<CausalNode>)
    ensures
        node_views(v@) == linked(node_views(graph.nodes@), edge_views(graph.edges@), node_id@, incoming),
{
    let mut v: Vec<CausalNode> = Vec::new();
    let n = graph.edges.len();
    let ghost es = edge_views(graph.edges@);
    let ghost ns = node_views(graph.nodes@);
    assert(es.take(0) =~= Seq::<(Seq<char>, Seq<char>, Seq<char>)>::empty());
    for k in 0..n
        invariant
            n == graph.edges@.len(),
            es == edge_views(graph.edges@),
            ns == node_views(graph.nodes@),
            node_views(v@) == linked(ns, es.take(k as int), node_id@, incoming),
    {
        let e = &graph.edges[k];
        assert(es.take(k + 1).drop_last() == es.take(k as int));
        assert(es.take(k + 1).last() == e@);
        let (here, there) = if incoming { (&e.to, &e.from) } else { (&e.from, &e.to) };
        if str_eq(here.as_str(), node_id) {
            match node_by_id(graph, there.as_str()) {
                Some(nd) => {
                    v.push(nd.duplicate());
                    assert(node_views(v@) =~= node_views(v@.drop_last()).push(nd@));
                },
                None => {},
            }
        }
    }
    assert(es.take(n as int) == es);
    v
}

/// Immediate predecessors of a node (sources of its incoming edges), ordered
/// by node index (stable for equal indices).
pub fn query_causes(graph: &CausalGraph, node_id: &str) -> (v: Vec<CausalNode>)
    ensures
        node_views(v@) == sort_by_index(linked(node_views(graph.nodes@), edge_views(graph.edges@), node_id@, true)),
        index_ascending(node_views(v@)),
{
    let raw = linked_nodes(graph, node_id, true);
    let v = sort_nodes(raw);
    proof {
        lemma_sort_by_index_ascending(linked(node_views(graph.nodes@), edge_views(graph.edges@), node_id@, true));
    }
    v
}

/// Immediate successors of a node (targets of its outgoing edges), ordered
/// by node index (stable for equal indices).
pub fn query_effects(graph: &CausalGraph, node_id: &str) -> (v: Vec<CausalNode>)
    ensures
        node_views(v@) == sort_by_index(linked(node_views(graph.nodes@), edge_views(graph.edges@), node_id@, false)),
        index_ascending(node_views(v@)),
{
    let raw = linked_nodes(graph, node_id, false);
    let v = sort_nodes(raw);
    proof {
        lemma_sort_by_index_ascending(linked(node_views(graph.nodes@), edge_views(graph.edges@), node_id@, false));
    }
    v
}

// ---------------------------------------------------------------------------
// First structural divergence
// ---------------------------------------------------------------------------

/// The smallest `i` in `k..n` with `p(i)`.
pub open spec fn first_from(k: int, n: int, p: spec_fn(int) -> bool) -> Option<int>
    decreases n - k,
{
    if k >= n {
        None
    } else if p(k) {
        Some(k)
    } else {
        first_from(k + 1, n, p)
    }
}

/// A found index lies in the searched range and satisfies the predicate.
pub proof fn lemma_first_from(k: int, n: int, p: spec_fn(int) -> bool)
    ensures
        first_from(k, n, p) matches Some(i) ==> k <= i < n && p(i),
        first_from(k, n, p) is None ==> forall|i: int| k <= i < n ==> !#[trigger] p(i),
    decreases n - k,
{
    if k < n && !p(k) {
        lemma_first_from(k + 1, n, p);
    }
}

/// Node `i` has a different kind in `a` and `b`.
pub open spec fn type_differs(a: CausalGraph, b: CausalGraph) -> spec_fn(int) -> bool {
    |i: int| a.nodes@[i].event_type@ != b.nodes@[i].event_type@
}

/// Node `i` has a different payload in `a` and `b`.
pub open spec fn surface_differs(a: CausalGraph, b: CausalGraph) -> spec_fn(int) -> bool {
    |i: int| a.nodes@[i].surface@ != b.nodes@[i].surface@
}

/// The first edge leaving node `i` differs, or exists in one graph only.
pub open spec fn outgoing_differs(a: CausalGraph, b: CausalGraph) -> spec_fn(int) -> bool {
    |i: int| outgoing_spec(a, i) != outgoing_spec(b, i)
}

/// The index of the first divergent node of two graphs of equal size: the
/// first kind change, else the first payload change, else the first change of
/// outgoing edge.
pub open spec fn divergence_index(a: CausalGraph, b: CausalGraph) -> Option<int> {
    let n = a.nodes@.len() as int;
    match first_from(0, n, type_differs(a, b)) {
        Some(i) => Some(i),
        None => match first_from(0, n, surface_differs(a, b)) {
            Some(i) => Some(i),
            None => first_from(0, n, outgoing_differs(a, b)),
        },
    }
}

/// The first divergent node: for graphs of different sizes, the node of the
/// larger graph just past the smaller one's end; otherwise `b`'s node at
/// [`divergence_index`].
pub open spec fn divergence_of(a: CausalGraph, b: CausalGraph) -> Option<NodeView> {
    if a.nodes@.len() < b.nodes@.len() {
        Some(b.nodes@[a.nodes@.len() as int]@)
    } else if a.nodes@.len() > b.nodes@.len() {
        Some(a.nodes@[b.nodes@.len() as int]@)
    } else {
        match divergence_index(a, b) {
            Some(i) => Some(b.nodes@[i]@),
            None => None,
        }
    }
}

fn first_type_change(a: &CausalGraph, b: &CausalGraph) -> (r: Option<usize>)
    requires
        a.nodes@.len() == b.nodes@.len(),
    ensures
        match r {
            Some(i) => first_from(0, a.nodes@.len() as int, type_differs(*a, *b)) == Some(i as int),
            None => first_from(0, a.nodes@.len() as int, type_differs(*a, *b)) is None,
        },
{
    let n = a.nodes.len();
    let ghost p = type_differs(*a, *b);
    for i in 0..n
        invariant
            n == a.nodes@.len(),
            n == b.nodes@.len(),
            p == type_differs(*a, *b),
            first_from(0, n as int, p) == first_from(i as int, n as int, p),
    {
        if !str_eq(a.nodes[i].event_type.as_str(), b.nodes[i].event_type.as_str()) {
            return Some(i);
        }
    }
    None
}

fn first_surface_change(a: &CausalGraph, b: &CausalGraph) -> (r: Option<usize>)
    requires
        a.nodes@.len() == b.nodes@.len(),
    ensures
        match r {
            Some(i) => first_from(0, a.nodes@.len() as int, surface_differs(*a, *b)) == Some(i as int),
            None => first_from(0, a.nodes@.len() as int, surface_differs(*a, *b)) is None,
        },
{
    let n = a.nodes.len();
    let ghost p = surface_differs(*a, *b);
    for i in 0..n
        invariant
            n == a.nodes@.len(),
            n == b.nodes@.len(),
            p == surface_differs(*a, *b),
            first_from(0, n as int, p) == first_from(i as int, n as int, p),
    {
        if !str_eq(a.nodes[i].surface.as_str(), b.nodes[i].surface.as_str()) {
            return Some(i);
        }
    }
    None
}

fn first_edge_change(a: &CausalGraph, b: &CausalGraph) -> (r: Option<usize>)
    requires
        a.nodes@.len() == b.nodes@.len(),
    ensures
        match r {
            Some(i) => first_from(0, a.nodes@.len() as int, outgoing_differs(*a, *b)) == Some(i as int),
            None => first_from(0, a.nodes@.len() as int, outgoing_differs(*a, *b)) is None,
        },
{
    let n = a.nodes.len();
    let ghost p = outgoing_differs(*a, *b);
    for i in 0..n
        invariant
            n == a.nodes@.len(),
            n == b.nodes@.len(),
            p == outgoing_differs(*a, *b),
            first_from(0, n as int, p) == first_from(i as int, n as int, p),
    {
        let differs = match (outgoing_from_node_index(a, i), outgoing_from_node_index(b, i)) {
            (Some(ea), Some(eb)) => !ea.same_as(eb),
            (Some(_), None) => true,
            (None, Some(_)) => true,
            (None, None) => false,
        };
        if differs {
            return Some(i);
        }
    }
    None
}

/// First structural divergence between two graphs (strict: size, then node
/// kind, then payload, then outgoing edge), reported as the node of `b`
/// (or of the larger graph when the sizes differ).
pub fn first_divergent_causal_node(a: &CausalGraph, b: &CausalGraph) -> (r: Option<CausalNode>)
    ensures
        match r {
            Some(n) => divergence_of(*a, *b) == Some(n@),
            None => divergence_of(*a, *b) is None,
        },
{
    if a.nodes.len() != b.nodes.len() {
        if a.nodes.len() < b.nodes.len() {
            return Some(b.nodes[a.nodes.len()].duplicate());
        }
        return Some(a.nodes[b.nodes.len()].duplicate());
    }
    proof {
        lemma_first_from(0, a.nodes@.len() as int, type_differs(*a, *b));
        lemma_first_from(0, a.nodes@.len() as int, surface_differs(*a, *b));
        lemma_first_from(0, a.nodes@.len() as int, outgoing_differs(*a, *b));
    }
    match first_type_change(a, b) {
        Some(i) => {
            return Some(b.nodes[i].duplicate());
        },
        None => {},
    }
    match first_surface_change(a, b) {
        Some(i) => {
            return Some(b.nodes[i].duplicate());
        },
        None => {},
    }
    match first_edge_change(a, b) {
        Some(i) => Some(b.nodes[i].duplicate()),
        None => None,
    }
}

// ---------------------------------------------------------------------------
// Self-check of the query API
// ---------------------------------------------------------------------------

/// Whether some node of `v` has id `id`.
fn any_with_id(v: &Vec<CausalNode>, id: &str) -> (r: bool)
    ensures
        r == exists|i: int| 0 <= i < v@.len() && (#[trigger] v@[i]).id@ == id@,
{
    let n = v.len();
    for i in 0..n
        invariant
            n == v@.len(),
            forall|j: int| 0 <= j < i ==> (#[trigger] v@[j]).id@ != id@,
    {
        if str_eq(v[i].id.as_str(), id) {
            return true;
        }
    }
    false
}

/// Equality of two node lists by content.
fn same_nodes(a: &Vec<CausalNode>, b: &Vec<CausalNode>) -> (r: bool)
    ensures
        r == (node_views(a@) == node_views(b@)),
{
    if a.len() != b.len() {
        assert(node_views(a@).len() != node_views(b@).len());
        return false;
    }
    let n = a.len();
    for i in 0..n
        invariant
            n == a@.len(),
            n == b@.len(),
            forall|j: int| 0 <= j < i ==> (#[trigger] a@[j])@ == b@[j]@,
    {
        let x = &a[i];
        let y = &b[i];
        if !(str_eq(x.id.as_str(), y.id.as_str()) && x.index == y.index && str_eq(
            x.event_type.as_str(),
            y.event_type.as_str(),
        ) && str_eq(x.surface.as_str(), y.surface.as_str())) {
            assert(node_views(a@)[i as int] != node_views(b@)[i as int]);
            return false;
        }
    }
    assert(node_views(a@) =~= node_views(b@));
    true
}

/// The graph of a three-event trace: nodes `n0`, `n1`, `n2` joined `n0 -> n1 -> n2`.
proof fn lemma_three_node_graph(evs: Seq<EventView>, g: CausalGraph)
    requires
        graph_of(g.run_id@, evs, g),
        evs.len() == 3,
    ensures
        node_views(g.nodes@).len() == 3,
        node_views(g.nodes@)[0].id == "n0"@,
        node_views(g.nodes@)[1].id == "n1"@,
        node_views(g.nodes@)[2].id == "n2"@,
        edge_views(g.edges@) == seq![
            ("n0"@, "n1"@, "precedes"@),
            ("n1"@, "n2"@, "precedes"@),
        ],
{
    reveal_strlit("n");
    reveal_strlit("n0");
    reveal_strlit("n1");
    reveal_strlit("n2");
    assert(dec_text(0) =~= seq!['0']);
    assert(dec_text(1) =~= seq!['1']);
    assert(dec_text(2) =~= seq!['2']);
    assert(node_id(0) =~= "n0"@);
    assert(node_id(1) =~= "n1"@);
    assert(node_id(2) =~= "n2"@);
    let ns = node_views(g.nodes@);
    assert(ns[0] == node_of(0, evs[0]));
    assert(ns[1] == node_of(1, evs[1]));
    assert(ns[2] == node_of(2, evs[2]));
    assert(edge_views(g.edges@) =~= seq![("n0"@, "n1"@, "precedes"@), ("n1"@, "n2"@, "precedes"@)]);
}

/// On the three-node graph, the cause of `n1` is `n0` and its effect is `n2`.
proof fn lemma_three_node_links(g: CausalGraph)
    requires
        node_views(g.nodes@).len() == 3,
        node_views(g.nodes@)[0].id == "n0"@,
        node_views(g.nodes@)[1].id == "n1"@,
        node_views(g.nodes@)[2].id == "n2"@,
        edge_views(g.edges@) == seq![
            ("n0"@, "n1"@, "precedes"@),
            ("n1"@, "n2"@, "precedes"@),
        ],
    ensures
        sort_by_index(linked(node_views(g.nodes@), edge_views(g.edges@), "n1"@, true)) == seq![
            node_views(g.nodes@)[0],
        ],
        sort_by_index(linked(node_views(g.nodes@), edge_views(g.edges@), "n1"@, false)) == seq![
            node_views(g.nodes@)[2],
        ],
{
    reveal_strlit("n0");
    reveal_strlit("n1");
    reveal_strlit("n2");
    let ns = node_views(g.nodes@);
    let es = edge_views(g.edges@);
    assert("n1"@ != "n2"@ && "n0"@ != "n2"@ && "n0"@ != "n1"@) by {
        assert("n1"@[1] != "n2"@[1]);
        assert("n0"@[1] != "n2"@[1]);
        assert("n0"@[1] != "n1"@[1]);
    }
    assert(find_node(ns.drop_first().drop_first(), "n2"@) == Some(ns[2])) by {
        assert(ns.drop_first().drop_first()[0] == ns[2]);
    }
    assert(find_node(ns.drop_first(), "n2"@) == Some(ns[2])) by {
        assert(ns.drop_first()[0] == ns[1]);
        assert(ns.drop_first().drop_first() == ns.drop_first().drop_first());
    }
    assert(find_node(ns, "n2"@) == Some(ns[2]));
    assert(find_node(ns, "n0"@) == Some(ns[0]));
    assert(es.drop_last() =~= seq![("n0"@, "n1"@, "precedes"@)]);
    assert(es.drop_last().drop_last() =~= Seq::<(Seq<char>, Seq<char>, Seq<char>)>::empty());
    assert("n2"@ != "n1"@);
    assert("n0"@ != "n1"@);
    let e0 = es.drop_last();
    assert(e0.last() == ("n0"@, "n1"@, "precedes"@));
    assert(es.last() == ("n1"@, "n2"@, "precedes"@));
    assert(linked(ns, e0.drop_last(), "n1"@, true) =~= Seq::<NodeView>::empty());
    assert(linked(ns, e0.drop_last(), "n1"@, false) =~= Seq::<NodeView>::empty());
    assert(linked(ns, e0, "n1"@, true) =~= seq![ns[0]]);
    assert(linked(ns, e0, "n1"@, false) =~= Seq::<NodeView>::empty());
    assert(linked(ns, es, "n1"@, true) =~= seq![ns[0]]);
    assert(linked(ns, es, "n1"@, false) =~= seq![ns[2]]);
    assert(seq![ns[0]].drop_last() =~= Seq::<NodeView>::empty());
    assert(seq![ns[2]].drop_last() =~= Seq::<NodeView>::empty());
    assert(sort_by_index(Seq::<NodeView>::empty()) =~= Seq::<NodeView>::empty());
    assert(seq![ns[0]].last() == ns[0]);
    assert(seq![ns[2]].last() == ns[2]);
    assert(insert_by_index(Seq::<NodeView>::empty(), ns[0]) =~= seq![ns[0]]);
    assert(insert_by_index(Seq::<NodeView>::empty(), ns[2]) =~= seq![ns[2]]);
    assert(sort_by_index(seq![ns[0]]) =~= seq![ns[0]]);
    assert(sort_by_index(seq![ns[2]]) =~= seq![ns[2]]);
}

/// How much of the query API works on a reference trace (spawn, stdout,
/// stderr): a point each for the cause and the effect of the middle node, a
/// stable non-empty path from first to last, and a divergence found against the
/// trace with a different stdout; at most 3. All of them work, so it is 3.
pub fn causal_query_completeness_score() -> (score: u8)
    ensures
        score == 3,
{
    let t = ExecutionTrace {
        run_id: owned("q"),
        events: vec![
            ExecutionEvent::Spawn { command: owned("c") },
            ExecutionEvent::Stdout { chunk: String::new() },
            ExecutionEvent::Stderr { chunk: String::new() },
        ],
    };
    let g = build_causal_graph(&t);
    proof {
        assert(event_views(t.events@).len() == 3);
        lemma_three_node_graph(event_views(t.events@), g);
        lemma_three_node_links(g);
    }
    let mut score: u8 = 0;
    let c1 = query_causes(&g, "n1");
    assert(node_views(c1@) == seq![node_views(g.nodes@)[0]]);
    assert(node_views(c1@)[0] == c1@[0]@);
    if any_with_id(&c1, "n0") {
        score = score.saturating_add(1);
    }
    let e1 = query_effects(&g, "n1");
    assert(node_views(e1@) == seq![node_views(g.nodes@)[2]]);
    assert(node_views(e1@)[0] == e1@[0]@);
    if any_with_id(&e1, "n2") {
        score = score.saturating_add(1);
    }
    let p1 = trace_path(&g, "n0", "n2");
    let p2 = trace_path(&g, "n0", "n2");
    if p1.len() > 0 && same_nodes(&p1, &p2) {
        score = score.saturating_add(1);
    }
    let ta = t.duplicate();
    let tb = ExecutionTrace {
        run_id: owned("q"),
        events: vec![
            ExecutionEvent::Spawn { command: owned("c") },
            ExecutionEvent::Stdout { chunk: owned("x") },
            ExecutionEvent::Stderr { chunk: String::new() },
        ],
    };
    let ga = build_causal_graph(&ta);
    let gb = build_causal_graph(&tb);
    proof {
        reveal_strlit("x");
        let ea = event_views(ta.events@);
        let eb = event_views(tb.events@);
        assert(ea.len() == 3 && eb.len() == 3);
        assert(node_views(ga.nodes@)[1] == crate::causal_graph::node_of(1, ea[1]));
        assert(node_views(gb.nodes@)[1] == crate::causal_graph::node_of(1, eb[1]));
        assert(ea[1] == EventView::Stdout(Seq::<char>::empty()));
        assert(eb[1] == EventView::Stdout("x"@));
        assert(node_views(ga.nodes@).len() == 3 && node_views(gb.nodes@).len() == 3);
        assert(node_views(ga.nodes@)[1].surface == Seq::<char>::empty());
        assert(node_views(gb.nodes@)[1].surface == "x"@);
        assert(node_views(ga.nodes@)[1] == ga.nodes@[1]@);
        assert(node_views(gb.nodes@)[1] == gb.nodes@[1]@);
        assert("x"@.len() == 1);
        assert(ga.nodes@[1].surface@ != gb.nodes@[1].surface@);
        assert(surface_differs(ga, gb)(1));
        lemma_first_from(0, 3, surface_differs(ga, gb));
        assert(divergence_of(ga, gb) is Some);
    }
    if first_divergent_causal_node(&ga, &gb).is_some() {
        score = score.saturating_add(1);
    }
    if score > 3 {
        3
    } else {
        score
    }
}

} // verus!
