//! Deterministic projection of an execution trace into a causal graph: one node
//! per event (`n0`, `n1`, ...) and an edge from each event to the next.

use crate::text::{concat2, dec_text, owned, str_eq, usize_text};
use crate::trace::{event_surface, event_type, event_type_of, event_views, surface_of, EventView, ExecutionTrace};
use vstd::prelude::*;

verus! {

/// One event of the graph.
#[derive(Debug)]
pub struct CausalNode {
    pub id: String,
    pub index: usize,
    pub event_type: String,
    pub surface: String,
}

/// A directed relation between two nodes, by id.
#[derive(Debug)]
pub struct CausalEdge {
    pub from: String,
    pub to: String,
    pub relation: String,
}

/// The causal graph of one run.
#[derive(Debug)]
pub struct CausalGraph {
    pub run_id: String,
    pub nodes: Vec<CausalNode>,
    pub edges: Vec<CausalEdge>,
}

/// The text of a node.
pub struct NodeView {
    pub id: Seq<char>,
    pub index: nat,
    pub event_type: Seq<char>,
    pub surface: Seq<char>,
}

impl View for CausalNode {
    type V = NodeView;

    open spec fn view(&self) -> NodeView {
        NodeView {
            id: self.id@,
            index: self.index as nat,
            event_type: self.event_type@,
            surface: self.surface@,
        }
    }
}

impl View for CausalEdge {
    type V = (Seq<char>, Seq<char>, Seq<char>);

    open spec fn view(&self) -> (Seq<char>, Seq<char>, Seq<char>) {
        (self.from@, self.to@, self.relation@)
    }
}

/// The views of a sequence of nodes.
pub open spec fn node_views(v: Seq<CausalNode>) -> Seq<NodeView> {
    v.map_values(|n: CausalNode| n@)
}

/// The views of a sequence of edges.
pub open spec fn edge_views(v: Seq<CausalEdge>) -> Seq<(Seq<char>, Seq<char>, Seq<char>)> {
    v.map_values(|e: CausalEdge| e@)
}

impl CausalNode {
    /// A copy of the node.
    pub fn duplicate(&self) -> (r: CausalNode)
        ensures
            r@ == self@,
    {
        CausalNode {
            id: self.id.clone(),
            index: self.index,
            event_type: self.event_type.clone(),
            surface: self.surface.clone(),
        }
    }
}

impl CausalEdge {
    /// A copy of the edge.
    pub fn duplicate(&self) -> (r: CausalEdge)
        ensures
            r@ == self@,
    {
        CausalEdge { from: self.from.clone(), to: self.to.clone(), relation: self.relation.clone() }
    }

    /// Equality of two edges by content.
    pub fn same_as(&self, other: &CausalEdge) -> (r: bool)
        ensures
            r == (self@ == other@),
    {
        str_eq(self.from.as_str(), other.from.as_str()) && str_eq(self.to.as_str(), other.to.as_str())
            && str_eq(self.relation.as_str(), other.relation.as_str())
    }
}

/// The id of the node for event `i`: `n` followed by `i` in decimal.
pub open spec fn node_id(i: nat) -> Seq<char> {
    "n"@ + dec_text(i)
}

/// The node projected from event `i`.
pub open spec fn node_of(i: nat, e: EventView) -> NodeView {
    NodeView { id: node_id(i), index: i, event_type: event_type_of(e), surface: surface_of(e) }
}

/// The relation label of the edge between consecutive events.
pub open spec fn next_relation() -> Seq<char> {
    "precedes"@
}

/// The causal graph of a trace: node `i` for event `i`, and an edge
/// `n<i> -> n<i+1>` for every pair of consecutive events.
pub open spec fn graph_of(run_id: Seq<char>, events: Seq<EventView>, g: CausalGraph) -> bool {
    &&& g.run_id@ == run_id
    &&& node_views(g.nodes@) == Seq::new(events.len(), |i: int| node_of(i as nat, events[i]))
    &&& edge_views(g.edges@) == Seq::new(
        (if events.len() == 0 { 0 } else { events.len() - 1 }) as nat,
        |i: int| (node_id(i as nat), node_id((i + 1) as nat), next_relation()),
    )
}

/// The id of node `i`.
pub fn node_id_text(i: usize) -> (r: String)
    ensures
        r@ == node_id(i as nat),
{
    concat2("n", usize_text(i).as_str())
}

/// Projects a trace into its causal graph.
pub fn build_causal_graph(t: &ExecutionTrace) -> (g: CausalGraph)
    ensures
        graph_of(t.run_id@, event_views(t.events@), g),
{
    let n = t.events.len();
    let mut nodes: Vec<CausalNode> = Vec::new();
    let mut edges: Vec<CausalEdge> = Vec::new();
    let ghost evs = event_views(t.events@);
    for i in 0..n
        invariant
            n == t.events@.len(),
            evs == event_views(t.events@),
            nodes@.len() == i,
            forall|j: int| 0 <= j < i ==> #[trigger] nodes@[j]@ == node_of(j as nat, evs[j]),
            edges@.len() == if i == 0 { 0 } else { i - 1 },
            forall|j: int|
                0 <= j < edges@.len() ==> #[trigger] edges@[j]@ == (node_id(j as nat), node_id((j + 1) as nat), next_relation()),
    {
        let e = &t.events[i];
        nodes.push(CausalNode {
            id: node_id_text(i),
            index: i,
            event_type: event_type(e),
            surface: event_surface(e),
        });
        if i > 0 {
            edges.push(CausalEdge {
                from: node_id_text(i - 1),
                to: node_id_text(i),
                relation: owned("precedes"),
            });
        }
    }
    let g = CausalGraph { run_id: t.run_id.clone(), nodes, edges };
    assert(node_views(g.nodes@) =~= Seq::new(evs.len(), |i: int| node_of(i as nat, evs[i])));
    assert(edge_views(g.edges@) =~= Seq::new(
        (if evs.len() == 0 { 0 } else { evs.len() - 1 }) as nat,
        |i: int| (node_id(i as nat), node_id((i + 1) as nat), next_relation()),
    ));
    g
}

/// The first edge leaving node `i`, if any.
pub open spec fn outgoing_spec(g: CausalGraph, i: int) -> Option<(Seq<char>, Seq<char>, Seq<char>)> {
    first_edge_from(edge_views(g.edges@), g.nodes@[i].id@)
}

/// The first edge of `es` whose source is `id`.
pub open spec fn first_edge_from(es: Seq<(Seq<char>, Seq<char>, Seq<char>)>, id: Seq<char>) -> Option<(Seq<char>, Seq<char>, Seq<char>)>
    decreases es.len(),
{
    if es.len() == 0 {
        None
    } else if es[0].0 == id {
        Some(es[0])
    } else {
        first_edge_from(es.drop_first(), id)
    }
}

/// The first edge leaving node `i`.
pub fn outgoing_from_node_index(g: &CausalGraph, i: usize) -> (r: Option<&CausalEdge>)
    requires
        i < g.nodes@.len(),
    ensures
        match r {
            Some(e) => outgoing_spec(*g, i as int) == Some(e@),
            None => outgoing_spec(*g, i as int) is None,
        },
{
    let id = &g.nodes[i].id;
    let n = g.edges.len();
    let ghost es = edge_views(g.edges@);
    assert(es.skip(0) == es);
    for k in 0..n
        invariant
            n == g.edges@.len(),
            es == edge_views(g.edges@),
            id@ == g.nodes@[i as int].id@,
            first_edge_from(es, id@) == first_edge_from(es.skip(k as int), id@),
    {
        assert(es.skip(k as int)[0] == g.edges@[k as int]@);
        assert(es.skip(k as int).drop_first() == es.skip(k + 1));
        if str_eq(g.edges[k].from.as_str(), id.as_str()) {
            return Some(&g.edges[k]);
        }
    }
    None
}

} // verus!
