//! The maturity score: a weighted sum of feature, determinism, UX and causal
//! completeness, less a penalty for self-reported high-severity gaps.

use super::scan::InventoryView;
use super::{Maturity, MaturityComponent, ModuleInventory, ProductGap};
use crate::causal_graph::{build_causal_graph, edge_views, node_views};
use crate::report::Severity;
use crate::text::{dec_text, owned, push_str, u8_text, usize_text};
use crate::trace::{ExecutionEvent, ExecutionTrace};
use vstd::prelude::*;

verus! {

/// `value` capped at `max_input`, mapped onto `0..=max_output`, rounded down.
pub open spec fn scale_of(value: nat, max_input: nat, max_output: nat) -> nat {
    if max_input == 0 {
        0
    } else {
        let capped = if value <= max_input {
            value
        } else {
            max_input
        };
        (capped * max_output / max_input) as nat
    }
}

/// `value` capped at `max_input`, mapped onto `0..=max_output`, rounded down
/// (integer arithmetic only).
pub fn scale(value: usize, max_input: usize, max_output: u8) -> (r: u8)
    requires
        max_input <= u32::MAX,
        max_input * max_output <= u32::MAX,
    ensures
        r == scale_of(value as nat, max_input as nat, max_output as nat),
        r <= max_output,
{
    if max_input == 0 {
        return 0;
    }
    let capped = if value < max_input {
        value
    } else {
        max_input
    };
    let c = capped as u32;
    let mi = max_input as u32;
    let mo = max_output as u32;
    assert(c == capped && mi == max_input && mo == max_output);
    assert(c * mo <= mi * mo) by (nonlinear_arith)
        requires
            c <= mi,
    ;
    let p = c * mo;
    assert(p / mi <= mo) by (nonlinear_arith)
        requires
            p == c * mo,
            c <= mi,
            mi > 0,
    ;
    (p / mi) as u8
}

/// Whether an inventory lists any public item.
pub open spec fn has_symbols(m: InventoryView) -> bool {
    m.pub_fns.len() > 0 || m.pub_structs.len() > 0 || m.pub_enums.len() > 0 || m.pub_traits.len() > 0
}

/// How many inventories list public items.
pub open spec fn count_with_symbols(s: Seq<InventoryView>) -> nat
    decreases s.len(),
{
    if s.len() == 0 {
        0
    } else {
        count_with_symbols(s.drop_last()) + if has_symbols(s.last()) {
            1nat
        } else {
            0nat
        }
    }
}

/// How many gaps are of high severity.
pub open spec fn count_high(s: Seq<ProductGap>) -> nat
    decreases s.len(),
{
    if s.len() == 0 {
        0
    } else {
        count_high(s.drop_last()) + if s.last().severity is High {
            1nat
        } else {
            0nat
        }
    }
}

/// What a maturity score holds.
pub struct MaturityView {
    pub score: nat,
    pub scale_max: nat,
    pub breakdown: Seq<(Seq<char>, nat, nat, Seq<char>)>,
    pub rationale: Seq<char>,
}

impl View for Maturity {
    type V = MaturityView;

    open spec fn view(&self) -> MaturityView {
        MaturityView {
            score: self.score as nat,
            scale_max: self.scale_max as nat,
            breakdown: self.breakdown@.map_values(
                |c: MaturityComponent| (c.dimension@, c.score as nat, c.max as nat, c.note@),
            ),
            rationale: self.rationale@,
        }
    }
}

/// The score: the parts' sum less the penalty (not below zero), at most 15.
pub open spec fn total_score(parts: nat, penalty: nat) -> nat {
    let t = if parts >= penalty {
        (parts - penalty) as nat
    } else {
        0
    };
    if t <= 15 {
        t
    } else {
        15
    }
}

/// The rationale line of a maturity score.
pub open spec fn rationale_text(f: nat, d: nat, u: nat, g: nat, q: nat, p: nat) -> Seq<char> {
    "Score = feature("@ + dec_text(f) + ") + determinism("@ + dec_text(d) + ") + ux("@ + dec_text(u)
        + ") + causal_graph("@ + dec_text(g) + ") + causal_query("@ + dec_text(q) + ") − honesty_penalty("@
        + dec_text(p) + "), clamped to [0, 15]."@
}

/// The maturity computed from the number of modules with public items, the
/// numbers of guarantees and UX flows, the two causal completeness scores and
/// the number of high-severity gaps.
pub open spec fn maturity_of(modules: nat, guarantees: nat, flows: nat, graph: nat, query: nat, high: nat) -> MaturityView {
    let f = scale_of(modules, 14, 3);
    let d = scale_of(guarantees, 10, 3);
    let u = scale_of(flows, 7, 2);
    let p = if high <= 3 {
        high
    } else {
        3
    };
    MaturityView {
        score: total_score(f + d + u + graph + query, p),
        scale_max: 15,
        breakdown: seq![
            ("feature_coverage"@, f, 3, dec_text(modules) + " public modules carry symbols."@),
            ("determinism"@, d, 3, dec_text(guarantees) + " enumerated guarantees."@),
            ("ux_coverage"@, u, 2, dec_text(flows) + " modeled UX flows."@),
            (
                "causal_graph_completeness"@,
                graph,
                3,
                "Node/edge coverage vs reference trace; rebuild is deterministic."@,
            ),
            (
                "causal_query_completeness"@,
                query,
                3,
                "query_causes/effects, trace_path stability, graph-based divergence."@,
            ),
            ("honesty_penalty"@, p, 3, dec_text(high) + " high-severity gaps self-reported by product_analyzer."@),
        ],
        rationale: rationale_text(f, d, u, graph, query, p),
    }
}

fn component(dimension: &str, score: u8, max: u8, note: String) -> (c: MaturityComponent)
    ensures
        c.dimension@ == dimension@,
        c.score == score,
        c.max == max,
        c.note@ == note@,
{
    MaturityComponent { dimension: owned(dimension), score, max, note }
}

fn count_note(n: usize, text: &str) -> (r: String)
    ensures
        r@ == dec_text(n as nat) + text@,
{
    let mut s = usize_text(n);
    push_str(&mut s, text);
    s
}

fn rationale(f: u8, d: u8, u: u8, g: u8, q: u8, p: u8) -> (r: String)
    ensures
        r@ == rationale_text(f as nat, d as nat, u as nat, g as nat, q as nat, p as nat),
{
    let mut s = owned("Score = feature(");
    push_str(&mut s, u8_text(f).as_str());
    push_str(&mut s, ") + determinism(");
    push_str(&mut s, u8_text(d).as_str());
    push_str(&mut s, ") + ux(");
    push_str(&mut s, u8_text(u).as_str());
    push_str(&mut s, ") + causal_graph(");
    push_str(&mut s, u8_text(g).as_str());
    push_str(&mut s, ") + causal_query(");
    push_str(&mut s, u8_text(q).as_str());
    push_str(&mut s, ") − honesty_penalty(");
    push_str(&mut s, u8_text(p).as_str());
    push_str(&mut s, "), clamped to [0, 15].");
    s
}

/// Computes the maturity score from the feature inventory, the numbers of
/// guarantees and UX flows, the causal completeness scores and the gaps.
pub fn compute_maturity(
    inventory: &Vec<ModuleInventory>,
    guarantees: usize,
    flows: usize,
    graph_score: u8,
    query_score: u8,
    gaps: &Vec<ProductGap>,
) -> (m: Maturity)
    requires
        graph_score <= 3,
        query_score <= 3,
    ensures
        m@ == maturity_of(
            count_with_symbols(inventory@.map_values(|i: ModuleInventory| i@)),
            guarantees as nat,
            flows as nat,
            graph_score as nat,
            query_score as nat,
            count_high(gaps@),
        ),
        m.score <= m.scale_max,
        m.scale_max == 15,
{
    let ghost invs = inventory@.map_values(|i: ModuleInventory| i@);
    let mut modules: usize = 0;
    let n = inventory.len();
    for i in 0..n
        invariant
            n == inventory@.len(),
            invs == inventory@.map_values(|i: ModuleInventory| i@),
            modules == count_with_symbols(invs.take(i as int)),
            modules <= i,
    {
        assert(invs.take(i + 1).drop_last() =~= invs.take(i as int));
        assert(invs.take(i + 1).last() == inventory@[i as int]@);
        let m = &inventory[i];
        if m.pub_fns.len() > 0 || m.pub_structs.len() > 0 || m.pub_enums.len() > 0 || m.pub_traits.len() > 0 {
            modules = modules + 1;
        }
    }
    assert(invs.take(n as int) =~= invs);
    let mut high: usize = 0;
    let ng = gaps.len();
    for i in 0..ng
        invariant
            ng == gaps@.len(),
            high == count_high(gaps@.take(i as int)),
            high <= i,
    {
        assert(gaps@.take(i + 1).drop_last() =~= gaps@.take(i as int));
        assert(gaps@.take(i + 1).last() == gaps@[i as int]);
        if matches!(gaps[i].severity, Severity::High) {
            high = high + 1;
        }
    }
    assert(gaps@.take(ng as int) =~= gaps@);
    let feature_score = scale(modules, 14, 3);
    let determinism_score = scale(guarantees, 10, 3);
    let ux_score = scale(flows, 7, 2);
    let honesty_penalty: u8 = if high < 3 {
        high as u8
    } else {
        3
    };
    let raw_total = feature_score + determinism_score + ux_score + graph_score + query_score;
    let less = if raw_total >= honesty_penalty {
        raw_total - honesty_penalty
    } else {
        0
    };
    let score = if less < 15 {
        less
    } else {
        15
    };
    let breakdown = vec![
        component("feature_coverage", feature_score, 3, count_note(modules, " public modules carry symbols.")),
        component("determinism", determinism_score, 3, count_note(guarantees, " enumerated guarantees.")),
        component("ux_coverage", ux_score, 2, count_note(flows, " modeled UX flows.")),
        component(
            "causal_graph_completeness",
            graph_score,
            3,
            owned("Node/edge coverage vs reference trace; rebuild is deterministic."),
        ),
        component(
            "causal_query_completeness",
            query_score,
            3,
            owned("query_causes/effects, trace_path stability, graph-based divergence."),
        ),
        component(
            "honesty_penalty",
            honesty_penalty,
            3,
            count_note(high, " high-severity gaps self-reported by product_analyzer."),
        ),
    ];
    let rationale = rationale(feature_score, determinism_score, ux_score, graph_score, query_score, honesty_penalty);
    let m = Maturity { score, scale_max: 15, breakdown, rationale };
    assert(m@.breakdown =~= maturity_of(
        modules as nat,
        guarantees as nat,
        flows as nat,
        graph_score as nat,
        query_score as nat,
        high as nat,
    ).breakdown);
    m
}

/// How well graph projection covers a reference trace (spawn, stdout, exit): a
/// point for one node per event, a point for one edge per consecutive pair, a
/// point for a rebuild giving the same graph.
pub fn causal_graph_completeness_score() -> (score: u8)
    ensures
        score == 3,
{
    let t = ExecutionTrace {
        run_id: owned("g"),
        events: vec![
            ExecutionEvent::Spawn { command: owned("c") },
            ExecutionEvent::Stdout { chunk: owned("o") },
            ExecutionEvent::Exit { code: 0 },
        ],
    };
    let g = build_causal_graph(&t);
    let g2 = build_causal_graph(&t);
    let mut score: u8 = 0;
    proof {
        assert(node_views(g.nodes@).len() == 3);
        assert(edge_views(g.edges@).len() == 2);
    }
    if g.nodes.len() == t.events.len() {
        score = score + 1;
    }
    if g.edges.len() + 1 == t.events.len() {
        score = score + 1;
    }
    if same_graph(&g, &g2) {
        score = score + 1;
    }
    score
}

/// Equality of two graphs' nodes and edges by content.
fn same_graph(a: &crate::causal_graph::CausalGraph, b: &crate::causal_graph::CausalGraph) -> (r: bool)
    ensures
        r == (node_views(a.nodes@) == node_views(b.nodes@) && edge_views(a.edges@) == edge_views(b.edges@)),
{
    if a.nodes.len() != b.nodes.len() {
        assert(node_views(a.nodes@).len() != node_views(b.nodes@).len());
        return false;
    }
    if a.edges.len() != b.edges.len() {
        assert(edge_views(a.edges@).len() != edge_views(b.edges@).len());
        return false;
    }
    let n = a.nodes.len();
    for i in 0..n
        invariant
            n == a.nodes@.len(),
            n == b.nodes@.len(),
            forall|j: int| 0 <= j < i ==> (#[trigger] a.nodes@[j])@ == b.nodes@[j]@,
    {
        let x = &a.nodes[i];
        let y = &b.nodes[i];
        if !(crate::text::str_eq(x.id.as_str(), y.id.as_str()) && x.index == y.index && crate::text::str_eq(
            x.event_type.as_str(),
            y.event_type.as_str(),
        ) && crate::text::str_eq(x.surface.as_str(), y.surface.as_str())) {
            assert(node_views(a.nodes@)[i as int] != node_views(b.nodes@)[i as int]);
            return false;
        }
    }
    assert(node_views(a.nodes@) =~= node_views(b.nodes@));
    let m = a.edges.len();
    for i in 0..m
        invariant
            m == a.edges@.len(),
            m == b.edges@.len(),
            forall|j: int| 0 <= j < i ==> (#[trigger] a.edges@[j])@ == b.edges@[j]@,
    {
        if !a.edges[i].same_as(&b.edges[i]) {
            assert(edge_views(a.edges@)[i as int] != edge_views(b.edges@)[i as int]);
            return false;
        }
    }
    assert(edge_views(a.edges@) =~= edge_views(b.edges@));
    true
}

} // verus!
