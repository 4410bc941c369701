//! Pieces of the output bundles: graph output formats, the graph document as
//! DOT text and cut to a depth, the policy list, the SDK report, the doctor's
//! verdict, and HTML escaping of text placed in the bundle's pages.

use crate::text::{flatten, lemma_flatten_take, owned, push_str, replace_all, replace_text, views};
use vstd::prelude::*;

verus! {

/// How a causal graph is written out.
#[derive(Debug, Clone, Copy, PartialEq, Eq, Structural)]
pub enum GraphFormat {
    Svg,
    Json,
    Dot,
}

/// The policies that can be listed.
#[derive(Debug)]
pub struct PolicyListReport {
    pub policies: Vec<String>,
}

/// The SDK summary: a description and the crates it consists of.
#[derive(Debug)]
pub struct SdkReport {
    pub description: String,
    pub crates: Vec<String>,
}

/// The built-in policies, in order.
pub fn policy_list_report() -> (r: PolicyListReport)
    ensures
        views(r.policies@) == seq!["dev"@, "stage"@, "prod"@],
{
    let r = PolicyListReport { policies: vec![owned("dev"), owned("stage"), owned("prod")] };
    assert(views(r.policies@) =~= seq!["dev"@, "stage"@, "prod"@]);
    r
}

/// `s` with `&`, `<`, `>` and `"` written as HTML entities (`&` first).
pub open spec fn html_escaped(s: Seq<char>) -> Seq<char> {
    replace_all(
        replace_all(replace_all(replace_all(s, "&"@, "&amp;"@), "<"@, "&lt;"@), ">"@, "&gt;"@),
        "\""@,
        "&quot;"@,
    )
}

/// Escapes text for an HTML page.
pub fn html_escape(s: &str) -> (r: String)
    ensures
        r@ == html_escaped(s@),
{
    proof {
        reveal_strlit("&");
        reveal_strlit("<");
        reveal_strlit(">");
        reveal_strlit("\"");
    }
    let a = replace_text(s, "&", "&amp;");
    let b = replace_text(a.as_str(), "<", "&lt;");
    let c = replace_text(b.as_str(), ">", "&gt;");
    replace_text(c.as_str(), "\"", "&quot;")
}

// ---------------------------------------------------------------------------
// Graph documents
// ---------------------------------------------------------------------------

/// A node of a graph document: its `id` and `label`, each absent when the
/// document gives none as text.
#[derive(Debug)]
pub struct DocNode {
    pub id: Option<String>,
    pub label: Option<String>,
}

/// An edge of a graph document: its `from` and `to` ids, each absent when the
/// document gives none as text.
#[derive(Debug)]
pub struct DocEdge {
    pub from: Option<String>,
    pub to: Option<String>,
}

/// A graph document: its `nodes` and `edges` lists, each absent when the
/// document has no such list.
#[derive(Debug)]
pub struct GraphDoc {
    pub nodes: Option<Vec<DocNode>>,
    pub edges: Option<Vec<DocEdge>>,
}

/// The text of `o`, or `d` when it is absent.
pub open spec fn text_or(o: Option<String>, d: Seq<char>) -> Seq<char> {
    match o {
        Some(t) => t@,
        None => d,
    }
}

/// The DOT line of a node: its id (`node` when absent) and its label (the id
/// when absent) with double quotes turned into single quotes.
pub open spec fn dot_node_line(n: DocNode) -> Seq<char> {
    let id = text_or(n.id, "node"@);
    "  \""@ + id + "\" [label=\""@ + replace_all(text_or(n.label, id), "\""@, "'"@) + "\"];\n"@
}

/// The DOT line of an edge; none when an endpoint is absent or empty.
pub open spec fn dot_edge_line(e: DocEdge) -> Seq<char> {
    let f = text_or(e.from, Seq::empty());
    let t = text_or(e.to, Seq::empty());
    if f.len() > 0 && t.len() > 0 {
        "  \""@ + f + "\" -> \""@ + t + "\";\n"@
    } else {
        Seq::empty()
    }
}

/// A graph document as a DOT digraph: the node lines, then the edge lines.
pub open spec fn dot_text(g: GraphDoc) -> Seq<char> {
    "digraph aion_graph {\n  rankdir=LR;\n"@ + (match g.nodes {
        Some(ns) => flatten(ns@.map_values(|n: DocNode| dot_node_line(n))),
        None => Seq::empty(),
    }) + (match g.edges {
        Some(es) => flatten(es@.map_values(|e: DocEdge| dot_edge_line(e))),
        None => Seq::empty(),
    }) + "}\n"@
}

fn push_dot_node(s: &mut String, n: &DocNode)
    ensures
        final(s)@ == old(s)@ + dot_node_line(*n),
{
    proof {
        reveal_strlit("\"");
        reveal_strlit("node");
    }
    let id: &str = match &n.id {
        Some(t) => t.as_str(),
        None => "node",
    };
    let label: &str = match &n.label {
        Some(l) => l.as_str(),
        None => id,
    };
    let clean = replace_text(label, "\"", "'");
    let ghost start = s@;
    push_str(s, "  \"");
    push_str(s, id);
    push_str(s, "\" [label=\"");
    push_str(s, clean.as_str());
    push_str(s, "\"];\n");
    assert(s@ =~= start + dot_node_line(*n));
}

fn push_dot_edge(s: &mut String, e: &DocEdge)
    ensures
        final(s)@ == old(s)@ + dot_edge_line(*e),
{
    let f: &str = match &e.from {
        Some(t) => t.as_str(),
        None => "",
    };
    let t: &str = match &e.to {
        Some(x) => x.as_str(),
        None => "",
    };
    proof {
        reveal_strlit("");
    }
    let ghost start = s@;
    if f.unicode_len() > 0 && t.unicode_len() > 0 {
        push_str(s, "  \"");
        push_str(s, f);
        push_str(s, "\" -> \"");
        push_str(s, t);
        push_str(s, "\";\n");
    }
    assert(s@ =~= start + dot_edge_line(*e));
}

/// Writes a graph document as a DOT digraph.
pub fn graph_to_dot(g: &GraphDoc) -> (r: String)
    ensures
        r@ == dot_text(*g),
{
    let mut out = owned("digraph aion_graph {\n  rankdir=LR;\n");
    let ghost head = out@;
    match &g.nodes {
        Some(ns) => {
            let ghost parts = ns@.map_values(|n: DocNode| dot_node_line(n));
            let k = ns.len();
            assert(parts.take(0) =~= Seq::<Seq<char>>::empty());
            for i in 0..k
                invariant
                    k == ns@.len(),
                    parts == ns@.map_values(|n: DocNode| dot_node_line(n)),
                    out@ == head + flatten(parts.take(i as int)),
            {
                proof {
                    lemma_flatten_take(parts, i as int);
                }
                push_dot_node(&mut out, &ns[i]);
            }
            assert(parts.take(k as int) == parts);
        },
        None => {},
    }
    let ghost mid = out@;
    match &g.edges {
        Some(es) => {
            let ghost parts = es@.map_values(|e: DocEdge| dot_edge_line(e));
            let k = es.len();
            assert(parts.take(0) =~= Seq::<Seq<char>>::empty());
            for i in 0..k
                invariant
                    k == es@.len(),
                    parts == es@.map_values(|e: DocEdge| dot_edge_line(e)),
                    out@ == mid + flatten(parts.take(i as int)),
            {
                proof {
                    lemma_flatten_take(parts, i as int);
                }
                push_dot_edge(&mut out, &es[i]);
            }
            assert(parts.take(k as int) == parts);
        },
        None => {},
    }
    push_str(&mut out, "}\n");
    out
}

/// Node `n` has the id `s`.
pub open spec fn has_id(n: DocNode, s: Seq<char>) -> bool {
    n.id matches Some(t) && t@ == s
}

/// Some node among `kept` has the id `s`.
pub open spec fn kept_id(kept: Seq<DocNode>, s: Seq<char>) -> bool {
    exists|i: int| 0 <= i < kept.len() && #[trigger] has_id(kept[i], s)
}

/// Both endpoints of `e` (an absent one read as empty) are ids of nodes among `kept`.
pub open spec fn edge_within(kept: Seq<DocNode>) -> spec_fn(DocEdge) -> bool {
    |e: DocEdge| kept_id(kept, text_or(e.from, Seq::empty())) && kept_id(kept, text_or(e.to, Seq::empty()))
}

fn id_kept(kept: &Vec<DocNode>, s: &str) -> (r: bool)
    ensures
        r == kept_id(kept@, s@),
{
    let n = kept.len();
    for i in 0..n
        invariant
            n == kept@.len(),
            forall|j: int| 0 <= j < i ==> !#[trigger] has_id(kept@[j], s@),
    {
        match &kept[i].id {
            Some(t) => {
                if crate::text::str_eq(t.as_str(), s) {
                    assert(has_id(kept@[i as int], s@));
                    return true;
                }
            },
            None => {},
        }
    }
    false
}

/// Cuts a graph document to its first `depth` nodes and the edges between
/// them; unchanged without a depth or without a node list.
pub fn trim_graph_depth(g: GraphDoc, depth: Option<usize>) -> (r: GraphDoc)
    ensures
        match (depth, g.nodes) {
            (Some(d), Some(ns)) => {
                let kept = ns@.take(if d < ns@.len() { d as int } else { ns@.len() as int });
                &&& r.nodes matches Some(rn) && rn@ == kept
                &&& match g.edges {
                    None => r.edges is None,
                    Some(es) => r.edges matches Some(re) && re@ == es@.filter(edge_within(kept)),
                }
            },
            _ => r == g,
        },
{
    let d = match depth {
        None => return g,
        Some(d) => d,
    };
    let GraphDoc { nodes, edges } = g;
    let mut ns = match nodes {
        None => return GraphDoc { nodes: None, edges },
        Some(ns) => ns,
    };
    let keep = if d < ns.len() { d } else { ns.len() };
    ns.truncate(keep);
    let ghost kept = ns@;
    let new_edges = match edges {
        None => None,
        Some(es) => {
            let ghost all = es@;
            let ghost p = edge_within(kept);
            let mut rest = es;
            let mut out: Vec<DocEdge> = Vec::new();
            let ghost mut taken: int = 0;
            assert(all.skip(0) =~= all);
            while rest.len() > 0
                invariant
                    0 <= taken <= all.len(),
                    rest@ == all.skip(taken),
                    ns@ == kept,
                    p == edge_within(kept),
                    out@ == all.take(taken).filter(p),
                decreases rest.len(),
            {
                let e = rest.remove(0);
                proof {
                    assert(e == all[taken]);
                    assert(all.take(taken + 1).drop_last() =~= all.take(taken));
                    reveal_with_fuel(Seq::<_>::filter, 1);
                }
                let f: &str = match &e.from {
                    Some(t) => t.as_str(),
                    None => "",
                };
                let t: &str = match &e.to {
                    Some(x) => x.as_str(),
                    None => "",
                };
                proof {
                    reveal_strlit("");
                }
                assert(f@ == text_or(e.from, Seq::empty()));
                assert(t@ == text_or(e.to, Seq::empty()));
                let inside = id_kept(&ns, f) && id_kept(&ns, t);
                assert(inside == p(e));
                if inside {
                    out.push(e);
                }
                proof {
                    taken = taken + 1;
                    assert(rest@ =~= all.skip(taken));
                }
            }
            assert(all.take(all.len() as int) =~= all);
            Some(out)
        },
    };
    GraphDoc { nodes: Some(ns), edges: new_edges }
}

/// The verdict of the doctor report: every check's status is `ok` and the run
/// finality status is `ok`.
pub fn doctor_ok(check_statuses: &Vec<String>, finality_status: &str) -> (r: bool)
    ensures
        r == ((forall|i: int| 0 <= i < check_statuses@.len() ==> #[trigger] check_statuses@[i]@ == "ok"@)
            && finality_status@ == "ok"@),
{
    let n = check_statuses.len();
    for i in 0..n
        invariant
            n == check_statuses@.len(),
            forall|j: int| 0 <= j < i ==> #[trigger] check_statuses@[j]@ == "ok"@,
    {
        if !crate::text::str_eq(check_statuses[i].as_str(), "ok") {
            return false;
        }
    }
    crate::text::str_eq(finality_status, "ok")
}

} // verus!
