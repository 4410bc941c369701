//! Position-by-position differences between two execution traces and between
//! two causal graphs.

use crate::causal_graph::{edge_views, CausalEdge, CausalGraph};
use crate::text::{dec_text, flatten, owned, push_str, usize_text, views};
use crate::trace::{event_debug, event_views, push_event_debug, EventView, ExecutionTrace};
use vstd::prelude::*;

verus! {

/// Entry `i` of `s`, if it has one.
pub open spec fn entry_at<T>(s: Seq<T>, i: int) -> Option<T> {
    if 0 <= i < s.len() {
        Some(s[i])
    } else {
        None
    }
}

/// The report line for position `i` of two event sequences, if they differ there.
pub open spec fn event_change(i: nat, x: Option<EventView>, y: Option<EventView>) -> Seq<Seq<char>> {
    let at = "event["@ + dec_text(i) + "] "@;
    match (x, y) {
        (Some(x), Some(y)) => if x != y {
            seq![at + "changed: "@ + event_debug(x) + " → "@ + event_debug(y)]
        } else {
            Seq::empty()
        },
        (Some(x), None) => seq![at + "removed: "@ + event_debug(x)],
        (None, Some(y)) => seq![at + "added: "@ + event_debug(y)],
        (None, None) => Seq::empty(),
    }
}

/// The report lines for the first `k` positions.
pub open spec fn event_changes(a: Seq<EventView>, b: Seq<EventView>, k: nat) -> Seq<Seq<char>>
    decreases k,
{
    if k == 0 {
        Seq::empty()
    } else {
        event_changes(a, b, (k - 1) as nat) + event_change((k - 1) as nat, entry_at(a, k - 1), entry_at(b, k - 1))
    }
}

/// The larger of two lengths.
pub open spec fn max_len(a: nat, b: nat) -> nat {
    if a >= b {
        a
    } else {
        b
    }
}

/// Event-by-event differences between two traces: for each position up to the
/// longer trace, a changed, removed or added line (events shown with `Debug`).
pub fn diff_traces(a: &ExecutionTrace, b: &ExecutionTrace) -> (r: Vec<String>)
    ensures
        views(r@) == event_changes(
            event_views(a.events@),
            event_views(b.events@),
            max_len(a.events@.len(), b.events@.len()),
        ),
{
    let ghost ea = event_views(a.events@);
    let ghost eb = event_views(b.events@);
    let na = a.events.len();
    let nb = b.events.len();
    let max = if na >= nb { na } else { nb };
    let mut diffs: Vec<String> = Vec::new();
    for i in 0..max
        invariant
            na == a.events@.len(),
            nb == b.events@.len(),
            ea == event_views(a.events@),
            eb == event_views(b.events@),
            views(diffs@) == event_changes(ea, eb, i as nat),
    {
        let mut line = owned("event[");
        push_str(&mut line, usize_text(i).as_str());
        push_str(&mut line, "] ");
        let ghost at = line@;
        let ghost before = views(diffs@);
        if i < na && i < nb {
            let x = &a.events[i];
            let y = &b.events[i];
            assert(ea[i as int] == x@ && eb[i as int] == y@);
            if !x.same_as(y) {
                push_str(&mut line, "changed: ");
                push_event_debug(&mut line, x);
                push_str(&mut line, " → ");
                push_event_debug(&mut line, y);
                diffs.push(line);
                assert(views(diffs@) =~= before.push(at + "changed: "@ + event_debug(x@) + " → "@ + event_debug(y@)));
            }
        } else if i < na {
            let x = &a.events[i];
            assert(ea[i as int] == x@);
            push_str(&mut line, "removed: ");
            push_event_debug(&mut line, x);
            diffs.push(line);
            assert(views(diffs@) =~= before.push(at + "removed: "@ + event_debug(x@)));
        } else if i < nb {
            let y = &b.events[i];
            assert(eb[i as int] == y@);
            push_str(&mut line, "added: ");
            push_event_debug(&mut line, y);
            diffs.push(line);
            assert(views(diffs@) =~= before.push(at + "added: "@ + event_debug(y@)));
        }
        assert(event_changes(ea, eb, (i + 1) as nat) == before + event_change(i as nat, entry_at(ea, i as int), entry_at(eb, i as int)));
        proof {
            let c = event_change(i as nat, entry_at(ea, i as int), entry_at(eb, i as int));
            if c.len() == 0 {
                assert(before + c =~= before);
            } else {
                assert(before + c =~= before.push(c[0]));
            }
        }
    }
    diffs
}

/// `from|to|relation` of an edge.
pub open spec fn edge_text(e: (Seq<char>, Seq<char>, Seq<char>)) -> Seq<char> {
    e.0 + "|"@ + e.1 + "|"@ + e.2
}

/// The report line for edge position `i` of two edge sequences, if they differ there.
pub open spec fn edge_change(
    i: nat,
    x: Option<(Seq<char>, Seq<char>, Seq<char>)>,
    y: Option<(Seq<char>, Seq<char>, Seq<char>)>,
) -> Seq<Seq<char>> {
    let at = "edge["@ + dec_text(i) + "]: "@;
    match (x, y) {
        (Some(x), Some(y)) => if x != y {
            seq![at + edge_text(x) + " vs "@ + edge_text(y) + "\n"@]
        } else {
            Seq::empty()
        },
        (Some(x), None) => seq![at + edge_text(x) + " vs <missing>\n"@],
        (None, Some(y)) => seq![at + "<missing> vs "@ + edge_text(y) + "\n"@],
        (None, None) => Seq::empty(),
    }
}

/// The report lines for the first `k` edge positions.
pub open spec fn edge_changes(
    a: Seq<(Seq<char>, Seq<char>, Seq<char>)>,
    b: Seq<(Seq<char>, Seq<char>, Seq<char>)>,
    k: nat,
) -> Seq<Seq<char>>
    decreases k,
{
    if k == 0 {
        Seq::empty()
    } else {
        edge_changes(a, b, (k - 1) as nat) + edge_change((k - 1) as nat, entry_at(a, k - 1), entry_at(b, k - 1))
    }
}

/// All the report lines of a graph comparison.
pub open spec fn graph_changes(a: CausalGraph, b: CausalGraph) -> Seq<Seq<char>> {
    let na = a.nodes@.len();
    let nb = b.nodes@.len();
    let ea = edge_views(a.edges@);
    let eb = edge_views(b.edges@);
    (if na != nb {
        seq!["node count: "@ + dec_text(na) + " vs "@ + dec_text(nb) + "\n"@]
    } else {
        Seq::empty()
    }) + (if ea.len() != eb.len() {
        seq!["edge count: "@ + dec_text(ea.len()) + " vs "@ + dec_text(eb.len()) + "\n"@]
    } else {
        Seq::empty()
    }) + edge_changes(ea, eb, max_len(ea.len(), eb.len()))
}

/// The text of a graph comparison: the changed lines, or a note that the graphs are identical.
pub open spec fn graph_diff_text(a: CausalGraph, b: CausalGraph) -> Seq<char> {
    if graph_changes(a, b).len() == 0 {
        "identical causal graphs\n"@
    } else {
        flatten(graph_changes(a, b))
    }
}

fn push_edge_text(s: &mut String, e: &CausalEdge)
    ensures
        final(s)@ == old(s)@ + edge_text(e@),
{
    push_str(s, e.from.as_str());
    push_str(s, "|");
    push_str(s, e.to.as_str());
    push_str(s, "|");
    push_str(s, e.relation.as_str());
}

fn count_line(label: &str, x: usize, y: usize) -> (r: String)
    ensures
        r@ == label@ + dec_text(x as nat) + " vs "@ + dec_text(y as nat) + "\n"@,
{
    let mut s = owned(label);
    push_str(&mut s, usize_text(x).as_str());
    push_str(&mut s, " vs ");
    push_str(&mut s, usize_text(y).as_str());
    push_str(&mut s, "\n");
    s
}

/// Compares two causal graphs: node and edge counts, then each edge position.
pub fn diff_graph(a: &CausalGraph, b: &CausalGraph) -> (r: String)
    ensures
        r@ == graph_diff_text(*a, *b),
{
    let ghost ea = edge_views(a.edges@);
    let ghost eb = edge_views(b.edges@);
    let mut lines: Vec<String> = Vec::new();
    if a.nodes.len() != b.nodes.len() {
        lines.push(count_line("node count: ", a.nodes.len(), b.nodes.len()));
    }
    if a.edges.len() != b.edges.len() {
        lines.push(count_line("edge count: ", a.edges.len(), b.edges.len()));
    }
    let ghost head = views(lines@);
    assert(head =~= (if a.nodes@.len() != b.nodes@.len() {
        seq!["node count: "@ + dec_text(a.nodes@.len()) + " vs "@ + dec_text(b.nodes@.len()) + "\n"@]
    } else {
        Seq::empty()
    }) + (if ea.len() != eb.len() {
        seq!["edge count: "@ + dec_text(ea.len()) + " vs "@ + dec_text(eb.len()) + "\n"@]
    } else {
        Seq::empty()
    }));
    let na = a.edges.len();
    let nb = b.edges.len();
    let max = if na >= nb { na } else { nb };
    for i in 0..max
        invariant
            na == a.edges@.len(),
            nb == b.edges@.len(),
            ea == edge_views(a.edges@),
            eb == edge_views(b.edges@),
            views(lines@) == head + edge_changes(ea, eb, i as nat),
    {
        let mut line = owned("edge[");
        push_str(&mut line, usize_text(i).as_str());
        push_str(&mut line, "]: ");
        let ghost at = line@;
        let ghost before = views(lines@);
        if i < na && i < nb {
            let x = &a.edges[i];
            let y = &b.edges[i];
            assert(ea[i as int] == x@ && eb[i as int] == y@);
            if !x.same_as(y) {
                push_edge_text(&mut line, x);
                push_str(&mut line, " vs ");
                push_edge_text(&mut line, y);
                push_str(&mut line, "\n");
                lines.push(line);
                assert(views(lines@) =~= before.push(at + edge_text(x@) + " vs "@ + edge_text(y@) + "\n"@));
            }
        } else if i < na {
            let x = &a.edges[i];
            assert(ea[i as int] == x@);
            push_edge_text(&mut line, x);
            push_str(&mut line, " vs <missing>\n");
            lines.push(line);
            assert(views(lines@) =~= before.push(at + edge_text(x@) + " vs <missing>\n"@));
        } else if i < nb {
            let y = &b.edges[i];
            assert(eb[i as int] == y@);
            push_str(&mut line, "<missing> vs ");
            push_edge_text(&mut line, y);
            push_str(&mut line, "\n");
            lines.push(line);
            assert(views(lines@) =~= before.push(at + "<missing> vs "@ + edge_text(y@) + "\n"@));
        }
        proof {
            let c = edge_change(i as nat, entry_at(ea, i as int), entry_at(eb, i as int));
            assert(edge_changes(ea, eb, (i + 1) as nat) == edge_changes(ea, eb, i as nat) + c);
            if c.len() == 0 {
                assert(before + c =~= before);
            } else {
                assert(before + c =~= before.push(c[0]));
            }
            assert(head + edge_changes(ea, eb, (i + 1) as nat) =~= (head + edge_changes(ea, eb, i as nat)) + c);
        }
    }
    assert(views(lines@) == graph_changes(*a, *b));
    if lines.len() == 0 {
        owned("identical causal graphs\n")
    } else {
        concat_all(&lines)
    }
}

/// All the strings of `v`, joined with nothing between them.
pub fn concat_all(v: &Vec<String>) -> (r: String)
    ensures
        r@ == flatten(views(v@)),
{
    let mut s = String::new();
    let n = v.len();
    for i in 0..n
        invariant
            n == v@.len(),
            s@ == flatten(views(v@).take(i as int)),
    {
        let ghost before = s@;
        push_str(&mut s, v[i].as_str());
        proof {
            crate::text::lemma_flatten_take(views(v@), i as int);
        }
    }
    assert(views(v@).take(n as int) =~= views(v@));
    s
}

} // verus!
