//! The evaluation report as a whole, its markdown rendering, and the scrub of
//! internal platform names from what is published.

use super::maturity::{
    causal_graph_completeness_score, compute_maturity, count_high, count_with_symbols, maturity_of,
    MaturityView,
};
use super::scan::{feature_inventory, inventory_order, inventory_views, scans_of, InventoryView};
use super::tables::{
    architecture_entries, architecture_map, arch_view_fn, competitive_positioning, data_flow,
    data_flow_entries, determinism_guarantees, flow_view_fn, guarantee_list, peer_entries,
    peer_view_fn, quad_key, triple_key, ux_flows, ux_table, ux_view_fn,
};
use super::{
    ArchitectureNode, CompetitivePeer, DataFlowEdge, Maturity, MaturityComponent, ModuleInventory,
    ProductGap, SrcFile, SystemReport, UxFlow, CATEGORY_DEFINITION,
};
use crate::causal_query::causal_query_completeness_score;
use crate::report::severity_label;
use crate::sorting::sort_by_key;
use crate::text::{
    dec_text, flatten, lemma_flatten_take, owned, push_str, push_u128, replace_all, replace_text,
    views,
};
use vstd::prelude::*;

verus! {

// ---------------------------------------------------------------------------
// Public scrub
// ---------------------------------------------------------------------------

/// `s` with the internal platform names replaced by their public ones, in order.
pub open spec fn sanitized(s: Seq<char>) -> Seq<char> {
    let t1 = replace_all(s, "cos_core"@, "platform_types"@);
    let t2 = replace_all(t1, "cos_governance"@, "platform_governance"@);
    let t3 = replace_all(t2, "cos_runtime"@, "platform_runtime"@);
    let t4 = replace_all(t3, "cos_adapter"@, "integration_adapter"@);
    let t5 = replace_all(t4, "CosKernelInterface"@, "KernelBridge"@);
    let t6 = replace_all(t5, "StubCosKernel"@, "StubKernelBridge"@);
    replace_all(t6, "ExecutionArtifact"@, "run record"@)
}

/// Strips internal-only platform names from published evaluation output.
pub fn sanitize_public_eval_output(s: &str) -> (r: String)
    ensures
        r@ == sanitized(s@),
{
    proof {
        reveal_strlit("cos_core");
        reveal_strlit("cos_governance");
        reveal_strlit("cos_runtime");
        reveal_strlit("cos_adapter");
        reveal_strlit("CosKernelInterface");
        reveal_strlit("StubCosKernel");
        reveal_strlit("ExecutionArtifact");
    }
    let t1 = replace_text(s, "cos_core", "platform_types");
    let t2 = replace_text(t1.as_str(), "cos_governance", "platform_governance");
    let t3 = replace_text(t2.as_str(), "cos_runtime", "platform_runtime");
    let t4 = replace_text(t3.as_str(), "cos_adapter", "integration_adapter");
    let t5 = replace_text(t4.as_str(), "CosKernelInterface", "KernelBridge");
    let t6 = replace_text(t5.as_str(), "StubCosKernel", "StubKernelBridge");
    replace_text(t6.as_str(), "ExecutionArtifact", "run record")
}

// ---------------------------------------------------------------------------
// The report
// ---------------------------------------------------------------------------

/// What a gap holds: category, severity label, title, description.
pub open spec fn gap_view(g: ProductGap) -> (Seq<char>, Seq<char>, Seq<char>, Seq<char>) {
    (g.category@, severity_label(g.severity), g.title@, g.description@)
}

/// The whole report as text values.
pub struct ReportView {
    pub category_definition: Seq<char>,
    pub feature_inventory: Seq<InventoryView>,
    pub architecture_map: Seq<(Seq<char>, Seq<char>, Seq<char>)>,
    pub data_flow: Seq<(Seq<char>, Seq<char>, Seq<char>)>,
    pub determinism_guarantees: Seq<Seq<char>>,
    pub ux_flows: Seq<(Seq<char>, Seq<Seq<char>>, Seq<char>)>,
    pub missing_capabilities: Seq<(Seq<char>, Seq<char>, Seq<char>, Seq<char>)>,
    pub competitive_positioning: Seq<(Seq<char>, Seq<char>, Seq<char>, Seq<char>)>,
    pub maturity: MaturityView,
}

impl View for SystemReport {
    type V = ReportView;

    open spec fn view(&self) -> ReportView {
        ReportView {
            category_definition: self.category_definition@,
            feature_inventory: inventory_views(self.feature_inventory@),
            architecture_map: self.architecture_map@.map_values(arch_view_fn()),
            data_flow: self.data_flow@.map_values(flow_view_fn()),
            determinism_guarantees: views(self.determinism_guarantees@),
            ux_flows: self.ux_flows@.map_values(ux_view_fn()),
            missing_capabilities: self.missing_capabilities@.map_values(|g: ProductGap| gap_view(g)),
            competitive_positioning: self.competitive_positioning@.map_values(peer_view_fn()),
            maturity: self.maturity@,
        }
    }
}

/// The evaluation of the tool, as text values, from its source files and its
/// self-reported gaps: every table in its fixed order, the sorted inventory of
/// the sources, and the maturity they score.
pub open spec fn evaluation_of(sources: Seq<SrcFile>, gaps: Seq<ProductGap>) -> ReportView {
    let inventory = sort_by_key(scans_of(sources), inventory_order());
    ReportView {
        category_definition: CATEGORY_DEFINITION@,
        feature_inventory: inventory,
        architecture_map: sort_by_key(sort_by_key(architecture_entries(), triple_key(1)), triple_key(0)),
        data_flow: sort_by_key(sort_by_key(data_flow_entries(), triple_key(1)), triple_key(0)),
        determinism_guarantees: guarantee_list(),
        ux_flows: ux_table(),
        missing_capabilities: gaps.map_values(|g: ProductGap| gap_view(g)),
        competitive_positioning: sort_by_key(peer_entries(), quad_key(0)),
        maturity: maturity_of(
            count_with_symbols(inventory),
            guarantee_list().len(),
            ux_table().len(),
            3,
            3,
            count_high(gaps),
        ),
    }
}

/// Builds the evaluation of the tool from its source files and its self-reported gaps.
pub fn evaluate(sources: &Vec<SrcFile>, gaps: Vec<ProductGap>) -> (r: SystemReport)
    ensures
        r@ == evaluation_of(sources@, gaps@),
        r@.category_definition == CATEGORY_DEFINITION@,
        r@.feature_inventory == sort_by_key(scans_of(sources@), inventory_order()),
        r@.architecture_map == sort_by_key(sort_by_key(architecture_entries(), triple_key(1)), triple_key(0)),
        r@.data_flow == sort_by_key(sort_by_key(data_flow_entries(), triple_key(1)), triple_key(0)),
        r@.determinism_guarantees == guarantee_list(),
        r@.ux_flows == ux_table(),
        r.missing_capabilities@ == gaps@,
        r@.competitive_positioning == sort_by_key(peer_entries(), quad_key(0)),
        r@.maturity == maturity_of(
            count_with_symbols(r@.feature_inventory),
            guarantee_list().len(),
            ux_table().len(),
            3,
            3,
            count_high(gaps@),
        ),
{
    let inventory = feature_inventory(sources);
    let guarantees = determinism_guarantees();
    let flows = ux_flows();
    let graph_score = causal_graph_completeness_score();
    let query_score = causal_query_completeness_score();
    let maturity = compute_maturity(&inventory, guarantees.len(), flows.len(), graph_score, query_score, &gaps);
    proof {
        assert(views(guarantees@).len() == guarantees@.len());
        assert(flows@.map_values(ux_view_fn()).len() == flows@.len());
        assert(inventory@.map_values(|i: ModuleInventory| i@) =~= inventory_views(inventory@));
    }
    let r = SystemReport {
        category_definition: owned(CATEGORY_DEFINITION),
        feature_inventory: inventory,
        architecture_map: architecture_map(),
        data_flow: data_flow(),
        determinism_guarantees: guarantees,
        ux_flows: flows,
        missing_capabilities: gaps,
        competitive_positioning: competitive_positioning(),
        maturity,
    };
    assert(r@.maturity == maturity_of(
        count_with_symbols(r@.feature_inventory),
        guarantee_list().len(),
        ux_table().len(),
        3,
        3,
        count_high(r.missing_capabilities@),
    ));
    r
}

// ---------------------------------------------------------------------------
// Markdown
// ---------------------------------------------------------------------------

/// A titled bullet list of code names; nothing for an empty list.
pub open spec fn list_text(title: Seq<char>, items: Seq<Seq<char>>) -> Seq<char> {
    if items.len() == 0 {
        Seq::empty()
    } else {
        "_"@ + title + "_:\n"@ + flatten(items.map_values(|it: Seq<char>| "- `"@ + it + "`\n"@)) + "\n"@
    }
}

/// The markdown of one inventory entry.
pub open spec fn inventory_md(m: InventoryView) -> Seq<char> {
    "### `"@ + m.path + "` ("@ + dec_text(m.lines) + " lines)\n\n"@ + list_text("Public functions"@, m.pub_fns)
        + list_text("Public structs"@, m.pub_structs) + list_text("Public enums"@, m.pub_enums) + list_text(
        "Public traits"@,
        m.pub_traits,
    ) + "\n"@
}

/// A row of the architecture table.
pub open spec fn arch_md(n: (Seq<char>, Seq<char>, Seq<char>)) -> Seq<char> {
    "| "@ + n.0 + " | `"@ + n.1 + "` | "@ + n.2 + " |\n"@
}

/// A data-flow bullet.
pub open spec fn flow_md(d: (Seq<char>, Seq<char>, Seq<char>)) -> Seq<char> {
    "- `"@ + d.0 + "` → `"@ + d.1 + "`  — "@ + d.2 + "\n"@
}

/// A plain bullet.
pub open spec fn bullet_md(g: Seq<char>) -> Seq<char> {
    "- "@ + g + "\n"@
}

/// The numbered steps of a flow.
pub open spec fn steps_md(steps: Seq<Seq<char>>) -> Seq<char> {
    flatten(steps.map(|i: int, st: Seq<char>| dec_text((i + 1) as nat) + ". "@ + st + "\n"@))
}

/// The markdown of one UX flow.
pub open spec fn ux_md(f: (Seq<char>, Seq<Seq<char>>, Seq<char>)) -> Seq<char> {
    "### `"@ + f.0 + "`\n\n"@ + steps_md(f.1) + "\n_Determinism:_ "@ + f.2 + "\n\n"@
}

/// A gap bullet.
pub open spec fn gap_md(g: (Seq<char>, Seq<char>, Seq<char>, Seq<char>)) -> Seq<char> {
    "- **["@ + g.0 + " / "@ + g.1 + "]** "@ + g.2 + " — "@ + g.3 + "\n"@
}

/// A row of the positioning table.
pub open spec fn peer_md(p: (Seq<char>, Seq<char>, Seq<char>, Seq<char>)) -> Seq<char> {
    "| "@ + p.0 + " | "@ + p.1 + " | "@ + p.2 + " | "@ + p.3 + " |\n"@
}

/// A row of the maturity table.
pub open spec fn component_md(c: (Seq<char>, nat, nat, Seq<char>)) -> Seq<char> {
    "| "@ + c.0 + " | "@ + dec_text(c.1) + " | "@ + dec_text(c.2) + " | "@ + c.3 + " |\n"@
}

/// The maturity section body.
pub open spec fn maturity_md(m: MaturityView) -> Seq<char> {
    "**"@ + dec_text(m.score) + "/"@ + dec_text(m.scale_max) + "**.\n\n"@ + "| dimension | score | max | note |\n"@
        + "| --- | --- | --- | --- |\n"@ + flatten(m.breakdown.map_values(|c: (Seq<char>, nat, nat, Seq<char>)| component_md(c)))
        + "\n"@ + "_Rationale._ "@ + m.rationale + "\n"@ + "\n"@
}

/// The markdown report. `exposure` is the rendered OS-exposure figures.
pub open spec fn markdown_of(r: ReportView, exposure: Seq<char>) -> Seq<char> {
    "# AION Repro — system evaluation\n\n"@ + "**Category.** "@ + r.category_definition + "\n\n"@
        + "## 1. Feature inventory\n\n"@ + flatten(r.feature_inventory.map_values(|m: InventoryView| inventory_md(m)))
        + "## 2. Architecture map\n\n"@ + "| layer | module | purpose |\n"@ + "| --- | --- | --- |\n"@ + flatten(
        r.architecture_map.map_values(|n: (Seq<char>, Seq<char>, Seq<char>)| arch_md(n)),
    ) + "\n"@ + "## 3. Data flow\n\n"@ + flatten(r.data_flow.map_values(|d: (Seq<char>, Seq<char>, Seq<char>)| flow_md(d)))
        + "\n"@ + "## 4. Determinism guarantees\n\n"@ + flatten(r.determinism_guarantees.map_values(|g: Seq<char>| bullet_md(g)))
        + "\n"@ + "## 5. UX flows\n\n"@ + flatten(r.ux_flows.map_values(|f: (Seq<char>, Seq<Seq<char>>, Seq<char>)| ux_md(f)))
        + "## 6. Missing capabilities (honest gaps)\n\n"@ + flatten(
        r.missing_capabilities.map_values(|g: (Seq<char>, Seq<char>, Seq<char>, Seq<char>)| gap_md(g)),
    ) + "\n"@ + "## 7. Competitive positioning\n\n"@ + "| peer | category | overlap | distinction |\n"@
        + "| --- | --- | --- | --- |\n"@ + flatten(
        r.competitive_positioning.map_values(|p: (Seq<char>, Seq<char>, Seq<char>, Seq<char>)| peer_md(p)),
    ) + "\n"@ + "## 8. Category definition\n\n"@ + r.category_definition + "\n\n"@ + "## 9. Maturity score\n\n"@
        + maturity_md(r.maturity) + "## 10. OS exposure & CI compatibility\n\n"@
        + "- **OS exposure ratio** (whitelist / budget): "@ + exposure + "\n"@
        + "- **CI ledger**: `repro ci run`, `repro ci ingest <file|->`, `diff`, `why`, `list` — same run record shape as `repro run`.\n\n"@
}

/// Appends a titled bullet list of code names; nothing for an empty list.
pub fn render_list(s: &mut String, title: &str, items: &Vec<String>)
    ensures
        final(s)@ == old(s)@ + list_text(title@, views(items@)),
{
    if items.len() == 0 {
        assert(old(s)@ + Seq::<char>::empty() =~= old(s)@);
        return;
    }
    let ghost start = s@;
    push_str(s, "_");
    push_str(s, title);
    push_str(s, "_:\n");
    let ghost head = s@;
    let ghost parts = views(items@).map_values(|it: Seq<char>| "- `"@ + it + "`\n"@);
    let n = items.len();
    for i in 0..n
        invariant
            n == items@.len(),
            parts == views(items@).map_values(|it: Seq<char>| "- `"@ + it + "`\n"@),
            s@ == head + flatten(parts.take(i as int)),
    {
        proof {
            lemma_flatten_take(parts, i as int);
        }
        let ghost before = s@;
        push_str(s, "- `");
        push_str(s, items[i].as_str());
        push_str(s, "`\n");
        assert(s@ =~= before + parts[i as int]);
    }
    assert(parts.take(n as int) =~= parts);
    push_str(s, "\n");
    assert(s@ =~= start + list_text(title@, views(items@)));
}

#[verifier::spinoff_prover]
#[verifier::rlimit(60)]
fn push_inventory(s: &mut String, m: &ModuleInventory)
    ensures
        final(s)@ == old(s)@ + inventory_md(m@),
{
    let ghost start = s@;
    push_str(s, "### `");
    push_str(s, m.path.as_str());
    push_str(s, "` (");
    push_u128(s, m.lines as u128);
    push_str(s, " lines)\n\n");
    let ghost a = s@;
    render_list(s, "Public functions", &m.pub_fns);
    render_list(s, "Public structs", &m.pub_structs);
    render_list(s, "Public enums", &m.pub_enums);
    render_list(s, "Public traits", &m.pub_traits);
    push_str(s, "\n");
    assert(s@ =~= start + inventory_md(m@));
}

fn push_inventories(s: &mut String, v: &Vec<ModuleInventory>)
    ensures
        final(s)@ == old(s)@ + flatten(inventory_views(v@).map_values(|m: InventoryView| inventory_md(m))),
{
    let ghost start = s@;
    let ghost parts = inventory_views(v@).map_values(|m: InventoryView| inventory_md(m));
    let n = v.len();
    for i in 0..n
        invariant
            n == v@.len(),
            parts == inventory_views(v@).map_values(|m: InventoryView| inventory_md(m)),
            s@ == start + flatten(parts.take(i as int)),
    {
        proof {
            lemma_flatten_take(parts, i as int);
        }
        let ghost before = s@;
        push_inventory(s, &v[i]);
        assert(parts[i as int] == inventory_md(v@[i as int]@));
        assert(s@ =~= before + parts[i as int]);
    }
    assert(parts.take(n as int) =~= parts);
}

fn push_arch_rows(s: &mut String, v: &Vec<ArchitectureNode>)
    ensures
        final(s)@ == old(s)@ + flatten(
            v@.map_values(arch_view_fn()).map_values(|n: (Seq<char>, Seq<char>, Seq<char>)| arch_md(n)),
        ),
{
    let ghost start = s@;
    let ghost parts = v@.map_values(arch_view_fn()).map_values(|n: (Seq<char>, Seq<char>, Seq<char>)| arch_md(n));
    let n = v.len();
    for i in 0..n
        invariant
            n == v@.len(),
            parts == v@.map_values(arch_view_fn()).map_values(|n: (Seq<char>, Seq<char>, Seq<char>)| arch_md(n)),
            s@ == start + flatten(parts.take(i as int)),
    {
        proof {
            lemma_flatten_take(parts, i as int);
        }
        let ghost before = s@;
        let x = &v[i];
        push_str(s, "| ");
        push_str(s, x.layer.as_str());
        push_str(s, " | `");
        push_str(s, x.module.as_str());
        push_str(s, "` | ");
        push_str(s, x.purpose.as_str());
        push_str(s, " |\n");
        assert(parts[i as int] == arch_md(x@));
        assert(s@ =~= before + parts[i as int]);
    }
    assert(parts.take(n as int) =~= parts);
}

fn push_flow_rows(s: &mut String, v: &Vec<DataFlowEdge>)
    ensures
        final(s)@ == old(s)@ + flatten(
            v@.map_values(flow_view_fn()).map_values(|d: (Seq<char>, Seq<char>, Seq<char>)| flow_md(d)),
        ),
{
    let ghost start = s@;
    let ghost parts = v@.map_values(flow_view_fn()).map_values(|d: (Seq<char>, Seq<char>, Seq<char>)| flow_md(d));
    let n = v.len();
    for i in 0..n
        invariant
            n == v@.len(),
            parts == v@.map_values(flow_view_fn()).map_values(|d: (Seq<char>, Seq<char>, Seq<char>)| flow_md(d)),
            s@ == start + flatten(parts.take(i as int)),
    {
        proof {
            lemma_flatten_take(parts, i as int);
        }
        let ghost before = s@;
        let x = &v[i];
        push_str(s, "- `");
        push_str(s, x.from.as_str());
        push_str(s, "` → `");
        push_str(s, x.to.as_str());
        push_str(s, "`  — ");
        push_str(s, x.carries.as_str());
        push_str(s, "\n");
        assert(parts[i as int] == flow_md(x@));
        assert(s@ =~= before + parts[i as int]);
    }
    assert(parts.take(n as int) =~= parts);
}

fn push_bullets(s: &mut String, v: &Vec<String>)
    ensures
        final(s)@ == old(s)@ + flatten(views(v@).map_values(|g: Seq<char>| bullet_md(g))),
{
    let ghost start = s@;
    let ghost parts = views(v@).map_values(|g: Seq<char>| bullet_md(g));
    let n = v.len();
    for i in 0..n
        invariant
            n == v@.len(),
            parts == views(v@).map_values(|g: Seq<char>| bullet_md(g)),
            s@ == start + flatten(parts.take(i as int)),
    {
        proof {
            lemma_flatten_take(parts, i as int);
        }
        let ghost before = s@;
        push_str(s, "- ");
        push_str(s, v[i].as_str());
        push_str(s, "\n");
        assert(s@ =~= before + parts[i as int]);
    }
    assert(parts.take(n as int) =~= parts);
}

fn push_steps(s: &mut String, steps: &Vec<String>)
    ensures
        final(s)@ == old(s)@ + steps_md(views(steps@)),
{
    let ghost start = s@;
    let ghost parts = views(steps@).map(|i: int, st: Seq<char>| dec_text((i + 1) as nat) + ". "@ + st + "\n"@);
    let n = steps.len();
    for i in 0..n
        invariant
            n == steps@.len(),
            parts == views(steps@).map(|i: int, st: Seq<char>| dec_text((i + 1) as nat) + ". "@ + st + "\n"@),
            s@ == start + flatten(parts.take(i as int)),
    {
        proof {
            lemma_flatten_take(parts, i as int);
        }
        let ghost before = s@;
        push_u128(s, (i as u128) + 1);
        push_str(s, ". ");
        push_str(s, steps[i].as_str());
        push_str(s, "\n");
        assert(s@ =~= before + parts[i as int]);
    }
    assert(parts.take(n as int) =~= parts);
}

fn push_ux(s: &mut String, v: &Vec<UxFlow>)
    ensures
        final(s)@ == old(s)@ + flatten(
            v@.map_values(ux_view_fn()).map_values(|f: (Seq<char>, Seq<Seq<char>>, Seq<char>)| ux_md(f)),
        ),
{
    let ghost start = s@;
    let ghost parts = v@.map_values(ux_view_fn()).map_values(|f: (Seq<char>, Seq<Seq<char>>, Seq<char>)| ux_md(f));
    let n = v.len();
    for i in 0..n
        invariant
            n == v@.len(),
            parts == v@.map_values(ux_view_fn()).map_values(|f: (Seq<char>, Seq<Seq<char>>, Seq<char>)| ux_md(f)),
            s@ == start + flatten(parts.take(i as int)),
    {
        proof {
            lemma_flatten_take(parts, i as int);
        }
        let ghost before = s@;
        let f = &v[i];
        push_str(s, "### `");
        push_str(s, f.command.as_str());
        push_str(s, "`\n\n");
        push_steps(s, &f.steps);
        push_str(s, "\n_Determinism:_ ");
        push_str(s, f.determinism_notes.as_str());
        push_str(s, "\n\n");
        assert(parts[i as int] == ux_md(f@));
        assert(s@ =~= before + parts[i as int]);
    }
    assert(parts.take(n as int) =~= parts);
}

fn push_gaps(s: &mut String, v: &Vec<ProductGap>)
    ensures
        final(s)@ == old(s)@ + flatten(
            v@.map_values(|g: ProductGap| gap_view(g)).map_values(
                |g: (Seq<char>, Seq<char>, Seq<char>, Seq<char>)| gap_md(g),
            ),
        ),
{
    let ghost start = s@;
    let ghost parts = v@.map_values(|g: ProductGap| gap_view(g)).map_values(
        |g: (Seq<char>, Seq<char>, Seq<char>, Seq<char>)| gap_md(g),
    );
    let n = v.len();
    for i in 0..n
        invariant
            n == v@.len(),
            parts == v@.map_values(|g: ProductGap| gap_view(g)).map_values(
                |g: (Seq<char>, Seq<char>, Seq<char>, Seq<char>)| gap_md(g),
            ),
            s@ == start + flatten(parts.take(i as int)),
    {
        proof {
            lemma_flatten_take(parts, i as int);
        }
        let ghost before = s@;
        let g = &v[i];
        push_str(s, "- **[");
        push_str(s, g.category.as_str());
        push_str(s, " / ");
        push_str(s, g.severity.as_str());
        push_str(s, "]** ");
        push_str(s, g.title.as_str());
        push_str(s, " — ");
        push_str(s, g.description.as_str());
        push_str(s, "\n");
        assert(parts[i as int] == gap_md(gap_view(*g)));
        assert(s@ =~= before + parts[i as int]);
    }
    assert(parts.take(n as int) =~= parts);
}

fn push_peers(s: &mut String, v: &Vec<CompetitivePeer>)
    ensures
        final(s)@ == old(s)@ + flatten(
            v@.map_values(peer_view_fn()).map_values(|p: (Seq<char>, Seq<char>, Seq<char>, Seq<char>)| peer_md(p)),
        ),
{
    let ghost start = s@;
    let ghost parts = v@.map_values(peer_view_fn()).map_values(
        |p: (Seq<char>, Seq<char>, Seq<char>, Seq<char>)| peer_md(p),
    );
    let n = v.len();
    for i in 0..n
        invariant
            n == v@.len(),
            parts == v@.map_values(peer_view_fn()).map_values(
                |p: (Seq<char>, Seq<char>, Seq<char>, Seq<char>)| peer_md(p),
            ),
            s@ == start + flatten(parts.take(i as int)),
    {
        proof {
            lemma_flatten_take(parts, i as int);
        }
        let ghost before = s@;
        let p = &v[i];
        push_str(s, "| ");
        push_str(s, p.name.as_str());
        push_str(s, " | ");
        push_str(s, p.category.as_str());
        push_str(s, " | ");
        push_str(s, p.overlap.as_str());
        push_str(s, " | ");
        push_str(s, p.distinction.as_str());
        push_str(s, " |\n");
        assert(parts[i as int] == peer_md(p@));
        assert(s@ =~= before + parts[i as int]);
    }
    assert(parts.take(n as int) =~= parts);
}

fn push_components(s: &mut String, v: &Vec<MaturityComponent>)
    ensures
        final(s)@ == old(s)@ + flatten(
            v@.map_values(|c: MaturityComponent| (c.dimension@, c.score as nat, c.max as nat, c.note@)).map_values(
                |c: (Seq<char>, nat, nat, Seq<char>)| component_md(c),
            ),
        ),
{
    let ghost start = s@;
    let ghost parts = v@.map_values(|c: MaturityComponent| (c.dimension@, c.score as nat, c.max as nat, c.note@)).map_values(
        |c: (Seq<char>, nat, nat, Seq<char>)| component_md(c),
    );
    let n = v.len();
    for i in 0..n
        invariant
            n == v@.len(),
            parts == v@.map_values(|c: MaturityComponent| (c.dimension@, c.score as nat, c.max as nat, c.note@)).map_values(
                |c: (Seq<char>, nat, nat, Seq<char>)| component_md(c),
            ),
            s@ == start + flatten(parts.take(i as int)),
    {
        proof {
            lemma_flatten_take(parts, i as int);
        }
        let ghost before = s@;
        let c = &v[i];
        push_str(s, "| ");
        push_str(s, c.dimension.as_str());
        push_str(s, " | ");
        push_u128(s, c.score as u128);
        push_str(s, " | ");
        push_u128(s, c.max as u128);
        push_str(s, " | ");
        push_str(s, c.note.as_str());
        push_str(s, " |\n");
        assert(parts[i as int] == component_md((c.dimension@, c.score as nat, c.max as nat, c.note@)));
        assert(s@ =~= before + parts[i as int]);
    }
    assert(parts.take(n as int) =~= parts);
}

fn push_maturity(s: &mut String, m: &Maturity)
    ensures
        final(s)@ == old(s)@ + maturity_md(m@),
{
    let ghost start = s@;
    push_str(s, "**");
    push_u128(s, m.score as u128);
    push_str(s, "/");
    push_u128(s, m.scale_max as u128);
    push_str(s, "**.\n\n");
    push_str(s, "| dimension | score | max | note |\n");
    push_str(s, "| --- | --- | --- | --- |\n");
    push_components(s, &m.breakdown);
    push_str(s, "\n");
    push_str(s, "_Rationale._ ");
    push_str(s, m.rationale.as_str());
    push_str(s, "\n");
    push_str(s, "\n");
    assert(s@ =~= start + maturity_md(m@));
}

fn push_head(s: &mut String, r: &SystemReport)
    ensures
        final(s)@ == old(s)@ + ("# AION Repro — system evaluation\n\n"@ + "**Category.** "@ + r@.category_definition
            + "\n\n"@ + "## 1. Feature inventory\n\n"@ + flatten(
            r@.feature_inventory.map_values(|m: InventoryView| inventory_md(m)),
        )),
{
    let ghost start = s@;
    push_str(s, "# AION Repro — system evaluation\n\n");
    push_str(s, "**Category.** ");
    push_str(s, r.category_definition.as_str());
    push_str(s, "\n\n");
    push_str(s, "## 1. Feature inventory\n\n");
    let ghost mid = s@;
    push_inventories(s, &r.feature_inventory);
    assert(s@ =~= start + ("# AION Repro — system evaluation\n\n"@ + "**Category.** "@ + r@.category_definition
        + "\n\n"@ + "## 1. Feature inventory\n\n"@ + flatten(
        r@.feature_inventory.map_values(|m: InventoryView| inventory_md(m)),
    )));
}

fn push_tables(s: &mut String, r: &SystemReport)
    ensures
        final(s)@ == old(s)@ + ("## 2. Architecture map\n\n"@ + "| layer | module | purpose |\n"@ + "| --- | --- | --- |\n"@
            + flatten(r@.architecture_map.map_values(|n: (Seq<char>, Seq<char>, Seq<char>)| arch_md(n))) + "\n"@
            + "## 3. Data flow\n\n"@ + flatten(r@.data_flow.map_values(|d: (Seq<char>, Seq<char>, Seq<char>)| flow_md(d)))
            + "\n"@ + "## 4. Determinism guarantees\n\n"@ + flatten(
            r@.determinism_guarantees.map_values(|g: Seq<char>| bullet_md(g)),
        ) + "\n"@),
{
    let ghost start = s@;
    push_str(s, "## 2. Architecture map\n\n");
    push_str(s, "| layer | module | purpose |\n");
    push_str(s, "| --- | --- | --- |\n");
    push_arch_rows(s, &r.architecture_map);
    push_str(s, "\n");
    let ghost a = s@;
    push_str(s, "## 3. Data flow\n\n");
    push_flow_rows(s, &r.data_flow);
    push_str(s, "\n");
    let ghost b = s@;
    push_str(s, "## 4. Determinism guarantees\n\n");
    push_bullets(s, &r.determinism_guarantees);
    push_str(s, "\n");
    assert(s@ =~= start + ("## 2. Architecture map\n\n"@ + "| layer | module | purpose |\n"@ + "| --- | --- | --- |\n"@
        + flatten(r@.architecture_map.map_values(|n: (Seq<char>, Seq<char>, Seq<char>)| arch_md(n))) + "\n"@
        + "## 3. Data flow\n\n"@ + flatten(r@.data_flow.map_values(|d: (Seq<char>, Seq<char>, Seq<char>)| flow_md(d)))
        + "\n"@ + "## 4. Determinism guarantees\n\n"@ + flatten(
        r@.determinism_guarantees.map_values(|g: Seq<char>| bullet_md(g)),
    ) + "\n"@));
}

fn push_middle(s: &mut String, r: &SystemReport)
    ensures
        final(s)@ == old(s)@ + ("## 5. UX flows\n\n"@ + flatten(
            r@.ux_flows.map_values(|f: (Seq<char>, Seq<Seq<char>>, Seq<char>)| ux_md(f)),
        ) + "## 6. Missing capabilities (honest gaps)\n\n"@ + flatten(
            r@.missing_capabilities.map_values(|g: (Seq<char>, Seq<char>, Seq<char>, Seq<char>)| gap_md(g)),
        ) + "\n"@ + "## 7. Competitive positioning\n\n"@ + "| peer | category | overlap | distinction |\n"@
            + "| --- | --- | --- | --- |\n"@ + flatten(
            r@.competitive_positioning.map_values(|p: (Seq<char>, Seq<char>, Seq<char>, Seq<char>)| peer_md(p)),
        ) + "\n"@),
{
    let ghost start = s@;
    push_str(s, "## 5. UX flows\n\n");
    push_ux(s, &r.ux_flows);
    let ghost a = s@;
    push_str(s, "## 6. Missing capabilities (honest gaps)\n\n");
    push_gaps(s, &r.missing_capabilities);
    push_str(s, "\n");
    let ghost b = s@;
    push_str(s, "## 7. Competitive positioning\n\n");
    push_str(s, "| peer | category | overlap | distinction |\n");
    push_str(s, "| --- | --- | --- | --- |\n");
    push_peers(s, &r.competitive_positioning);
    push_str(s, "\n");
    assert(s@ =~= start + ("## 5. UX flows\n\n"@ + flatten(
        r@.ux_flows.map_values(|f: (Seq<char>, Seq<Seq<char>>, Seq<char>)| ux_md(f)),
    ) + "## 6. Missing capabilities (honest gaps)\n\n"@ + flatten(
        r@.missing_capabilities.map_values(|g: (Seq<char>, Seq<char>, Seq<char>, Seq<char>)| gap_md(g)),
    ) + "\n"@ + "## 7. Competitive positioning\n\n"@ + "| peer | category | overlap | distinction |\n"@
        + "| --- | --- | --- | --- |\n"@ + flatten(
        r@.competitive_positioning.map_values(|p: (Seq<char>, Seq<char>, Seq<char>, Seq<char>)| peer_md(p)),
    ) + "\n"@));
}

fn push_tail(s: &mut String, r: &SystemReport, exposure: &str)
    ensures
        final(s)@ == old(s)@ + ("## 8. Category definition\n\n"@ + r@.category_definition + "\n\n"@ + "## 9. Maturity score\n\n"@
            + maturity_md(r@.maturity) + "## 10. OS exposure & CI compatibility\n\n"@
            + "- **OS exposure ratio** (whitelist / budget): "@ + exposure@ + "\n"@
            + "- **CI ledger**: `repro ci run`, `repro ci ingest <file|->`, `diff`, `why`, `list` — same run record shape as `repro run`.\n\n"@),
{
    let ghost start = s@;
    push_str(s, "## 8. Category definition\n\n");
    push_str(s, r.category_definition.as_str());
    push_str(s, "\n\n");
    push_str(s, "## 9. Maturity score\n\n");
    push_maturity(s, &r.maturity);
    let ghost a = s@;
    push_str(s, "## 10. OS exposure & CI compatibility\n\n");
    push_str(s, "- **OS exposure ratio** (whitelist / budget): ");
    push_str(s, exposure);
    push_str(s, "\n");
    push_str(
        s,
        "- **CI ledger**: `repro ci run`, `repro ci ingest <file|->`, `diff`, `why`, `list` — same run record shape as `repro run`.\n\n",
    );
    assert(s@ =~= start + ("## 8. Category definition\n\n"@ + r@.category_definition + "\n\n"@ + "## 9. Maturity score\n\n"@
        + maturity_md(r@.maturity) + "## 10. OS exposure & CI compatibility\n\n"@
        + "- **OS exposure ratio** (whitelist / budget): "@ + exposure@ + "\n"@
        + "- **CI ledger**: `repro ci run`, `repro ci ingest <file|->`, `diff`, `why`, `list` — same run record shape as `repro run`.\n\n"@));
}

/// Renders the report as markdown. `exposure` is the rendered OS-exposure
/// figures (ratio and cap) of section 10.
#[verifier::spinoff_prover]
#[verifier::rlimit(60)]
pub fn render_markdown(r: &SystemReport, exposure: &str) -> (s: String)
    ensures
        s@ == markdown_of(r@, exposure@),
{
    let mut s = String::new();
    push_head(&mut s, r);
    let ghost a = s@;
    push_tables(&mut s, r);
    let ghost b = s@;
    push_middle(&mut s, r);
    let ghost c = s@;
    push_tail(&mut s, r, exposure);
    assert(s@ =~= markdown_of(r@, exposure@));
    s
}

} // verus!
