//! The feature inventory: the public functions, structs, enums and traits that
//! each source file declares, found by scanning its lines.

use super::{ModuleInventory, SrcFile};
use crate::sorting::{key_fn, lemma_sort_by_key_map, sort_by_key, stable_sort, SortKey};
use crate::text::{
    char_vecs, chars_of, has_prefix_at, is_ws, lines_of, owned, skip_ws, slice_chars, split_lines,
    string_of, trim_start, views,
};
use vstd::prelude::*;

verus! {

/// The paths of the tool's source files, in the order they are listed.
pub open spec fn source_path_list() -> Seq<Seq<char>> {
    seq![
        "src/main.rs"@,
        "src/lib.rs"@,
        "src/cli/mod.rs"@,
        "src/cli/ci_handler.rs"@,
        "src/cli/run_handler.rs"@,
        "src/cli/replay_handler.rs"@,
        "src/cli/diff_handler.rs"@,
        "src/cli/root_cause_handler.rs"@,
        "src/cli/graph_handler.rs"@,
        "src/cli/why_handler.rs"@,
        "src/cli/eval_handler.rs"@,
        "src/core/mod.rs"@,
        "src/core/artifact.rs"@,
        "src/core/execution_boundary.rs"@,
        "src/core/capture.rs"@,
        "src/core/causal_graph.rs"@,
        "src/core/causal_query.rs"@,
        "src/core/execution_trace.rs"@,
        "src/core/storage.rs"@,
        "src/core/diff.rs"@,
        "src/core/replay.rs"@,
        "src/core/output.rs"@,
        "src/core/root_cause.rs"@,
        "src/core/identity.rs"@,
        "src/core/report.rs"@,
        "src/core/contract.rs"@,
        "src/analysis/mod.rs"@,
        "src/analysis/product_analyzer.rs"@,
        "src/analysis/system_evaluation.rs"@,
        "src/engine/mod.rs"@,
        "src/engine/adapter.rs"@,
        "src/ci/mod.rs"@,
        "src/ci/baseline.rs"@,
        "src/ci/ci_orchestrator.rs"@,
        "src/ci/schema.rs"@,
        "src/ci/environment.rs"@,
        "src/ci/meta.rs"@,
        "src/ci/storage.rs"@,
        "src/ci/diff.rs"@,
        "src/ci/root_cause.rs"@,
    ]
}

/// The paths of the tool's source files.
pub fn source_paths() -> (r: Vec<String>)
    ensures
        views(r@) == source_path_list(),
{
    let r = vec![
        owned("src/main.rs"),
        owned("src/lib.rs"),
        owned("src/cli/mod.rs"),
        owned("src/cli/ci_handler.rs"),
        owned("src/cli/run_handler.rs"),
        owned("src/cli/replay_handler.rs"),
        owned("src/cli/diff_handler.rs"),
        owned("src/cli/root_cause_handler.rs"),
        owned("src/cli/graph_handler.rs"),
        owned("src/cli/why_handler.rs"),
        owned("src/cli/eval_handler.rs"),
        owned("src/core/mod.rs"),
        owned("src/core/artifact.rs"),
        owned("src/core/execution_boundary.rs"),
        owned("src/core/capture.rs"),
        owned("src/core/causal_graph.rs"),
        owned("src/core/causal_query.rs"),
        owned("src/core/execution_trace.rs"),
        owned("src/core/storage.rs"),
        owned("src/core/diff.rs"),
        owned("src/core/replay.rs"),
        owned("src/core/output.rs"),
        owned("src/core/root_cause.rs"),
        owned("src/core/identity.rs"),
        owned("src/core/report.rs"),
        owned("src/core/contract.rs"),
        owned("src/analysis/mod.rs"),
        owned("src/analysis/product_analyzer.rs"),
        owned("src/analysis/system_evaluation.rs"),
        owned("src/engine/mod.rs"),
        owned("src/engine/adapter.rs"),
        owned("src/ci/mod.rs"),
        owned("src/ci/baseline.rs"),
        owned("src/ci/ci_orchestrator.rs"),
        owned("src/ci/schema.rs"),
        owned("src/ci/environment.rs"),
        owned("src/ci/meta.rs"),
        owned("src/ci/storage.rs"),
        owned("src/ci/diff.rs"),
        owned("src/ci/root_cause.rs"),
    ];
    assert(views(r@) =~= source_path_list());
    r
}

/// A character that ends a declared name.
pub open spec fn is_stop(c: char) -> bool {
    c == '(' || c == '<' || c == '{' || c == ':' || c == ';' || is_ws(c)
}

/// Length of the name at the start of `s`.
pub open spec fn name_len(s: Seq<char>) -> nat
    decreases s.len(),
{
    if s.len() == 0 || is_stop(s[0]) {
        0
    } else {
        name_len(s.drop_first()) + 1
    }
}

/// The name declared after `keyword` at the start of `line`, if any.
pub open spec fn name_after(line: Seq<char>, keyword: Seq<char>) -> Option<Seq<char>> {
    if keyword.is_prefix_of(line) {
        let rest = line.skip(keyword.len() as int);
        let name = rest.take(name_len(rest) as int);
        if name.len() == 0 {
            None
        } else {
            Some(name)
        }
    } else {
        None
    }
}

/// The first position of `c` in `s`.
pub open spec fn index_of_char(s: Seq<char>, c: char) -> Option<int>
    decreases s.len(),
{
    if s.len() == 0 {
        None
    } else if s[0] == c {
        Some(0)
    } else {
        match index_of_char(s.drop_first(), c) {
            Some(i) => Some(i + 1),
            None => None,
        }
    }
}

proof fn lemma_index_of_char(s: Seq<char>, c: char)
    ensures
        index_of_char(s, c) matches Some(i) ==> 0 <= i < s.len() && s[i] == c,
    decreases s.len(),
{
    if s.len() > 0 && s[0] != c {
        lemma_index_of_char(s.drop_first(), c);
    }
}

/// What follows the visibility of a public declaration: after `pub ` , or after
/// `pub(...)` and the white space behind it; `None` for other lines.
pub open spec fn public_rest(line: Seq<char>) -> Option<Seq<char>> {
    let t = trim_start(line);
    if "pub("@.is_prefix_of(t) {
        let rest = t.skip(4);
        match index_of_char(rest, ')') {
            Some(k) => Some(trim_start(rest.skip(k + 1))),
            None => Some(t),
        }
    } else if "pub "@.is_prefix_of(t) {
        Some(t.skip(4))
    } else {
        None
    }
}

/// What a line declares publicly: kind 0 (function), 1 (struct), 2 (enum) or 3
/// (trait), and the listed name. An `async fn` is listed as a function, marked.
pub open spec fn declared(line: Seq<char>) -> Option<(int, Seq<char>)> {
    match public_rest(line) {
        None => None,
        Some(r) => match name_after(r, "fn "@) {
            Some(n) => Some((0, n)),
            None => match name_after(r, "struct "@) {
                Some(n) => Some((1, n)),
                None => match name_after(r, "enum "@) {
                    Some(n) => Some((2, n)),
                    None => match name_after(r, "trait "@) {
                        Some(n) => Some((3, n)),
                        None => match name_after(r, "async fn "@) {
                            Some(n) => Some((0, n + " (async!)"@)),
                            None => None,
                        },
                    },
                },
            },
        },
    }
}

/// The names of kind `kind` declared by the lines, in line order.
pub open spec fn names_of_kind(ls: Seq<Seq<char>>, kind: int) -> Seq<Seq<char>>
    decreases ls.len(),
{
    if ls.len() == 0 {
        Seq::empty()
    } else {
        let rest = names_of_kind(ls.drop_last(), kind);
        match declared(ls.last()) {
            Some(d) => if d.0 == kind {
                rest.push(d.1)
            } else {
                rest
            },
            None => rest,
        }
    }
}

/// The identity key on texts.
pub open spec fn text_key() -> spec_fn(Seq<char>) -> Seq<char> {
    |t: Seq<char>| t
}

/// The texts in ascending order.
pub open spec fn sorted_texts(s: Seq<Seq<char>>) -> Seq<Seq<char>> {
    sort_by_key(s, text_key())
}

/// What the scan of one source file finds.
pub struct InventoryView {
    pub path: Seq<char>,
    pub lines: nat,
    pub pub_fns: Seq<Seq<char>>,
    pub pub_structs: Seq<Seq<char>>,
    pub pub_enums: Seq<Seq<char>>,
    pub pub_traits: Seq<Seq<char>>,
}

impl View for ModuleInventory {
    type V = InventoryView;

    open spec fn view(&self) -> InventoryView {
        InventoryView {
            path: self.path@,
            lines: self.lines as nat,
            pub_fns: views(self.pub_fns@),
            pub_structs: views(self.pub_structs@),
            pub_enums: views(self.pub_enums@),
            pub_traits: views(self.pub_traits@),
        }
    }
}

/// The inventory of a source file: its line count and its public names of each
/// kind, each list in ascending order.
pub open spec fn inventory_of(path: Seq<char>, text: Seq<char>) -> InventoryView {
    let ls = lines_of(text);
    InventoryView {
        path: path,
        lines: ls.len(),
        pub_fns: sorted_texts(names_of_kind(ls, 0)),
        pub_structs: sorted_texts(names_of_kind(ls, 1)),
        pub_enums: sorted_texts(names_of_kind(ls, 2)),
        pub_traits: sorted_texts(names_of_kind(ls, 3)),
    }
}

impl SortKey for String {
    open spec fn sort_key(&self, k: usize) -> Seq<char> {
        self@
    }

    fn key_str(&self, k: usize) -> (r: &str) {
        self.as_str()
    }
}

/// String → its text.
pub open spec fn text_of() -> spec_fn(String) -> Seq<char> {
    |s: String| s@
}

/// Strings in ascending order.
pub fn sort_strings(v: Vec<String>) -> (r: Vec<String>)
    ensures
        views(r@) == sorted_texts(views(v@)),
{
    let ghost orig = v@;
    let r = stable_sort(v, 0);
    proof {
        lemma_sort_by_key_map(orig, text_of(), key_fn::<String>(0), text_key());
        assert(views(orig) =~= orig.map_values(text_of()));
        assert(views(r@) =~= r@.map_values(text_of()));
    }
    r
}

/// The first position at or after `from` where `v` holds `c`.
fn find_char(v: &Vec<char>, from: usize, c: char) -> (r: Option<usize>)
    requires
        from <= v@.len(),
    ensures
        match index_of_char(v@.skip(from as int), c) {
            Some(k) => r matches Some(x) && x == from + k,
            None => r is None,
        },
        r matches Some(k) ==> k < v@.len(),
{
    let mut i = from;
    while i < v.len()
        invariant
            from <= i <= v@.len(),
            index_of_char(v@.skip(from as int), c) == match index_of_char(v@.skip(i as int), c) {
                Some(k) => Some(k + (i - from)),
                None => None,
            },
        decreases v@.len() - i,
    {
        assert(v@.skip(i as int)[0] == v@[i as int]);
        assert(v@.skip(i as int).drop_first() == v@.skip(i + 1));
        if v[i] == c {
            return Some(i);
        }
        i = i + 1;
    }
    assert(v@.skip(i as int).len() == 0);
    None
}

/// The name declared after `keyword` at position `at` of `line`.
fn name_at(line: &Vec<char>, at: usize, keyword: &str) -> (r: Option<Vec<char>>)
    requires
        at <= line@.len(),
    ensures
        match name_after(line@.skip(at as int), keyword@) {
            Some(n) => r matches Some(v) && v@ == n,
            None => r is None,
        },
{
    if !has_prefix_at(line, at, keyword) {
        return None;
    }
    let ghost s = line@.skip(at as int);
    let kw = chars_of(keyword);
    let n = line.len();
    assert(at + kw@.len() <= n);
    let start = at + kw.len();
    assert(line@.skip(start as int) == s.skip(keyword@.len() as int));
    let mut end = start;
    while end < line.len() && !(line[end] == '(' || line[end] == '<' || line[end] == '{' || line[end] == ':'
        || line[end] == ';' || crate::text::is_whitespace(line[end]))
        invariant
            start <= end <= line@.len(),
            name_len(line@.skip(start as int)) == name_len(line@.skip(end as int)) + (end - start),
            line@.skip(start as int).take(end - start) == line@.subrange(start as int, end as int),
        decreases line@.len() - end,
    {
        assert(line@.skip(end as int)[0] == line@[end as int]);
        assert(line@.skip(end as int).drop_first() == line@.skip(end + 1));
        end = end + 1;
        assert(line@.skip(start as int).take(end - start) =~= line@.subrange(start as int, end as int));
    }
    if end < line.len() {
        assert(line@.skip(end as int)[0] == line@[end as int]);
    }
    assert(name_len(line@.skip(end as int)) == 0);
    if end == start {
        return None;
    }
    Some(slice_chars(line, start, end))
}

/// Where the rest of a public declaration starts in `line`, if the line is one.
fn public_rest_at(line: &Vec<char>) -> (r: Option<usize>)
    ensures
        match public_rest(line@) {
            Some(rest) => r matches Some(k) && k <= line@.len() && line@.skip(k as int) == rest,
            None => r is None,
        },
{
    let n = line.len();
    let t = skip_ws(line, 0);
    assert(line@.skip(0) == line@);
    proof {
        reveal_strlit("pub(");
        reveal_strlit("pub ");
    }
    if has_prefix_at(line, t, "pub(") {
        let ghost tt = line@.skip(t as int);
        assert(t + 4 <= n);
        assert(tt.skip(4) =~= line@.skip(t + 4));
        match find_char(line, t + 4, ')') {
            Some(k) => {
                assert(line@.skip((t + 4) as int) == tt.skip(4));
                assert(index_of_char(tt.skip(4), ')') is Some);
                proof {
                    lemma_index_of_char(tt.skip(4), ')');
                }
                let ghost kk = index_of_char(tt.skip(4), ')')->0;
                assert(k == t + 4 + kk);
                assert(k < line@.len());
                assert(line@.skip((t + 4) as int).skip(kk + 1) =~= line@.skip(k + 1));
                assert(tt.skip(4).skip(kk + 1) == line@.skip(k + 1));
                Some(skip_ws(line, k + 1))
            },
            None => Some(t),
        }
    } else if has_prefix_at(line, t, "pub ") {
        assert(t + 4 <= n);
        assert(line@.skip(t as int).skip(4) =~= line@.skip(t + 4));
        Some(t + 4)
    } else {
        None
    }
}

/// What `line` declares publicly (see `declared`).
fn declared_at(line: &Vec<char>) -> (r: Option<(u8, Vec<char>)>)
    ensures
        match declared(line@) {
            Some(d) => r matches Some(x) && x.0 as int == d.0 && x.1@ == d.1,
            None => r is None,
        },
{
    let k = match public_rest_at(line) {
        Some(k) => k,
        None => return None,
    };
    if let Some(n) = name_at(line, k, "fn ") {
        return Some((0, n));
    }
    if let Some(n) = name_at(line, k, "struct ") {
        return Some((1, n));
    }
    if let Some(n) = name_at(line, k, "enum ") {
        return Some((2, n));
    }
    if let Some(n) = name_at(line, k, "trait ") {
        return Some((3, n));
    }
    if let Some(n) = name_at(line, k, "async fn ") {
        let mut m = n;
        let suffix = chars_of(" (async!)");
        let ghost before = m@;
        let ns = suffix.len();
        for i in 0..ns
            invariant
                ns == suffix@.len(),
                suffix@ == " (async!)"@,
                m@ == before + suffix@.take(i as int),
        {
            m.push(suffix[i]);
            assert(m@ =~= before + suffix@.take(i + 1));
        }
        assert(suffix@.take(ns as int) =~= suffix@);
        return Some((0, m));
    }
    None
}

/// Scans one source file for its public declarations.
pub fn scan_module(src: &SrcFile) -> (m: ModuleInventory)
    ensures
        m@ == inventory_of(src.path@, src.text@),
{
    let text = chars_of(src.text.as_str());
    let lines = split_lines(&text);
    let ghost ls = lines_of(src.text@);
    let mut fns: Vec<String> = Vec::new();
    let mut structs: Vec<String> = Vec::new();
    let mut enums: Vec<String> = Vec::new();
    let mut traits: Vec<String> = Vec::new();
    let n = lines.len();
    for i in 0..n
        invariant
            n == lines@.len(),
            char_vecs(lines@) == ls,
            views(fns@) == names_of_kind(ls.take(i as int), 0),
            views(structs@) == names_of_kind(ls.take(i as int), 1),
            views(enums@) == names_of_kind(ls.take(i as int), 2),
            views(traits@) == names_of_kind(ls.take(i as int), 3),
    {
        let ghost pre = ls.take(i as int);
        assert(ls.take(i + 1).drop_last() =~= pre);
        assert(ls.take(i + 1).last() == lines@[i as int]@);
        let ghost f0 = views(fns@);
        let ghost s0 = views(structs@);
        let ghost e0 = views(enums@);
        let ghost t0 = views(traits@);
        match declared_at(&lines[i]) {
            Some((kind, name)) => {
                let name_s = string_of(&name);
                if kind == 0 {
                    fns.push(name_s);
                    assert(views(fns@) =~= f0.push(name@));
                } else if kind == 1 {
                    structs.push(name_s);
                    assert(views(structs@) =~= s0.push(name@));
                } else if kind == 2 {
                    enums.push(name_s);
                    assert(views(enums@) =~= e0.push(name@));
                } else {
                    traits.push(name_s);
                    assert(views(traits@) =~= t0.push(name@));
                }
            },
            None => {},
        }
    }
    assert(ls.take(n as int) =~= ls);
    ModuleInventory {
        path: src.path.clone(),
        lines: n,
        pub_fns: sort_strings(fns),
        pub_structs: sort_strings(structs),
        pub_enums: sort_strings(enums),
        pub_traits: sort_strings(traits),
    }
}

/// The name declared after `keyword` at the start of `line`, if any.
pub fn parse_name(line: &str, keyword: &str) -> (r: Option<String>)
    ensures
        match name_after(line@, keyword@) {
            Some(n) => r matches Some(s) && s@ == n,
            None => r is None,
        },
{
    let v = chars_of(line);
    assert(v@.skip(0) == v@);
    match name_at(&v, 0, keyword) {
        Some(n) => Some(string_of(&n)),
        None => None,
    }
}

impl SortKey for ModuleInventory {
    open spec fn sort_key(&self, k: usize) -> Seq<char> {
        self.path@
    }

    fn key_str(&self, k: usize) -> (r: &str) {
        self.path.as_str()
    }
}

/// Inventory → view.
pub open spec fn inventory_view_fn() -> spec_fn(ModuleInventory) -> InventoryView {
    |m: ModuleInventory| m@
}

/// Inventory order: by path.
pub open spec fn inventory_order() -> spec_fn(InventoryView) -> Seq<char> {
    |m: InventoryView| m.path
}

/// The views of inventories.
pub open spec fn inventory_views(s: Seq<ModuleInventory>) -> Seq<InventoryView> {
    s.map_values(inventory_view_fn())
}

/// The scans of the source files.
pub open spec fn scans_of(srcs: Seq<SrcFile>) -> Seq<InventoryView> {
    srcs.map_values(|f: SrcFile| inventory_of(f.path@, f.text@))
}

/// The inventory of every source file, in ascending path order.
pub fn feature_inventory(sources: &Vec<SrcFile>) -> (r: Vec<ModuleInventory>)
    ensures
        inventory_views(r@) == sort_by_key(scans_of(sources@), inventory_order()),
{
    let mut out: Vec<ModuleInventory> = Vec::new();
    let n = sources.len();
    for i in 0..n
        invariant
            n == sources@.len(),
            inventory_views(out@) == scans_of(sources@).take(i as int),
    {
        let m = scan_module(&sources[i]);
        let ghost before = inventory_views(out@);
        out.push(m);
        assert(inventory_views(out@) =~= before.push(out@[i as int]@));
        assert(scans_of(sources@).take(i + 1) =~= scans_of(sources@).take(i as int).push(
            inventory_of(sources@[i as int].path@, sources@[i as int].text@),
        ));
    }
    assert(scans_of(sources@).take(n as int) =~= scans_of(sources@));
    let ghost unsorted = out@;
    let r = stable_sort(out, 0);
    proof {
        lemma_sort_by_key_map(unsorted, inventory_view_fn(), key_fn::<ModuleInventory>(0), inventory_order());
    }
    r
}

} // verus!
