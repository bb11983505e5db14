//! The registry of tools that can be added from the search screen: search
//! over it, and merging the curated list with the one mise reports.
use vstd::prelude::*;
use crate::text::{chars_contain, chars_of, has_infix, lines, lines_of, lowercase, string_of_chars, to_lowercase, words, words_of, str_eq};

verus! {

#[derive(Debug, Clone)]
pub struct ManifestTool {
    pub name: String,
    pub mise_id: String,
    pub description: String,
}

#[verifier::ext_equal]
pub struct ToolView {
    pub name: Seq<char>,
    pub mise_id: Seq<char>,
    pub description: Seq<char>,
}

impl View for ManifestTool {
    type V = ToolView;

    open spec fn view(&self) -> ToolView {
        ToolView { name: self.name@, mise_id: self.mise_id@, description: self.description@ }
    }
}

pub open spec fn tool_views(s: Seq<ManifestTool>) -> Seq<ToolView> {
    s.map_values(|t: ManifestTool| t@)
}

impl ManifestTool {
    pub fn duplicate(&self) -> (r: ManifestTool)
        ensures
            r@ == self@,
    {
        ManifestTool {
            name: self.name.clone(),
            mise_id: self.mise_id.clone(),
            description: self.description.clone(),
        }
    }
}

proof fn lemma_tool_views_step(s: Seq<ManifestTool>, i: int)
    requires
        0 <= i < s.len(),
    ensures
        tool_views(s).take(i + 1).drop_last() == tool_views(s).take(i),
        tool_views(s).take(i + 1).last() == s[i]@,
{
    assert(tool_views(s).take(i + 1).drop_last() =~= tool_views(s).take(i));
}

// ---------------------------------------------------------------------------
// Search
// ---------------------------------------------------------------------------

/// A tool matches a lowercased query when its lowercased name or
/// description holds it.
pub open spec fn matches_query(q: Seq<char>) -> spec_fn(ToolView) -> bool {
    |t: ToolView| has_infix(lowercase(t.name), q) || has_infix(lowercase(t.description), q)
}

/// The result of searching `tools` for `query`: all of them for an empty
/// query, else those that match it, case-insensitively, in order.
pub open spec fn search_result(tools: Seq<ToolView>, query: Seq<char>) -> Seq<ToolView> {
    if query.len() == 0 {
        tools
    } else {
        tools.filter(matches_query(lowercase(query)))
    }
}

/// A search with an empty query offers every tool; otherwise it offers
/// exactly the tools whose name or description holds the query, ignoring
/// case, each taken from the list searched.
pub proof fn lemma_search_finds_matches(tools: Seq<ToolView>, query: Seq<char>)
    ensures
        query.len() == 0 ==> search_result(tools, query) == tools,
        query.len() > 0 ==> forall|i: int| 0 <= i < tools.len() && (has_infix(lowercase(tools[i].name), lowercase(query))
            || has_infix(lowercase(tools[i].description), lowercase(query))) ==> search_result(tools, query).contains(
            #[trigger] tools[i]),
        query.len() > 0 ==> forall|k: int| 0 <= k < search_result(tools, query).len() ==> {
            let t = #[trigger] search_result(tools, query)[k];
            &&& tools.contains(t)
            &&& has_infix(lowercase(t.name), lowercase(query)) || has_infix(lowercase(t.description), lowercase(query))
        },
        search_result(tools, query).len() <= tools.len(),
{
    let pred = matches_query(lowercase(query));
    tools.lemma_filter_len(pred);
    if query.len() > 0 {
        assert forall|i: int| 0 <= i < tools.len() && (has_infix(lowercase(tools[i].name), lowercase(query))
            || has_infix(lowercase(tools[i].description), lowercase(query))) implies search_result(tools, query).contains(
            #[trigger] tools[i]) by {
            assert(pred(tools[i]));
            tools.lemma_filter_contains(pred, i);
        }
        assert forall|k: int| 0 <= k < search_result(tools, query).len() implies {
            let t = #[trigger] search_result(tools, query)[k];
            &&& tools.contains(t)
            &&& has_infix(lowercase(t.name), lowercase(query)) || has_infix(lowercase(t.description), lowercase(query))
        } by {
            let f = tools.filter(pred);
            tools.lemma_filter_pred(pred, k);
            assert(f.contains(f[k]));
            tools.lemma_filter_contains_rev(pred, f[k]);
        }
    }
}

pub fn copy_tools(tools: &[ManifestTool]) -> (r: Vec<ManifestTool>)
    ensures
        tool_views(r@) == tool_views(tools@),
{
    let mut r: Vec<ManifestTool> = Vec::new();
    let mut i: usize = 0;
    while i < tools.len()
        invariant
            i <= tools.len(),
            tool_views(r@) =~= tool_views(tools@).take(i as int),
        decreases tools.len() - i,
    {
        let ghost before = tool_views(r@);
        r.push(tools[i].duplicate());
        assert(tool_views(r@) =~= before.push(tools@[i as int]@));
        i = i + 1;
    }
    assert(tool_views(tools@).take(tools.len() as int) =~= tool_views(tools@));
    r
}

/// Case-insensitive substring search across name and description.
pub fn search(tools: &[ManifestTool], query: &str) -> (r: Vec<ManifestTool>)
    ensures
        tool_views(r@) == search_result(tool_views(tools@), query@),
{
    if query.unicode_len() == 0 {
        return copy_tools(tools);
    }
    let q_str = to_lowercase(query);
    let q = chars_of(q_str.as_str());
    let ghost pred = matches_query(lowercase(query@));
    let ghost ts = tool_views(tools@);
    let mut r: Vec<ManifestTool> = Vec::new();
    let mut i: usize = 0;
    proof {
        reveal(Seq::filter);
        assert(ts.take(0) =~= Seq::<ToolView>::empty());
        assert(tool_views(r@) =~= ts.take(0).filter(pred));
    }
    while i < tools.len()
        invariant
            i <= tools.len(),
            ts == tool_views(tools@),
            q@ == lowercase(query@),
            pred == matches_query(lowercase(query@)),
            tool_views(r@) == ts.take(i as int).filter(pred),
        decreases tools.len() - i,
    {
        let t = &tools[i];
        let name_l = to_lowercase(t.name.as_str());
        let desc_l = to_lowercase(t.description.as_str());
        let name_v = chars_of(name_l.as_str());
        let desc_v = chars_of(desc_l.as_str());
        let ghost before = tool_views(r@);
        proof {
            reveal(Seq::filter);
            lemma_tool_views_step(tools@, i as int);
        }
        if chars_contain(&name_v, &q) || chars_contain(&desc_v, &q) {
            r.push(t.duplicate());
            assert(tool_views(r@) =~= before.push(t@));
        }
        i = i + 1;
    }
    assert(ts.take(tools.len() as int) =~= ts);
    r
}

// ---------------------------------------------------------------------------
// Merging with the registry that mise reports
// ---------------------------------------------------------------------------

pub open spec fn has_id(acc: Seq<ToolView>, id: Seq<char>) -> bool {
    exists|i: int| 0 <= i < acc.len() && #[trigger] acc[i].mise_id == id
}

/// `acc` followed by the tools of `rest` whose mise id is not yet present,
/// each checked against everything kept before it.
pub open spec fn merged(acc: Seq<ToolView>, rest: Seq<ToolView>) -> Seq<ToolView>
    decreases rest.len(),
{
    if rest.len() == 0 {
        acc
    } else if has_id(acc, rest[0].mise_id) {
        merged(acc, rest.drop_first())
    } else {
        merged(acc.push(rest[0]), rest.drop_first())
    }
}

fn contains_id(acc: &Vec<ManifestTool>, id: &str) -> (b: bool)
    ensures
        b == has_id(tool_views(acc@), id@),
{
    let mut i: usize = 0;
    while i < acc.len()
        invariant
            i <= acc.len(),
            forall|k: int| 0 <= k < i ==> #[trigger] acc@[k].mise_id@ != id@,
        decreases acc.len() - i,
    {
        if str_eq(acc[i].mise_id.as_str(), id) {
            assert(tool_views(acc@)[i as int].mise_id == id@);
            return true;
        }
        i = i + 1;
    }
    assert forall|k: int| 0 <= k < tool_views(acc@).len() implies #[trigger] tool_views(acc@)[k].mise_id != id@ by {
        assert(tool_views(acc@)[k] == acc@[k]@);
    }
    false
}

/// Merge the curated manifest with the runtime registry, keeping the first
/// tool of each mise id.
pub fn merge(curated: Vec<ManifestTool>, runtime: Vec<ManifestTool>) -> (r: Vec<ManifestTool>)
    ensures
        tool_views(r@) == merged(tool_views(curated@), tool_views(runtime@)),
{
    let ghost rt = tool_views(runtime@);
    let mut out = curated;
    let mut i: usize = 0;
    assert(rt.skip(0) =~= rt);
    while i < runtime.len()
        invariant
            i <= runtime.len(),
            rt == tool_views(runtime@),
            merged(tool_views(curated@), rt) == merged(tool_views(out@), rt.skip(i as int)),
        decreases runtime.len() - i,
    {
        let t = &runtime[i];
        let ghost rest = rt.skip(i as int);
        assert(rest[0] == t@);
        assert(rest.drop_first() =~= rt.skip(i + 1));
        if !contains_id(&out, t.mise_id.as_str()) {
            let ghost before = tool_views(out@);
            out.push(t.duplicate());
            assert(tool_views(out@) =~= before.push(t@));
        }
        i = i + 1;
    }
    assert(rt.skip(runtime.len() as int) =~= Seq::<ToolView>::empty());
    out
}

/// The tools that the search offers: the curated list, merged with the
/// registry that mise reports where it reported one.
pub fn offered_tools(curated: Vec<ManifestTool>, runtime: Option<Vec<ManifestTool>>) -> (r: Vec<ManifestTool>)
    ensures
        tool_views(r@) == match runtime {
            Some(rt) => merged(tool_views(curated@), tool_views(rt@)),
            None => tool_views(curated@),
        },
{
    match runtime {
        Some(rt) => merge(curated, rt),
        None => curated,
    }
}

/// No two tools share a mise id.
pub open spec fn unique_ids(ts: Seq<ToolView>) -> bool {
    forall|i: int, j: int| 0 <= i < j < ts.len() ==> ts[i].mise_id != ts[j].mise_id
}

proof fn lemma_merged_keeps_prefix(acc: Seq<ToolView>, rest: Seq<ToolView>)
    ensures
        merged(acc, rest).len() >= acc.len(),
        merged(acc, rest).take(acc.len() as int) == acc,
    decreases rest.len(),
{
    if rest.len() == 0 {
        assert(acc.take(acc.len() as int) =~= acc);
    } else if has_id(acc, rest[0].mise_id) {
        lemma_merged_keeps_prefix(acc, rest.drop_first());
    } else {
        let a2 = acc.push(rest[0]);
        lemma_merged_keeps_prefix(a2, rest.drop_first());
        let m = merged(a2, rest.drop_first());
        assert(m.take(acc.len() as int) =~= a2.take(acc.len() as int)) by {
            assert forall|k: int| 0 <= k < acc.len() implies m.take(acc.len() as int)[k] == a2.take(acc.len() as int)[k] by {
                assert(m.take(a2.len() as int)[k] == a2[k]);
            }
        }
        assert(a2.take(acc.len() as int) =~= acc);
    }
}

proof fn lemma_merged_has_ids(acc: Seq<ToolView>, rest: Seq<ToolView>, id: Seq<char>)
    requires
        has_id(acc, id) || exists|i: int| 0 <= i < rest.len() && #[trigger] rest[i].mise_id == id,
    ensures
        has_id(merged(acc, rest), id),
    decreases rest.len(),
{
    if rest.len() == 0 {
    } else {
        let tail = rest.drop_first();
        let a2 = if has_id(acc, rest[0].mise_id) { acc } else { acc.push(rest[0]) };
        assert(has_id(a2, id) || exists|i: int| 0 <= i < tail.len() && #[trigger] tail[i].mise_id == id) by {
            if has_id(acc, id) {
                let k = choose|k: int| 0 <= k < acc.len() && #[trigger] acc[k].mise_id == id;
                assert(a2[k].mise_id == id);
            } else {
                let i = choose|i: int| 0 <= i < rest.len() && #[trigger] rest[i].mise_id == id;
                if i == 0 {
                    if has_id(acc, rest[0].mise_id) {
                    } else {
                        assert(a2[acc.len() as int].mise_id == id);
                    }
                } else {
                    assert(tail[i - 1].mise_id == id);
                }
            }
        }
        lemma_merged_has_ids(a2, tail, id);
    }
}

proof fn lemma_merged_unique(acc: Seq<ToolView>, rest: Seq<ToolView>)
    requires
        unique_ids(acc),
    ensures
        unique_ids(merged(acc, rest)),
    decreases rest.len(),
{
    if rest.len() > 0 {
        if has_id(acc, rest[0].mise_id) {
            lemma_merged_unique(acc, rest.drop_first());
        } else {
            let a2 = acc.push(rest[0]);
            assert(unique_ids(a2)) by {
                assert forall|i: int, j: int| 0 <= i < j < a2.len() implies a2[i].mise_id != a2[j].mise_id by {
                    if j == acc.len() {
                        assert(a2[i] == acc[i]);
                        if acc[i].mise_id == rest[0].mise_id {
                            assert(has_id(acc, rest[0].mise_id));
                        }
                    }
                }
            }
            lemma_merged_unique(a2, rest.drop_first());
        }
    }
}

/// Merging keeps the curated list whole and first, holds every mise id of
/// either list, and repeats none where the curated list repeats none.
pub proof fn lemma_merge_laws(curated: Seq<ToolView>, runtime: Seq<ToolView>)
    ensures
        merged(curated, runtime).len() >= curated.len(),
        merged(curated, runtime).take(curated.len() as int) == curated,
        forall|i: int| 0 <= i < runtime.len() ==> has_id(merged(curated, runtime), #[trigger] runtime[i].mise_id),
        forall|i: int| 0 <= i < curated.len() ==> has_id(merged(curated, runtime), #[trigger] curated[i].mise_id),
        unique_ids(curated) ==> unique_ids(merged(curated, runtime)),
{
    lemma_merged_keeps_prefix(curated, runtime);
    assert forall|i: int| 0 <= i < runtime.len() implies has_id(merged(curated, runtime), #[trigger] runtime[i].mise_id) by {
        lemma_merged_has_ids(curated, runtime, runtime[i].mise_id);
    }
    assert forall|i: int| 0 <= i < curated.len() implies has_id(merged(curated, runtime), #[trigger] curated[i].mise_id) by {
        assert(has_id(curated, curated[i].mise_id));
        lemma_merged_has_ids(curated, runtime, curated[i].mise_id);
    }
    if unique_ids(curated) {
        lemma_merged_unique(curated, runtime);
    }
}

// ---------------------------------------------------------------------------
// Parsing `mise registry`
// ---------------------------------------------------------------------------

/// One line of `mise registry` names a tool by its first two words, the
/// tool name and its backend id; the id also serves as description.
pub open spec fn registry_tools(ls: Seq<Seq<char>>) -> Seq<ToolView>
    decreases ls.len(),
{
    if ls.len() == 0 {
        seq![]
    } else {
        let rest = registry_tools(ls.drop_last());
        let w = words_of(ls.last());
        if w.len() >= 2 {
            rest.push(ToolView { name: w[0], mise_id: w[1], description: w[1] })
        } else {
            rest
        }
    }
}

/// The tools that the output of `mise registry` lists; none when it lists
/// none.
pub fn parse_runtime_registry(text: &str) -> (r: Option<Vec<ManifestTool>>)
    ensures
        match r {
            Some(v) => tool_views(v@) == registry_tools(lines_of(text@)) && v@.len() > 0,
            None => registry_tools(lines_of(text@)).len() == 0,
        },
{
    let chars = chars_of(text);
    let ls = lines(&chars);
    let ghost lv = ls.deep_view();
    let mut tools: Vec<ManifestTool> = Vec::new();
    let mut i: usize = 0;
    assert(lv.take(0) =~= Seq::<Seq<char>>::empty());
    while i < ls.len()
        invariant
            i <= ls@.len(),
            lv == ls.deep_view(),
            tool_views(tools@) == registry_tools(lv.take(i as int)),
        decreases ls.len() - i,
    {
        let ws = words(&ls[i]);
        assert(lv.take(i + 1).drop_last() =~= lv.take(i as int));
        assert(ls@[i as int].deep_view() =~= ls@[i as int]@);
        assert(lv.take(i + 1).last() == ls@[i as int]@);
        if ws.len() >= 2 {
            let id = string_of_chars(ws[1].as_slice());
            let tool = ManifestTool {
                name: string_of_chars(ws[0].as_slice()),
                description: id.clone(),
                mise_id: id,
            };
            assert(ws@[0].deep_view() =~= ws@[0]@);
            assert(ws@[1].deep_view() =~= ws@[1]@);
            let ghost before = tool_views(tools@);
            tools.push(tool);
            assert(tool_views(tools@) =~= before.push(tool@));
        }
        i = i + 1;
    }
    assert(lv.take(ls.len() as int) =~= lv);
    if tools.len() == 0 {
        None
    } else {
        Some(tools)
    }
}

} // verus!
