//! The mise side of the installer: the tool specs that `mise use` and
//! `mise unuse` are given, the versions that `mise ls --global` reports,
//! and what the results of those commands amount to.
use vstd::prelude::*;
use crate::registry::{Category, CategoryView, Component, ComponentView, ObservedState, ObservedView};
use crate::sys::CommandResult;
use crate::text::{concat_str, join, join_strings, owned, str_eq, trim, trim_str};
use crate::text::clone_strings;
use serde_json::Value;

verus! {

// ---------------------------------------------------------------------------
// Tool specs
// ---------------------------------------------------------------------------

/// `<tool>@<version>`.
pub open spec fn at_version(tool: Seq<char>, version: Seq<char>) -> Seq<char> {
    tool + "@"@ + version
}

/// The spec `mise use -g` installs a component with: its pinned version,
/// or `latest`; none for a component that mise does not manage.
pub open spec fn tool_spec(c: ComponentView) -> Option<Seq<char>> {
    match c.category {
        CategoryView::Mise(tool) => Some(at_version(tool, match c.mise_version {
            Some(v) => v,
            None => "latest"@,
        })),
        _ => None,
    }
}

fn at_version_text(tool: &str, version: &str) -> (r: String)
    ensures
        r@ == at_version(tool@, version@),
{
    let mut r = concat_str(tool, "@");
    r.append(version);
    r
}

pub fn mise_tool_spec(component: &Component) -> (r: Option<String>)
    ensures
        match r {
            Some(s) => tool_spec(component@) == Some(s@),
            None => tool_spec(component@) is None,
        },
{
    match &component.category {
        Category::Mise(plugin) => {
            let version = match &component.mise_version {
                Some(v) => v.as_str(),
                None => "latest",
            };
            Some(at_version_text(plugin.as_str(), version))
        },
        _ => None,
    }
}

/// The specs that deactivating a component removes: each version that mise
/// manages globally for its tool.
pub open spec fn deactivation_specs_of(c: ComponentView) -> Seq<Seq<char>> {
    match (c.category, c.observed) {
        (CategoryView::Mise(tool), ObservedView::MiseGlobal(versions)) => versions.map_values(
            |v: Seq<char>| at_version(tool, v),
        ),
        _ => seq![],
    }
}

pub fn deactivation_specs(component: &Component) -> (r: Vec<String>)
    ensures
        r.deep_view() == deactivation_specs_of(component@),
{
    match (&component.category, &component.observed) {
        (Category::Mise(tool), ObservedState::MiseGlobal { versions }) => {
            let ghost target = deactivation_specs_of(component@);
            let mut r: Vec<String> = Vec::new();
            let mut i: usize = 0;
            while i < versions.len()
                invariant
                    i <= versions@.len(),
                    target == versions.deep_view().map_values(|v: Seq<char>| at_version(tool@, v)),
                    r.deep_view() =~= target.take(i as int),
                decreases versions.len() - i,
            {
                let ghost before = r.deep_view();
                r.push(at_version_text(tool.as_str(), versions[i].as_str()));
                assert(r.deep_view() =~= before.push(target[i as int]));
                i = i + 1;
            }
            assert(target.take(versions@.len() as int) =~= target);
            r
        },
        _ => {
            let r: Vec<String> = Vec::new();
            assert(r.deep_view() =~= deactivation_specs_of(component@));
            r
        },
    }
}

/// A mise tool is installed as `<tool>@latest`, or at the version pinned for
/// it; deactivating one removes `<tool>@<version>` for each version that mise
/// manages globally, in the order they are listed, and nothing for a tool
/// that is only found on PATH. Components that mise does not manage have
/// neither.
pub proof fn lemma_specs_name_the_tool(c: ComponentView)
    ensures
        c.category is Mise && c.mise_version is None ==> tool_spec(c) == Some(c.category->Mise_0 + "@latest"@),
        c.category is Mise && c.mise_version is Some ==> tool_spec(c) == Some(
            c.category->Mise_0 + "@"@ + c.mise_version->Some_0,
        ),
        !(c.category is Mise) ==> tool_spec(c) is None && deactivation_specs_of(c).len() == 0,
        !(c.observed is MiseGlobal) ==> deactivation_specs_of(c).len() == 0,
        c.category is Mise && c.observed is MiseGlobal ==> {
            let vs = c.observed->MiseGlobal_0;
            &&& deactivation_specs_of(c).len() == vs.len()
            &&& forall|i: int| 0 <= i < vs.len() ==> #[trigger] deactivation_specs_of(c)[i]
                == c.category->Mise_0 + "@"@ + vs[i]
        },
{
    if c.category is Mise && c.mise_version is None {
        reveal_strlit("@");
        reveal_strlit("latest");
        reveal_strlit("@latest");
        assert("@"@ + "latest"@ =~= "@latest"@);
        assert(c.category->Mise_0 + "@"@ + "latest"@ =~= c.category->Mise_0 + "@latest"@);
    }
}

/// `mise unuse --global --no-prune <spec>`: the spec leaves the global
/// configuration, its installed files stay.
pub fn deactivation_args(spec: &str) -> (r: Vec<String>)
    ensures
        r.deep_view() == seq!["unuse"@, "--global"@, "--no-prune"@, spec@],
{
    let mut r: Vec<String> = Vec::new();
    r.push(owned("unuse"));
    r.push(owned("--global"));
    r.push(owned("--no-prune"));
    r.push(owned(spec));
    assert(r.deep_view() =~= seq!["unuse"@, "--global"@, "--no-prune"@, spec@]);
    r
}

// ---------------------------------------------------------------------------
// Results of `mise use` and `mise unuse`
// ---------------------------------------------------------------------------

/// `<what> (<why>)`.
pub open spec fn failure_entry(what: Seq<char>, why: Seq<char>) -> Seq<char> {
    what + " ("@ + why + ")"@
}

fn failure_entry_text(what: &str, why: &str) -> (r: String)
    ensures
        r@ == failure_entry(what@, why@),
{
    let mut r = concat_str(what, " (");
    r.append(why);
    r.append(")");
    r
}

/// The failure that a command's result amounts to, if any.
pub open spec fn run_failure(spec: Seq<char>, result: Result<CommandResult, String>) -> Option<Seq<char>> {
    match result {
        Ok(r) => if r.success {
            None
        } else {
            Some(failure_entry(spec, trim(r.stderr@)))
        },
        Err(e) => Some(failure_entry(spec, e@)),
    }
}

/// The failures among the results of running each spec.
pub open spec fn run_failures(specs: Seq<Seq<char>>, results: Seq<Result<CommandResult, String>>) -> Seq<Seq<char>>
    decreases specs.len(),
{
    if specs.len() == 0 {
        seq![]
    } else {
        let rest = run_failures(specs.drop_last(), results);
        match run_failure(specs.last(), results[specs.len() - 1]) {
            Some(f) => rest.push(f),
            None => rest,
        }
    }
}

proof fn lemma_no_run_failures(specs: Seq<Seq<char>>, results: Seq<Result<CommandResult, String>>)
    requires
        specs.len() <= results.len(),
    ensures
        run_failures(specs, results).len() == 0 <==> forall|i: int| 0 <= i < specs.len() ==> (#[trigger] results[i] matches Ok(r)
            && r.success),
        run_failures(specs, results).len() <= specs.len(),
    decreases specs.len(),
{
    if specs.len() > 0 {
        let d = specs.drop_last();
        lemma_no_run_failures(d, results);
        let n = specs.len() - 1;
        if run_failures(specs, results).len() == 0 {
            assert forall|i: int| 0 <= i < specs.len() implies (#[trigger] results[i] matches Ok(r) && r.success) by {
                if i < n {
                    assert(run_failures(d, results).len() == 0);
                }
            }
        }
    }
}

/// Installing the mise tools succeeds exactly when every `mise use` command
/// could be started and succeeded.
pub proof fn lemma_activation_ok_iff_all_succeed(specs: Seq<Seq<char>>, results: Seq<Result<CommandResult, String>>)
    requires
        specs.len() == results.len(),
    ensures
        activation_outcome(specs, results) is Ok <==> forall|i: int| 0 <= i < results.len() ==> (#[trigger] results[i] matches Ok(r)
            && r.success),
{
    lemma_no_run_failures(specs, results);
    lemma_first_error_none(results);
}

proof fn lemma_first_error_none(results: Seq<Result<CommandResult, String>>)
    ensures
        first_error(results) is None <==> forall|i: int| 0 <= i < results.len() ==> (#[trigger] results[i] is Ok),
    decreases results.len(),
{
    if results.len() > 0 {
        let d = results.drop_last();
        lemma_first_error_none(d);
        if first_error(results) is None {
            assert forall|i: int| 0 <= i < results.len() implies (#[trigger] results[i] is Ok) by {
                if i < results.len() - 1 {
                    assert(d[i] == results[i]);
                }
            }
        } else {
            if first_error(d) is Some {
                let i = choose|i: int| 0 <= i < d.len() && !(#[trigger] d[i] is Ok);
                assert(results[i] == d[i]);
            }
        }
    }
}

/// The tool specs of the components that mise manages, in order.
pub open spec fn tool_specs(cs: Seq<ComponentView>) -> Seq<Seq<char>>
    decreases cs.len(),
{
    if cs.len() == 0 {
        seq![]
    } else {
        let rest = tool_specs(cs.drop_last());
        match tool_spec(cs.last()) {
            Some(s) => rest.push(s),
            None => rest,
        }
    }
}

pub open spec fn component_views(cs: Seq<&Component>) -> Seq<ComponentView> {
    cs.map_values(|c: &Component| c@)
}

/// What installing mise tools came to: nothing failed, or a list of the
/// specs that failed with why.
pub open spec fn activation_result(failures: Seq<Seq<char>>) -> Result<(), Seq<char>> {
    if failures.len() == 0 {
        Ok(())
    } else {
        Err("Some mise tools failed to install: "@ + join(failures, ", "@))
    }
}

pub open spec fn result_view(r: Result<(), String>) -> Result<(), Seq<char>> {
    match r {
        Ok(()) => Ok(()),
        Err(e) => Err(e@),
    }
}

fn failure_of(spec: &str, result: &Result<CommandResult, String>) -> (f: Option<String>)
    ensures
        match f {
            Some(t) => run_failure(spec@, *result) == Some(t@),
            None => run_failure(spec@, *result) is None,
        },
{
    match result {
        Ok(r) => if r.success {
            None
        } else {
            let why = trim_str(r.stderr.as_str());
            Some(failure_entry_text(spec, why.as_str()))
        },
        Err(e) => Some(failure_entry_text(spec, e.as_str())),
    }
}

/// The line logged in place of any command when there are no mise
/// components to install.
pub fn activation_notice(components: &[&Component]) -> (m: Option<&'static str>)
    ensures
        match m {
            Some(t) => components@.len() == 0 && t@ == "No mise components to install."@,
            None => components@.len() > 0,
        },
{
    if components.len() == 0 {
        Some("No mise components to install.")
    } else {
        None
    }
}

/// The error of the first command that could not be started, if any.
pub open spec fn first_error(results: Seq<Result<CommandResult, String>>) -> Option<Seq<char>>
    decreases results.len(),
{
    if results.len() == 0 {
        None
    } else {
        match first_error(results.drop_last()) {
            Some(e) => Some(e),
            None => match results.last() {
                Err(e) => Some(e@),
                Ok(_) => None,
            },
        }
    }
}

proof fn lemma_first_error_stays(s: Seq<Result<CommandResult, String>>, n: int)
    requires
        0 <= n <= s.len(),
        first_error(s.take(n)) is Some,
    ensures
        first_error(s) == first_error(s.take(n)),
    decreases s.len() - n,
{
    if n < s.len() {
        let t = s.take(n + 1);
        assert(t.drop_last() =~= s.take(n));
        lemma_first_error_stays(s, n + 1);
    } else {
        assert(s.take(n) =~= s);
    }
}

/// What installing the mise tools with these specs came to: the error of
/// the first `mise use` that could not be started; else nothing failed, or
/// the list of the specs that failed with why.
pub open spec fn activation_outcome(specs: Seq<Seq<char>>, results: Seq<Result<CommandResult, String>>) -> Result<(), Seq<char>> {
    match first_error(results) {
        Some(e) => Err(e),
        None => activation_result(run_failures(specs, results)),
    }
}

/// The result of installing mise tools: `results[i]` is how `mise use -g`
/// went for the i-th spec of `components` (components that mise does not
/// manage have none). Installing stops at a command that cannot be started,
/// so the results may end there.
pub fn activate_mise_tools(components: &[&Component], results: &[Result<CommandResult, String>]) -> (r: Result<(), String>)
    requires
        results@.len() <= tool_specs(component_views(components@)).len(),
        results@.len() == tool_specs(component_views(components@)).len() || first_error(results@) is Some,
    ensures
        result_view(r) == activation_outcome(tool_specs(component_views(components@)), results@),
{
    let ghost cs = component_views(components@);
    let mut failures: Vec<String> = Vec::new();
    let mut specs_seen: usize = 0;
    let mut i: usize = 0;
    let results_len = results.len();
    assert(cs.take(0) =~= Seq::<ComponentView>::empty());
    assert(results@.take(0) =~= Seq::<Result<CommandResult, String>>::empty());
    while i < components.len()
        invariant
            i <= components@.len(),
            cs == component_views(components@),
            results_len == results@.len(),
            results@.len() <= tool_specs(cs).len(),
            results@.len() == tool_specs(cs).len() || first_error(results@) is Some,
            specs_seen == tool_specs(cs.take(i as int)).len(),
            specs_seen <= results@.len(),
            first_error(results@.take(specs_seen as int)) is None,
            failures.deep_view() == run_failures(tool_specs(cs.take(i as int)), results@),
            tool_specs(cs.take(i as int)).is_prefix_of(tool_specs(cs)),
        decreases components@.len() - i,
    {
        let ghost t = cs.take(i + 1);
        proof {
            assert(t.drop_last() =~= cs.take(i as int));
            assert(t.last() == components@[i as int]@);
            lemma_tool_specs_prefix(cs, i + 1);
        }
        match mise_tool_spec(components[i]) {
            Some(spec) => {
                let ghost ts = tool_specs(t);
                assert(ts.drop_last() =~= tool_specs(cs.take(i as int)));
                assert(ts.last() == spec@);
                if specs_seen >= results_len {
                    proof {
                        assert(results@.take(specs_seen as int) =~= results@);
                        assert(tool_specs(cs).len() >= ts.len());
                    }
                    assert(false);
                }
                let ghost pre = results@.take(specs_seen + 1);
                assert(pre.drop_last() =~= results@.take(specs_seen as int));
                match &results[specs_seen] {
                    Err(e) => {
                        proof {
                            lemma_first_error_stays(results@, specs_seen + 1);
                        }
                        return Err(e.clone());
                    },
                    Ok(_) => {},
                }
                match failure_of(spec.as_str(), &results[specs_seen]) {
                    Some(f) => {
                        let ghost before = failures.deep_view();
                        failures.push(f);
                        assert(failures.deep_view() =~= before.push(f@));
                    },
                    None => {},
                }
                specs_seen = specs_seen + 1;
            },
            None => {},
        }
        i = i + 1;
    }
    assert(cs.take(components@.len() as int) =~= cs);
    proof {
        assert(results@.take(specs_seen as int) =~= results@);
    }
    if failures.len() == 0 {
        Ok(())
    } else {
        let joined = join_strings(&failures, ", ");
        Err(concat_str("Some mise tools failed to install: ", joined.as_str()))
    }
}

proof fn lemma_tool_specs_prefix(cs: Seq<ComponentView>, n: int)
    requires
        0 <= n <= cs.len(),
    ensures
        tool_specs(cs.take(n)).is_prefix_of(tool_specs(cs)),
    decreases cs.len() - n,
{
    if n < cs.len() {
        lemma_tool_specs_prefix(cs, n + 1);
        let t = cs.take(n + 1);
        assert(t.drop_last() =~= cs.take(n));
    } else {
        assert(cs.take(n) =~= cs);
    }
}

// ---------------------------------------------------------------------------
// Deactivation
// ---------------------------------------------------------------------------

pub open spec fn no_versions_entry(id: Seq<char>) -> Seq<char> {
    id + " (no globally configured versions were observed)"@
}

/// The failures of deactivating `cs`, where the results of the `unuse`
/// commands come in order in `results`: a component without observed
/// global versions fails at once; each failed command adds its spec.
pub open spec fn deactivation_failures(cs: Seq<ComponentView>, results: Seq<Result<CommandResult, String>>) -> Seq<Seq<char>>
    decreases cs.len(),
{
    if cs.len() == 0 {
        seq![]
    } else {
        let specs = deactivation_specs_of(cs[0]);
        if specs.len() == 0 {
            seq![no_versions_entry(cs[0].id)] + deactivation_failures(cs.drop_first(), results)
        } else {
            run_failures(specs, results.take(specs.len() as int)) + deactivation_failures(
                cs.drop_first(),
                results.skip(specs.len() as int),
            )
        }
    }
}

/// How many `unuse` commands deactivating `cs` runs.
pub open spec fn deactivation_runs(cs: Seq<ComponentView>) -> nat
    decreases cs.len(),
{
    if cs.len() == 0 {
        0
    } else {
        deactivation_specs_of(cs[0]).len() + deactivation_runs(cs.drop_first())
    }
}

pub open spec fn deactivation_result(failures: Seq<Seq<char>>) -> Result<(), Seq<char>> {
    if failures.len() == 0 {
        Ok(())
    } else {
        Err("Some mise versions failed to deactivate: "@ + join(failures, ", "@))
    }
}

/// Deactivating succeeds exactly when every component has versions that
/// mise manages globally and every `mise unuse` command could be started
/// and succeeded.
pub proof fn lemma_deactivation_ok_iff_all_succeed(cs: Seq<ComponentView>, results: Seq<Result<CommandResult, String>>)
    requires
        results.len() == deactivation_runs(cs),
    ensures
        deactivation_result(deactivation_failures(cs, results)) is Ok <==> {
            &&& forall|k: int| 0 <= k < cs.len() ==> (#[trigger] cs[k]).category is Mise && cs[k].observed is MiseGlobal
                && cs[k].observed->MiseGlobal_0.len() > 0
            &&& forall|i: int| 0 <= i < results.len() ==> (#[trigger] results[i] matches Ok(r) && r.success)
        },
    decreases cs.len(),
{
    if cs.len() > 0 {
        let c = cs[0];
        let specs = deactivation_specs_of(c);
        let n = specs.len() as int;
        let rest = cs.drop_first();
        lemma_specs_name_the_tool(c);
        if n == 0 {
            assert(!(c.category is Mise && c.observed is MiseGlobal && c.observed->MiseGlobal_0.len() > 0));
        } else {
            let head = results.take(n);
            let tail = results.skip(n);
            lemma_no_run_failures(specs, head);
            lemma_deactivation_ok_iff_all_succeed(rest, tail);
            assert(deactivation_failures(cs, results) == run_failures(specs, head) + deactivation_failures(rest, tail));
            assert((forall|k: int| 0 <= k < cs.len() ==> (#[trigger] cs[k]).category is Mise && cs[k].observed is MiseGlobal
                && cs[k].observed->MiseGlobal_0.len() > 0) <==> (forall|k: int| 0 <= k < rest.len() ==> (#[trigger] rest[k]).category
                is Mise && rest[k].observed is MiseGlobal && rest[k].observed->MiseGlobal_0.len() > 0)) by {
                assert forall|k: int| 0 <= k < rest.len() implies rest[k] == #[trigger] cs[k + 1] by {}
                if forall|k: int| 0 <= k < rest.len() ==> (#[trigger] rest[k]).category is Mise && rest[k].observed is MiseGlobal
                    && rest[k].observed->MiseGlobal_0.len() > 0 {
                    assert forall|k: int| 0 <= k < cs.len() implies (#[trigger] cs[k]).category is Mise && cs[k].observed is MiseGlobal
                        && cs[k].observed->MiseGlobal_0.len() > 0 by {
                        if k > 0 {
                            assert(cs[k] == rest[k - 1]);
                        }
                    }
                }
            }
            assert((forall|i: int| 0 <= i < results.len() ==> (#[trigger] results[i] matches Ok(r) && r.success)) <==> (
                (forall|i: int| 0 <= i < head.len() ==> (#[trigger] head[i] matches Ok(r) && r.success)) && (forall|i: int|
                0 <= i < tail.len() ==> (#[trigger] tail[i] matches Ok(r) && r.success)))) by {
                if (forall|i: int| 0 <= i < head.len() ==> (#[trigger] head[i] matches Ok(r) && r.success)) && (forall|i: int|
                    0 <= i < tail.len() ==> (#[trigger] tail[i] matches Ok(r) && r.success)) {
                    assert forall|i: int| 0 <= i < results.len() implies (#[trigger] results[i] matches Ok(r) && r.success) by {
                        if i < n {
                            assert(head[i] == results[i]);
                        } else {
                            assert(tail[i - n] == results[i]);
                        }
                    }
                }
                if forall|i: int| 0 <= i < results.len() ==> (#[trigger] results[i] matches Ok(r) && r.success) {
                    assert forall|i: int| 0 <= i < head.len() implies (#[trigger] head[i] matches Ok(r) && r.success) by {
                        assert(head[i] == results[i]);
                    }
                    assert forall|i: int| 0 <= i < tail.len() implies (#[trigger] tail[i] matches Ok(r) && r.success) by {
                        assert(tail[i] == results[i + n]);
                    }
                }
            }
        }
    }
}

proof fn lemma_run_failures_take(specs: Seq<Seq<char>>, results: Seq<Result<CommandResult, String>>, n: int)
    requires
        0 <= n <= specs.len(),
        specs.len() <= results.len(),
    ensures
        run_failures(specs.take(n), results) == run_failures(specs.take(n), results.take(specs.len() as int)),
    decreases n,
{
    if n > 0 {
        let t = specs.take(n);
        assert(t.drop_last() =~= specs.take(n - 1));
        lemma_run_failures_take(specs, results, n - 1);
    }
}

/// The result of deactivating `components`: `results` holds, in order, how
/// each `mise unuse` command went.
pub fn deactivate_mise_tools(components: &[&Component], results: &[Result<CommandResult, String>]) -> (r: Result<(), String>)
    requires
        results@.len() == deactivation_runs(component_views(components@)),
    ensures
        result_view(r) == deactivation_result(deactivation_failures(component_views(components@), results@)),
{
    let ghost cs = component_views(components@);
    let mut failures: Vec<String> = Vec::new();
    let mut used: usize = 0;
    let mut i: usize = 0;
    let results_len = results.len();
    assert(cs.skip(0) =~= cs);
    assert(results@.skip(0) =~= results@);
    while i < components.len()
        invariant
            i <= components@.len(),
            cs == component_views(components@),
            used <= results@.len(),
            results_len == results@.len(),
            results@.skip(used as int).len() == deactivation_runs(cs.skip(i as int)),
            deactivation_failures(cs, results@) == failures.deep_view() + deactivation_failures(
                cs.skip(i as int),
                results@.skip(used as int),
            ),
        decreases components@.len() - i,
    {
        let ghost rest = cs.skip(i as int);
        let ghost rs = results@.skip(used as int);
        assert(rest[0] == components@[i as int]@);
        assert(rest.drop_first() =~= cs.skip(i + 1));
        let specs = deactivation_specs(components[i]);
        let ghost before = failures.deep_view();
        if specs.len() == 0 {
            let f = concat_str(components[i].id.as_str(), " (no globally configured versions were observed)");
            failures.push(f);
            assert(failures.deep_view() =~= before + seq![no_versions_entry(rest[0].id)]);
        } else {
            let ghost sv = specs.deep_view();
            assert(deactivation_runs(rest) == sv.len() + deactivation_runs(rest.drop_first()));
            assert(sv.len() <= rs.len());
            assert(used + specs@.len() <= results@.len());
            let mut j: usize = 0;
            assert(sv.take(0) =~= Seq::<Seq<char>>::empty());
            while j < specs.len()
                invariant
                    j <= specs@.len(),
                    sv == specs.deep_view(),
                    used + specs@.len() <= results@.len(),
                    results_len == results@.len(),
                    rs == results@.skip(used as int),
                    sv.len() <= rs.len(),
                    failures.deep_view() == before + run_failures(sv.take(j as int), rs),
                decreases specs.len() - j,
            {
                let ghost t = sv.take(j + 1);
                assert(t.drop_last() =~= sv.take(j as int));
                assert(t.last() == specs@[j as int]@);
                assert(rs[j as int] == results@[used + j]);
                match failure_of(specs[j].as_str(), &results[used + j]) {
                    Some(f) => {
                        let ghost b = failures.deep_view();
                        failures.push(f);
                        assert(failures.deep_view() =~= b.push(f@));
                    },
                    None => {},
                }
                j = j + 1;
            }
            proof {
                assert(sv.take(sv.len() as int) =~= sv);
                lemma_run_failures_take(sv, rs, sv.len() as int);
                assert(rs.skip(sv.len() as int) =~= results@.skip(used + sv.len()));
            }
            used = used + specs.len();
        }
        i = i + 1;
    }
    assert(cs.skip(i as int) =~= Seq::<ComponentView>::empty());
    assert(failures.deep_view() + seq![] =~= failures.deep_view());
    if failures.len() == 0 {
        Ok(())
    } else {
        let joined = join_strings(&failures, ", ");
        Err(concat_str("Some mise versions failed to deactivate: ", joined.as_str()))
    }
}

// ---------------------------------------------------------------------------
// Globally configured versions
// ---------------------------------------------------------------------------

/// What an entry of `mise ls --json` holds under a key.
#[derive(Debug, Clone, PartialEq, Eq)]
pub enum JsonField {
    /// The entry has no such key (or is no object).
    Missing,
    /// A string.
    Text(String),
    /// Any other value.
    Other,
}

/// An entry of `mise ls --json`, as far as the installer reads it.
#[derive(Debug, Clone, PartialEq, Eq)]
pub struct ListedEntry {
    pub requested_version: JsonField,
    pub version: JsonField,
}

/// The document that `mise ls --global --json <tool>` prints, as far as the
/// installer reads it.
#[derive(Debug, Clone, PartialEq, Eq)]
pub enum MiseListing {
    /// An array of entries.
    Entries(Vec<ListedEntry>),
    /// An object: for each member in order, its entries, or `None` where
    /// the member is no array.
    Groups(Vec<Option<Vec<ListedEntry>>>),
    /// Any other value.
    Other,
}

pub enum FieldView {
    Missing,
    Text(Seq<char>),
    Other,
}

/// A listing as plain values: each entry is its requested version and its
/// version field.
pub enum ListingView {
    Entries(Seq<(FieldView, FieldView)>),
    Groups(Seq<Option<Seq<(FieldView, FieldView)>>>),
    Other,
}

pub open spec fn field_view(f: JsonField) -> FieldView {
    match f {
        JsonField::Missing => FieldView::Missing,
        JsonField::Text(s) => FieldView::Text(s@),
        JsonField::Other => FieldView::Other,
    }
}

pub open spec fn entry_view(e: ListedEntry) -> (FieldView, FieldView) {
    (field_view(e.requested_version), field_view(e.version))
}

pub open spec fn entries_view(es: Seq<ListedEntry>) -> Seq<(FieldView, FieldView)> {
    es.map_values(|e: ListedEntry| entry_view(e))
}

pub open spec fn groups_view(gs: Seq<Option<Vec<ListedEntry>>>) -> Seq<Option<Seq<(FieldView, FieldView)>>> {
    gs.map_values(
        |g: Option<Vec<ListedEntry>>|
            match g {
                Some(es) => Some(entries_view(es@)),
                None => None,
            },
    )
}

pub open spec fn listing_view(l: Option<MiseListing>) -> Option<ListingView> {
    match l {
        None => None,
        Some(MiseListing::Entries(es)) => Some(ListingView::Entries(entries_view(es@))),
        Some(MiseListing::Groups(gs)) => Some(ListingView::Groups(groups_view(gs@))),
        Some(MiseListing::Other) => Some(ListingView::Other),
    }
}

/// What `serde_json::from_str` makes of a text, as far as the installer
/// reads a listing: `None` where the text is no JSON; the array, the members
/// of an object in the order the parsed object holds them, or another value;
/// of each entry its `requested_version` and `version` fields.
pub uninterp spec fn parsed_listing(json: Seq<char>) -> Option<ListingView>;

/// `serde_json::from_str::<serde_json::Value>`, with the parsed value taken
/// apart into a `MiseListing`: arrays, object members and the two fields of
/// each entry, each as it stands.
#[verifier::external_body]
pub(crate) fn mise_listing(json: &str) -> (r: Option<MiseListing>)
    ensures
        listing_view(r) == parsed_listing(json@),
{
    let field = |v: Option<&Value>| match v {
        None => JsonField::Missing,
        Some(Value::String(s)) => JsonField::Text(s.clone()),
        Some(_) => JsonField::Other,
    };
    let entries = |a: &Vec<Value>| -> Vec<ListedEntry> {
        a.iter().map(|e| ListedEntry { requested_version: field(e.get("requested_version")), version: field(e.get("version")) }).collect()
    };
    Some(match serde_json::from_str(json).ok()? {
        Value::Array(a) => MiseListing::Entries(entries(&a)),
        Value::Object(o) => MiseListing::Groups(o.values().map(|m| m.as_array().map(entries)).collect()),
        _ => MiseListing::Other,
    })
}

/// The version an entry stands for: its requested version where it has
/// that key, else its resolved version; none where that value is no text.
pub open spec fn entry_version(e: (FieldView, FieldView)) -> Option<Seq<char>> {
    match e.0 {
        FieldView::Text(s) => Some(s),
        FieldView::Other => None,
        FieldView::Missing => match e.1 {
            FieldView::Text(s) => Some(s),
            _ => None,
        },
    }
}

/// `acc` followed by the versions of `es` that it does not hold yet, in
/// order; none when an entry has no version.
pub open spec fn append_versions(acc: Seq<Seq<char>>, es: Seq<(FieldView, FieldView)>) -> Option<Seq<Seq<char>>>
    decreases es.len(),
{
    if es.len() == 0 {
        Some(acc)
    } else {
        match append_versions(acc, es.drop_last()) {
            None => None,
            Some(a) => match entry_version(es.last()) {
                None => None,
                Some(v) => Some(if a.contains(v) { a } else { a.push(v) }),
            },
        }
    }
}

pub open spec fn invalid_json(tool: Seq<char>) -> Seq<char> {
    "invalid JSON from mise ls for "@ + tool
}

pub open spec fn not_an_array(tool: Seq<char>) -> Seq<char> {
    "mise ls JSON entries for "@ + tool + " were not an array"@
}

pub open spec fn not_a_document(tool: Seq<char>) -> Seq<char> {
    "mise ls JSON for "@ + tool + " was not an array or object"@
}

pub open spec fn no_version(tool: Seq<char>) -> Seq<char> {
    "mise ls JSON entry for "@ + tool + " had no version"@
}

/// The versions of the members of an object, member after member.
pub open spec fn group_versions(tool: Seq<char>, gs: Seq<Option<Seq<(FieldView, FieldView)>>>) -> Result<Seq<Seq<char>>, Seq<char>>
    decreases gs.len(),
{
    if gs.len() == 0 {
        Ok(seq![])
    } else {
        match group_versions(tool, gs.drop_last()) {
            Err(e) => Err(e),
            Ok(acc) => match gs.last() {
                None => Err(not_an_array(tool)),
                Some(es) => match append_versions(acc, es) {
                    None => Err(no_version(tool)),
                    Some(a) => Ok(a),
                },
            },
        }
    }
}

/// The globally configured versions of `tool` that a listing reports,
/// without repetition; `None` stands for output that is no JSON.
pub open spec fn listed_versions(tool: Seq<char>, listing: Option<ListingView>) -> Result<Seq<Seq<char>>, Seq<char>> {
    match listing {
        None => Err(invalid_json(tool)),
        Some(ListingView::Entries(es)) => match append_versions(seq![], es) {
            None => Err(no_version(tool)),
            Some(a) => Ok(a),
        },
        Some(ListingView::Groups(gs)) => group_versions(tool, gs),
        Some(ListingView::Other) => Err(not_a_document(tool)),
    }
}

pub open spec fn versions_view(r: Result<Vec<String>, String>) -> Result<Seq<Seq<char>>, Seq<char>> {
    match r {
        Ok(v) => Ok(v.deep_view()),
        Err(e) => Err(e@),
    }
}

pub open spec fn no_repeats(s: Seq<Seq<char>>) -> bool {
    forall|i: int, j: int| 0 <= i < j < s.len() ==> s[i] != s[j]
}

proof fn lemma_append_versions_no_repeats(acc: Seq<Seq<char>>, es: Seq<(FieldView, FieldView)>)
    requires
        no_repeats(acc),
    ensures
        append_versions(acc, es) matches Some(a) ==> no_repeats(a),
    decreases es.len(),
{
    if es.len() > 0 {
        lemma_append_versions_no_repeats(acc, es.drop_last());
        if let Some(a) = append_versions(acc, es.drop_last()) {
            if let Some(v) = entry_version(es.last()) {
                if !a.contains(v) {
                    assert forall|i: int, j: int| 0 <= i < j < a.push(v).len() implies a.push(v)[i] != a.push(v)[j] by {
                        if j == a.len() {
                            assert(a[i] == a.push(v)[i]);
                        }
                    }
                }
            }
        }
    }
}

proof fn lemma_group_versions_no_repeats(tool: Seq<char>, gs: Seq<Option<Seq<(FieldView, FieldView)>>>)
    ensures
        group_versions(tool, gs) matches Ok(a) ==> no_repeats(a),
    decreases gs.len(),
{
    if gs.len() > 0 {
        lemma_group_versions_no_repeats(tool, gs.drop_last());
        if let Ok(acc) = group_versions(tool, gs.drop_last()) {
            if let Some(es) = gs.last() {
                lemma_append_versions_no_repeats(acc, es);
            }
        }
    }
}

/// A listing never reports a version twice.
pub proof fn lemma_listed_versions_unique(tool: Seq<char>, listing: Option<ListingView>)
    ensures
        listed_versions(tool, listing) matches Ok(a) ==> no_repeats(a),
{
    match listing {
        Some(ListingView::Entries(es)) => lemma_append_versions_no_repeats(seq![], es),
        Some(ListingView::Groups(gs)) => lemma_group_versions_no_repeats(tool, gs),
        _ => {},
    }
}

fn entry_version_exec(e: &ListedEntry) -> (r: Option<String>)
    ensures
        match r {
            Some(s) => entry_version(entry_view(*e)) == Some(s@),
            None => entry_version(entry_view(*e)) is None,
        },
{
    match &e.requested_version {
        JsonField::Text(s) => Some(s.clone()),
        JsonField::Other => None,
        JsonField::Missing => match &e.version {
            JsonField::Text(s) => Some(s.clone()),
            _ => None,
        },
    }
}

fn holds_version(versions: &Vec<String>, v: &str) -> (b: bool)
    ensures
        b == versions.deep_view().contains(v@),
{
    let mut i: usize = 0;
    while i < versions.len()
        invariant
            i <= versions@.len(),
            forall|k: int| 0 <= k < i ==> versions@[k]@ != v@,
        decreases versions.len() - i,
    {
        if str_eq(versions[i].as_str(), v) {
            assert(versions.deep_view()[i as int] == v@);
            return true;
        }
        i = i + 1;
    }
    proof {
        if versions.deep_view().contains(v@) {
            let k = choose|k: int| 0 <= k < versions.deep_view().len() && versions.deep_view()[k] == v@;
            assert(versions@[k]@ == v@);
        }
    }
    false
}

proof fn lemma_append_versions_none_stays(acc: Seq<Seq<char>>, es: Seq<(FieldView, FieldView)>, n: int)
    requires
        0 <= n <= es.len(),
        append_versions(acc, es.take(n)) is None,
    ensures
        append_versions(acc, es) is None,
    decreases es.len() - n,
{
    if n < es.len() {
        let t = es.take(n + 1);
        assert(t.drop_last() =~= es.take(n));
        lemma_append_versions_none_stays(acc, es, n + 1);
    } else {
        assert(es.take(n) =~= es);
    }
}

proof fn lemma_group_versions_err_stays(tool: Seq<char>, gs: Seq<Option<Seq<(FieldView, FieldView)>>>, n: int)
    requires
        0 <= n <= gs.len(),
        group_versions(tool, gs.take(n)) is Err,
    ensures
        group_versions(tool, gs) == group_versions(tool, gs.take(n)),
    decreases gs.len() - n,
{
    if n < gs.len() {
        let t = gs.take(n + 1);
        assert(t.drop_last() =~= gs.take(n));
        lemma_group_versions_err_stays(tool, gs, n + 1);
    } else {
        assert(gs.take(n) =~= gs);
    }
}

/// Adds the versions of `entries` that `versions` does not hold yet; false
/// when an entry has no version, and then `versions` is left as it may be.
fn append_global_versions(entries: &Vec<ListedEntry>, versions: &mut Vec<String>) -> (ok: bool)
    ensures
        ok == (append_versions(old(versions).deep_view(), entries_view(entries@)) is Some),
        ok ==> append_versions(old(versions).deep_view(), entries_view(entries@)) == Some(final(versions).deep_view()),
{
    let ghost start = versions.deep_view();
    let ghost ev = entries_view(entries@);
    let mut i: usize = 0;
    assert(ev.take(0) =~= Seq::<(FieldView, FieldView)>::empty());
    while i < entries.len()
        invariant
            i <= entries@.len(),
            ev == entries_view(entries@),
            start == old(versions).deep_view(),
            append_versions(start, ev.take(i as int)) == Some(versions.deep_view()),
        decreases entries.len() - i,
    {
        let ghost t = ev.take(i + 1);
        assert(t.drop_last() =~= ev.take(i as int));
        assert(t.last() == entry_view(entries@[i as int]));
        match entry_version_exec(&entries[i]) {
            None => {
                proof {
                    assert(append_versions(start, t) is None);
                    lemma_append_versions_none_stays(start, ev, i + 1);
                }
                return false;
            },
            Some(v) => {
                if !holds_version(versions, v.as_str()) {
                    let ghost before = versions.deep_view();
                    let ghost vv = v@;
                    versions.push(v);
                    assert(versions.deep_view() =~= before.push(vv));
                }
            },
        }
        i = i + 1;
    }
    assert(ev.take(entries@.len() as int) =~= ev);
    true
}

/// The globally configured versions of `tool` that a parsed listing reports
/// (`None` where the output was no JSON): requested versions first,
/// resolved ones where none was requested, each once.
pub fn listing_versions(tool: &str, listing: &Option<MiseListing>) -> (r: Result<Vec<String>, String>)
    ensures
        versions_view(r) == listed_versions(tool@, listing_view(*listing)),
        r matches Ok(v) ==> no_repeats(v.deep_view()),
{
    proof {
        lemma_listed_versions_unique(tool@, listing_view(*listing));
    }
    match listing {
        None => Err(concat_str("invalid JSON from mise ls for ", tool)),
        Some(MiseListing::Other) => {
            let mut e = concat_str("mise ls JSON for ", tool);
            e.append(" was not an array or object");
            Err(e)
        },
        Some(MiseListing::Entries(entries)) => {
            let mut versions: Vec<String> = Vec::new();
            assert(versions.deep_view() =~= Seq::<Seq<char>>::empty());
            if append_global_versions(entries, &mut versions) {
                Ok(versions)
            } else {
                let mut e = concat_str("mise ls JSON entry for ", tool);
                e.append(" had no version");
                Err(e)
            }
        },
        Some(MiseListing::Groups(groups)) => {
            let ghost gs = groups_view(groups@);
            let mut versions: Vec<String> = Vec::new();
            let mut i: usize = 0;
            assert(gs.take(0) =~= Seq::<Option<Seq<(FieldView, FieldView)>>>::empty());
            assert(versions.deep_view() =~= Seq::<Seq<char>>::empty());
            while i < groups.len()
                invariant
                    i <= groups@.len(),
                    gs == groups_view(groups@),
                    listed_versions(tool@, listing_view(*listing)) == group_versions(tool@, gs),
                    group_versions(tool@, gs.take(i as int)) == Ok::<Seq<Seq<char>>, Seq<char>>(versions.deep_view()),
                decreases groups.len() - i,
            {
                let ghost t = gs.take(i + 1);
                assert(t.drop_last() =~= gs.take(i as int));
                assert(t.last() == gs[i as int]);
                match &groups[i] {
                    None => {
                        proof {
                            assert(group_versions(tool@, t) == Err::<Seq<Seq<char>>, Seq<char>>(not_an_array(tool@)));
                            lemma_group_versions_err_stays(tool@, gs, i + 1);
                        }
                        let mut e = concat_str("mise ls JSON entries for ", tool);
                        e.append(" were not an array");
                        return Err(e);
                    },
                    Some(entries) => {
                        let ghost acc = versions.deep_view();
                        assert(t.last() == Some(entries_view(entries@)));
                        if !append_global_versions(entries, &mut versions) {
                            proof {
                                assert(group_versions(tool@, t) == Err::<Seq<Seq<char>>, Seq<char>>(no_version(tool@)));
                                lemma_group_versions_err_stays(tool@, gs, i + 1);
                            }
                            let mut e = concat_str("mise ls JSON entry for ", tool);
                            e.append(" had no version");
                            return Err(e);
                        }
                    },
                }
                i = i + 1;
            }
            assert(gs.take(gs.len() as int) =~= gs);
            Ok(versions)
        },
    }
}

/// The globally configured versions of `tool` in the JSON text that
/// `mise ls --global --json <tool>` printed.
pub fn parse_global_mise_versions(tool: &str, json: &str) -> (r: Result<Vec<String>, String>)
    ensures
        versions_view(r) == listed_versions(tool@, parsed_listing(json@)),
        r matches Ok(v) ==> no_repeats(v.deep_view()),
{
    let listing = mise_listing(json);
    listing_versions(tool, &listing)
}

pub open spec fn ls_failure(tool: Seq<char>, stderr: Seq<char>) -> Seq<char> {
    "mise ls failed for "@ + tool + ": "@ + trim(stderr)
}

/// The globally configured versions of `tool`, from how
/// `mise ls --global --json <tool>` went: its error where it failed, else
/// what its standard output lists.
pub fn global_mise_versions(tool: &str, output: &CommandResult) -> (r: Result<Vec<String>, String>)
    ensures
        versions_view(r) == if output.success {
            listed_versions(tool@, parsed_listing(output._stdout@))
        } else {
            Err(ls_failure(tool@, output.stderr@))
        },
{
    if !output.success {
        let mut e = concat_str("mise ls failed for ", tool);
        e.append(": ");
        let why = trim_str(output.stderr.as_str());
        e.append(why.as_str());
        return Err(e);
    }
    parse_global_mise_versions(tool, output._stdout.as_str())
}

// ---------------------------------------------------------------------------
// The mise executable
// ---------------------------------------------------------------------------

pub open spec fn home_mise(home: Seq<char>) -> Seq<char> {
    home + "/.local/bin/mise"@
}

/// Where the bootstrap script installs mise for the user with this home
/// directory.
pub fn home_mise_path(home: &str) -> (r: String)
    ensures
        r@ == home_mise(home@),
{
    concat_str(home, "/.local/bin/mise")
}

/// The mise executable to run: `mise` where it is on the PATH; else the one
/// under the home directory where `is_file` finds it; else `mise`.
pub fn mise_bin<F: Fn(&String) -> bool>(on_path: bool, home: &str, is_file: F) -> (r: String)
    requires
        forall|s: &String| call_requires(is_file, (s,)),
    ensures
        on_path ==> r@ == "mise"@,
        !on_path ==> exists|s: String, b: bool| {
            &&& s@ == home_mise(home@)
            &&& call_ensures(is_file, (&s,), b)
            &&& r@ == if b { home_mise(home@) } else { "mise"@ }
        },
{
    if on_path {
        return owned("mise");
    }
    let candidate = home_mise_path(home);
    if is_file(&candidate) {
        candidate
    } else {
        owned("mise")
    }
}

/// Mise counts as installed when it was found under the home directory or
/// on the PATH.
pub fn mise_present(bin: &str, on_path: bool) -> (b: bool)
    ensures
        b == (bin@ != "mise"@ || on_path),
{
    !str_eq(bin, "mise") || on_path
}

pub open spec fn bootstrap_script() -> Seq<char> {
    "set -eu\ndevenv_script=$(mktemp)\ntrap 'rm -f \"$devenv_script\"' EXIT\ncurl -fsSL https://mise.run -o \"$devenv_script\"\ntest -s \"$devenv_script\"\nsh \"$devenv_script\"\n"@
}

/// The shell script that installs mise: the installer is downloaded to a
/// temporary file and run only once the download has completed and is not
/// empty.
pub fn mise_bootstrap_script() -> (s: &'static str)
    ensures
        s@ == bootstrap_script(),
{
    "set -eu\ndevenv_script=$(mktemp)\ntrap 'rm -f \"$devenv_script\"' EXIT\ncurl -fsSL https://mise.run -o \"$devenv_script\"\ntest -s \"$devenv_script\"\nsh \"$devenv_script\"\n"
}

/// What installing mise came to: the bootstrap script failed, or it
/// succeeded and then `mise --version` (whose run is `verification`: its
/// success, or the error of starting it) either ran and succeeded or not.
pub open spec fn bootstrap_result(bootstrap: CommandResult, verification: Option<Result<bool, String>>) -> Result<(), Seq<char>> {
    if !bootstrap.success {
        Err("Failed to install mise: "@ + trim(bootstrap.stderr@))
    } else {
        match verification {
            Some(Ok(true)) => Ok(()),
            Some(Ok(false)) => Err("mise bootstrap completed but mise verification failed"@),
            Some(Err(_)) => Err("mise bootstrap completed but mise could not be executed"@),
            None => Ok(()),
        }
    }
}

/// Mise counts as installed only when the bootstrap script succeeded and
/// `mise --version` then ran and succeeded; a failed script is reported
/// with what it wrote to stderr.
pub proof fn lemma_bootstrap_succeeds_only_when_verified(bootstrap: CommandResult, verification: Option<Result<bool, String>>)
    requires
        bootstrap.success <==> verification is Some,
    ensures
        bootstrap_result(bootstrap, verification) is Ok <==> (bootstrap.success && verification == Some(
            Ok::<bool, String>(true),
        )),
        !bootstrap.success ==> bootstrap_result(bootstrap, verification) == Err::<(), Seq<char>>(
            "Failed to install mise: "@ + trim(bootstrap.stderr@),
        ),
{
}

pub fn mise_bootstrap_result(bootstrap: &CommandResult, verification: Option<Result<bool, String>>) -> (r: Result<(), String>)
    requires
        bootstrap.success <==> verification is Some,
    ensures
        result_view(r) == bootstrap_result(*bootstrap, verification),
{
    if !bootstrap.success {
        let why = trim_str(bootstrap.stderr.as_str());
        return Err(concat_str("Failed to install mise: ", why.as_str()));
    }
    match verification {
        Some(Ok(true)) => Ok(()),
        Some(Ok(false)) => Err(owned("mise bootstrap completed but mise verification failed")),
        Some(Err(_)) => Err(owned("mise bootstrap completed but mise could not be executed")),
        None => Ok(()),
    }
}

} // verus!
