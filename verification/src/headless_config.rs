//! The choice of components made by a configuration file, for installs
//! without the interactive screen.
use vstd::prelude::*;
use crate::registry::{
    builtin_components, get_all_components, views, Category, Component, ComponentAction,
    ComponentView,
};
use crate::text::{concat_str, str_eq, trim, trim_str};

verus! {

/// One `[[components]]` entry of a configuration file.
#[derive(Debug, Clone)]
pub struct ConfiguredComponent {
    pub id: String,
    pub enabled: bool,
    pub version: Option<String>,
}

pub struct EntryView {
    pub id: Seq<char>,
    pub enabled: bool,
    pub version: Option<Seq<char>>,
}

impl View for ConfiguredComponent {
    type V = EntryView;

    open spec fn view(&self) -> EntryView {
        EntryView { id: self.id@, enabled: self.enabled, version: self.version.deep_view() }
    }
}

pub open spec fn entry_views(es: Seq<ConfiguredComponent>) -> Seq<EntryView> {
    es.map_values(|e: ConfiguredComponent| e@)
}

/// Why a configuration is refused.
#[derive(Debug, Clone, PartialEq, Eq)]
pub enum ConfigError {
    DuplicateId(String),
    UnknownId(String),
    EmptyVersion(String),
    NotMiseTool(String),
}

pub enum ConfigErrorView {
    DuplicateId(Seq<char>),
    UnknownId(Seq<char>),
    EmptyVersion(Seq<char>),
    NotMiseTool(Seq<char>),
}

impl View for ConfigError {
    type V = ConfigErrorView;

    open spec fn view(&self) -> ConfigErrorView {
        match self {
            ConfigError::DuplicateId(id) => ConfigErrorView::DuplicateId(id@),
            ConfigError::UnknownId(id) => ConfigErrorView::UnknownId(id@),
            ConfigError::EmptyVersion(id) => ConfigErrorView::EmptyVersion(id@),
            ConfigError::NotMiseTool(id) => ConfigErrorView::NotMiseTool(id@),
        }
    }
}

pub open spec fn error_message(e: ConfigErrorView) -> Seq<char> {
    match e {
        ConfigErrorView::DuplicateId(id) => "Duplicate component id in config: "@ + id,
        ConfigErrorView::UnknownId(id) => "Unknown component id in config: "@ + id,
        ConfigErrorView::EmptyVersion(id) => "Component "@ + id + " has an empty version"@,
        ConfigErrorView::NotMiseTool(id) => "Component "@ + id + " is not a mise tool and cannot set version"@,
    }
}

impl ConfigError {
    /// The message that explains the error.
    pub fn message(&self) -> (m: String)
        ensures
            m@ == error_message(self@),
    {
        match self {
            ConfigError::DuplicateId(id) => concat_str("Duplicate component id in config: ", id.as_str()),
            ConfigError::UnknownId(id) => concat_str("Unknown component id in config: ", id.as_str()),
            ConfigError::EmptyVersion(id) => {
                let mut m = concat_str("Component ", id.as_str());
                m.append(" has an empty version");
                m
            },
            ConfigError::NotMiseTool(id) => {
                let mut m = concat_str("Component ", id.as_str());
                m.append(" is not a mise tool and cannot set version");
                m
            },
        }
    }
}

/// The last index of a component with id `id`, or -1.
pub open spec fn last_index(cs: Seq<ComponentView>, id: Seq<char>) -> int
    decreases cs.len(),
{
    if cs.len() == 0 {
        -1
    } else if cs.last().id == id {
        cs.len() - 1
    } else {
        last_index(cs.drop_last(), id)
    }
}

/// Nothing selected, no version pinned.
pub open spec fn cleared(cs: Seq<ComponentView>) -> Seq<ComponentView> {
    cs.map_values(|c: ComponentView| ComponentView { action: ComponentAction::Keep, mise_version: None, ..c })
}

pub open spec fn seen_before(es: Seq<EntryView>, k: int) -> bool {
    exists|j: int| 0 <= j < k && #[trigger] es[j].id == es[k].id
}

/// The entries from `k` on applied in order to `cs`: an enabled entry
/// selects its component for installation, a version other than `latest`
/// is pinned for a mise tool. The first entry that repeats an id, names no
/// component, gives an empty version or a version to a component that is
/// not a mise tool stops with that error, leaving what came before it.
pub open spec fn apply_entries(cs: Seq<ComponentView>, es: Seq<EntryView>, k: int) -> (Seq<ComponentView>, Option<ConfigErrorView>)
    decreases es.len() - k,
{
    if k < 0 || k >= es.len() {
        (cs, None)
    } else {
        let e = es[k];
        let i = last_index(cs, e.id);
        if seen_before(es, k) {
            (cs, Some(ConfigErrorView::DuplicateId(e.id)))
        } else if i < 0 {
            (cs, Some(ConfigErrorView::UnknownId(e.id)))
        } else {
            let cs1 = if e.enabled {
                cs.update(i, ComponentView { action: ComponentAction::Install, ..cs[i] })
            } else {
                cs
            };
            match e.version {
                None => apply_entries(cs1, es, k + 1),
                Some(v) => {
                    let t = trim(v);
                    if t.len() == 0 {
                        (cs1, Some(ConfigErrorView::EmptyVersion(e.id)))
                    } else if !(cs1[i].category is Mise) {
                        (cs1, Some(ConfigErrorView::NotMiseTool(e.id)))
                    } else if t == "latest"@ {
                        apply_entries(cs1, es, k + 1)
                    } else {
                        apply_entries(cs1.update(i, ComponentView { mise_version: Some(t), ..cs1[i] }), es, k + 1)
                    }
                },
            }
        }
    }
}

fn find_component(components: &Vec<Component>, id: &str) -> (r: Option<usize>)
    ensures
        match r {
            Some(i) => i as int == last_index(views(components@), id@) && i < components@.len(),
            None => last_index(views(components@), id@) < 0,
        },
{
    let ghost cs = views(components@);
    let mut i: usize = components.len();
    assert(cs.take(i as int) =~= cs);
    while i > 0
        invariant
            i <= components@.len(),
            cs == views(components@),
            last_index(cs, id@) == last_index(cs.take(i as int), id@),
        decreases i,
    {
        let ghost t = cs.take(i as int);
        assert(t.drop_last() =~= cs.take(i - 1));
        assert(t.last() == components@[i - 1]@);
        if str_eq(components[i - 1].id.as_str(), id) {
            return Some(i - 1);
        }
        i = i - 1;
    }
    assert(cs.take(0) =~= Seq::<ComponentView>::empty());
    None
}

proof fn lemma_last_index_bound(cs: Seq<ComponentView>, id: Seq<char>)
    ensures
        -1 <= last_index(cs, id) < cs.len(),
        last_index(cs, id) >= 0 ==> cs[last_index(cs, id)].id == id,
    decreases cs.len(),
{
    if cs.len() > 0 && cs.last().id != id {
        lemma_last_index_bound(cs.drop_last(), id);
    }
}

fn id_seen(configured: &Vec<ConfiguredComponent>, k: usize) -> (b: bool)
    requires
        k < configured@.len(),
    ensures
        b == seen_before(entry_views(configured@), k as int),
{
    let ghost es = entry_views(configured@);
    let mut j: usize = 0;
    while j < k
        invariant
            j <= k < configured@.len(),
            es == entry_views(configured@),
            forall|m: int| 0 <= m < j ==> #[trigger] es[m].id != es[k as int].id,
        decreases k - j,
    {
        if str_eq(configured[j].id.as_str(), configured[k].id.as_str()) {
            assert(es[j as int].id == es[k as int].id);
            return true;
        }
        j = j + 1;
    }
    false
}

/// Applying entries keeps the components, their ids and order, and never
/// takes back an Install.
proof fn lemma_apply_keeps_shape(cs: Seq<ComponentView>, es: Seq<EntryView>, k: int)
    ensures
        apply_entries(cs, es, k).0.len() == cs.len(),
        forall|i: int| 0 <= i < cs.len() ==> #[trigger] apply_entries(cs, es, k).0[i].id == cs[i].id,
        forall|i: int|
            0 <= i < cs.len() && cs[i].action == ComponentAction::Install ==> #[trigger] apply_entries(cs, es, k).0[i].action
                == ComponentAction::Install,
    decreases es.len() - k,
{
    if k < 0 || k >= es.len() {
    } else {
        let e = es[k];
        let i = last_index(cs, e.id);
        lemma_last_index_bound(cs, e.id);
        if !seen_before(es, k) && i >= 0 {
            let cs1 = if e.enabled {
                cs.update(i, ComponentView { action: ComponentAction::Install, ..cs[i] })
            } else {
                cs
            };
            match e.version {
                None => lemma_apply_keeps_shape(cs1, es, k + 1),
                Some(v) => {
                    let t = trim(v);
                    if t.len() != 0 && cs1[i].category is Mise {
                        if t == "latest"@ {
                            lemma_apply_keeps_shape(cs1, es, k + 1);
                        } else {
                            lemma_apply_keeps_shape(cs1.update(i, ComponentView { mise_version: Some(t), ..cs1[i] }), es, k + 1);
                        }
                    }
                },
            }
        }
    }
}

/// A component that applying entries selects was selected before or is
/// named by an enabled entry; and, where no entry is refused, every enabled
/// entry selects its component.
proof fn lemma_apply_selects_enabled(cs: Seq<ComponentView>, es: Seq<EntryView>, k: int)
    requires
        0 <= k,
    ensures
        forall|i: int|
            0 <= i < cs.len() && #[trigger] apply_entries(cs, es, k).0[i].action == ComponentAction::Install ==> cs[i].action
                == ComponentAction::Install || exists|j: int| k <= j < es.len() && es[j].enabled && #[trigger] es[j].id == cs[i].id,
        apply_entries(cs, es, k).1 is None ==> forall|j: int|
            k <= j < es.len() && #[trigger] es[j].enabled ==> exists|i: int|
                0 <= i < cs.len() && cs[i].id == es[j].id && apply_entries(cs, es, k).0[i].action == ComponentAction::Install,
    decreases es.len() - k,
{
    lemma_apply_keeps_shape(cs, es, k);
    if k >= es.len() {
    } else {
        let e = es[k];
        let i = last_index(cs, e.id);
        lemma_last_index_bound(cs, e.id);
        if !seen_before(es, k) && i >= 0 {
            let cs1 = if e.enabled {
                cs.update(i, ComponentView { action: ComponentAction::Install, ..cs[i] })
            } else {
                cs
            };
            let next = match e.version {
                None => cs1,
                Some(v) => {
                    let t = trim(v);
                    if t == "latest"@ {
                        cs1
                    } else {
                        cs1.update(i, ComponentView { mise_version: Some(t), ..cs1[i] })
                    }
                },
            };
            let continues = match e.version {
                None => true,
                Some(v) => trim(v).len() != 0 && cs1[i].category is Mise,
            };
            if continues {
                assert(apply_entries(cs, es, k) == apply_entries(next, es, k + 1));
                lemma_apply_selects_enabled(next, es, k + 1);
                lemma_apply_keeps_shape(next, es, k + 1);
                let r = apply_entries(cs, es, k).0;
                assert forall|m: int| 0 <= m < cs.len() && #[trigger] r[m].action == ComponentAction::Install implies cs[m].action
                    == ComponentAction::Install || exists|j: int| k <= j < es.len() && es[j].enabled && #[trigger] es[j].id == cs[m].id by {
                    if next[m].action == ComponentAction::Install {
                        if m == i && e.enabled && cs[m].action != ComponentAction::Install {
                            assert(es[k].id == cs[m].id);
                        }
                    } else {
                        let j = choose|j: int| k + 1 <= j < es.len() && es[j].enabled && #[trigger] es[j].id == next[m].id;
                        assert(es[j].id == cs[m].id);
                    }
                }
                if apply_entries(cs, es, k).1 is None {
                    assert forall|j: int| k <= j < es.len() && #[trigger] es[j].enabled implies exists|m: int|
                        0 <= m < cs.len() && cs[m].id == es[j].id && r[m].action == ComponentAction::Install by {
                        if j == k {
                            assert(next[i].action == ComponentAction::Install);
                            assert(r[i].action == ComponentAction::Install);
                            assert(cs[i].id == es[j].id);
                        } else {
                            let m = choose|m: int| 0 <= m < next.len() && next[m].id == es[j].id && r[m].action == ComponentAction::Install;
                            assert(cs[m].id == es[j].id);
                        }
                    }
                }
            }
        }
    }
}

/// A configuration that is accepted installs exactly what its enabled
/// entries name: each component selected for installation has the id of an
/// enabled entry, and each enabled entry's component is selected.
pub proof fn lemma_config_installs_exactly_enabled(es: Seq<EntryView>)
    ensures
        ({
            let (cs, err) = apply_entries(cleared(builtin_components()), es, 0);
            err is None ==> {
                &&& forall|i: int| 0 <= i < cs.len() && #[trigger] cs[i].action == ComponentAction::Install
                    ==> exists|j: int| 0 <= j < es.len() && es[j].enabled && es[j].id == cs[i].id
                &&& forall|j: int| 0 <= j < es.len() && #[trigger] es[j].enabled ==> exists|i: int|
                    0 <= i < cs.len() && cs[i].id == es[j].id && cs[i].action == ComponentAction::Install
            }
        }),
{
    let c0 = cleared(builtin_components());
    lemma_apply_selects_enabled(c0, es, 0);
    lemma_apply_keeps_shape(c0, es, 0);
    let (cs, err) = apply_entries(c0, es, 0);
    if err is None {
        assert forall|i: int| 0 <= i < cs.len() && #[trigger] cs[i].action == ComponentAction::Install
            implies exists|j: int| 0 <= j < es.len() && es[j].enabled && es[j].id == cs[i].id by {
            assert(c0[i].action == ComponentAction::Keep);
            let j = choose|j: int| 0 <= j < es.len() && es[j].enabled && #[trigger] es[j].id == c0[i].id;
            assert(es[j].id == cs[i].id);
        }
        assert forall|j: int| 0 <= j < es.len() && #[trigger] es[j].enabled implies exists|i: int|
            0 <= i < cs.len() && cs[i].id == es[j].id && cs[i].action == ComponentAction::Install by {
            let m = choose|m: int| 0 <= m < c0.len() && c0[m].id == es[j].id && cs[m].action == ComponentAction::Install;
            assert(cs[m].id == es[j].id);
        }
    }
}

/// No two components share an id.
pub open spec fn distinct_ids(cs: Seq<ComponentView>) -> bool {
    forall|a: int, b: int| 0 <= a < cs.len() && 0 <= b < cs.len() && a != b ==> #[trigger] cs[a].id != #[trigger] cs[b].id
}

/// Entry `j` is one that a configuration may hold: its id is not repeated
/// from an earlier entry and names a component, and a version it gives is
/// not empty and is given to a mise tool.
pub open spec fn acceptable_entry(cs: Seq<ComponentView>, es: Seq<EntryView>, j: int) -> bool {
    &&& forall|l: int| 0 <= l < j ==> #[trigger] es[l].id != es[j].id
    &&& exists|i: int| 0 <= i < cs.len() && #[trigger] cs[i].id == es[j].id
    &&& es[j].version is Some ==> {
        &&& trim(es[j].version->Some_0).len() > 0
        &&& forall|i: int| 0 <= i < cs.len() && #[trigger] cs[i].id == es[j].id ==> cs[i].category is Mise
    }
}

proof fn lemma_last_index_found(cs: Seq<ComponentView>, id: Seq<char>, i: int)
    requires
        0 <= i < cs.len(),
        cs[i].id == id,
    ensures
        last_index(cs, id) >= i,
    decreases cs.len(),
{
    if cs.last().id != id {
        lemma_last_index_found(cs.drop_last(), id, i);
    }
}

proof fn lemma_acceptable_same_shape(a: Seq<ComponentView>, b: Seq<ComponentView>, es: Seq<EntryView>, j: int)
    requires
        a.len() == b.len(),
        forall|i: int| 0 <= i < a.len() ==> (#[trigger] a[i]).id == b[i].id && a[i].category == b[i].category,
    ensures
        acceptable_entry(a, es, j) == acceptable_entry(b, es, j),
        distinct_ids(a) == distinct_ids(b),
{
    if exists|i: int| 0 <= i < a.len() && #[trigger] a[i].id == es[j].id {
        let i = choose|i: int| 0 <= i < a.len() && #[trigger] a[i].id == es[j].id;
        assert(b[i].id == es[j].id);
    }
    if exists|i: int| 0 <= i < b.len() && #[trigger] b[i].id == es[j].id {
        let i = choose|i: int| 0 <= i < b.len() && #[trigger] b[i].id == es[j].id;
        assert(a[i].id == es[j].id);
    }
    assert forall|i: int| 0 <= i < a.len() && #[trigger] a[i].id == es[j].id implies b[i].id == es[j].id
        && (a[i].category is Mise <==> b[i].category is Mise) by {}
    assert forall|i: int| 0 <= i < b.len() && #[trigger] b[i].id == es[j].id implies a[i].id == es[j].id by {}
    if distinct_ids(a) {
        assert forall|x: int, y: int| 0 <= x < b.len() && 0 <= y < b.len() && x != y implies #[trigger] b[x].id
            != #[trigger] b[y].id by {
            assert(a[x].id != a[y].id);
        }
    }
    if distinct_ids(b) {
        assert forall|x: int, y: int| 0 <= x < a.len() && 0 <= y < a.len() && x != y implies #[trigger] a[x].id
            != #[trigger] a[y].id by {
            assert(b[x].id != b[y].id);
        }
    }
}

/// The built-in components have distinct ids, before and after a
/// configuration clears their selection.
pub proof fn lemma_builtin_ids_distinct()
    ensures
        distinct_ids(builtin_components()),
        distinct_ids(cleared(builtin_components())),
{
    let cs = builtin_components();
    reveal_strlit("base-deps");
    reveal_strlit("fish");
    reveal_strlit("neovim");
    reveal_strlit("rust");
    reveal_strlit("node");
    reveal_strlit("go");
    reveal_strlit("python");
    reveal_strlit("fzf");
    reveal_strlit("ripgrep");
    reveal_strlit("fd");
    reveal_strlit("bat");
    reveal_strlit("eza");
    reveal_strlit("glow");
    reveal_strlit("jaq");
    reveal_strlit("zellij");
    reveal_strlit("config-bash");
    reveal_strlit("config-fish");
    reveal_strlit("config-nvim");
    let ids: Seq<Seq<char>> = seq!["base-deps"@, "fish"@, "neovim"@, "rust"@, "node"@, "go"@, "python"@, "fzf"@, "ripgrep"@, "fd"@, "bat"@, "eza"@, "glow"@, "jaq"@, "zellij"@, "config-bash"@, "config-fish"@, "config-nvim"@];
    assert forall|i: int| 0 <= i < cs.len() implies #[trigger] cs[i].id == ids[i] by {}
    assert forall|a: int, b: int| 0 <= a < cs.len() && 0 <= b < cs.len() && a != b implies #[trigger] cs[a].id
        != #[trigger] cs[b].id by {
        assert(ids[a].len() != ids[b].len() || ids[a][0] != ids[b][0] || ids[a][7] != ids[b][7]);
    }
    let c0 = cleared(cs);
    assert forall|i: int| 0 <= i < c0.len() implies (#[trigger] c0[i]).id == cs[i].id && c0[i].category
        == cs[i].category by {}
    lemma_acceptable_same_shape(c0, cs, seq![], 0);
}

/// A configuration is refused exactly when one of its entries repeats an
/// earlier id, names no component, gives an empty version, or gives a
/// version to a component that is not a mise tool.
pub proof fn lemma_config_refused_exactly_when(cs: Seq<ComponentView>, es: Seq<EntryView>, k: int)
    requires
        0 <= k,
        distinct_ids(cs),
    ensures
        apply_entries(cs, es, k).1 is None <==> forall|j: int| k <= j < es.len() ==> #[trigger] acceptable_entry(cs, es, j),
    decreases es.len() - k,
{
    if k < es.len() {
        let e = es[k];
        let i = last_index(cs, e.id);
        lemma_last_index_bound(cs, e.id);
        if seen_before(es, k) {
            let l = choose|l: int| 0 <= l < k && #[trigger] es[l].id == es[k].id;
            assert(!acceptable_entry(cs, es, k));
        } else if i < 0 {
            if exists|m: int| 0 <= m < cs.len() && #[trigger] cs[m].id == e.id {
                let m = choose|m: int| 0 <= m < cs.len() && #[trigger] cs[m].id == e.id;
                lemma_last_index_found(cs, e.id, m);
            }
            assert(!acceptable_entry(cs, es, k));
        } else {
            let cs1 = if e.enabled {
                cs.update(i, ComponentView { action: ComponentAction::Install, ..cs[i] })
            } else {
                cs
            };
            let next = match e.version {
                None => cs1,
                Some(v) => {
                    let t = trim(v);
                    if t == "latest"@ {
                        cs1
                    } else {
                        cs1.update(i, ComponentView { mise_version: Some(t), ..cs1[i] })
                    }
                },
            };
            assert forall|m: int| 0 <= m < next.len() implies (#[trigger] next[m]).id == cs[m].id && next[m].category
                == cs[m].category by {}
            assert(next.len() == cs.len());
            lemma_acceptable_same_shape(next, cs, es, 0);
            assert forall|m: int| 0 <= m < cs.len() && #[trigger] cs[m].id == e.id implies m == i by {}
            let continues = match e.version {
                None => true,
                Some(v) => trim(v).len() != 0 && cs1[i].category is Mise,
            };
            if continues {
                assert(apply_entries(cs, es, k) == apply_entries(next, es, k + 1));
                lemma_config_refused_exactly_when(next, es, k + 1);
                assert(acceptable_entry(cs, es, k));
                assert forall|j: int| k + 1 <= j < es.len() implies #[trigger] acceptable_entry(next, es, j)
                    == acceptable_entry(cs, es, j) by {
                    lemma_acceptable_same_shape(next, cs, es, j);
                }
                if apply_entries(next, es, k + 1).1 is None {
                    assert forall|j: int| k <= j < es.len() implies #[trigger] acceptable_entry(cs, es, j) by {
                        if j > k {
                            assert(acceptable_entry(next, es, j));
                        }
                    }
                } else {
                    let j = choose|j: int| k + 1 <= j < es.len() && !#[trigger] acceptable_entry(next, es, j);
                    assert(!acceptable_entry(cs, es, j));
                }
            } else {
                assert(!acceptable_entry(cs, es, k));
            }
        }
    }
}

/// The pin a version entry leaves: none given, or `latest`, keeps the pin
/// as it was; any other version is pinned without its surrounding spaces.
pub open spec fn pinned_version(given: Option<Seq<char>>, before: Option<Seq<char>>) -> Option<Seq<char>> {
    match given {
        None => before,
        Some(v) => if trim(v) == "latest"@ {
            before
        } else {
            Some(trim(v))
        },
    }
}

/// In an accepted configuration each entry pins the version it gives to the
/// component it names (`latest` or no version keeps mise's default), and a
/// component that no entry names keeps its pin.
pub proof fn lemma_config_pins_versions(cs: Seq<ComponentView>, es: Seq<EntryView>, k: int)
    requires
        0 <= k,
        distinct_ids(cs),
        apply_entries(cs, es, k).1 is None,
    ensures
        ({
            let r = apply_entries(cs, es, k).0;
            &&& r.len() == cs.len()
            &&& forall|j: int, i: int| k <= j < es.len() && 0 <= i < cs.len() && #[trigger] cs[i].id == #[trigger] es[j].id
                ==> r[i].mise_version == pinned_version(es[j].version, cs[i].mise_version)
            &&& forall|i: int| 0 <= i < cs.len() && (forall|j: int| k <= j < es.len() ==> #[trigger] es[j].id != cs[i].id)
                ==> #[trigger] r[i].mise_version == cs[i].mise_version
        }),
    decreases es.len() - k,
{
    lemma_apply_keeps_shape(cs, es, k);
    lemma_config_refused_exactly_when(cs, es, k);
    if k < es.len() {
        let e = es[k];
        let i = last_index(cs, e.id);
        lemma_last_index_bound(cs, e.id);
        assert(acceptable_entry(cs, es, k));
        if i < 0 {
            let m = choose|m: int| 0 <= m < cs.len() && #[trigger] cs[m].id == e.id;
            lemma_last_index_found(cs, e.id, m);
        }
        let cs1 = if e.enabled {
            cs.update(i, ComponentView { action: ComponentAction::Install, ..cs[i] })
        } else {
            cs
        };
        let next = match e.version {
            None => cs1,
            Some(v) => {
                let t = trim(v);
                if t == "latest"@ {
                    cs1
                } else {
                    cs1.update(i, ComponentView { mise_version: Some(t), ..cs1[i] })
                }
            },
        };
        assert(apply_entries(cs, es, k) == apply_entries(next, es, k + 1));
        assert forall|m: int| 0 <= m < next.len() implies (#[trigger] next[m]).id == cs[m].id && next[m].category
            == cs[m].category by {}
        lemma_acceptable_same_shape(next, cs, es, 0);
        lemma_config_pins_versions(next, es, k + 1);
        let r = apply_entries(cs, es, k).0;
        assert(next[i].mise_version == pinned_version(e.version, cs[i].mise_version));
        assert forall|j: int| k < j < es.len() implies #[trigger] es[j].id != e.id by {
            assert(acceptable_entry(cs, es, j));
        }
        assert forall|j: int, m: int| k <= j < es.len() && 0 <= m < cs.len() && #[trigger] cs[m].id == #[trigger] es[j].id
            implies r[m].mise_version == pinned_version(es[j].version, cs[m].mise_version) by {
            if j == k {
                assert(m == i);
                assert(forall|l: int| k + 1 <= l < es.len() ==> #[trigger] es[l].id != next[m].id);
            } else {
                assert(m != i);
                assert(next[m] == cs[m]);
                assert(next[m].id == es[j].id);
            }
        }
        assert forall|m: int| 0 <= m < cs.len() && (forall|j: int| k <= j < es.len() ==> #[trigger] es[j].id != cs[m].id)
            implies #[trigger] r[m].mise_version == cs[m].mise_version by {
            assert(es[k].id != cs[m].id);
            assert(m != i);
            assert(next[m] == cs[m]);
            assert(forall|l: int| k + 1 <= l < es.len() ==> #[trigger] es[l].id != next[m].id);
        }
    }
}

/// Applies the entries of a configuration to `components`: first nothing
/// is selected and no version pinned, then each entry in order as
/// `apply_entries` says.
pub fn apply_config(configured: &Vec<ConfiguredComponent>, components: &mut Vec<Component>) -> (r: Result<(), ConfigError>)
    ensures
        ({
            let (cs, err) = apply_entries(cleared(views(old(components)@)), entry_views(configured@), 0);
            &&& views(final(components)@) == cs
            &&& match r {
                Ok(()) => err is None,
                Err(e) => err == Some(e@),
            }
        }),
{
    let ghost cs0 = views(components@);
    let mut i: usize = 0;
    while i < components.len()
        invariant
            i <= components@.len(),
            cs0.len() == components@.len(),
            cs0 == views(old(components)@),
            forall|k: int| 0 <= k < i ==> #[trigger] views(components@)[k] == cleared(cs0)[k],
            forall|k: int| i <= k < cs0.len() ==> #[trigger] views(components@)[k] == cs0[k],
        decreases components@.len() - i,
    {
        let ghost before = views(components@);
        let mut c = components[i].duplicate();
        c.action = ComponentAction::Keep;
        c.mise_version = None;
        components.set(i, c);
        assert(cleared(cs0)[i as int] == ComponentView { action: ComponentAction::Keep, mise_version: None, ..cs0[i as int] });
        assert(views(components@)[i as int] == components@[i as int]@);
        assert(components@[i as int]@.action == ComponentAction::Keep);
        assert(components@[i as int]@.mise_version == None::<Seq<char>>);
        assert(before[i as int] == cs0[i as int]);
        assert(components@[i as int]@.id == cs0[i as int].id);
        assert(components@[i as int]@.observed == cs0[i as int].observed);
        assert(components@[i as int]@.check_args == cs0[i as int].check_args);
        assert(views(components@)[i as int] =~~= cleared(cs0)[i as int]);
        assert(views(components@) =~~= before.update(i as int, cleared(cs0)[i as int]));
        i = i + 1;
    }
    assert(views(components@) =~= cleared(cs0));
    let ghost es = entry_views(configured@);
    let ghost target = apply_entries(cleared(cs0), es, 0);
    let mut k: usize = 0;
    while k < configured.len()
        invariant
            k <= configured@.len(),
            es == entry_views(configured@),
            cs0 == views(old(components)@),
            target == apply_entries(cleared(cs0), es, 0),
            target == apply_entries(views(components@), es, k as int),
        decreases configured@.len() - k,
    {
        let ghost cs = views(components@);
        let entry = &configured[k];
        assert(es[k as int] == entry@);
        if id_seen(configured, k) {
            assert(apply_entries(cs, es, k as int) == (cs, Some(ConfigErrorView::DuplicateId(entry.id@))));
            return Err(ConfigError::DuplicateId(entry.id.clone()));
        }
        let index = match find_component(components, entry.id.as_str()) {
            Some(index) => index,
            None => {
                assert(apply_entries(cs, es, k as int) == (cs, Some(ConfigErrorView::UnknownId(entry.id@))));
                return Err(ConfigError::UnknownId(entry.id.clone()));
            },
        };
        proof {
            lemma_last_index_bound(cs, entry.id@);
        }
        if entry.enabled {
            components[index].action = ComponentAction::Install;
            assert(views(components@) =~= cs.update(index as int, ComponentView { action: ComponentAction::Install, ..cs[index as int] }));
        }
        let ghost cs1 = views(components@);
        match &entry.version {
            None => {},
            Some(version) => {
                let trimmed = trim_str(version.as_str());
                if trimmed.unicode_len() == 0 {
                    return Err(ConfigError::EmptyVersion(entry.id.clone()));
                }
                let is_mise = match &components[index].category {
                    Category::Mise(_) => true,
                    _ => false,
                };
                assert(is_mise == (cs1[index as int].category is Mise));
                if !is_mise {
                    return Err(ConfigError::NotMiseTool(entry.id.clone()));
                }
                if !str_eq(trimmed.as_str(), "latest") {
                    components[index].mise_version = Some(trimmed);
                    assert(views(components@) =~= cs1.update(index as int, ComponentView { mise_version: Some(trim(version@)), ..cs1[index as int] }));
                }
            },
        }
        k = k + 1;
    }
    Ok(())
}

/// The built-in components as a configuration selects them.
pub fn components_from_config(configured: &Vec<ConfiguredComponent>) -> (r: Result<Vec<Component>, ConfigError>)
    ensures
        ({
            let (cs, err) = apply_entries(cleared(builtin_components()), entry_views(configured@), 0);
            match r {
                Ok(v) => err is None && views(v@) == cs,
                Err(e) => err == Some(e@),
            }
        }),
        r is Ok <==> forall|j: int| 0 <= j < configured@.len() ==> #[trigger] acceptable_entry(
            builtin_components(), entry_views(configured@), j),
        r matches Ok(v) ==> forall|j: int, i: int| 0 <= j < configured@.len() && 0 <= i < v@.len()
            && #[trigger] v@[i].id@ == #[trigger] entry_views(configured@)[j].id
            ==> v@[i]@.mise_version == pinned_version(entry_views(configured@)[j].version, None),
{
    let mut components = get_all_components();
    let r = match apply_config(configured, &mut components) {
        Ok(()) => Ok(components),
        Err(e) => Err(e),
    };
    proof {
        let es = entry_views(configured@);
        let b = builtin_components();
        let c0 = cleared(b);
        lemma_builtin_ids_distinct();
        lemma_config_refused_exactly_when(c0, es, 0);
        lemma_apply_keeps_shape(c0, es, 0);
        assert(es.len() == configured@.len());
        assert forall|m: int| 0 <= m < c0.len() implies (#[trigger] c0[m]).id == b[m].id && c0[m].category
            == b[m].category by {}
        assert forall|j: int| 0 <= j < es.len() implies #[trigger] acceptable_entry(b, es, j) == acceptable_entry(c0, es, j) by {
            lemma_acceptable_same_shape(c0, b, es, j);
        }
        assert((r is Ok) == (apply_entries(c0, es, 0).1 is None));
        if r is Ok {
            assert forall|j: int| 0 <= j < es.len() implies #[trigger] acceptable_entry(b, es, j) by {
                assert(acceptable_entry(c0, es, j));
            }
        } else {
            let j = choose|j: int| 0 <= j < es.len() && !#[trigger] acceptable_entry(c0, es, j);
            assert(!acceptable_entry(b, es, j));
        }
        if r is Ok {
            lemma_config_pins_versions(c0, es, 0);
            let v = r->Ok_0;
            assert forall|j: int, i: int| 0 <= j < configured@.len() && 0 <= i < v@.len()
                && #[trigger] v@[i].id@ == #[trigger] es[j].id
                implies v@[i]@.mise_version == pinned_version(es[j].version, None) by {
                assert(views(v@)[i] == v@[i]@);
                assert(apply_entries(c0, es, 0).0[i].id == c0[i].id);
                assert(c0[i].id == es[j].id);
            }
        }
    }
    r
}

} // verus!
