//! The state of the interactive installer and what each key does to it.
use vstd::prelude::*;
use crate::headless_config::distinct_ids;
use crate::manifest::{copy_tools, search, search_result, tool_views, ManifestTool, ToolView};
use crate::outcomes::Outcomes;
use crate::registry::{
    builtin_components, can_deactivate, fresh_component, is_plan_of, selects, CategoryKind, toggled, views, with_action, Category,
    CategoryView, Component, ComponentAction, ComponentOutcome, ComponentView, Group,
    InstallPlan, OutcomeView,
};
use crate::text::{concat_str, owned, str_eq, string_pop, string_push};

verus! {

#[derive(Debug, Clone, Copy, PartialEq, Eq, Structural)]
pub enum Screen {
    Selection,
    Review,
    Installing,
    Report,
    Search,
}

/// A key press, as far as the installer tells keys apart.
#[derive(Debug, Clone, Copy, PartialEq, Eq, Structural)]
pub enum Key {
    Char(char),
    Up,
    Down,
    Enter,
    Esc,
    Backspace,
    Other,
}

/// Work that a key asks for beyond the change of state.
#[derive(Debug, Clone, Copy, PartialEq, Eq, Structural)]
pub enum KeyEffect {
    Nothing,
    /// The review was confirmed: installation starts once privileges are
    /// secured where the plan needs them.
    StartInstallation { needs_sudo: bool },
    /// A tool was added from the search; its component at this index is to
    /// be observed.
    ObserveComponent(usize),
}

pub struct App {
    pub components: Vec<Component>,
    pub cursor: usize,
    pub screen: Screen,
    pub logs: Vec<String>,
    pub install_done: bool,
    pub install_index: usize,
    pub outcomes: Outcomes,
    pub should_quit: bool,
    pub notice: Option<String>,
    pub manifest_tools: Vec<ManifestTool>,
    pub search_query: String,
    pub search_results: Vec<ManifestTool>,
    pub search_cursor: usize,
}

pub open spec fn deactivation_notice() -> Seq<char> {
    "Only globally configured mise tools can be deactivated."@
}

pub open spec fn no_changes_notice() -> Seq<char> {
    "No changes selected."@
}

/// Every id of `cs` mapped to `Kept`.
pub open spec fn all_kept(cs: Seq<ComponentView>) -> Map<Seq<char>, OutcomeView> {
    Map::new(|k: Seq<char>| exists|i: int| 0 <= i < cs.len() && #[trigger] cs[i].id == k, |k: Seq<char>| OutcomeView::Kept)
}

/// The outcome a component starts an installation with.
pub open spec fn initial_outcome(a: ComponentAction) -> OutcomeView {
    match a {
        ComponentAction::Keep => OutcomeView::Kept,
        _ => OutcomeView::Pending,
    }
}

/// `m` with the initial outcome of each component of `cs` recorded, in order.
pub open spec fn prepared(m: Map<Seq<char>, OutcomeView>, cs: Seq<ComponentView>) -> Map<Seq<char>, OutcomeView>
    decreases cs.len(),
{
    if cs.len() == 0 {
        m
    } else {
        prepared(m, cs.drop_last()).insert(cs.last().id, initial_outcome(cs.last().action))
    }
}

/// Before an installation runs, each component has the outcome Kept when
/// it is kept and Pending when it is to be installed or deactivated; the
/// outcomes of ids outside the list stay as they were.
pub proof fn lemma_prepared_outcomes(m: Map<Seq<char>, OutcomeView>, cs: Seq<ComponentView>)
    requires
        distinct_ids(cs),
    ensures
        forall|i: int| 0 <= i < cs.len() ==> prepared(m, cs).dom().contains(#[trigger] cs[i].id) && prepared(m, cs)[cs[i].id]
            == if cs[i].action == ComponentAction::Keep { OutcomeView::Kept } else { OutcomeView::Pending },
        forall|k: Seq<char>| (forall|i: int| 0 <= i < cs.len() ==> #[trigger] cs[i].id != k) ==> (#[trigger] prepared(m, cs).dom().contains(k)
            == m.dom().contains(k)) && (m.dom().contains(k) ==> prepared(m, cs)[k] == m[k]),
    decreases cs.len(),
{
    if cs.len() > 0 {
        let d = cs.drop_last();
        assert forall|a: int, b: int| 0 <= a < d.len() && 0 <= b < d.len() && a != b implies #[trigger] d[a].id
            != #[trigger] d[b].id by {
            assert(cs[a].id != cs[b].id);
        }
        lemma_prepared_outcomes(m, d);
        let last = cs.len() - 1;
        assert forall|i: int| 0 <= i < cs.len() implies prepared(m, cs).dom().contains(#[trigger] cs[i].id) && prepared(m, cs)[cs[i].id]
            == if cs[i].action == ComponentAction::Keep { OutcomeView::Kept } else { OutcomeView::Pending } by {
            if i < last {
                assert(cs[i].id != cs[last].id);
                assert(d[i] == cs[i]);
            }
        }
        assert forall|k: Seq<char>| (forall|i: int| 0 <= i < cs.len() ==> #[trigger] cs[i].id != k) implies (#[trigger] prepared(m, cs).dom().contains(k)
            == m.dom().contains(k)) && (m.dom().contains(k) ==> prepared(m, cs)[k] == m[k]) by {
            assert(cs[last].id != k);
            assert forall|i: int| 0 <= i < d.len() implies #[trigger] d[i].id != k by {
                assert(d[i] == cs[i]);
            }
        }
    }
}

/// All actions set to `a`.
pub open spec fn all_set(cs: Seq<ComponentView>, a: ComponentAction) -> Seq<ComponentView> {
    cs.map_values(|c: ComponentView| with_action(c, a))
}

pub open spec fn opt_view(o: Option<String>) -> Option<Seq<char>> {
    match o {
        Some(s) => Some(s@),
        None => None,
    }
}

/// The index of the first component that is the mise tool `id`.
pub open spec fn is_first_mise(cs: Seq<ComponentView>, id: Seq<char>, i: int) -> bool {
    &&& 0 <= i < cs.len()
    &&& cs[i].category == CategoryView::Mise(id)
    &&& forall|j: int| 0 <= j < i ==> #[trigger] cs[j].category != CategoryView::Mise(id)
}

/// The component a tool of the registry becomes when added from the search.
pub open spec fn extra_component(t: ToolView) -> ComponentView {
    with_action(
        fresh_component(
            "extra-"@ + t.name,
            t.name,
            t.description,
            CategoryView::Mise(t.mise_id),
            Group::ExtraTools,
            Some(t.name),
            seq!["--version"@],
        ),
        ComponentAction::Install,
    )
}

proof fn lemma_all_kept_step(cs: Seq<ComponentView>, i: int)
    requires
        0 <= i < cs.len(),
    ensures
        all_kept(cs.take(i + 1)) == all_kept(cs.take(i)).insert(cs[i].id, OutcomeView::Kept),
{
    let a = cs.take(i + 1);
    let b = cs.take(i);
    assert forall|k: Seq<char>| #[trigger] all_kept(a).dom().contains(k) == all_kept(b).insert(cs[i].id, OutcomeView::Kept).dom().contains(k) by {
        if exists|j: int| 0 <= j < a.len() && #[trigger] a[j].id == k {
            let j = choose|j: int| 0 <= j < a.len() && #[trigger] a[j].id == k;
            if j < i {
                assert(b[j] == a[j]);
            }
        }
        if exists|j: int| 0 <= j < b.len() && #[trigger] b[j].id == k {
            let j = choose|j: int| 0 <= j < b.len() && #[trigger] b[j].id == k;
            assert(a[j] == b[j]);
        }
        assert(a[i] == cs[i]);
    }
    assert(all_kept(a) =~= all_kept(b).insert(cs[i].id, OutcomeView::Kept));
}

/// What Enter on the search screen does to the state `o`, giving `f`: the
/// selected tool is set to Install, as the first component that manages it
/// (which gets the cursor) or as a new component at the end (which gets the
/// cursor, a Pending outcome, and whose index is `added`); the notice is
/// cleared. Without a selected tool nothing changes. The other fields stay.
pub open spec fn added_from_search(o: App, f: App, added: Option<usize>) -> bool {
    &&& o.search_cursor >= o.search_results@.len() ==> f == o && added is None
    &&& o.search_cursor < o.search_results@.len() ==> ({
        let t = o.search_results@[o.search_cursor as int]@;
        let cs = views(o.components@);
        if exists|i: int| is_first_mise(cs, t.mise_id, i) {
            let i = f.cursor as int;
            &&& is_first_mise(cs, t.mise_id, i)
            &&& views(f.components@) == cs.update(i, with_action(cs[i], ComponentAction::Install))
            &&& f.outcomes == o.outcomes
            &&& added is None
        } else {
            &&& views(f.components@) == cs.push(extra_component(t))
            &&& f.cursor == cs.len()
            &&& f.outcomes@ == o.outcomes@.insert("extra-"@ + t.name, OutcomeView::Pending)
            &&& added == Some(cs.len() as usize)
        }
    })
    &&& o.search_cursor < o.search_results@.len() ==> f.notice is None
    &&& f == (App { components: f.components, cursor: f.cursor, outcomes: f.outcomes, notice: f.notice, ..o })
}

proof fn lemma_first_mise_exists(cs: Seq<ComponentView>, id: Seq<char>, j: int)
    requires
        0 <= j < cs.len(),
        cs[j].category == CategoryView::Mise(id),
    ensures
        exists|i: int| is_first_mise(cs, id, i),
    decreases j,
{
    if exists|k: int| 0 <= k < j && #[trigger] cs[k].category == CategoryView::Mise(id) {
        let k = choose|k: int| 0 <= k < j && #[trigger] cs[k].category == CategoryView::Mise(id);
        lemma_first_mise_exists(cs, id, k);
    } else {
        assert(is_first_mise(cs, id, j));
    }
}

proof fn lemma_first_mise_unique(cs: Seq<ComponentView>, id: Seq<char>, i: int, k: int)
    requires
        is_first_mise(cs, id, i),
        is_first_mise(cs, id, k),
    ensures
        i == k,
{
    if i < k {
        assert(cs[i].category != CategoryView::Mise(id));
    } else if k < i {
        assert(cs[k].category != CategoryView::Mise(id));
    }
}

/// Enter on a selected search result leaves the cursor on a component that
/// installs the tool under its mise identifier, and that component is the
/// first one that manages the tool, so a later search finds it by that
/// identifier; at most one component is added.
pub proof fn lemma_search_result_installs_tool(o: App, f: App, added: Option<usize>)
    requires
        added_from_search(o, f, added),
        o.search_cursor < o.search_results@.len(),
    ensures
        f.cursor < f.components@.len(),
        f.components@[f.cursor as int]@.category == CategoryView::Mise(
            o.search_results@[o.search_cursor as int]@.mise_id,
        ),
        f.components@[f.cursor as int]@.action == ComponentAction::Install,
        is_first_mise(views(f.components@), o.search_results@[o.search_cursor as int]@.mise_id, f.cursor as int),
        o.components@.len() <= f.components@.len() <= o.components@.len() + 1,
        added is Some <==> f.components@.len() == o.components@.len() + 1,
{
    let t = o.search_results@[o.search_cursor as int]@;
    let cs = views(o.components@);
    let fs = views(f.components@);
    assert(fs.len() == f.components@.len());
    if exists|i: int| is_first_mise(cs, t.mise_id, i) {
        let i = f.cursor as int;
        assert(fs[i] == f.components@[i]@);
        assert forall|j: int| 0 <= j < i implies #[trigger] fs[j].category != CategoryView::Mise(t.mise_id) by {
            assert(fs[j] == cs[j]);
        }
    } else {
        let i = f.cursor as int;
        assert(fs[i] == f.components@[i]@);
        assert forall|j: int| 0 <= j < i implies #[trigger] fs[j].category != CategoryView::Mise(t.mise_id) by {
            assert(fs[j] == cs[j]);
            if cs[j].category == CategoryView::Mise(t.mise_id) {
                lemma_first_mise_exists(cs, t.mise_id, j);
            }
        }
    }
}

/// A second Enter on the same search result adds nothing: the tool is found
/// by its mise identifier among the components, which stay as they are.
pub proof fn lemma_search_result_added_once(o: App, f: App, g: App, first: Option<usize>, second: Option<usize>)
    requires
        added_from_search(o, f, first),
        added_from_search(f, g, second),
        o.search_cursor < o.search_results@.len(),
    ensures
        second is None,
        views(g.components@) == views(f.components@),
        g.cursor == f.cursor,
{
    lemma_search_result_installs_tool(o, f, first);
    let t = o.search_results@[o.search_cursor as int]@;
    let fs = views(f.components@);
    assert(f.search_results == o.search_results && f.search_cursor == o.search_cursor);
    assert(is_first_mise(fs, t.mise_id, f.cursor as int));
    lemma_first_mise_unique(fs, t.mise_id, f.cursor as int, g.cursor as int);
    assert(fs[f.cursor as int] == f.components@[f.cursor as int]@);
    assert(fs.update(f.cursor as int, with_action(fs[f.cursor as int], ComponentAction::Install)) =~= fs);
}

pub open spec fn is_selection_action_key(k: Key) -> bool {
    k == Key::Char('i') || k == Key::Char('u') || k == Key::Char('d') || k == Key::Char(' ')
        || k == Key::Char('a') || k == Key::Char('n')
}

impl App {
    /// The installer's state for the observed `components` and the tools
    /// that the search offers: the selection screen on the first component,
    /// every component kept.
    pub fn with_components(components: Vec<Component>, manifest_tools: Vec<ManifestTool>) -> (app: App)
        ensures
            app.components == components,
            app.cursor == 0,
            app.screen == Screen::Selection,
            app.logs@.len() == 0,
            !app.install_done,
            app.install_index == 0,
            app.outcomes@ == all_kept(views(components@)),
            !app.should_quit,
            app.notice is None,
            app.manifest_tools == manifest_tools,
            app.search_query@.len() == 0,
            tool_views(app.search_results@) == tool_views(manifest_tools@),
            app.search_cursor == 0,
    {
        let mut outcomes = Outcomes::new();
        let mut i: usize = 0;
        let ghost cs = views(components@);
        assert(outcomes@ =~= all_kept(cs.take(0)));
        while i < components.len()
            invariant
                i <= components.len(),
                cs == views(components@),
                outcomes@ == all_kept(cs.take(i as int)),
            decreases components.len() - i,
        {
            outcomes.set(components[i].id.as_str(), ComponentOutcome::Kept);
            proof {
                lemma_all_kept_step(cs, i as int);
                assert(cs[i as int] == components@[i as int]@);
            }
            i = i + 1;
        }
        assert(cs.take(components.len() as int) =~= cs);
        let search_results = copy_tools(manifest_tools.as_slice());
        App {
            components,
            cursor: 0,
            screen: Screen::Selection,
            logs: Vec::new(),
            install_done: false,
            install_index: 0,
            outcomes,
            should_quit: false,
            notice: None,
            manifest_tools,
            search_query: String::new(),
            search_results,
            search_cursor: 0,
        }
    }

    pub fn next(&mut self)
        ensures
            *final(self) == (App {
                cursor: if old(self).cursor + 1 < old(self).components@.len() {
                    (old(self).cursor + 1) as usize
                } else {
                    old(self).cursor
                },
                ..*old(self)
            }),
    {
        if self.components.len() > 0 && self.cursor < self.components.len() - 1 {
            self.cursor = self.cursor + 1;
        }
    }

    pub fn previous(&mut self)
        ensures
            *final(self) == (App {
                cursor: if old(self).cursor > 0 {
                    (old(self).cursor - 1) as usize
                } else {
                    0
                },
                ..*old(self)
            }),
    {
        if self.cursor > 0 {
            self.cursor = self.cursor - 1;
        }
    }

    /// Space: the current component switches between Keep and Install, and
    /// leaves Deactivate for Keep.
    pub fn toggle_current(&mut self)
        requires
            old(self).cursor < old(self).components@.len(),
        ensures
            views(final(self).components@) == views(old(self).components@).update(
                old(self).cursor as int,
                with_action(
                    old(self).components@[old(self).cursor as int]@,
                    toggled(old(self).components@[old(self).cursor as int].action),
                ),
            ),
            final(self).notice is None,
            *final(self) == (App { components: final(self).components, notice: final(self).notice, ..*old(self) }),
    {
        let i = self.cursor;
        let ghost before = views(self.components@);
        self.components[i].toggle_install();
        assert(views(self.components@) =~= before.update(
            i as int,
            with_action(before[i as int], toggled(before[i as int].action)),
        ));
        self.notice = None;
    }

    /// The explicit action keys: the current component takes `action`, or,
    /// for a deactivation it does not allow, stays as it is and the notice
    /// says why.
    pub fn set_current_action(&mut self, action: ComponentAction)
        requires
            old(self).cursor < old(self).components@.len(),
        ensures
            ({
                let c = old(self).components@[old(self).cursor as int]@;
                let taken = action != ComponentAction::Deactivate || can_deactivate(c);
                &&& views(final(self).components@) == if taken {
                    views(old(self).components@).update(old(self).cursor as int, with_action(c, action))
                } else {
                    views(old(self).components@)
                }
                &&& opt_view(final(self).notice) == if taken {
                    None
                } else {
                    Some(deactivation_notice())
                }
            }),
            *final(self) == (App { components: final(self).components, notice: final(self).notice, ..*old(self) }),
    {
        let i = self.cursor;
        let ghost before = views(self.components@);
        let taken = self.components[i].set_action(action);
        if taken {
            assert(views(self.components@) =~= before.update(i as int, with_action(before[i as int], action)));
            self.notice = None;
        } else {
            assert(views(self.components@) =~= before);
            self.notice = Some(owned("Only globally configured mise tools can be deactivated."));
        }
    }

    /// `a`: every component is installed.
    pub fn install_all(&mut self)
        ensures
            views(final(self).components@) == all_set(views(old(self).components@), ComponentAction::Install),
            final(self).notice is None,
            *final(self) == (App { components: final(self).components, notice: final(self).notice, ..*old(self) }),
    {
        self.set_all(ComponentAction::Install);
    }

    /// `n`: every component is kept.
    pub fn keep_all(&mut self)
        ensures
            views(final(self).components@) == all_set(views(old(self).components@), ComponentAction::Keep),
            final(self).notice is None,
            *final(self) == (App { components: final(self).components, notice: final(self).notice, ..*old(self) }),
    {
        self.set_all(ComponentAction::Keep);
    }

    fn set_all(&mut self, action: ComponentAction)
        ensures
            views(final(self).components@) == all_set(views(old(self).components@), action),
            final(self).notice is None,
            *final(self) == (App { components: final(self).components, notice: final(self).notice, ..*old(self) }),
    {
        let ghost start = views(self.components@);
        let mut i: usize = 0;
        while i < self.components.len()
            invariant
                i <= self.components@.len(),
                start.len() == self.components@.len(),
                *self == (App { components: self.components, ..*old(self) }),
                forall|k: int| 0 <= k < i ==> #[trigger] views(self.components@)[k] == with_action(start[k], action),
                forall|k: int| i <= k < start.len() ==> #[trigger] views(self.components@)[k] == start[k],
            decreases self.components@.len() - i,
        {
            let ghost before = views(self.components@);
            self.components[i].action = action;
            assert(views(self.components@) =~= before.update(i as int, with_action(before[i as int], action)));
            i = i + 1;
        }
        assert(views(self.components@) =~= all_set(start, action));
        self.notice = None;
    }

    /// Before an installation: the log is cleared, progress reset, and each
    /// component's outcome set to Kept or Pending by its action.
    pub fn prepare_installation(&mut self)
        ensures
            final(self).logs@.len() == 0,
            !final(self).install_done,
            final(self).install_index == 0,
            final(self).outcomes@ == prepared(old(self).outcomes@, views(old(self).components@)),
            *final(self) == (App {
                logs: final(self).logs,
                install_done: false,
                install_index: 0,
                outcomes: final(self).outcomes,
                ..*old(self)
            }),
    {
        self.logs = Vec::new();
        self.install_done = false;
        self.install_index = 0;
        let ghost cs = views(self.components@);
        let ghost m0 = self.outcomes@;
        let mut i: usize = 0;
        assert(cs.take(0) =~= Seq::<ComponentView>::empty());
        while i < self.components.len()
            invariant
                i <= self.components@.len(),
                cs == views(self.components@),
                *self == (App {
                    logs: self.logs,
                    install_done: false,
                    install_index: 0,
                    outcomes: self.outcomes,
                    ..*old(self)
                }),
                self.logs@.len() == 0,
                self.outcomes@ == prepared(m0, cs.take(i as int)),
            decreases self.components@.len() - i,
        {
            let outcome = match self.components[i].action {
                ComponentAction::Keep => ComponentOutcome::Kept,
                ComponentAction::Install | ComponentAction::Deactivate => ComponentOutcome::Pending,
            };
            self.outcomes.set(self.components[i].id.as_str(), outcome);
            proof {
                let t = cs.take(i + 1);
                assert(t.drop_last() =~= cs.take(i as int));
                assert(t.last() == self.components@[i as int]@);
            }
            i = i + 1;
        }
        assert(cs.take(self.components@.len() as int) =~= cs);
    }

    /// The search results become the tools matching the query; the search
    /// cursor goes back to the first.
    pub fn update_search(&mut self)
        ensures
            tool_views(final(self).search_results@) == search_result(
                tool_views(old(self).manifest_tools@),
                old(self).search_query@,
            ),
            *final(self) == (App { search_results: final(self).search_results, search_cursor: 0, ..*old(self) }),
    {
        self.search_results = search(self.manifest_tools.as_slice(), self.search_query.as_str());
        self.search_cursor = 0;
    }

    pub fn search_next(&mut self)
        ensures
            *final(self) == (App {
                search_cursor: if old(self).search_cursor + 1 < old(self).search_results@.len() {
                    (old(self).search_cursor + 1) as usize
                } else {
                    old(self).search_cursor
                },
                ..*old(self)
            }),
    {
        if self.search_results.len() > 0 && self.search_cursor < self.search_results.len() - 1 {
            self.search_cursor = self.search_cursor + 1;
        }
    }

    pub fn search_previous(&mut self)
        ensures
            *final(self) == (App {
                search_cursor: if old(self).search_cursor > 0 {
                    (old(self).search_cursor - 1) as usize
                } else {
                    0
                },
                ..*old(self)
            }),
    {
        if self.search_cursor > 0 {
            self.search_cursor = self.search_cursor - 1;
        }
    }

    fn position_of_mise(&self, id: &str) -> (r: Option<usize>)
        ensures
            r matches Some(i) ==> is_first_mise(views(self.components@), id@, i as int),
            r is None ==> forall|j: int| 0 <= j < self.components@.len() ==> #[trigger] views(self.components@)[j].category != CategoryView::Mise(id@),
    {
        let mut i: usize = 0;
        while i < self.components.len()
            invariant
                i <= self.components@.len(),
                forall|j: int| 0 <= j < i ==> #[trigger] views(self.components@)[j].category != CategoryView::Mise(id@),
            decreases self.components@.len() - i,
        {
            let found = match &self.components[i].category {
                Category::Mise(t) => str_eq(t.as_str(), id),
                _ => false,
            };
            if found {
                return Some(i);
            }
            assert(views(self.components@)[i as int] == self.components@[i as int]@);
            i = i + 1;
        }
        None
    }

    /// Enter on the search screen: the selected tool is set to Install, as
    /// the component that already manages it or as a new component at the
    /// end, which gets a Pending outcome and the cursor. A new component's
    /// index is returned: it has yet to be observed.
    pub fn add_search_result(&mut self) -> (added: Option<usize>)
        ensures
            added_from_search(*old(self), *final(self), added),
    {
        if self.search_cursor >= self.search_results.len() {
            return None;
        }
        let tool = self.search_results[self.search_cursor].duplicate();
        let ghost cs = views(self.components@);
        match self.position_of_mise(tool.mise_id.as_str()) {
            Some(index) => {
                self.components[index].action = ComponentAction::Install;
                assert(views(self.components@) =~= cs.update(index as int, with_action(cs[index as int], ComponentAction::Install)));
                self.cursor = index;
                self.notice = None;
                None
            },
            None => {
                let id = concat_str("extra-", tool.name.as_str());
                let mut component = Component::new(
                    id.as_str(),
                    tool.name.as_str(),
                    tool.description.as_str(),
                    Category::Mise(tool.mise_id.clone()),
                    Group::ExtraTools,
                    Some(tool.name.as_str()),
                    &["--version"],
                );
                component.action = ComponentAction::Install;
                assert(component@ =~~= extra_component(tool@));
                proof {
                    if exists|i: int| is_first_mise(cs, tool@.mise_id, i) {
                        let i = choose|i: int| is_first_mise(cs, tool@.mise_id, i);
                        assert(cs[i].category != CategoryView::Mise(tool@.mise_id));
                    }
                }
                self.components.push(component);
                assert(views(self.components@) =~= cs.push(extra_component(tool@)));
                let index = self.components.len() - 1;
                self.cursor = index;
                self.outcomes.set(id.as_str(), ComponentOutcome::Pending);
                self.notice = None;
                Some(index)
            },
        }
    }

    /// The installation has run its course: its outcomes, its log and the
    /// phase it ended in are taken over, and the summary screen is shown.
    pub fn finish_installation(&mut self, outcomes: Outcomes, logs: Vec<String>, phase: usize)
        ensures
            *final(self) == (App {
                outcomes,
                logs,
                install_index: phase,
                install_done: true,
                screen: Screen::Report,
                ..*old(self)
            }),
    {
        self.outcomes = outcomes;
        self.logs = logs;
        self.install_index = phase;
        self.install_done = true;
        self.screen = Screen::Report;
    }

    /// Confirming the review: the installation is prepared and its screen
    /// shown.
    pub fn start_installation(&mut self)
        ensures
            final(self).screen == Screen::Installing,
            final(self).logs@.len() == 0,
            !final(self).install_done,
            final(self).install_index == 0,
            final(self).outcomes@ == prepared(old(self).outcomes@, views(old(self).components@)),
            *final(self) == (App {
                screen: Screen::Installing,
                logs: final(self).logs,
                install_done: false,
                install_index: 0,
                outcomes: final(self).outcomes,
                ..*old(self)
            }),
    {
        self.prepare_installation();
        self.screen = Screen::Installing;
    }
}


/// Some component asks for a change that a phase of the plan carries out.
pub open spec fn has_mutation(cs: Seq<ComponentView>) -> bool {
    exists|i: int| 0 <= i < cs.len() && ((#[trigger] cs[i]).action == ComponentAction::Install
        || (cs[i].action == ComponentAction::Deactivate && cs[i].category is Mise))
}

/// Some component installs system packages.
pub open spec fn has_system_install(cs: Seq<ComponentView>) -> bool {
    exists|i: int| 0 <= i < cs.len() && (#[trigger] cs[i]).action == ComponentAction::Install
        && cs[i].category is SystemPackage
}

pub proof fn lemma_filter_empty(s: Seq<ComponentView>, p: spec_fn(ComponentView) -> bool)
    ensures
        s.filter(p).len() == 0 <==> forall|i: int| 0 <= i < s.len() ==> !p(#[trigger] s[i]),
    decreases s.len(),
{
    reveal(Seq::filter);
    if s.len() > 0 {
        lemma_filter_empty(s.drop_last(), p);
        if forall|i: int| 0 <= i < s.len() ==> !p(#[trigger] s[i]) {
            assert forall|i: int| 0 <= i < s.drop_last().len() implies !p(#[trigger] s.drop_last()[i]) by {
                assert(s.drop_last()[i] == s[i]);
            }
        }
        if s.filter(p).len() == 0 {
            assert forall|i: int| 0 <= i < s.len() implies !p(#[trigger] s[i]) by {
                if i < s.len() - 1 {
                    assert(s[i] == s.drop_last()[i]);
                }
            }
        }
    }
}

/// What an action key of the selection screen does to the components.
pub open spec fn selection_key_components(cs: Seq<ComponentView>, cursor: int, key: Key) -> Seq<ComponentView> {
    let c = cs[cursor];
    if key == Key::Char('i') {
        cs.update(cursor, with_action(c, ComponentAction::Install))
    } else if key == Key::Char('u') {
        cs.update(cursor, with_action(c, ComponentAction::Keep))
    } else if key == Key::Char('d') {
        if can_deactivate(c) {
            cs.update(cursor, with_action(c, ComponentAction::Deactivate))
        } else {
            cs
        }
    } else if key == Key::Char(' ') {
        cs.update(cursor, with_action(c, toggled(c.action)))
    } else if key == Key::Char('a') {
        all_set(cs, ComponentAction::Install)
    } else {
        all_set(cs, ComponentAction::Keep)
    }
}

/// The notice after an action key of the selection screen: only a refused
/// deactivation leaves one.
pub open spec fn selection_key_notice(cs: Seq<ComponentView>, cursor: int, key: Key) -> Option<Seq<char>> {
    if key == Key::Char('d') && !can_deactivate(cs[cursor]) {
        Some(deactivation_notice())
    } else {
        None
    }
}

/// The action keys of the selection screen: `i` Install, `u` Keep,
/// `d` Deactivate, space toggle, `a` install all, `n` keep all. Tells
/// whether `key` was one of them.
pub fn handle_selection_action_key(app: &mut App, key: Key) -> (handled: bool)
    requires
        is_selection_action_key(key) && key != Key::Char('a') && key != Key::Char('n')
            ==> old(app).cursor < old(app).components@.len(),
    ensures
        handled == is_selection_action_key(key),
        handled ==> views(final(app).components@) == selection_key_components(
            views(old(app).components@),
            old(app).cursor as int,
            key,
        ) && opt_view(final(app).notice) == selection_key_notice(
            views(old(app).components@),
            old(app).cursor as int,
            key,
        ),
        !handled ==> *final(app) == *old(app),
        *final(app) == (App { components: final(app).components, notice: final(app).notice, ..*old(app) }),
{
    match key {
        Key::Char('i') => app.set_current_action(ComponentAction::Install),
        Key::Char('u') => app.set_current_action(ComponentAction::Keep),
        Key::Char('d') => app.set_current_action(ComponentAction::Deactivate),
        Key::Char(' ') => app.toggle_current(),
        Key::Char('a') => app.install_all(),
        Key::Char('n') => app.keep_all(),
        _ => return false,
    }
    true
}


/// The plan of the components is empty exactly when no component asks for
/// a mutation (so Enter on the selection screen opens no review), and it
/// installs system packages, which is when sudo is asked for, exactly when
/// some component installs system packages.
pub proof fn lemma_plan_empty(p: InstallPlan, cs: Seq<ComponentView>)
    requires
        is_plan_of(p, cs),
    ensures
        (p.system@.len() == 0 && p.mise@.len() == 0 && p.deactivate_mise@.len() == 0 && p.configs@.len() == 0)
            <==> !has_mutation(cs),
        p.system@.len() > 0 <==> has_system_install(cs),
{
    let f1 = selects(ComponentAction::Install, CategoryKind::SystemPackage);
    let f2 = selects(ComponentAction::Install, CategoryKind::Mise);
    let f3 = selects(ComponentAction::Deactivate, CategoryKind::Mise);
    let f4 = selects(ComponentAction::Install, CategoryKind::Config);
    lemma_filter_empty(cs, f1);
    lemma_filter_empty(cs, f2);
    lemma_filter_empty(cs, f3);
    lemma_filter_empty(cs, f4);
    assert(views(p.system@).len() == p.system@.len());
    assert(views(p.mise@).len() == p.mise@.len());
    assert(views(p.deactivate_mise@).len() == p.deactivate_mise@.len());
    assert(views(p.configs@).len() == p.configs@.len());
    if has_mutation(cs) {
        let i = choose|i: int| 0 <= i < cs.len() && ((#[trigger] cs[i]).action == ComponentAction::Install
            || (cs[i].action == ComponentAction::Deactivate && cs[i].category is Mise));
        assert(f1(cs[i]) || f2(cs[i]) || f3(cs[i]) || f4(cs[i]));
    }
    if !has_mutation(cs) {
        assert forall|i: int| 0 <= i < cs.len() implies !f1(#[trigger] cs[i]) && !f2(cs[i]) && !f3(cs[i]) && !f4(cs[i]) by {
            assert(!((cs[i]).action == ComponentAction::Install
                || (cs[i].action == ComponentAction::Deactivate && cs[i].category is Mise)));
        }
    }
    if has_system_install(cs) {
        let i = choose|i: int| 0 <= i < cs.len() && (#[trigger] cs[i]).action == ComponentAction::Install
            && cs[i].category is SystemPackage;
        assert(f1(cs[i]));
    }
}

/// The installer starts with every built-in component at Keep, and then
/// Enter on the selection screen finds nothing to review: nothing is
/// written without an explicit choice.
pub proof fn lemma_fresh_start_changes_nothing()
    ensures
        forall|i: int| 0 <= i < builtin_components().len() ==> (#[trigger] builtin_components()[i]).action
            == ComponentAction::Keep,
        !has_mutation(builtin_components()),
{
    let cs = builtin_components();
    assert forall|i: int| 0 <= i < cs.len() implies (#[trigger] cs[i]).action == ComponentAction::Keep by {
    }
    lemma_all_kept_no_mutation(cs);
}

/// Components that are all kept ask for no mutation.
pub proof fn lemma_all_kept_no_mutation(cs: Seq<ComponentView>)
    requires
        forall|i: int| 0 <= i < cs.len() ==> (#[trigger] cs[i]).action == ComponentAction::Keep,
    ensures
        !has_mutation(cs),
{
}

/// Only `d` makes a component Deactivate: the one under the cursor, and
/// only where mise manages it globally. No bulk key deactivates anything.
pub proof fn lemma_only_d_deactivates(cs: Seq<ComponentView>, cursor: int, key: Key)
    requires
        0 <= cursor < cs.len(),
        is_selection_action_key(key),
    ensures
        selection_key_components(cs, cursor, key).len() == cs.len(),
        forall|i: int|
            0 <= i < cs.len() && (#[trigger] selection_key_components(cs, cursor, key)[i]).action == ComponentAction::Deactivate
                && cs[i].action != ComponentAction::Deactivate ==> key == Key::Char('d') && i == cursor && can_deactivate(cs[i]),
        key == Key::Char('a') || key == Key::Char('n') ==> forall|i: int|
            0 <= i < cs.len() ==> (#[trigger] selection_key_components(cs, cursor, key)[i]).action != ComponentAction::Deactivate,
{
}

/// What each action key does to the component under the cursor: `i`
/// installs, `u` keeps, space switches Keep to Install and anything else to
/// Keep, `d` deactivates only a mise tool with globally configured versions
/// (a tool only found on PATH stays as it was); `a` installs and `n` keeps
/// every component. The other components, and every other field, stay.
pub proof fn lemma_selection_keys_set_actions(cs: Seq<ComponentView>, cursor: int, key: Key)
    requires
        0 <= cursor < cs.len(),
        is_selection_action_key(key),
    ensures
        ({
            let r = selection_key_components(cs, cursor, key);
            let c = cs[cursor];
            &&& r.len() == cs.len()
            &&& key != Key::Char('a') && key != Key::Char('n') ==> forall|i: int|
                0 <= i < cs.len() && i != cursor ==> #[trigger] r[i] == cs[i]
            &&& forall|i: int| 0 <= i < cs.len() ==> (#[trigger] r[i]) == ComponentView { action: r[i].action, ..cs[i] }
            &&& key == Key::Char('i') ==> r[cursor].action == ComponentAction::Install
            &&& key == Key::Char('u') ==> r[cursor].action == ComponentAction::Keep
            &&& key == Key::Char(' ') && c.action == ComponentAction::Keep ==> r[cursor].action == ComponentAction::Install
            &&& key == Key::Char(' ') && c.action != ComponentAction::Keep ==> r[cursor].action == ComponentAction::Keep
            &&& key == Key::Char('d') ==> (r[cursor].action == ComponentAction::Deactivate <==> (c.action
                == ComponentAction::Deactivate || (c.category is Mise && c.observed is MiseGlobal
                && c.observed->MiseGlobal_0.len() > 0)))
            &&& key == Key::Char('d') && !(c.observed is MiseGlobal) ==> r == cs
            &&& key == Key::Char('a') ==> forall|i: int| 0 <= i < cs.len() ==> (#[trigger] r[i]).action == ComponentAction::Install
            &&& key == Key::Char('n') ==> forall|i: int| 0 <= i < cs.len() ==> (#[trigger] r[i]).action == ComponentAction::Keep
        }),
        selection_key_notice(cs, cursor, key) is Some <==> (key == Key::Char('d') && !(cs[cursor].category is Mise
            && cs[cursor].observed is MiseGlobal && cs[cursor].observed->MiseGlobal_0.len() > 0)),
        key == Key::Char(' ') && cs[cursor].action != ComponentAction::Deactivate ==> selection_key_components(
            selection_key_components(cs, cursor, key), cursor, key) == cs,
{
    let r = selection_key_components(cs, cursor, key);
    if key == Key::Char(' ') && cs[cursor].action != ComponentAction::Deactivate {
        let r2 = selection_key_components(r, cursor, key);
        assert(r2 =~= cs);
    }
}

impl App {
    /// One key press, as the interactive installer handles it on the
    /// current screen. Returns the outside work the key asks for.
    pub fn handle_key(&mut self, key: Key) -> (effect: KeyEffect)
        requires
            old(self).screen == Screen::Selection && is_selection_action_key(key) && key != Key::Char('a')
                && key != Key::Char('n') ==> old(self).cursor < old(self).components@.len(),
        ensures
            effect matches KeyEffect::StartInstallation { needs_sudo } ==> {
                &&& old(self).screen == Screen::Review
                &&& key == Key::Enter
                &&& needs_sudo == has_system_install(views(old(self).components@))
            },
            ({
                let o = *old(self);
                let f = *final(self);
                let cs = views(o.components@);
                if o.screen == Screen::Selection && is_selection_action_key(key) {
                    &&& views(f.components@) == selection_key_components(cs, o.cursor as int, key)
                    &&& opt_view(f.notice) == selection_key_notice(cs, o.cursor as int, key)
                    &&& f == (App { components: f.components, notice: f.notice, ..o })
                    &&& effect == KeyEffect::Nothing
                } else if o.screen == Screen::Selection {
                    &&& effect == KeyEffect::Nothing
                    &&& if key == Key::Char('q') || key == Key::Esc {
                        f == (App { should_quit: true, ..o })
                    } else if key == Key::Up || key == Key::Char('k') {
                        f == (App { cursor: if o.cursor > 0 { (o.cursor - 1) as usize } else { 0 }, ..o })
                    } else if key == Key::Down || key == Key::Char('j') {
                        f == (App {
                            cursor: if o.cursor + 1 < o.components@.len() { (o.cursor + 1) as usize } else { o.cursor },
                            ..o
                        })
                    } else if key == Key::Char('/') {
                        &&& f.search_query@.len() == 0
                        &&& tool_views(f.search_results@) == tool_views(o.manifest_tools@)
                        &&& f == (App {
                            screen: Screen::Search,
                            search_query: f.search_query,
                            search_results: f.search_results,
                            search_cursor: 0,
                            ..o
                        })
                    } else if key == Key::Enter {
                        &&& opt_view(f.notice) == if has_mutation(cs) { None } else { Some(no_changes_notice()) }
                        &&& f == (App {
                            screen: if has_mutation(cs) { Screen::Review } else { Screen::Selection },
                            notice: f.notice,
                            ..o
                        })
                    } else {
                        f == o
                    }
                } else if o.screen == Screen::Review {
                    if key == Key::Esc {
                        f == (App { screen: Screen::Selection, ..o }) && effect == KeyEffect::Nothing
                    } else if key == Key::Enter {
                        f == o && effect == (KeyEffect::StartInstallation { needs_sudo: has_system_install(cs) })
                    } else {
                        f == o && effect == KeyEffect::Nothing
                    }
                } else if o.screen == Screen::Search {
                    if key == Key::Esc {
                        f == (App { screen: Screen::Selection, ..o }) && effect == KeyEffect::Nothing
                    } else if key == Key::Up {
                        f == (App { search_cursor: if o.search_cursor > 0 { (o.search_cursor - 1) as usize } else { 0 }, ..o })
                            && effect == KeyEffect::Nothing
                    } else if key == Key::Down {
                        f == (App {
                            search_cursor: if o.search_cursor + 1 < o.search_results@.len() {
                                (o.search_cursor + 1) as usize
                            } else {
                                o.search_cursor
                            },
                            ..o
                        }) && effect == KeyEffect::Nothing
                    } else if key == Key::Enter {
                        &&& f.screen == Screen::Selection
                        &&& added_from_search(
                            o,
                            App { screen: o.screen, ..f },
                            match effect {
                                KeyEffect::ObserveComponent(i) => Some(i),
                                _ => None,
                            },
                        )
                        &&& effect == match (o.search_cursor < o.search_results@.len() && !exists|i: int|
                            is_first_mise(cs, o.search_results@[o.search_cursor as int]@.mise_id, i)) {
                            true => KeyEffect::ObserveComponent(cs.len() as usize),
                            false => KeyEffect::Nothing,
                        }
                    } else if key == Key::Backspace || key matches Key::Char(_) {
                        let q = match key {
                            Key::Char(c) => o.search_query@.push(c),
                            _ => if o.search_query@.len() > 0 { o.search_query@.drop_last() } else { o.search_query@ },
                        };
                        &&& f.search_query@ == q
                        &&& tool_views(f.search_results@) == search_result(tool_views(o.manifest_tools@), q)
                        &&& f == (App {
                            search_query: f.search_query,
                            search_results: f.search_results,
                            search_cursor: 0,
                            ..o
                        })
                        &&& effect == KeyEffect::Nothing
                    } else {
                        f == o && effect == KeyEffect::Nothing
                    }
                } else if o.screen == Screen::Report {
                    &&& effect == KeyEffect::Nothing
                    &&& if key == Key::Char('q') || key == Key::Esc || key == Key::Enter {
                        f == (App { should_quit: true, ..o })
                    } else {
                        f == o
                    }
                } else {
                    f == o && effect == KeyEffect::Nothing
                }
            }),
    {
        if self.screen == Screen::Selection && handle_selection_action_key(self, key) {
            return KeyEffect::Nothing;
        }
        match self.screen {
            Screen::Selection => {
                match key {
                    Key::Char('q') | Key::Esc => self.should_quit = true,
                    Key::Up | Key::Char('k') => self.previous(),
                    Key::Down | Key::Char('j') => self.next(),
                    Key::Char('/') => {
                        self.search_query = String::new();
                        self.update_search();
                        self.screen = Screen::Search;
                    },
                    Key::Enter => {
                        let plan = InstallPlan::from_components(self.components.as_slice());
                        proof {
                            lemma_plan_empty(plan, views(self.components@));
                        }
                        if plan.is_empty() {
                            self.notice = Some(owned("No changes selected."));
                        } else {
                            self.notice = None;
                            self.screen = Screen::Review;
                        }
                    },
                    _ => {},
                }
                KeyEffect::Nothing
            },
            Screen::Review => {
                match key {
                    Key::Esc => {
                        self.screen = Screen::Selection;
                        KeyEffect::Nothing
                    },
                    Key::Enter => {
                        let plan = InstallPlan::from_components(self.components.as_slice());
                        proof {
                            lemma_plan_empty(plan, views(self.components@));
                        }
                        KeyEffect::StartInstallation { needs_sudo: plan.needs_sudo() }
                    },
                    _ => KeyEffect::Nothing,
                }
            },
            Screen::Search => {
                match key {
                    Key::Esc => {
                        self.screen = Screen::Selection;
                        KeyEffect::Nothing
                    },
                    Key::Up => {
                        self.search_previous();
                        KeyEffect::Nothing
                    },
                    Key::Down => {
                        self.search_next();
                        KeyEffect::Nothing
                    },
                    Key::Enter => {
                        let added = self.add_search_result();
                        self.screen = Screen::Selection;
                        match added {
                            Some(index) => KeyEffect::ObserveComponent(index),
                            None => KeyEffect::Nothing,
                        }
                    },
                    Key::Backspace => {
                        string_pop(&mut self.search_query);
                        self.update_search();
                        KeyEffect::Nothing
                    },
                    Key::Char(c) => {
                        string_push(&mut self.search_query, c);
                        self.update_search();
                        KeyEffect::Nothing
                    },
                    _ => KeyEffect::Nothing,
                }
            },
            Screen::Report => {
                match key {
                    Key::Char('q') | Key::Esc | Key::Enter => self.should_quit = true,
                    _ => {},
                }
                KeyEffect::Nothing
            },
            Screen::Installing => KeyEffect::Nothing,
        }
    }
}

} // verus!
