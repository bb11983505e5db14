//! The components that the installer knows, the action chosen for each, and
//! the plan that groups the chosen mutations into installation phases.
use vstd::prelude::*;
use crate::text::{clone_strings, clone_opt_string, concat_str, join, join_strings, owned, str_eq};

verus! {

// ---------------------------------------------------------------------------
// Types
// ---------------------------------------------------------------------------

#[derive(Debug, Clone, Copy, PartialEq, Eq, Structural)]
pub enum Group {
    System,
    Shells,
    Editor,
    Languages,
    CliTools,
    Configurations,
    ExtraTools,
}

/// How a component is installed.
#[derive(Debug, Clone, PartialEq, Eq)]
pub enum Category {
    /// A tool managed by mise; the text is the mise tool name.
    Mise(String),
    /// Packages of the system package manager.
    SystemPackage,
    /// A configuration file or directory.
    Config,
}

/// The variant of a [`Category`], without its data.
#[derive(Debug, Clone, Copy, PartialEq, Eq, Structural)]
pub enum CategoryKind {
    Mise,
    SystemPackage,
    Config,
}

/// What was found on the machine for a component before any change.
#[derive(Debug, Clone, PartialEq, Eq)]
pub enum ObservedState {
    Unknown,
    Missing,
    PathDetected(String),
    ExistingConfig,
    MiseGlobal { versions: Vec<String> },
}

#[derive(Debug, Clone, Copy, PartialEq, Eq, Structural)]
pub enum ComponentAction {
    Keep,
    Install,
    Deactivate,
}

#[derive(Debug, Clone, PartialEq, Eq)]
pub enum ComponentOutcome {
    Pending,
    Succeeded,
    Failed(String),
    AlreadyConfigured,
    Deactivated,
    Kept,
}

#[derive(Debug, Clone)]
pub struct Component {
    pub id: String,
    pub name: String,
    pub description: String,
    pub category: Category,
    pub group: Group,
    pub check_command: Option<String>,
    pub check_args: Vec<String>,
    pub mise_version: Option<String>,
    pub action: ComponentAction,
    pub observed: ObservedState,
}

// ---------------------------------------------------------------------------
// Views
// ---------------------------------------------------------------------------

#[verifier::ext_equal]
pub enum CategoryView {
    Mise(Seq<char>),
    SystemPackage,
    Config,
}

#[verifier::ext_equal]
pub enum ObservedView {
    Unknown,
    Missing,
    PathDetected(Seq<char>),
    ExistingConfig,
    MiseGlobal(Seq<Seq<char>>),
}

pub enum OutcomeView {
    Pending,
    Succeeded,
    Failed(Seq<char>),
    AlreadyConfigured,
    Deactivated,
    Kept,
}

#[verifier::ext_equal]
pub struct ComponentView {
    pub id: Seq<char>,
    pub name: Seq<char>,
    pub description: Seq<char>,
    pub category: CategoryView,
    pub group: Group,
    pub check_command: Option<Seq<char>>,
    pub check_args: Seq<Seq<char>>,
    pub mise_version: Option<Seq<char>>,
    pub action: ComponentAction,
    pub observed: ObservedView,
}

impl View for Category {
    type V = CategoryView;

    open spec fn view(&self) -> CategoryView {
        match self {
            Category::Mise(t) => CategoryView::Mise(t@),
            Category::SystemPackage => CategoryView::SystemPackage,
            Category::Config => CategoryView::Config,
        }
    }
}

impl View for ObservedState {
    type V = ObservedView;

    open spec fn view(&self) -> ObservedView {
        match self {
            ObservedState::Unknown => ObservedView::Unknown,
            ObservedState::Missing => ObservedView::Missing,
            ObservedState::PathDetected(v) => ObservedView::PathDetected(v@),
            ObservedState::ExistingConfig => ObservedView::ExistingConfig,
            ObservedState::MiseGlobal { versions } => ObservedView::MiseGlobal(versions.deep_view()),
        }
    }
}

impl DeepView for ObservedState {
    type V = ObservedView;

    open spec fn deep_view(&self) -> ObservedView {
        self@
    }
}

impl View for ComponentOutcome {
    type V = OutcomeView;

    open spec fn view(&self) -> OutcomeView {
        match self {
            ComponentOutcome::Pending => OutcomeView::Pending,
            ComponentOutcome::Succeeded => OutcomeView::Succeeded,
            ComponentOutcome::Failed(e) => OutcomeView::Failed(e@),
            ComponentOutcome::AlreadyConfigured => OutcomeView::AlreadyConfigured,
            ComponentOutcome::Deactivated => OutcomeView::Deactivated,
            ComponentOutcome::Kept => OutcomeView::Kept,
        }
    }
}

impl DeepView for ComponentOutcome {
    type V = OutcomeView;

    open spec fn deep_view(&self) -> OutcomeView {
        self@
    }
}

impl View for Component {
    type V = ComponentView;

    open spec fn view(&self) -> ComponentView {
        ComponentView {
            id: self.id@,
            name: self.name@,
            description: self.description@,
            category: self.category@,
            group: self.group,
            check_command: self.check_command.deep_view(),
            check_args: self.check_args.deep_view(),
            mise_version: self.mise_version.deep_view(),
            action: self.action,
            observed: self.observed@,
        }
    }
}

impl DeepView for Component {
    type V = ComponentView;

    open spec fn deep_view(&self) -> ComponentView {
        self@
    }
}

pub open spec fn kind_of(c: CategoryView) -> CategoryKind {
    match c {
        CategoryView::Mise(_) => CategoryKind::Mise,
        CategoryView::SystemPackage => CategoryKind::SystemPackage,
        CategoryView::Config => CategoryKind::Config,
    }
}

// ---------------------------------------------------------------------------
// Copies
// ---------------------------------------------------------------------------

impl Category {
    pub fn kind(&self) -> (k: CategoryKind)
        ensures
            k == kind_of(self@),
    {
        match self {
            Category::Mise(_) => CategoryKind::Mise,
            Category::SystemPackage => CategoryKind::SystemPackage,
            Category::Config => CategoryKind::Config,
        }
    }

    pub fn duplicate(&self) -> (r: Category)
        ensures
            r@ == self@,
    {
        match self {
            Category::Mise(t) => Category::Mise(t.clone()),
            Category::SystemPackage => Category::SystemPackage,
            Category::Config => Category::Config,
        }
    }
}

impl ObservedState {
    pub fn duplicate(&self) -> (r: ObservedState)
        ensures
            r@ == self@,
    {
        match self {
            ObservedState::Unknown => ObservedState::Unknown,
            ObservedState::Missing => ObservedState::Missing,
            ObservedState::PathDetected(v) => ObservedState::PathDetected(v.clone()),
            ObservedState::ExistingConfig => ObservedState::ExistingConfig,
            ObservedState::MiseGlobal { versions } => ObservedState::MiseGlobal {
                versions: clone_strings(versions),
            },
        }
    }
}

impl ComponentOutcome {
    pub fn duplicate(&self) -> (r: ComponentOutcome)
        ensures
            r@ == self@,
    {
        match self {
            ComponentOutcome::Pending => ComponentOutcome::Pending,
            ComponentOutcome::Succeeded => ComponentOutcome::Succeeded,
            ComponentOutcome::Failed(e) => ComponentOutcome::Failed(e.clone()),
            ComponentOutcome::AlreadyConfigured => ComponentOutcome::AlreadyConfigured,
            ComponentOutcome::Deactivated => ComponentOutcome::Deactivated,
            ComponentOutcome::Kept => ComponentOutcome::Kept,
        }
    }
}


// ---------------------------------------------------------------------------
// Groups and components
// ---------------------------------------------------------------------------

pub open spec fn group_label(g: Group) -> Seq<char> {
    match g {
        Group::System => "🖥️  System"@,
        Group::Shells => "🐚  Shells"@,
        Group::Editor => "✏️  Editor"@,
        Group::Languages => "🛠️  Languages"@,
        Group::CliTools => "🔧  CLI Tools"@,
        Group::Configurations => "⚙️  Configurations"@,
        Group::ExtraTools => "📦  Extra Tools"@,
    }
}

impl Group {
    /// The section heading of the group in the selection list.
    pub fn label(&self) -> (r: &'static str)
        ensures
            r@ == group_label(*self),
    {
        match self {
            Group::System => "🖥️  System",
            Group::Shells => "🐚  Shells",
            Group::Editor => "✏️  Editor",
            Group::Languages => "🛠️  Languages",
            Group::CliTools => "🔧  CLI Tools",
            Group::Configurations => "⚙️  Configurations",
            Group::ExtraTools => "📦  Extra Tools",
        }
    }
}

pub open spec fn opt_str_view(o: Option<&str>) -> Option<Seq<char>> {
    match o {
        Some(s) => Some(s@),
        None => None,
    }
}

pub open spec fn strs_view(v: Seq<&str>) -> Seq<Seq<char>> {
    v.map_values(|s: &str| s@)
}

/// A component as `Component::new` makes it: kept, unobserved, with no
/// pinned version.
pub open spec fn fresh_component(
    id: Seq<char>,
    name: Seq<char>,
    description: Seq<char>,
    category: CategoryView,
    group: Group,
    check_command: Option<Seq<char>>,
    check_args: Seq<Seq<char>>,
) -> ComponentView {
    ComponentView {
        id,
        name,
        description,
        category,
        group,
        check_command,
        check_args,
        mise_version: None,
        action: ComponentAction::Keep,
        observed: ObservedView::Unknown,
    }
}

/// A component may be deactivated when it is a mise tool that mise manages
/// globally in at least one version.
pub open spec fn can_deactivate(c: ComponentView) -> bool {
    &&& c.category is Mise
    &&& c.observed matches ObservedView::MiseGlobal(versions) && versions.len() > 0
}

/// What the details pane and the review call the chosen action.
pub open spec fn action_label(c: ComponentView) -> Seq<char> {
    match c.action {
        ComponentAction::Keep => "Keep"@,
        ComponentAction::Deactivate => "Deactivate"@,
        ComponentAction::Install => if c.category is Mise && c.observed is MiseGlobal {
            "Update to latest"@
        } else if c.category is Config && c.observed is ExistingConfig {
            "Reinstall"@
        } else {
            "Install"@
        },
    }
}

/// Install reads as what it will do: an update to latest for a tool that
/// mise manages globally, a reinstall for a configuration that is in place,
/// a plain install otherwise; Keep and Deactivate read as themselves.
pub proof fn lemma_action_labels(c: ComponentView)
    ensures
        c.action == ComponentAction::Keep ==> action_label(c) == "Keep"@,
        c.action == ComponentAction::Deactivate ==> action_label(c) == "Deactivate"@,
        c.action == ComponentAction::Install && c.category is Mise && c.observed is MiseGlobal ==> action_label(c)
            == "Update to latest"@,
        c.action == ComponentAction::Install && c.category is Config && c.observed is ExistingConfig ==> action_label(c)
            == "Reinstall"@,
        c.action == ComponentAction::Install && (c.observed is Missing || c.observed is Unknown
            || c.observed is PathDetected) ==> action_label(c) == "Install"@,
{
}

/// How the observed state reads in the details pane and the review.
pub open spec fn observed_label(o: ObservedView) -> Seq<char> {
    match o {
        ObservedView::Unknown => "Unknown"@,
        ObservedView::Missing => "Not detected"@,
        ObservedView::PathDetected(v) => "Detected on PATH ("@ + v + ")"@,
        ObservedView::ExistingConfig => "Existing configuration"@,
        ObservedView::MiseGlobal(vs) => "Globally managed by mise ("@ + join(vs, ", "@) + ")"@,
    }
}

pub open spec fn toggled(a: ComponentAction) -> ComponentAction {
    match a {
        ComponentAction::Keep => ComponentAction::Install,
        _ => ComponentAction::Keep,
    }
}

pub open spec fn with_action(c: ComponentView, a: ComponentAction) -> ComponentView {
    ComponentView { action: a, ..c }
}

fn strings_of(v: &[&str]) -> (r: Vec<String>)
    ensures
        r.deep_view() == strs_view(v@),
{
    let mut r: Vec<String> = Vec::new();
    let mut i: usize = 0;
    while i < v.len()
        invariant
            i <= v.len(),
            r.deep_view() =~= strs_view(v@).take(i as int),
        decreases v.len() - i,
    {
        let ghost before = r.deep_view();
        r.push(owned(v[i]));
        assert(r.deep_view() =~= before.push(v@[i as int]@));
        i = i + 1;
    }
    assert(strs_view(v@).take(v.len() as int) =~= strs_view(v@));
    r
}

impl Component {
    pub fn new(
        id: &str,
        name: &str,
        description: &str,
        category: Category,
        group: Group,
        check_command: Option<&str>,
        check_args: &[&str],
    ) -> (c: Self)
        ensures
            c@ == fresh_component(
                id@,
                name@,
                description@,
                category@,
                group,
                opt_str_view(check_command),
                strs_view(check_args@),
            ),
    {
        let check_command = match check_command {
            Some(s) => Some(owned(s)),
            None => None,
        };
        Component {
            id: owned(id),
            name: owned(name),
            description: owned(description),
            category,
            group,
            check_command,
            check_args: strings_of(check_args),
            mise_version: None,
            action: ComponentAction::Keep,
            observed: ObservedState::Unknown,
        }
    }

    /// A copy with the same view.
    pub fn duplicate(&self) -> (r: Component)
        ensures
            r@ == self@,
    {
        Component {
            id: self.id.clone(),
            name: self.name.clone(),
            description: self.description.clone(),
            category: self.category.duplicate(),
            group: self.group,
            check_command: clone_opt_string(&self.check_command),
            check_args: clone_strings(&self.check_args),
            mise_version: clone_opt_string(&self.mise_version),
            action: self.action,
            observed: self.observed.duplicate(),
        }
    }

    pub fn can_deactivate(&self) -> (b: bool)
        ensures
            b == can_deactivate(self@),
    {
        match (&self.category, &self.observed) {
            (Category::Mise(_), ObservedState::MiseGlobal { versions }) => versions.len() > 0,
            _ => false,
        }
    }

    /// Chooses `action`, unless it is a deactivation that the component
    /// does not allow; tells whether the choice was taken.
    pub fn set_action(&mut self, action: ComponentAction) -> (taken: bool)
        ensures
            taken == (action != ComponentAction::Deactivate || can_deactivate(old(self)@)),
            final(self)@ == if taken {
                with_action(old(self)@, action)
            } else {
                old(self)@
            },
    {
        if action == ComponentAction::Deactivate && !self.can_deactivate() {
            return false;
        }
        self.action = action;
        true
    }

    /// Keep becomes Install; Install and Deactivate become Keep.
    pub fn toggle_install(&mut self)
        ensures
            final(self)@ == with_action(old(self)@, toggled(old(self).action)),
    {
        self.action = match self.action {
            ComponentAction::Keep => ComponentAction::Install,
            ComponentAction::Install | ComponentAction::Deactivate => ComponentAction::Keep,
        };
    }

    pub fn action_label(&self) -> (r: &'static str)
        ensures
            r@ == action_label(self@),
    {
        match self.action {
            ComponentAction::Keep => "Keep",
            ComponentAction::Deactivate => "Deactivate",
            ComponentAction::Install => match (&self.category, &self.observed) {
                (Category::Mise(_), ObservedState::MiseGlobal { .. }) => "Update to latest",
                (Category::Config, ObservedState::ExistingConfig) => "Reinstall",
                _ => "Install",
            },
        }
    }

    pub fn observed_label(&self) -> (r: String)
        ensures
            r@ == observed_label(self.observed@),
    {
        match &self.observed {
            ObservedState::Unknown => owned("Unknown"),
            ObservedState::Missing => owned("Not detected"),
            ObservedState::PathDetected(version) => {
                let mut r = concat_str("Detected on PATH (", version.as_str());
                r.append(")");
                r
            },
            ObservedState::ExistingConfig => owned("Existing configuration"),
            ObservedState::MiseGlobal { versions } => {
                let joined = join_strings(versions, ", ");
                let mut r = concat_str("Globally managed by mise (", joined.as_str());
                r.append(")");
                r
            },
        }
    }
}


// ---------------------------------------------------------------------------
// Installation plan
// ---------------------------------------------------------------------------

pub open spec fn views(s: Seq<Component>) -> Seq<ComponentView> {
    s.map_values(|c: Component| c@)
}

/// Components that carry `action` and whose category is of `kind`.
pub open spec fn selects(action: ComponentAction, kind: CategoryKind) -> spec_fn(ComponentView) -> bool {
    |c: ComponentView| c.action == action && kind_of(c.category) == kind
}

pub open spec fn is_kept() -> spec_fn(ComponentView) -> bool {
    |c: ComponentView| c.action == ComponentAction::Keep
}

pub open spec fn is_shell_config_id(id: Seq<char>) -> bool {
    id == "config-bash"@ || id == "config-fish"@
}

pub open spec fn replaces_nvim(c: ComponentView) -> bool {
    c.id == "config-nvim"@ && c.observed is ExistingConfig
}

/// The mutations that the chosen actions ask for, grouped by installation
/// phase, and how many components are kept.
#[derive(Debug)]
pub struct InstallPlan {
    pub system: Vec<Component>,
    pub mise: Vec<Component>,
    pub deactivate_mise: Vec<Component>,
    pub configs: Vec<Component>,
    pub kept_count: usize,
}

/// The plan of `cs`: each phase holds, in order, the components whose action
/// and category belong to it.
pub open spec fn is_plan_of(p: InstallPlan, cs: Seq<ComponentView>) -> bool {
    &&& views(p.system@) == cs.filter(selects(ComponentAction::Install, CategoryKind::SystemPackage))
    &&& views(p.mise@) == cs.filter(selects(ComponentAction::Install, CategoryKind::Mise))
    &&& views(p.deactivate_mise@) == cs.filter(selects(ComponentAction::Deactivate, CategoryKind::Mise))
    &&& views(p.configs@) == cs.filter(selects(ComponentAction::Install, CategoryKind::Config))
    &&& p.kept_count == cs.filter(is_kept()).len()
}

proof fn lemma_views_step(s: Seq<Component>, i: int)
    requires
        0 <= i < s.len(),
    ensures
        views(s).take(i + 1).drop_last() == views(s).take(i),
        views(s).take(i + 1).last() == s[i]@,
{
    assert(views(s).take(i + 1).drop_last() =~= views(s).take(i));
}

fn collect_components(components: &[Component], action: ComponentAction, kind: CategoryKind) -> (r: Vec<Component>)
    ensures
        views(r@) == views(components@).filter(selects(action, kind)),
{
    let ghost cs = views(components@);
    let ghost pred = selects(action, kind);
    let mut r: Vec<Component> = Vec::new();
    let mut i: usize = 0;
    proof {
        reveal(Seq::filter);
        assert(cs.take(0) =~= Seq::<ComponentView>::empty());
        assert(views(r@) =~= cs.take(0).filter(pred));
    }
    while i < components.len()
        invariant
            i <= components.len(),
            cs == views(components@),
            pred == selects(action, kind),
            views(r@) == cs.take(i as int).filter(pred),
        decreases components.len() - i,
    {
        let c = &components[i];
        let ghost before = views(r@);
        proof {
            reveal(Seq::filter);
            lemma_views_step(components@, i as int);
        }
        if c.action == action && c.category.kind() == kind {
            r.push(c.duplicate());
            assert(views(r@) =~= before.push(c@));
        }
        i = i + 1;
    }
    assert(cs.take(components.len() as int) =~= cs);
    r
}

fn count_kept(components: &[Component]) -> (n: usize)
    ensures
        n == views(components@).filter(is_kept()).len(),
{
    let ghost cs = views(components@);
    let mut n: usize = 0;
    let mut i: usize = 0;
    proof {
        reveal(Seq::filter);
        assert(cs.take(0) =~= Seq::<ComponentView>::empty());
    }
    while i < components.len()
        invariant
            i <= components.len(),
            cs == views(components@),
            n == cs.take(i as int).filter(is_kept()).len(),
            n <= i,
        decreases components.len() - i,
    {
        proof {
            reveal(Seq::filter);
            lemma_views_step(components@, i as int);
        }
        if components[i].action == ComponentAction::Keep {
            n = n + 1;
        }
        i = i + 1;
    }
    assert(cs.take(components.len() as int) =~= cs);
    n
}

fn any_shell_config(configs: &Vec<Component>) -> (b: bool)
    ensures
        b == exists|i: int| 0 <= i < configs@.len() && is_shell_config_id(#[trigger] configs@[i].id@),
{
    let mut i: usize = 0;
    while i < configs.len()
        invariant
            i <= configs.len(),
            forall|k: int| 0 <= k < i ==> !is_shell_config_id(#[trigger] configs@[k].id@),
        decreases configs.len() - i,
    {
        let id = configs[i].id.as_str();
        if str_eq(id, "config-bash") || str_eq(id, "config-fish") {
            return true;
        }
        i = i + 1;
    }
    false
}

fn any_nvim_replacement(configs: &Vec<Component>) -> (b: bool)
    ensures
        b == exists|i: int| 0 <= i < configs@.len() && replaces_nvim(#[trigger] configs@[i]@),
{
    let mut i: usize = 0;
    while i < configs.len()
        invariant
            i <= configs.len(),
            forall|k: int| 0 <= k < i ==> !replaces_nvim(#[trigger] configs@[k]@),
        decreases configs.len() - i,
    {
        let existing = match &configs[i].observed {
            ObservedState::ExistingConfig => true,
            _ => false,
        };
        if str_eq(configs[i].id.as_str(), "config-nvim") && existing {
            assert(replaces_nvim(configs@[i as int]@));
            return true;
        }
        i = i + 1;
    }
    false
}

/// Every component is either kept or in exactly one phase of its plan, as
/// long as only mise tools are set to Deactivate (the only ones that can
/// be).
pub proof fn lemma_plan_covers_every_component(cs: Seq<ComponentView>)
    requires
        forall|i: int| 0 <= i < cs.len() && (#[trigger] cs[i]).action == ComponentAction::Deactivate ==> cs[i].category is Mise,
    ensures
        cs.filter(selects(ComponentAction::Install, CategoryKind::SystemPackage)).len()
            + cs.filter(selects(ComponentAction::Install, CategoryKind::Mise)).len()
            + cs.filter(selects(ComponentAction::Deactivate, CategoryKind::Mise)).len()
            + cs.filter(selects(ComponentAction::Install, CategoryKind::Config)).len()
            + cs.filter(is_kept()).len() == cs.len(),
    decreases cs.len(),
{
    reveal(Seq::filter);
    if cs.len() > 0 {
        let d = cs.drop_last();
        assert forall|i: int| 0 <= i < d.len() && (#[trigger] d[i]).action == ComponentAction::Deactivate implies d[i].category is Mise by {
            assert(d[i] == cs[i]);
        }
        lemma_plan_covers_every_component(d);
        let c = cs.last();
        assert(c == cs[cs.len() - 1]);
    }
}

impl InstallPlan {
    pub fn from_components(components: &[Component]) -> (p: Self)
        ensures
            is_plan_of(p, views(components@)),
    {
        InstallPlan {
            system: collect_components(components, ComponentAction::Install, CategoryKind::SystemPackage),
            mise: collect_components(components, ComponentAction::Install, CategoryKind::Mise),
            deactivate_mise: collect_components(components, ComponentAction::Deactivate, CategoryKind::Mise),
            configs: collect_components(components, ComponentAction::Install, CategoryKind::Config),
            kept_count: count_kept(components),
        }
    }

    /// No phase holds a component.
    pub fn is_empty(&self) -> (b: bool)
        ensures
            b == (self.system@.len() == 0 && self.mise@.len() == 0 && self.deactivate_mise@.len() == 0
                && self.configs@.len() == 0),
    {
        self.system.is_empty() && self.mise.is_empty() && self.deactivate_mise.is_empty()
            && self.configs.is_empty()
    }

    pub fn mutation_count(&self) -> (n: usize)
        requires
            self.system@.len() + self.mise@.len() + self.deactivate_mise@.len() + self.configs@.len()
                <= usize::MAX,
        ensures
            n == self.system@.len() + self.mise@.len() + self.deactivate_mise@.len() + self.configs@.len(),
    {
        self.system.len() + self.mise.len() + self.deactivate_mise.len() + self.configs.len()
    }

    /// Elevated privileges are needed exactly when system packages are installed.
    pub fn needs_sudo(&self) -> (b: bool)
        ensures
            b == (self.system@.len() > 0),
    {
        !self.system.is_empty()
    }

    /// Mise has to be present when a mise tool is installed or a shell
    /// configuration that activates mise is written.
    pub fn needs_mise_install(&self) -> (b: bool)
        ensures
            b == (self.mise@.len() > 0 || exists|i: int|
                0 <= i < self.configs@.len() && is_shell_config_id(#[trigger] self.configs@[i].id@)),
    {
        !self.mise.is_empty() || any_shell_config(&self.configs)
    }

    /// The Neovim configuration is reinstalled over one that exists.
    pub fn replaces_existing_nvim_config(&self) -> (b: bool)
        ensures
            b == exists|i: int| 0 <= i < self.configs@.len() && replaces_nvim(#[trigger] self.configs@[i]@),
    {
        any_nvim_replacement(&self.configs)
    }
}


/// The plan of a component list replaces an existing Neovim configuration
/// exactly when the list asks to install the Neovim configuration component
/// over a configuration that is already there.
pub proof fn lemma_plan_finds_nvim_replacement(p: InstallPlan, cs: Seq<ComponentView>)
    requires
        is_plan_of(p, cs),
    ensures
        (exists|i: int| 0 <= i < p.configs@.len() && (#[trigger] p.configs@[i]@).id == "config-nvim"@
            && p.configs@[i]@.observed is ExistingConfig) <==> (exists|j: int| 0 <= j < cs.len()
            && (#[trigger] cs[j]).id == "config-nvim"@ && cs[j].observed is ExistingConfig
            && cs[j].action == ComponentAction::Install && cs[j].category == CategoryView::Config),
{
    let pred = selects(ComponentAction::Install, CategoryKind::Config);
    let f = cs.filter(pred);
    assert(views(p.configs@) == f);
    assert(views(p.configs@).len() == p.configs@.len());
    if exists|i: int| 0 <= i < p.configs@.len() && (#[trigger] p.configs@[i]@).id == "config-nvim"@
        && p.configs@[i]@.observed is ExistingConfig {
        let i = choose|i: int| 0 <= i < p.configs@.len() && (#[trigger] p.configs@[i]@).id == "config-nvim"@
            && p.configs@[i]@.observed is ExistingConfig;
        assert(f[i] == p.configs@[i]@);
        cs.lemma_filter_pred(pred, i);
        assert(f.contains(f[i]));
        cs.lemma_filter_contains_rev(pred, f[i]);
        let j = choose|j: int| 0 <= j < cs.len() && cs[j] == f[i];
        assert(kind_of(cs[j].category) == CategoryKind::Config);
        assert(cs[j].id == "config-nvim"@);
    }
    if exists|j: int| 0 <= j < cs.len()
        && (#[trigger] cs[j]).id == "config-nvim"@ && cs[j].observed is ExistingConfig
        && cs[j].action == ComponentAction::Install && cs[j].category == CategoryView::Config {
        let j = choose|j: int| 0 <= j < cs.len()
            && (#[trigger] cs[j]).id == "config-nvim"@ && cs[j].observed is ExistingConfig
            && cs[j].action == ComponentAction::Install && cs[j].category == CategoryView::Config;
        assert(pred(cs[j]));
        cs.lemma_filter_contains(pred, j);
        let i = choose|i: int| 0 <= i < f.len() && f[i] == cs[j];
        assert(p.configs@[i]@ == views(p.configs@)[i]);
    }
}


// ---------------------------------------------------------------------------
// Built-in components
// ---------------------------------------------------------------------------

/// The curated components, in the order the selection list shows them.
pub open spec fn builtin_components() -> Seq<ComponentView> {
    seq![
        fresh_component("base-deps"@, "Base Dependencies"@, "Compilers, curl, git, tar, unzip"@, CategoryView::SystemPackage, Group::System, None, seq![]),
        fresh_component("fish"@, "Fish Shell"@, "The user-friendly command line shell"@, CategoryView::Mise("aqua:fish-shell/fish-shell"@), Group::Shells, Some("fish"@), seq!["--version"@]),
        fresh_component("neovim"@, "Neovim"@, "Vim-fork focused on extensibility"@, CategoryView::Mise("neovim"@), Group::Editor, Some("nvim"@), seq!["--version"@]),
        fresh_component("rust"@, "Rust"@, "Rust programming language"@, CategoryView::Mise("rust"@), Group::Languages, Some("rustc"@), seq!["--version"@]),
        fresh_component("node"@, "Node.js"@, "JavaScript runtime"@, CategoryView::Mise("node"@), Group::Languages, Some("node"@), seq!["--version"@]),
        fresh_component("go"@, "Go"@, "Go programming language"@, CategoryView::Mise("go"@), Group::Languages, Some("go"@), seq!["version"@]),
        fresh_component("python"@, "Python (uv)"@, "Python toolchain via uv"@, CategoryView::Mise("uv"@), Group::Languages, Some("uv"@), seq!["--version"@]),
        fresh_component("fzf"@, "fzf"@, "Command-line fuzzy finder"@, CategoryView::Mise("fzf"@), Group::CliTools, Some("fzf"@), seq!["--version"@]),
        fresh_component("ripgrep"@, "ripgrep (rg)"@, "Line-oriented search tool"@, CategoryView::Mise("rg"@), Group::CliTools, Some("rg"@), seq!["--version"@]),
        fresh_component("fd"@, "fd"@, "Simple, fast alternative to find"@, CategoryView::Mise("fd"@), Group::CliTools, Some("fd"@), seq!["--version"@]),
        fresh_component("bat"@, "bat"@, "A cat(1) clone with wings"@, CategoryView::Mise("bat"@), Group::CliTools, Some("bat"@), seq!["--version"@]),
        fresh_component("eza"@, "eza"@, "Modern, maintained replacement for ls"@, CategoryView::Mise("eza"@), Group::CliTools, Some("eza"@), seq!["--version"@]),
        fresh_component("glow"@, "glow"@, "Terminal based markdown reader"@, CategoryView::Mise("glow"@), Group::CliTools, Some("glow"@), seq!["--version"@]),
        fresh_component("jaq"@, "jaq"@, "A jq clone focused on correctness and speed"@, CategoryView::Mise("jaq"@), Group::CliTools, Some("jaq"@), seq!["--version"@]),
        fresh_component("zellij"@, "Zellij"@, "A terminal workspace with batteries included"@, CategoryView::Mise("zellij"@), Group::CliTools, Some("zellij"@), seq!["--version"@]),
        fresh_component("config-bash"@, "Bash Configuration"@, "Adds mise activation to ~/.bashrc"@, CategoryView::Config, Group::Configurations, None, seq![]),
        fresh_component("config-fish"@, "Fish Configuration"@, "Aliases, colors, mise paths"@, CategoryView::Config, Group::Configurations, None, seq![]),
        fresh_component("config-nvim"@, "LazyVim Setup"@, "LazyVim starter + OSC52 clipboard"@, CategoryView::Config, Group::Configurations, None, seq![]),
    ]
}

pub fn get_all_components() -> (v: Vec<Component>)
    ensures
        views(v@) == builtin_components(),
{
    let mut v: Vec<Component> = Vec::new();
    let c = Component::new("base-deps", "Base Dependencies", "Compilers, curl, git, tar, unzip", Category::SystemPackage, Group::System, None, &[]);
    assert(c@ =~~= fresh_component("base-deps"@, "Base Dependencies"@, "Compilers, curl, git, tar, unzip"@, CategoryView::SystemPackage, Group::System, None, seq![]));
    v.push(c);
    let c = Component::new("fish", "Fish Shell", "The user-friendly command line shell", Category::Mise(owned("aqua:fish-shell/fish-shell")), Group::Shells, Some("fish"), &["--version"]);
    assert(c@ =~~= fresh_component("fish"@, "Fish Shell"@, "The user-friendly command line shell"@, CategoryView::Mise("aqua:fish-shell/fish-shell"@), Group::Shells, Some("fish"@), seq!["--version"@]));
    v.push(c);
    let c = Component::new("neovim", "Neovim", "Vim-fork focused on extensibility", Category::Mise(owned("neovim")), Group::Editor, Some("nvim"), &["--version"]);
    assert(c@ =~~= fresh_component("neovim"@, "Neovim"@, "Vim-fork focused on extensibility"@, CategoryView::Mise("neovim"@), Group::Editor, Some("nvim"@), seq!["--version"@]));
    v.push(c);
    let c = Component::new("rust", "Rust", "Rust programming language", Category::Mise(owned("rust")), Group::Languages, Some("rustc"), &["--version"]);
    assert(c@ =~~= fresh_component("rust"@, "Rust"@, "Rust programming language"@, CategoryView::Mise("rust"@), Group::Languages, Some("rustc"@), seq!["--version"@]));
    v.push(c);
    let c = Component::new("node", "Node.js", "JavaScript runtime", Category::Mise(owned("node")), Group::Languages, Some("node"), &["--version"]);
    assert(c@ =~~= fresh_component("node"@, "Node.js"@, "JavaScript runtime"@, CategoryView::Mise("node"@), Group::Languages, Some("node"@), seq!["--version"@]));
    v.push(c);
    let c = Component::new("go", "Go", "Go programming language", Category::Mise(owned("go")), Group::Languages, Some("go"), &["version"]);
    assert(c@ =~~= fresh_component("go"@, "Go"@, "Go programming language"@, CategoryView::Mise("go"@), Group::Languages, Some("go"@), seq!["version"@]));
    v.push(c);
    let c = Component::new("python", "Python (uv)", "Python toolchain via uv", Category::Mise(owned("uv")), Group::Languages, Some("uv"), &["--version"]);
    assert(c@ =~~= fresh_component("python"@, "Python (uv)"@, "Python toolchain via uv"@, CategoryView::Mise("uv"@), Group::Languages, Some("uv"@), seq!["--version"@]));
    v.push(c);
    let c = Component::new("fzf", "fzf", "Command-line fuzzy finder", Category::Mise(owned("fzf")), Group::CliTools, Some("fzf"), &["--version"]);
    assert(c@ =~~= fresh_component("fzf"@, "fzf"@, "Command-line fuzzy finder"@, CategoryView::Mise("fzf"@), Group::CliTools, Some("fzf"@), seq!["--version"@]));
    v.push(c);
    let c = Component::new("ripgrep", "ripgrep (rg)", "Line-oriented search tool", Category::Mise(owned("rg")), Group::CliTools, Some("rg"), &["--version"]);
    assert(c@ =~~= fresh_component("ripgrep"@, "ripgrep (rg)"@, "Line-oriented search tool"@, CategoryView::Mise("rg"@), Group::CliTools, Some("rg"@), seq!["--version"@]));
    v.push(c);
    let c = Component::new("fd", "fd", "Simple, fast alternative to find", Category::Mise(owned("fd")), Group::CliTools, Some("fd"), &["--version"]);
    assert(c@ =~~= fresh_component("fd"@, "fd"@, "Simple, fast alternative to find"@, CategoryView::Mise("fd"@), Group::CliTools, Some("fd"@), seq!["--version"@]));
    v.push(c);
    let c = Component::new("bat", "bat", "A cat(1) clone with wings", Category::Mise(owned("bat")), Group::CliTools, Some("bat"), &["--version"]);
    assert(c@ =~~= fresh_component("bat"@, "bat"@, "A cat(1) clone with wings"@, CategoryView::Mise("bat"@), Group::CliTools, Some("bat"@), seq!["--version"@]));
    v.push(c);
    let c = Component::new("eza", "eza", "Modern, maintained replacement for ls", Category::Mise(owned("eza")), Group::CliTools, Some("eza"), &["--version"]);
    assert(c@ =~~= fresh_component("eza"@, "eza"@, "Modern, maintained replacement for ls"@, CategoryView::Mise("eza"@), Group::CliTools, Some("eza"@), seq!["--version"@]));
    v.push(c);
    let c = Component::new("glow", "glow", "Terminal based markdown reader", Category::Mise(owned("glow")), Group::CliTools, Some("glow"), &["--version"]);
    assert(c@ =~~= fresh_component("glow"@, "glow"@, "Terminal based markdown reader"@, CategoryView::Mise("glow"@), Group::CliTools, Some("glow"@), seq!["--version"@]));
    v.push(c);
    let c = Component::new("jaq", "jaq", "A jq clone focused on correctness and speed", Category::Mise(owned("jaq")), Group::CliTools, Some("jaq"), &["--version"]);
    assert(c@ =~~= fresh_component("jaq"@, "jaq"@, "A jq clone focused on correctness and speed"@, CategoryView::Mise("jaq"@), Group::CliTools, Some("jaq"@), seq!["--version"@]));
    v.push(c);
    let c = Component::new("zellij", "Zellij", "A terminal workspace with batteries included", Category::Mise(owned("zellij")), Group::CliTools, Some("zellij"), &["--version"]);
    assert(c@ =~~= fresh_component("zellij"@, "Zellij"@, "A terminal workspace with batteries included"@, CategoryView::Mise("zellij"@), Group::CliTools, Some("zellij"@), seq!["--version"@]));
    v.push(c);
    let c = Component::new("config-bash", "Bash Configuration", "Adds mise activation to ~/.bashrc", Category::Config, Group::Configurations, None, &[]);
    assert(c@ =~~= fresh_component("config-bash"@, "Bash Configuration"@, "Adds mise activation to ~/.bashrc"@, CategoryView::Config, Group::Configurations, None, seq![]));
    v.push(c);
    let c = Component::new("config-fish", "Fish Configuration", "Aliases, colors, mise paths", Category::Config, Group::Configurations, None, &[]);
    assert(c@ =~~= fresh_component("config-fish"@, "Fish Configuration"@, "Aliases, colors, mise paths"@, CategoryView::Config, Group::Configurations, None, seq![]));
    v.push(c);
    let c = Component::new("config-nvim", "LazyVim Setup", "LazyVim starter + OSC52 clipboard", Category::Config, Group::Configurations, None, &[]);
    assert(c@ =~~= fresh_component("config-nvim"@, "LazyVim Setup"@, "LazyVim starter + OSC52 clipboard"@, CategoryView::Config, Group::Configurations, None, seq![]));
    v.push(c);
    assert(views(v@) =~~= builtin_components());
    v
}

} // verus!
