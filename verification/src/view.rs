//! What the screens of the interactive installer show: the rows, labels,
//! titles and colour roles of the selection, review, installation, report
//! and search screens. Laying them out on the terminal is the front end's
//! part.
use vstd::prelude::*;
use crate::outcomes::Outcomes;
use crate::registry::{
    action_label, group_label, observed_label, views, Category, CategoryView, Component,
    ComponentAction, ComponentOutcome, ComponentView, Group, InstallPlan, ObservedState,
    ObservedView, OutcomeView,
};
use crate::text::{
    concat_str, debug_quote, debug_quoted, decimal, decimal_text, has_infix, has_prefix, join,
    join_strings, owned, str_contains, str_starts_with,
};

verus! {

/// The colour role of a piece of text.
#[derive(Debug, Clone, Copy, PartialEq, Eq, Structural)]
pub enum Tone {
    Plain,
    Muted,
    Success,
    Warning,
    Error,
    Info,
}

// ---------------------------------------------------------------------------
// Selection screen
// ---------------------------------------------------------------------------

/// A row of the selection list: a group's header, or the component at an
/// index of the component list.
#[derive(Debug, Clone, Copy, PartialEq, Eq, Structural)]
pub enum SelectionRow {
    Header(Group),
    Item(usize),
}

/// Component `i` is the first of a run of components of one group.
pub open spec fn starts_group(cs: Seq<ComponentView>, i: int) -> bool {
    i == 0 || cs[i - 1].group != cs[i].group
}

/// The rows of the selection list: each component in order, under a header
/// wherever the group changes.
pub open spec fn selection_rows_of(cs: Seq<ComponentView>) -> Seq<SelectionRow>
    decreases cs.len(),
{
    if cs.len() == 0 {
        seq![]
    } else {
        let n = cs.len() - 1;
        selection_rows_of(cs.drop_last()) + (if starts_group(cs, n) {
            seq![SelectionRow::Header(cs[n].group)]
        } else {
            seq![]
        }) + seq![SelectionRow::Item(n as usize)]
    }
}

pub fn selection_rows(components: &[Component]) -> (rows: Vec<SelectionRow>)
    ensures
        rows@ == selection_rows_of(views(components@)),
{
    let ghost cs = views(components@);
    let mut rows: Vec<SelectionRow> = Vec::new();
    let mut i: usize = 0;
    assert(cs.take(0) =~= Seq::<ComponentView>::empty());
    while i < components.len()
        invariant
            i <= components@.len(),
            cs == views(components@),
            rows@ == selection_rows_of(cs.take(i as int)),
        decreases components@.len() - i,
    {
        let ghost t = cs.take(i + 1);
        let ghost before = rows@;
        assert(t.drop_last() =~= cs.take(i as int));
        assert(t[i as int] == components@[i as int]@);
        let starts = i == 0 || components[i - 1].group != components[i].group;
        proof {
            if i > 0 {
                assert(t[i - 1] == components@[i - 1]@);
            }
        }
        if starts {
            rows.push(SelectionRow::Header(components[i].group));
        }
        rows.push(SelectionRow::Item(i));
        assert(rows@ =~= selection_rows_of(t));
        i = i + 1;
    }
    assert(cs.take(components@.len() as int) =~= cs);
    rows
}

/// The component indices of the item rows, in order.
pub open spec fn item_indices(rows: Seq<SelectionRow>) -> Seq<int>
    decreases rows.len(),
{
    if rows.len() == 0 {
        seq![]
    } else {
        match rows.last() {
            SelectionRow::Item(i) => item_indices(rows.drop_last()).push(i as int),
            SelectionRow::Header(_) => item_indices(rows.drop_last()),
        }
    }
}

proof fn lemma_item_indices_append(a: Seq<SelectionRow>, b: Seq<SelectionRow>)
    ensures
        item_indices(a + b) == item_indices(a) + item_indices(b),
    decreases b.len(),
{
    if b.len() == 0 {
        assert(a + b =~= a);
        assert(item_indices(a) + item_indices(b) =~= item_indices(a));
    } else {
        assert((a + b).drop_last() =~= a + b.drop_last());
        lemma_item_indices_append(a, b.drop_last());
        match b.last() {
            SelectionRow::Item(i) => {
                assert(item_indices(a) + item_indices(b) =~= (item_indices(a) + item_indices(b.drop_last())).push(i as int));
            },
            SelectionRow::Header(_) => {},
        }
    }
}

/// Every component has exactly one row of the selection list, and the item
/// rows come in the order of the components.
pub proof fn lemma_selection_lists_each_component_once(cs: Seq<ComponentView>)
    requires
        cs.len() <= usize::MAX + 1,
    ensures
        item_indices(selection_rows_of(cs)) == Seq::new(cs.len(), |i: int| i),
    decreases cs.len(),
{
    if cs.len() > 0 {
        let n = cs.len() - 1;
        lemma_selection_lists_each_component_once(cs.drop_last());
        let head = selection_rows_of(cs.drop_last());
        let h: Seq<SelectionRow> = if starts_group(cs, n) {
            seq![SelectionRow::Header(cs[n].group)]
        } else {
            seq![]
        };
        let it = seq![SelectionRow::Item(n as usize)];
        lemma_item_indices_append(head + h, it);
        lemma_item_indices_append(head, h);
        let e = Seq::<SelectionRow>::empty();
        assert(item_indices(e) =~= Seq::<int>::empty());
        assert(item_indices(h) =~= Seq::<int>::empty()) by {
            if starts_group(cs, n) {
                assert(h.drop_last() =~= e);
            } else {
                assert(h =~= e);
            }
        }
        assert(it.drop_last() =~= e);
        assert((n as usize) as int == n);
        assert(item_indices(it) =~= seq![n]);
        assert(Seq::new(cs.drop_last().len(), |i: int| i).push(n) =~= Seq::new(cs.len(), |i: int| i));
    } else {
        assert(Seq::new(cs.len(), |i: int| i) =~= Seq::<int>::empty());
    }
}

/// The row of the component under the cursor: the first item row of that
/// component, or the first row where it has none.
pub fn cursor_row(rows: &[SelectionRow], cursor: usize) -> (r: usize)
    ensures
        (exists|k: int| 0 <= k < rows@.len() && rows@[k] == SelectionRow::Item(cursor)) ==> {
            &&& r < rows@.len()
            &&& rows@[r as int] == SelectionRow::Item(cursor)
            &&& forall|k: int| 0 <= k < r ==> rows@[k] != SelectionRow::Item(cursor)
        },
        !(exists|k: int| 0 <= k < rows@.len() && rows@[k] == SelectionRow::Item(cursor)) ==> r == 0,
{
    let mut k: usize = 0;
    while k < rows.len()
        invariant
            k <= rows@.len(),
            forall|j: int| 0 <= j < k ==> rows@[j] != SelectionRow::Item(cursor),
        decreases rows.len() - k,
    {
        if rows[k] == SelectionRow::Item(cursor) {
            return k;
        }
        k = k + 1;
    }
    0
}

pub open spec fn action_marker_of(a: ComponentAction) -> Seq<char> {
    match a {
        ComponentAction::Keep => "[=] "@,
        ComponentAction::Install => "[+] "@,
        ComponentAction::Deactivate => "[-] "@,
    }
}

/// The mark in front of a component's name in the selection list.
pub fn action_marker(action: ComponentAction) -> (r: &'static str)
    ensures
        r@ == action_marker_of(action),
{
    match action {
        ComponentAction::Keep => "[=] ",
        ComponentAction::Install => "[+] ",
        ComponentAction::Deactivate => "[-] ",
    }
}

pub open spec fn action_tone_of(a: ComponentAction) -> Tone {
    match a {
        ComponentAction::Keep => Tone::Muted,
        ComponentAction::Install => Tone::Success,
        ComponentAction::Deactivate => Tone::Error,
    }
}

pub fn action_tone(action: ComponentAction) -> (t: Tone)
    ensures
        t == action_tone_of(action),
{
    match action {
        ComponentAction::Keep => Tone::Muted,
        ComponentAction::Install => Tone::Success,
        ComponentAction::Deactivate => Tone::Error,
    }
}

pub open spec fn observed_tone_of(o: ObservedView) -> Tone {
    match o {
        ObservedView::Missing => Tone::Muted,
        ObservedView::Unknown => Tone::Warning,
        _ => Tone::Success,
    }
}

pub fn observed_tone(observed: &ObservedState) -> (t: Tone)
    ensures
        t == observed_tone_of(observed@),
{
    match observed {
        ObservedState::Missing => Tone::Muted,
        ObservedState::Unknown => Tone::Warning,
        _ => Tone::Success,
    }
}

pub open spec fn category_label_of(c: CategoryView) -> Seq<char> {
    match c {
        CategoryView::Mise(tool) => "Mise Tool ("@ + tool + ")"@,
        CategoryView::SystemPackage => "System Package (apt/pacman/dnf)"@,
        CategoryView::Config => "Configuration / Bash Script"@,
    }
}

/// The type line of the details pane.
pub fn category_label(category: &Category) -> (r: String)
    ensures
        r@ == category_label_of(category@),
{
    match category {
        Category::Mise(tool) => {
            let mut r = concat_str("Mise Tool (", tool.as_str());
            r.append(")");
            r
        },
        Category::SystemPackage => owned("System Package (apt/pacman/dnf)"),
        Category::Config => owned("Configuration / Bash Script"),
    }
}

pub open spec fn check_command_line_of(c: ComponentView) -> Option<Seq<char>> {
    match c.check_command {
        Some(cmd) => Some(cmd + " "@ + debug_quoted(join(c.check_args, " "@))),
        None => None,
    }
}

/// The check command line of the details pane: the command, then its
/// arguments joined into one quoted text.
pub fn check_command_line(component: &Component) -> (r: Option<String>)
    ensures
        match r {
            Some(t) => check_command_line_of(component@) == Some(t@),
            None => check_command_line_of(component@) is None,
        },
{
    match &component.check_command {
        Some(cmd) => {
            let args = join_strings(&component.check_args, " ");
            let quoted = debug_quote(args.as_str());
            let mut r = concat_str(cmd.as_str(), " ");
            r.append(quoted.as_str());
            Some(r)
        },
        None => None,
    }
}

pub open spec fn selection_footer_of(notice: Option<Seq<char>>) -> Seq<char> {
    match notice {
        Some(n) => n,
        None => " [=] Keep   [+] Install/update/reinstall   [-] Deactivate"@,
    }
}

/// The last line of the shortcut guide: the notice, or the legend of the
/// marks.
pub fn selection_footer(notice: &Option<String>) -> (r: String)
    ensures
        r@ == selection_footer_of(
            match notice {
                Some(n) => Some(n@),
                None => None,
            },
        ),
{
    match notice {
        Some(n) => n.clone(),
        None => owned(" [=] Keep   [+] Install/update/reinstall   [-] Deactivate"),
    }
}

// ---------------------------------------------------------------------------
// Review screen
// ---------------------------------------------------------------------------

/// A row of the review table.
pub struct ReviewRow {
    pub name: String,
    pub action: String,
    pub tone: Tone,
    pub observed: String,
}

pub struct ReviewRowView {
    pub name: Seq<char>,
    pub action: Seq<char>,
    pub tone: Tone,
    pub observed: Seq<char>,
}

impl View for ReviewRow {
    type V = ReviewRowView;

    open spec fn view(&self) -> ReviewRowView {
        ReviewRowView { name: self.name@, action: self.action@, tone: self.tone, observed: self.observed@ }
    }
}

pub open spec fn review_row_of(c: ComponentView) -> ReviewRowView {
    ReviewRowView {
        name: c.name,
        action: action_label(c),
        tone: action_tone_of(c.action),
        observed: observed_label(c.observed),
    }
}

/// A row for each component that is not kept, in order.
pub open spec fn review_rows_of(cs: Seq<ComponentView>) -> Seq<ReviewRowView>
    decreases cs.len(),
{
    if cs.len() == 0 {
        seq![]
    } else if cs.last().action == ComponentAction::Keep {
        review_rows_of(cs.drop_last())
    } else {
        review_rows_of(cs.drop_last()).push(review_row_of(cs.last()))
    }
}

pub fn review_rows(components: &[Component]) -> (rows: Vec<ReviewRow>)
    ensures
        rows@.map_values(|r: ReviewRow| r@) == review_rows_of(views(components@)),
{
    let ghost cs = views(components@);
    let mut rows: Vec<ReviewRow> = Vec::new();
    let mut i: usize = 0;
    assert(cs.take(0) =~= Seq::<ComponentView>::empty());
    assert(rows@.map_values(|r: ReviewRow| r@) =~= Seq::<ReviewRowView>::empty());
    while i < components.len()
        invariant
            i <= components@.len(),
            cs == views(components@),
            rows@.map_values(|r: ReviewRow| r@) == review_rows_of(cs.take(i as int)),
        decreases components@.len() - i,
    {
        let ghost t = cs.take(i + 1);
        assert(t.drop_last() =~= cs.take(i as int));
        assert(t.last() == components@[i as int]@);
        let c = &components[i];
        if c.action != ComponentAction::Keep {
            let ghost before = rows@.map_values(|r: ReviewRow| r@);
            let row = ReviewRow {
                name: c.name.clone(),
                action: owned(c.action_label()),
                tone: action_tone(c.action),
                observed: c.observed_label(),
            };
            rows.push(row);
            assert(rows@.map_values(|r: ReviewRow| r@) =~= before.push(review_row_of(c@)));
        }
        i = i + 1;
    }
    assert(cs.take(components@.len() as int) =~= cs);
    rows
}

/// The review lists only the components that change: one row for each
/// component that is not kept, in order, with its name and an action label
/// that is not Keep; with the kept ones they make up every component.
pub proof fn lemma_review_lists_only_changes(cs: Seq<ComponentView>)
    ensures
        review_rows_of(cs).len() + cs.filter(crate::registry::is_kept()).len() == cs.len(),
        forall|k: int| 0 <= k < review_rows_of(cs).len() ==> (#[trigger] review_rows_of(cs)[k]).action != "Keep"@,
        forall|k: int| #![trigger review_rows_of(cs)[k]] 0 <= k < review_rows_of(cs).len() ==> exists|i: int| 0 <= i < cs.len()
            && (#[trigger] cs[i]).action != ComponentAction::Keep && review_rows_of(cs)[k].name == cs[i].name,
    decreases cs.len(),
{
    reveal(Seq::filter);
    reveal_strlit("Keep");
    reveal_strlit("Deactivate");
    reveal_strlit("Update to latest");
    reveal_strlit("Reinstall");
    reveal_strlit("Install");
    if cs.len() > 0 {
        let d = cs.drop_last();
        lemma_review_lists_only_changes(d);
        let rows = review_rows_of(cs);
        let rd = review_rows_of(d);
        assert forall|k: int| #![trigger rows[k]] 0 <= k < rows.len() implies exists|i: int| 0 <= i < cs.len()
            && (#[trigger] cs[i]).action != ComponentAction::Keep && rows[k].name == cs[i].name by {
            if k < rd.len() {
                assert(rows[k] == rd[k]);
                let i = choose|i: int| 0 <= i < d.len() && (#[trigger] d[i]).action != ComponentAction::Keep && rd[k].name == d[i].name;
                assert(cs[i] == d[i]);
            } else {
                assert(rows[k].name == cs[cs.len() - 1].name);
                assert(cs[cs.len() - 1].action != ComponentAction::Keep);
            }
        }
        assert forall|k: int| 0 <= k < rows.len() implies (#[trigger] rows[k]).action != "Keep"@ by {
            if k < rd.len() {
                assert(rows[k] == rd[k]);
            } else {
                let c = cs.last();
                assert(c.action != ComponentAction::Keep);
                assert(rows[k].action == action_label(c));
                assert(action_label(c).len() != 4 || action_label(c)[0] != 'K');
            }
        }
    }
}

/// How the summary reads each outcome: an install, an existing
/// configuration and a deactivation count as succeeded, a kept component as
/// kept, and a failure, like a component with no outcome recorded, as
/// failed, with its error shown.
pub proof fn lemma_report_statuses(m: Map<Seq<char>, OutcomeView>, id: Seq<char>)
    ensures
        tally_of(outcome_of(m, id)) == Tally::Succeeded <==> m.dom().contains(id) && (m[id] == OutcomeView::Succeeded
            || m[id] == OutcomeView::AlreadyConfigured || m[id] == OutcomeView::Deactivated),
        tally_of(outcome_of(m, id)) == Tally::Kept <==> m.dom().contains(id) && m[id] == OutcomeView::Kept,
        tally_of(outcome_of(m, id)) == Tally::Failed <==> !m.dom().contains(id) || m[id] is Failed || m[id] is Pending,
        m.dom().contains(id) && m[id] is Failed ==> status_of(outcome_of(m, id)) == "Failed: "@ + m[id]->Failed_0,
        !m.dom().contains(id) ==> status_of(outcome_of(m, id)) == "Failed: no outcome recorded"@,
{
}

pub open spec fn review_title_of(mutations: nat, kept: nat) -> Seq<char> {
    " "@ + decimal(mutations) + " mutation(s) | "@ + decimal(kept) + " kept "@
}

/// The title of the review table: how many mutations the plan holds and
/// how many components it keeps.
pub fn review_title(plan: &InstallPlan) -> (r: String)
    requires
        plan.system@.len() + plan.mise@.len() + plan.deactivate_mise@.len() + plan.configs@.len()
            <= usize::MAX,
    ensures
        r@ == review_title_of(
            (plan.system@.len() + plan.mise@.len() + plan.deactivate_mise@.len() + plan.configs@.len()) as nat,
            plan.kept_count as nat,
        ),
{
    let n = plan.mutation_count();
    let mut r = concat_str(" ", decimal_text(n).as_str());
    r.append(" mutation(s) | ");
    r.append(decimal_text(plan.kept_count).as_str());
    r.append(" kept ");
    r
}

/// A note under the review table.
#[derive(Debug, Clone, Copy, PartialEq, Eq, Structural)]
pub enum ReviewNote {
    /// Mise will be installed if it is missing.
    Prerequisite,
    /// Sudo authentication follows confirmation.
    Privilege,
    /// The existing Neovim configuration will be replaced.
    NvimReplacement,
    /// None of the above applies.
    Nothing,
}

pub open spec fn review_notes_of(needs_mise: bool, needs_sudo: bool, replaces_nvim: bool) -> Seq<ReviewNote> {
    let notes = (if needs_mise { seq![ReviewNote::Prerequisite] } else { seq![] }) + (if needs_sudo {
        seq![ReviewNote::Privilege]
    } else {
        seq![]
    }) + (if replaces_nvim { seq![ReviewNote::NvimReplacement] } else { seq![] });
    if notes.len() == 0 {
        seq![ReviewNote::Nothing]
    } else {
        notes
    }
}

/// The notes of the review screen, in the order they are shown.
pub fn review_notes(plan: &InstallPlan) -> (notes: Vec<ReviewNote>)
    ensures
        notes@ == review_notes_of(
            plan.mise@.len() > 0 || exists|i: int|
                0 <= i < plan.configs@.len() && crate::registry::is_shell_config_id(#[trigger] plan.configs@[i].id@),
            plan.system@.len() > 0,
            exists|i: int| 0 <= i < plan.configs@.len() && crate::registry::replaces_nvim(#[trigger] plan.configs@[i]@),
        ),
        notes@.contains(ReviewNote::NvimReplacement) <==> exists|i: int|
            0 <= i < plan.configs@.len() && (#[trigger] plan.configs@[i]@).id == "config-nvim"@
                && plan.configs@[i]@.observed is ExistingConfig,
        notes@.contains(ReviewNote::Privilege) <==> plan.system@.len() > 0,
        notes@.contains(ReviewNote::Prerequisite) <==> (plan.mise@.len() > 0 || exists|i: int|
            0 <= i < plan.configs@.len() && (#[trigger] plan.configs@[i].id@ == "config-bash"@
                || plan.configs@[i].id@ == "config-fish"@)),
        notes@.contains(ReviewNote::Nothing) <==> !notes@.contains(ReviewNote::Prerequisite)
            && !notes@.contains(ReviewNote::Privilege) && !notes@.contains(ReviewNote::NvimReplacement),
{
    let needs_mise = plan.needs_mise_install();
    let needs_sudo = plan.needs_sudo();
    let replaces = plan.replaces_existing_nvim_config();
    let mut notes: Vec<ReviewNote> = Vec::new();
    if needs_mise {
        notes.push(ReviewNote::Prerequisite);
    }
    if needs_sudo {
        notes.push(ReviewNote::Privilege);
    }
    if replaces {
        notes.push(ReviewNote::NvimReplacement);
    }
    if notes.len() == 0 {
        notes.push(ReviewNote::Nothing);
    }
    assert(notes@ =~= review_notes_of(needs_mise, needs_sudo, replaces));
    proof {
        lemma_review_notes_say_what_applies(needs_mise, needs_sudo, replaces);
        assert(replaces <==> exists|i: int|
            0 <= i < plan.configs@.len() && (#[trigger] plan.configs@[i]@).id == "config-nvim"@
                && plan.configs@[i]@.observed is ExistingConfig) by {
        }
        assert(needs_mise <==> (plan.mise@.len() > 0 || exists|i: int|
            0 <= i < plan.configs@.len() && (#[trigger] plan.configs@[i].id@ == "config-bash"@
                || plan.configs@[i].id@ == "config-fish"@)));
    }
    notes
}

/// Each note is shown exactly when what it speaks of applies: the
/// prerequisite note when mise is needed, the privilege note when sudo is,
/// the replacement warning when an existing Neovim configuration is replaced;
/// the "nothing to note" line stands alone, and only when none of them does.
pub proof fn lemma_review_notes_say_what_applies(needs_mise: bool, needs_sudo: bool, replaces_nvim: bool)
    ensures
        review_notes_of(needs_mise, needs_sudo, replaces_nvim).contains(ReviewNote::Prerequisite) <==> needs_mise,
        review_notes_of(needs_mise, needs_sudo, replaces_nvim).contains(ReviewNote::Privilege) <==> needs_sudo,
        review_notes_of(needs_mise, needs_sudo, replaces_nvim).contains(ReviewNote::NvimReplacement)
            <==> replaces_nvim,
        review_notes_of(needs_mise, needs_sudo, replaces_nvim).contains(ReviewNote::Nothing)
            <==> (!needs_mise && !needs_sudo && !replaces_nvim),
        !needs_mise && !needs_sudo && !replaces_nvim ==> review_notes_of(needs_mise, needs_sudo, replaces_nvim)
            == seq![ReviewNote::Nothing],
{
    let notes = review_notes_of(needs_mise, needs_sudo, replaces_nvim);
    let all = seq![ReviewNote::Prerequisite, ReviewNote::Privilege, ReviewNote::NvimReplacement, ReviewNote::Nothing];
    assert(all[0] == ReviewNote::Prerequisite && all[1] == ReviewNote::Privilege);
    assert(all[2] == ReviewNote::NvimReplacement && all[3] == ReviewNote::Nothing);
    if needs_mise {
        assert(notes[0] == ReviewNote::Prerequisite);
    }
    if needs_sudo {
        let k: int = if needs_mise { 1 } else { 0 };
        assert(notes[k] == ReviewNote::Privilege);
    }
    if replaces_nvim {
        let k: int = (if needs_mise { 1int } else { 0int }) + (if needs_sudo { 1int } else { 0int });
        assert(notes[k] == ReviewNote::NvimReplacement);
    }
}

pub open spec fn note_text_of(n: ReviewNote) -> (Seq<char>, Seq<char>) {
    match n {
        ReviewNote::Prerequisite => ("Prerequisite: "@, "mise will be installed if it is missing."@),
        ReviewNote::Privilege => ("Privilege: "@, "sudo authentication follows confirmation."@),
        ReviewNote::NvimReplacement => (
            ""@,
            "Warning: the existing Neovim config will be replaced after staging and backed up."@,
        ),
        ReviewNote::Nothing => (""@, "No implicit prerequisites or replacement warnings."@),
    }
}

impl ReviewNote {
    /// The label and the text of the note.
    pub fn text(&self) -> (r: (&'static str, &'static str))
        ensures
            (r.0@, r.1@) == note_text_of(*self),
    {
        match self {
            ReviewNote::Prerequisite => ("Prerequisite: ", "mise will be installed if it is missing."),
            ReviewNote::Privilege => ("Privilege: ", "sudo authentication follows confirmation."),
            ReviewNote::NvimReplacement => (
                "",
                "Warning: the existing Neovim config will be replaced after staging and backed up.",
            ),
            ReviewNote::Nothing => ("", "No implicit prerequisites or replacement warnings."),
        }
    }
}

// ---------------------------------------------------------------------------
// Installation screen
// ---------------------------------------------------------------------------

pub open spec fn phase_label_of(phase: nat) -> Seq<char> {
    if phase == 0 {
        "System Packages"@
    } else if phase == 1 {
        "Mise Tools"@
    } else if phase == 2 {
        "Configurations"@
    } else {
        "Finishing…"@
    }
}

pub open spec fn installing_title_of(phase: nat) -> Seq<char> {
    " Installing: "@ + phase_label_of(phase) + " ("@ + decimal(phase + 1) + "/3) "@
}

/// The title of the progress gauge for the phase with index `phase`.
pub fn installing_title(phase: usize) -> (r: String)
    requires
        phase < usize::MAX,
    ensures
        r@ == installing_title_of(phase as nat),
{
    let label = if phase == 0 {
        "System Packages"
    } else if phase == 1 {
        "Mise Tools"
    } else if phase == 2 {
        "Configurations"
    } else {
        "Finishing…"
    };
    let mut r = concat_str(" Installing: ", label);
    r.append(" (");
    r.append(decimal_text(phase + 1).as_str());
    r.append("/3) ");
    r
}

/// The lines of the log that fit a screen of `height` rows: the last
/// `height - 5`.
pub open spec fn log_tail_of(logs: Seq<Seq<char>>, height: nat) -> Seq<Seq<char>> {
    let room = height - 5;
    if logs.len() <= room {
        logs
    } else {
        logs.skip(logs.len() - room)
    }
}

pub fn log_tail(logs: &Vec<String>, height: u16) -> (r: Vec<String>)
    requires
        height >= 5,
    ensures
        r.deep_view() == log_tail_of(logs.deep_view(), height as nat),
{
    let room = (height - 5) as usize;
    let start = if logs.len() <= room { 0 } else { logs.len() - room };
    let mut r: Vec<String> = Vec::new();
    let mut k: usize = start;
    while k < logs.len()
        invariant
            start <= k <= logs@.len(),
            r.deep_view() == logs.deep_view().subrange(start as int, k as int),
        decreases logs.len() - k,
    {
        let ghost before = r.deep_view();
        r.push(logs[k].clone());
        assert(r.deep_view() =~= before.push(logs[k as int]@));
        assert(logs.deep_view().subrange(start as int, k + 1) =~= logs.deep_view().subrange(
            start as int,
            k as int,
        ).push(logs[k as int]@));
        k = k + 1;
    }
    assert(logs.deep_view().subrange(start as int, logs@.len() as int) =~= log_tail_of(
        logs.deep_view(),
        height as nat,
    ));
    r
}

pub open spec fn log_tone_of(line: Seq<char>, i: nat) -> Tone {
    if has_infix(line, "ERROR"@) || has_infix(line, "FAILED"@) || has_infix(line, "stderr"@) {
        Tone::Error
    } else if has_prefix(line, "==>"@) || has_infix(line, "INFO"@) || has_infix(line, "SUCCESS"@) {
        Tone::Success
    } else if has_infix(line, "WARN"@) {
        Tone::Warning
    } else if i % 2 == 0 {
        Tone::Plain
    } else {
        Tone::Info
    }
}

/// The colour of the `i`-th shown log line: errors, successes and warnings
/// by their words, other lines alternating.
pub fn log_tone(line: &str, i: usize) -> (t: Tone)
    ensures
        t == log_tone_of(line@, i as nat),
{
    if str_contains(line, "ERROR") || str_contains(line, "FAILED") || str_contains(line, "stderr") {
        Tone::Error
    } else if str_starts_with(line, "==>") || str_contains(line, "INFO") || str_contains(line, "SUCCESS") {
        Tone::Success
    } else if str_contains(line, "WARN") {
        Tone::Warning
    } else if i % 2 == 0 {
        Tone::Plain
    } else {
        Tone::Info
    }
}

// ---------------------------------------------------------------------------
// Report screen
// ---------------------------------------------------------------------------

/// How an outcome counts in the summary.
#[derive(Debug, Clone, Copy, PartialEq, Eq, Structural)]
pub enum Tally {
    Succeeded,
    Failed,
    Kept,
}

/// The outcome recorded for `id`; none recorded counts as Pending.
pub open spec fn outcome_of(m: Map<Seq<char>, OutcomeView>, id: Seq<char>) -> OutcomeView {
    if m.dom().contains(id) {
        m[id]
    } else {
        OutcomeView::Pending
    }
}

pub open spec fn tally_of(o: OutcomeView) -> Tally {
    match o {
        OutcomeView::Succeeded | OutcomeView::AlreadyConfigured | OutcomeView::Deactivated => Tally::Succeeded,
        OutcomeView::Kept => Tally::Kept,
        _ => Tally::Failed,
    }
}

pub open spec fn status_of(o: OutcomeView) -> Seq<char> {
    match o {
        OutcomeView::Succeeded => "Succeeded"@,
        OutcomeView::Failed(e) => "Failed: "@ + e,
        OutcomeView::AlreadyConfigured => "Already configured"@,
        OutcomeView::Deactivated => "Deactivated"@,
        OutcomeView::Kept => "Kept"@,
        OutcomeView::Pending => "Failed: no outcome recorded"@,
    }
}

pub open spec fn status_tone_of(o: OutcomeView) -> Tone {
    match o {
        OutcomeView::Failed(_) => Tone::Error,
        OutcomeView::Kept => Tone::Muted,
        OutcomeView::Pending => Tone::Warning,
        _ => Tone::Success,
    }
}

/// A row of the summary table.
pub struct ReportRow {
    pub id: String,
    pub name: String,
    pub action: String,
    pub status: String,
    pub tone: Tone,
    pub tally: Tally,
}

pub struct ReportRowView {
    pub id: Seq<char>,
    pub name: Seq<char>,
    pub action: Seq<char>,
    pub status: Seq<char>,
    pub tone: Tone,
    pub tally: Tally,
}

impl View for ReportRow {
    type V = ReportRowView;

    open spec fn view(&self) -> ReportRowView {
        ReportRowView {
            id: self.id@,
            name: self.name@,
            action: self.action@,
            status: self.status@,
            tone: self.tone,
            tally: self.tally,
        }
    }
}

pub open spec fn report_row_of(c: ComponentView, m: Map<Seq<char>, OutcomeView>) -> ReportRowView {
    let o = outcome_of(m, c.id);
    ReportRowView {
        id: c.id,
        name: c.name,
        action: action_label(c),
        status: status_of(o),
        tone: status_tone_of(o),
        tally: tally_of(o),
    }
}

/// How many of the components have an outcome that counts as `t`.
pub open spec fn count_tally(cs: Seq<ComponentView>, m: Map<Seq<char>, OutcomeView>, t: Tally) -> nat
    decreases cs.len(),
{
    if cs.len() == 0 {
        0
    } else {
        count_tally(cs.drop_last(), m, t) + if tally_of(outcome_of(m, cs.last().id)) == t {
            1nat
        } else {
            0nat
        }
    }
}

/// The summary of an installation: a row per component and the counts.
pub struct Report {
    pub rows: Vec<ReportRow>,
    pub succeeded: usize,
    pub failed: usize,
    pub kept: usize,
}

/// Each component counts once in the summary: as succeeded, failed or kept.
pub proof fn lemma_report_counts_every_component(cs: Seq<ComponentView>, m: Map<Seq<char>, OutcomeView>)
    ensures
        count_tally(cs, m, Tally::Succeeded) + count_tally(cs, m, Tally::Failed) + count_tally(cs, m, Tally::Kept)
            == cs.len(),
    decreases cs.len(),
{
    if cs.len() > 0 {
        lemma_report_counts_every_component(cs.drop_last(), m);
    }
}

fn outcome_status(o: &ComponentOutcome) -> (r: (String, Tone, Tally))
    ensures
        r.0@ == status_of(o@),
        r.1 == status_tone_of(o@),
        r.2 == tally_of(o@),
{
    match o {
        ComponentOutcome::Succeeded => (owned("Succeeded"), Tone::Success, Tally::Succeeded),
        ComponentOutcome::Failed(e) => (concat_str("Failed: ", e.as_str()), Tone::Error, Tally::Failed),
        ComponentOutcome::AlreadyConfigured => (owned("Already configured"), Tone::Success, Tally::Succeeded),
        ComponentOutcome::Deactivated => (owned("Deactivated"), Tone::Success, Tally::Succeeded),
        ComponentOutcome::Kept => (owned("Kept"), Tone::Muted, Tally::Kept),
        ComponentOutcome::Pending => (owned("Failed: no outcome recorded"), Tone::Warning, Tally::Failed),
    }
}

/// The summary of `components` after an installation that recorded
/// `outcomes`.
pub fn report(components: &[Component], outcomes: &Outcomes) -> (r: Report)
    ensures
        r.rows@.map_values(|x: ReportRow| x@) == views(components@).map_values(
            |c: ComponentView| report_row_of(c, outcomes@),
        ),
        r.succeeded == count_tally(views(components@), outcomes@, Tally::Succeeded),
        r.failed == count_tally(views(components@), outcomes@, Tally::Failed),
        r.kept == count_tally(views(components@), outcomes@, Tally::Kept),
        r.succeeded + r.failed + r.kept == components@.len(),
{
    let ghost cs = views(components@);
    let ghost m = outcomes@;
    let mut rows: Vec<ReportRow> = Vec::new();
    let mut succeeded: usize = 0;
    let mut failed: usize = 0;
    let mut kept: usize = 0;
    let mut i: usize = 0;
    assert(cs.take(0) =~= Seq::<ComponentView>::empty());
    assert(rows@.map_values(|x: ReportRow| x@) =~= Seq::<ReportRowView>::empty());
    while i < components.len()
        invariant
            i <= components@.len(),
            cs == views(components@),
            m == outcomes@,
            rows@.map_values(|x: ReportRow| x@) == cs.take(i as int).map_values(
                |c: ComponentView| report_row_of(c, m),
            ),
            succeeded == count_tally(cs.take(i as int), m, Tally::Succeeded),
            failed == count_tally(cs.take(i as int), m, Tally::Failed),
            kept == count_tally(cs.take(i as int), m, Tally::Kept),
            succeeded + failed + kept == i,
        decreases components@.len() - i,
    {
        let ghost t = cs.take(i + 1);
        assert(t.drop_last() =~= cs.take(i as int));
        assert(t.last() == components@[i as int]@);
        let c = &components[i];
        let (status, tone, tally) = match outcomes.get(c.id.as_str()) {
            Some(o) => outcome_status(o),
            None => outcome_status(&ComponentOutcome::Pending),
        };
        match tally {
            Tally::Succeeded => succeeded = succeeded + 1,
            Tally::Failed => failed = failed + 1,
            Tally::Kept => kept = kept + 1,
        }
        let ghost before = rows@.map_values(|x: ReportRow| x@);
        let row = ReportRow {
            id: c.id.clone(),
            name: c.name.clone(),
            action: owned(c.action_label()),
            status,
            tone,
            tally,
        };
        rows.push(row);
        assert(rows@.map_values(|x: ReportRow| x@) =~= before.push(report_row_of(c@, m)));
        assert(t.map_values(|c: ComponentView| report_row_of(c, m)) =~= cs.take(i as int).map_values(
            |c: ComponentView| report_row_of(c, m),
        ).push(report_row_of(c@, m)));
        i = i + 1;
    }
    assert(cs.take(components@.len() as int) =~= cs);
    Report { rows, succeeded, failed, kept }
}

pub open spec fn report_title_of(succeeded: nat, failed: nat, kept: nat) -> Seq<char> {
    " Summary [ "@ + decimal(succeeded) + " succeeded | "@ + decimal(failed) + " failed | "@ + decimal(kept)
        + " kept ] "@
}

pub fn report_title(report: &Report) -> (r: String)
    ensures
        r@ == report_title_of(report.succeeded as nat, report.failed as nat, report.kept as nat),
{
    let mut r = concat_str(" Summary [ ", decimal_text(report.succeeded).as_str());
    r.append(" succeeded | ");
    r.append(decimal_text(report.failed).as_str());
    r.append(" failed | ");
    r.append(decimal_text(report.kept).as_str());
    r.append(" kept ] ");
    r
}

/// The report of a run without the terminal interface: `<id>: <status>`
/// for each component.
pub fn plain_report_lines(report: &Report) -> (lines: Vec<String>)
    ensures
        lines.deep_view() == report.rows@.map_values(|x: ReportRow| x.id@ + ": "@ + x.status@),
{
    let mut lines: Vec<String> = Vec::new();
    let mut i: usize = 0;
    while i < report.rows.len()
        invariant
            i <= report.rows@.len(),
            lines.deep_view() == report.rows@.take(i as int).map_values(|x: ReportRow| x.id@ + ": "@ + x.status@),
        decreases report.rows.len() - i,
    {
        let ghost before = lines.deep_view();
        let mut line = concat_str(report.rows[i].id.as_str(), ": ");
        line.append(report.rows[i].status.as_str());
        lines.push(line);
        assert(lines.deep_view() =~= before.push(report.rows@[i as int].id@ + ": "@ + report.rows@[i as int].status@));
        assert(report.rows@.take(i + 1).map_values(|x: ReportRow| x.id@ + ": "@ + x.status@) =~= report.rows@.take(
            i as int,
        ).map_values(|x: ReportRow| x.id@ + ": "@ + x.status@).push(
            report.rows@[i as int].id@ + ": "@ + report.rows@[i as int].status@,
        ));
        i = i + 1;
    }
    assert(report.rows@.take(report.rows@.len() as int) =~= report.rows@);
    lines
}

// ---------------------------------------------------------------------------
// Search screen
// ---------------------------------------------------------------------------

pub open spec fn search_title_of(n: nat) -> Seq<char> {
    if n == 0 {
        " No results "@
    } else {
        " "@ + decimal(n) + " result(s) "@
    }
}

/// The title of the result table.
pub fn search_title(results: usize) -> (r: String)
    ensures
        r@ == search_title_of(results as nat),
{
    if results == 0 {
        owned(" No results ")
    } else {
        let mut r = concat_str(" ", decimal_text(results).as_str());
        r.append(" result(s) ");
        r
    }
}

} // verus!
