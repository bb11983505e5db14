//! The course of an installation: the order in which the planned mutations
//! run, and the outcome and log lines that each result leaves. The work
//! itself (package managers, mise, files) is done by the caller, one step
//! at a time: `next_step` names the next piece of work, `record` takes its
//! result.
use vstd::prelude::*;
use crate::outcomes::Outcomes;
use crate::registry::{
    is_shell_config_id, views, Component, ComponentOutcome, ComponentView, InstallPlan,
    OutcomeView,
};
use crate::text::{concat_str, owned, str_eq};

verus! {

/// One entry of the course of an installation.
#[derive(Debug, Clone, Copy, PartialEq, Eq, Structural)]
pub enum Task {
    /// Enter phase `k` (0: system packages, 1: mise tools, 2: configurations).
    Phase(usize),
    System,
    Deactivate(usize),
    MisePrerequisite,
    Activate(usize),
    Config(usize),
    Finish,
}

/// The outside work that an installation waits for.
#[derive(Debug, Clone, Copy, PartialEq, Eq, Structural)]
pub enum InstallStep {
    /// Install the packages of all components of `plan.system`.
    SystemPackages,
    /// Deactivate `plan.deactivate_mise[i]`.
    Deactivate(usize),
    /// Make sure mise is installed.
    InstallMise,
    /// Install `plan.mise[i]` with mise.
    Activate(usize),
    /// Set up `plan.configs[i]`.
    SetupConfig(usize),
    /// Nothing is left to do.
    Finished,
}

/// How a step of outside work ended.
#[derive(Debug, Clone, PartialEq, Eq)]
pub enum StepReport {
    Changed,
    AlreadyConfigured,
    Failed(String),
}

pub enum ReportView {
    Changed,
    AlreadyConfigured,
    Failed(Seq<char>),
}

impl View for StepReport {
    type V = ReportView;

    open spec fn view(&self) -> ReportView {
        match self {
            StepReport::Changed => ReportView::Changed,
            StepReport::AlreadyConfigured => ReportView::AlreadyConfigured,
            StepReport::Failed(e) => ReportView::Failed(e@),
        }
    }
}

/// The course of an installation of `nd` deactivations, `nm` mise tools and
/// `nc` configurations: system packages; then deactivations, the mise
/// prerequisite where needed and the mise tools; then configurations.
pub open spec fn tasks_for(nd: nat, nm: nat, nc: nat, needs_mise: bool) -> Seq<Task> {
    seq![Task::Phase(0), Task::System, Task::Phase(1)]
        + Seq::new(nd, |i: int| Task::Deactivate(i as usize))
        + (if needs_mise { seq![Task::MisePrerequisite] } else { seq![] })
        + Seq::new(nm, |i: int| Task::Activate(i as usize))
        + seq![Task::Phase(2)]
        + Seq::new(nc, |i: int| Task::Config(i as usize))
        + seq![Task::Finish]
}

pub open spec fn phase_header(k: int) -> Seq<char> {
    if k == 0 {
        ">>> Phase 1: System Packages"@
    } else if k == 1 {
        "\n>>> Phase 2: Mise Tools"@
    } else {
        "\n>>> Phase 3: Configurations"@
    }
}

pub open spec fn finish_line() -> Seq<char> {
    "\n✅ All done! Press Enter to view the summary."@
}

/// The line that a run without the terminal interface logs for a task
/// given up because mise is unavailable.
pub open spec fn unavailable_line(prefix: Seq<char>, id: Seq<char>) -> Seq<char> {
    prefix + id + ": "@ + "mise is unavailable"@
}

pub open spec fn prerequisite_failure() -> Seq<char> {
    "mise prerequisite failed"@
}

/// The abstract state of an installation.
#[verifier::ext_equal]
pub struct InstallView {
    pub system: Seq<ComponentView>,
    pub deactivate: Seq<ComponentView>,
    pub mise: Seq<ComponentView>,
    pub configs: Seq<ComponentView>,
    pub needs_mise: bool,
    pub interactive: bool,
    pub tasks: Seq<Task>,
    pub next: int,
    pub mise_ready: bool,
    pub phase: int,
    pub done: bool,
    pub outcomes: Map<Seq<char>, OutcomeView>,
    pub logs: Seq<Seq<char>>,
}

/// Whether the task cannot run without mise.
pub open spec fn task_needs_mise(v: InstallView, t: Task) -> bool {
    match t {
        Task::Activate(_) => true,
        Task::Config(i) => is_shell_config_id(v.configs[i as int].id),
        _ => false,
    }
}

/// The current task is carried out without outside work: a phase header,
/// the end, or a task that is given up because mise is missing.
pub open spec fn at_internal(v: InstallView) -> bool {
    &&& 0 <= v.next < v.tasks.len()
    &&& {
        let t = v.tasks[v.next];
        ||| t is Phase
        ||| t is Finish
        ||| (task_needs_mise(v, t) && !v.mise_ready)
    }
}

/// The effect of the current task when it needs no outside work.
pub open spec fn internal_step(v: InstallView) -> InstallView {
    match v.tasks[v.next] {
        Task::Phase(k) => InstallView {
            logs: v.logs.push(phase_header(k as int)),
            phase: k as int,
            next: v.next + 1,
            ..v
        },
        Task::Finish => InstallView {
            logs: if v.interactive { v.logs.push(finish_line()) } else { v.logs },
            done: true,
            next: v.next + 1,
            ..v
        },
        Task::Activate(i) => InstallView {
            outcomes: v.outcomes.insert(v.mise[i as int].id, OutcomeView::Failed(prerequisite_failure())),
            logs: if v.interactive {
                v.logs
            } else {
                v.logs.push(unavailable_line("[ERROR] mise tool "@, v.mise[i as int].id))
            },
            next: v.next + 1,
            ..v
        },
        Task::Config(i) => InstallView {
            outcomes: v.outcomes.insert(v.configs[i as int].id, OutcomeView::Failed(prerequisite_failure())),
            logs: if v.interactive {
                v.logs
            } else {
                v.logs.push(unavailable_line("[ERROR] config "@, v.configs[i as int].id))
            },
            next: v.next + 1,
            ..v
        },
        _ => v,
    }
}

/// The state reached from `v` by the tasks that need no outside work.
pub open spec fn settle(v: InstallView) -> InstallView
    decreases v.tasks.len() - v.next,
{
    if at_internal(v) {
        settle(internal_step(v))
    } else {
        v
    }
}

/// The outside work that the current task waits for.
pub open spec fn step_of(v: InstallView) -> InstallStep {
    if 0 <= v.next < v.tasks.len() {
        match v.tasks[v.next] {
            Task::System => InstallStep::SystemPackages,
            Task::Deactivate(i) => InstallStep::Deactivate(i),
            Task::MisePrerequisite => InstallStep::InstallMise,
            Task::Activate(i) => InstallStep::Activate(i),
            Task::Config(i) => InstallStep::SetupConfig(i),
            _ => InstallStep::Finished,
        }
    } else {
        InstallStep::Finished
    }
}

/// Every component of `cs` has `o` as outcome, on top of `m`.
pub open spec fn all_set_to(m: Map<Seq<char>, OutcomeView>, cs: Seq<ComponentView>, o: OutcomeView) -> Map<Seq<char>, OutcomeView>
    decreases cs.len(),
{
    if cs.len() == 0 {
        m
    } else {
        all_set_to(m, cs.drop_last(), o).insert(cs.last().id, o)
    }
}

pub open spec fn error_line(prefix: Seq<char>, e: Seq<char>) -> Seq<char> {
    prefix + e
}

/// The state after the outside work of the current task ended with `r`.
pub open spec fn apply(v: InstallView, r: ReportView) -> InstallView {
    let next = v.next + 1;
    match v.tasks[v.next] {
        Task::System => match r {
            ReportView::Failed(e) => InstallView {
                outcomes: all_set_to(v.outcomes, v.system, OutcomeView::Failed(e)),
                logs: v.logs.push(error_line("[ERROR] System packages: "@, e)),
                next,
                ..v
            },
            _ => InstallView { outcomes: all_set_to(v.outcomes, v.system, OutcomeView::Succeeded), next, ..v },
        },
        Task::Deactivate(i) => {
            let id = v.deactivate[i as int].id;
            match r {
                ReportView::Failed(e) => InstallView {
                    outcomes: v.outcomes.insert(id, OutcomeView::Failed(e)),
                    logs: v.logs.push(error_line("[ERROR] deactivate "@ + id + ": "@, e)),
                    next,
                    ..v
                },
                _ => InstallView { outcomes: v.outcomes.insert(id, OutcomeView::Deactivated), next, ..v },
            }
        },
        Task::MisePrerequisite => match r {
            ReportView::Failed(e) => InstallView {
                mise_ready: false,
                logs: v.logs.push(error_line("[ERROR] mise prerequisite: "@, e)),
                next,
                ..v
            },
            _ => InstallView { next, ..v },
        },
        Task::Activate(i) => {
            let id = v.mise[i as int].id;
            match r {
                ReportView::Failed(e) => InstallView {
                    outcomes: v.outcomes.insert(id, OutcomeView::Failed(e)),
                    logs: v.logs.push(error_line("[ERROR] mise tool "@ + id + ": "@, e)),
                    next,
                    ..v
                },
                _ => InstallView { outcomes: v.outcomes.insert(id, OutcomeView::Succeeded), next, ..v },
            }
        },
        Task::Config(i) => {
            let id = v.configs[i as int].id;
            match r {
                ReportView::Failed(e) => InstallView {
                    outcomes: v.outcomes.insert(id, OutcomeView::Failed(e)),
                    logs: v.logs.push(error_line("[ERROR] config "@ + id + ": "@, e)),
                    next,
                    ..v
                },
                ReportView::AlreadyConfigured => InstallView {
                    outcomes: v.outcomes.insert(id, OutcomeView::AlreadyConfigured),
                    next,
                    ..v
                },
                ReportView::Changed => InstallView { outcomes: v.outcomes.insert(id, OutcomeView::Succeeded), next, ..v },
            }
        },
        _ => v,
    }
}

/// The components whose outcome the tasks before `n` have settled.
pub open spec fn settled_by(v: InstallView, t: Task) -> Seq<ComponentView> {
    match t {
        Task::System => v.system,
        Task::Deactivate(i) => seq![v.deactivate[i as int]],
        Task::Activate(i) => seq![v.mise[i as int]],
        Task::Config(i) => seq![v.configs[i as int]],
        _ => seq![],
    }
}

/// Each component that a task before `v.next` stands for has an outcome
/// other than Pending.
pub open spec fn resolved_so_far(v: InstallView) -> bool {
    forall|j: int, k: int| #![trigger settled_by(v, v.tasks[j])[k]]
        0 <= j < v.next && 0 <= k < settled_by(v, v.tasks[j]).len() ==> {
            let id = settled_by(v, v.tasks[j])[k].id;
            v.outcomes.dom().contains(id) && !(v.outcomes[id] is Pending)
        }
}

/// An installation in progress.
pub struct Installation {
    pub plan: InstallPlan,
    pub outcomes: Outcomes,
    pub logs: Vec<String>,
    pub phase: usize,
    pub done: bool,
    pub needs_mise: bool,
    pub interactive: bool,
    pub tasks: Vec<Task>,
    pub next: usize,
    pub mise_ready: bool,
}

impl View for Installation {
    type V = InstallView;

    open spec fn view(&self) -> InstallView {
        InstallView {
            system: views(self.plan.system@),
            deactivate: views(self.plan.deactivate_mise@),
            mise: views(self.plan.mise@),
            configs: views(self.plan.configs@),
            needs_mise: self.needs_mise,
            interactive: self.interactive,
            tasks: self.tasks@,
            next: self.next as int,
            mise_ready: self.mise_ready,
            phase: self.phase as int,
            done: self.done,
            outcomes: self.outcomes@,
            logs: self.logs.deep_view(),
        }
    }
}

pub open spec fn plan_needs_mise(v: InstallView) -> bool {
    v.mise.len() > 0 || exists|i: int| 0 <= i < v.configs.len() && is_shell_config_id(#[trigger] v.configs[i].id)
}

/// The invariant of an installation's abstract state.
pub open spec fn view_wf(v: InstallView) -> bool {
    &&& v.needs_mise == plan_needs_mise(v)
    &&& v.tasks == tasks_for(v.deactivate.len(), v.mise.len(), v.configs.len(), v.needs_mise)
    &&& 0 <= v.next <= v.tasks.len()
    &&& 0 <= v.phase <= 2
    &&& resolved_so_far(v)
}

/// The tasks of a course refer to the phases and components that exist.
pub proof fn lemma_task_bounds(nd: nat, nm: nat, nc: nat, needs: bool, j: int)
    requires
        0 <= j < tasks_for(nd, nm, nc, needs).len(),
    ensures
        ({
            let t = tasks_for(nd, nm, nc, needs)[j];
            &&& (t matches Task::Phase(k) ==> k <= 2)
            &&& (t matches Task::Deactivate(i) ==> i < nd)
            &&& (t matches Task::Activate(i) ==> i < nm)
            &&& (t matches Task::Config(i) ==> i < nc)
        }),
{
    let a = seq![Task::Phase(0), Task::System, Task::Phase(1)];
    let d = Seq::new(nd, |i: int| Task::Deactivate(i as usize));
    let p: Seq<Task> = if needs { seq![Task::MisePrerequisite] } else { seq![] };
    let m = Seq::new(nm, |i: int| Task::Activate(i as usize));
    let h = seq![Task::Phase(2)];
    let c = Seq::new(nc, |i: int| Task::Config(i as usize));
    let f = seq![Task::Finish];
    let all = tasks_for(nd, nm, nc, needs);
    assert(all == a + d + p + m + h + c + f);
    let t = all[j];
    if j < 3 {
        assert(t == a[j]);
    } else if j < 3 + nd {
        assert(t == d[j - 3]);
    } else if j < 3 + nd + p.len() {
        assert(t == p[j - 3 - nd]);
    } else if j < 3 + nd + p.len() + nm {
        assert(t == m[j - 3 - nd - p.len()]);
    } else if j < 4 + nd + p.len() + nm {
        assert(t == h[j - 3 - nd - p.len() - nm]);
    } else if j < 4 + nd + p.len() + nm + nc {
        assert(t == c[j - 4 - nd - p.len() - nm]);
    } else {
        assert(t == f[j - 4 - nd - p.len() - nm - nc]);
    }
}

/// Mise is installed lazily: the course holds the mise prerequisite, once,
/// right after the deactivations, exactly when the plan installs a mise tool
/// or the bash or fish configuration.
pub proof fn lemma_mise_installed_only_when_needed(v: InstallView)
    requires
        view_wf(v),
    ensures
        (exists|j: int| 0 <= j < v.tasks.len() && #[trigger] v.tasks[j] == Task::MisePrerequisite) <==> (v.mise.len() > 0
            || exists|i: int| 0 <= i < v.configs.len() && (#[trigger] v.configs[i].id == "config-bash"@
                || v.configs[i].id == "config-fish"@)),
        forall|j: int| 0 <= j < v.tasks.len() && #[trigger] v.tasks[j] == Task::MisePrerequisite ==> j == 3 + v.deactivate.len(),
{
    let nd = v.deactivate.len();
    let nm = v.mise.len();
    let nc = v.configs.len();
    let needs = v.needs_mise;
    let a = seq![Task::Phase(0), Task::System, Task::Phase(1)];
    let d = Seq::new(nd, |i: int| Task::Deactivate(i as usize));
    let p: Seq<Task> = if needs { seq![Task::MisePrerequisite] } else { seq![] };
    let m = Seq::new(nm, |i: int| Task::Activate(i as usize));
    let h = seq![Task::Phase(2)];
    let c = Seq::new(nc, |i: int| Task::Config(i as usize));
    let f = seq![Task::Finish];
    let all = v.tasks;
    assert(all == a + d + p + m + h + c + f);
    assert forall|j: int| 0 <= j < all.len() && #[trigger] all[j] == Task::MisePrerequisite implies j == 3 + nd && needs by {
        if j < 3 {
            assert(all[j] == a[j]);
        } else if j < 3 + nd {
            assert(all[j] == d[j - 3]);
        } else if j < 3 + nd + p.len() {
            assert(all[j] == p[j - 3 - nd]);
        } else if j < 3 + nd + p.len() + nm {
            assert(all[j] == m[j - 3 - nd - p.len()]);
        } else if j < 4 + nd + p.len() + nm {
            assert(all[j] == h[j - 3 - nd - p.len() - nm]);
        } else if j < 4 + nd + p.len() + nm + nc {
            assert(all[j] == c[j - 4 - nd - p.len() - nm]);
        } else {
            assert(all[j] == f[j - 4 - nd - p.len() - nm - nc]);
        }
    }
    if needs {
        assert(all[3 + nd as int] == p[0]);
    }
    assert(needs <==> (nm > 0 || exists|i: int| 0 <= i < nc && (#[trigger] v.configs[i].id == "config-bash"@
        || v.configs[i].id == "config-fish"@))) by {
        if needs && nm == 0 {
            let i = choose|i: int| 0 <= i < nc && is_shell_config_id(#[trigger] v.configs[i].id);
            assert(v.configs[i].id == "config-bash"@ || v.configs[i].id == "config-fish"@);
        }
        if exists|i: int| 0 <= i < nc && (#[trigger] v.configs[i].id == "config-bash"@ || v.configs[i].id == "config-fish"@) {
            let i = choose|i: int| 0 <= i < nc && (#[trigger] v.configs[i].id == "config-bash"@ || v.configs[i].id == "config-fish"@);
            assert(is_shell_config_id(v.configs[i].id));
        }
    }
}

pub open spec fn pos_deactivate(i: int) -> int {
    3 + i
}

pub open spec fn pos_activate(nd: nat, needs: bool, i: int) -> int {
    3 + nd + (if needs { 1int } else { 0int }) + i
}

pub open spec fn pos_config(nd: nat, needs: bool, nm: nat, i: int) -> int {
    4 + nd + (if needs { 1int } else { 0int }) + nm + i
}

/// Where each component of the plan stands in the course.
pub proof fn lemma_task_positions(nd: nat, nm: nat, nc: nat, needs: bool)
    ensures
        ({
            let all = tasks_for(nd, nm, nc, needs);
            let p: int = if needs { 1 } else { 0 };
            &&& all.len() == 5 + nd + p + nm + nc
            &&& all[1] == Task::System
            &&& forall|i: int| 0 <= i < nd ==> all[#[trigger] pos_deactivate(i)] == Task::Deactivate(i as usize)
            &&& forall|i: int| 0 <= i < nm ==> all[#[trigger] pos_activate(nd, needs, i)] == Task::Activate(i as usize)
            &&& forall|i: int| 0 <= i < nc ==> all[#[trigger] pos_config(nd, needs, nm, i)] == Task::Config(i as usize)
        }),
{
    let a = seq![Task::Phase(0), Task::System, Task::Phase(1)];
    let d = Seq::new(nd, |i: int| Task::Deactivate(i as usize));
    let ps: Seq<Task> = if needs { seq![Task::MisePrerequisite] } else { seq![] };
    let m = Seq::new(nm, |i: int| Task::Activate(i as usize));
    let h = seq![Task::Phase(2)];
    let c = Seq::new(nc, |i: int| Task::Config(i as usize));
    let f = seq![Task::Finish];
    let all = tasks_for(nd, nm, nc, needs);
    assert(all == a + d + ps + m + h + c + f);
    let p: int = if needs { 1 } else { 0 };
    assert(ps.len() == p);
    assert forall|i: int| 0 <= i < nd implies all[#[trigger] pos_deactivate(i)] == Task::Deactivate(i as usize) by {
        assert(all[3 + i] == d[i]);
    }
    assert forall|i: int| 0 <= i < nm implies all[#[trigger] pos_activate(nd, needs, i)] == Task::Activate(i as usize) by {
        assert(all[3 + nd + p + i] == m[i]);
    }
    assert forall|i: int| 0 <= i < nc implies all[#[trigger] pos_config(nd, needs, nm, i)] == Task::Config(i as usize) by {
        assert(all[4 + nd + p + nm + i] == c[i]);
    }
}

pub proof fn lemma_all_set_to(m: Map<Seq<char>, OutcomeView>, cs: Seq<ComponentView>, o: OutcomeView, k: Seq<char>)
    ensures
        all_set_to(m, cs, o).dom().contains(k) <==> (m.dom().contains(k) || exists|i: int| 0 <= i < cs.len() && #[trigger] cs[i].id == k),
        (exists|i: int| 0 <= i < cs.len() && #[trigger] cs[i].id == k) ==> all_set_to(m, cs, o)[k] == o,
        !(exists|i: int| 0 <= i < cs.len() && #[trigger] cs[i].id == k) ==> all_set_to(m, cs, o)[k] == m[k],
    decreases cs.len(),
{
    if cs.len() > 0 {
        let d = cs.drop_last();
        lemma_all_set_to(m, d, o, k);
        if exists|i: int| 0 <= i < d.len() && #[trigger] d[i].id == k {
            let i = choose|i: int| 0 <= i < d.len() && #[trigger] d[i].id == k;
            assert(cs[i].id == k);
        }
        if exists|i: int| 0 <= i < cs.len() && #[trigger] cs[i].id == k {
            let i = choose|i: int| 0 <= i < cs.len() && #[trigger] cs[i].id == k;
            if i < cs.len() - 1 {
                assert(d[i].id == k);
            }
        }
    }
}

/// A step that only records outcomes other than Pending, and moves past the
/// current task having resolved what it stands for, keeps the invariant.
proof fn lemma_resolved_step(v: InstallView, w: InstallView)
    requires
        view_wf(v),
        0 <= v.next < v.tasks.len(),
        w.tasks == v.tasks,
        w.system == v.system,
        w.deactivate == v.deactivate,
        w.mise == v.mise,
        w.configs == v.configs,
        w.next == v.next + 1,
        forall|k: Seq<char>| #[trigger] v.outcomes.dom().contains(k) ==> w.outcomes.dom().contains(k),
        forall|k: Seq<char>| #[trigger] w.outcomes.dom().contains(k) && !(v.outcomes.dom().contains(k) && w.outcomes[k] == v.outcomes[k]) ==> !(w.outcomes[k] is Pending),
        forall|k: int| 0 <= k < settled_by(v, v.tasks[v.next]).len() ==> {
            let id = (#[trigger] settled_by(v, v.tasks[v.next])[k]).id;
            w.outcomes.dom().contains(id) && !(w.outcomes[id] is Pending)
        },
    ensures
        resolved_so_far(w),
{
    assert forall|j: int, k: int| #![trigger settled_by(w, w.tasks[j])[k]]
        0 <= j < w.next && 0 <= k < settled_by(w, w.tasks[j]).len() implies {
            let id = settled_by(w, w.tasks[j])[k].id;
            w.outcomes.dom().contains(id) && !(w.outcomes[id] is Pending)
        } by {
        assert(settled_by(w, w.tasks[j]) == settled_by(v, v.tasks[j]));
        if j < v.next {
            let id = settled_by(v, v.tasks[j])[k].id;
            assert(v.outcomes.dom().contains(id));
        }
    }
}

impl Installation {
    /// Well-formed: the course is that of the plan, and every component
    /// passed so far has its outcome.
    pub open spec fn wf(&self) -> bool {
        view_wf(self@)
    }

    /// Every task has run.
    pub open spec fn finished(&self) -> bool {
        self.next == self.tasks@.len()
    }

    /// An installation of `plan`, starting from `outcomes`. `interactive`
    /// ends the log with the line that leads to the summary screen.
    pub fn new(plan: InstallPlan, outcomes: Outcomes, interactive: bool) -> (s: Installation)
        ensures
            s.wf(),
            s.plan == plan,
            s@.outcomes == outcomes@,
            s@.logs.len() == 0,
            s@.next == 0,
            s@.phase == 0,
            !s@.done,
            s@.mise_ready,
            s@.interactive == interactive,
    {
        let needs_mise = plan.needs_mise_install();
        let mut tasks: Vec<Task> = Vec::new();
        tasks.push(Task::Phase(0));
        tasks.push(Task::System);
        tasks.push(Task::Phase(1));
        let nd = plan.deactivate_mise.len();
        let nm = plan.mise.len();
        let nc = plan.configs.len();
        let ghost t0 = tasks@;
        let mut i: usize = 0;
        while i < nd
            invariant
                i <= nd,
                tasks@ == t0 + Seq::new(i as nat, |k: int| Task::Deactivate(k as usize)),
            decreases nd - i,
        {
            tasks.push(Task::Deactivate(i));
            i = i + 1;
            assert(tasks@ =~= t0 + Seq::new(i as nat, |k: int| Task::Deactivate(k as usize)));
        }
        if needs_mise {
            tasks.push(Task::MisePrerequisite);
        }
        let ghost t1 = tasks@;
        let mut i: usize = 0;
        while i < nm
            invariant
                i <= nm,
                tasks@ == t1 + Seq::new(i as nat, |k: int| Task::Activate(k as usize)),
            decreases nm - i,
        {
            tasks.push(Task::Activate(i));
            i = i + 1;
            assert(tasks@ =~= t1 + Seq::new(i as nat, |k: int| Task::Activate(k as usize)));
        }
        tasks.push(Task::Phase(2));
        let ghost t2 = tasks@;
        let mut i: usize = 0;
        while i < nc
            invariant
                i <= nc,
                tasks@ == t2 + Seq::new(i as nat, |k: int| Task::Config(k as usize)),
            decreases nc - i,
        {
            tasks.push(Task::Config(i));
            i = i + 1;
            assert(tasks@ =~= t2 + Seq::new(i as nat, |k: int| Task::Config(k as usize)));
        }
        tasks.push(Task::Finish);
        let s = Installation {
            plan,
            outcomes,
            logs: Vec::new(),
            phase: 0,
            done: false,
            needs_mise,
            interactive,
            tasks,
            next: 0,
            mise_ready: true,
        };
        assert(s@.tasks =~= tasks_for(nd as nat, nm as nat, nc as nat, needs_mise));
        proof {
            let v = s@;
            if exists|i: int| 0 <= i < s.plan.configs@.len() && is_shell_config_id(#[trigger] s.plan.configs@[i].id@) {
                let i = choose|i: int| 0 <= i < s.plan.configs@.len() && is_shell_config_id(#[trigger] s.plan.configs@[i].id@);
                assert(v.configs[i] == s.plan.configs@[i]@);
                assert(is_shell_config_id(v.configs[i].id));
            }
            if exists|i: int| 0 <= i < v.configs.len() && is_shell_config_id(#[trigger] v.configs[i].id) {
                let i = choose|i: int| 0 <= i < v.configs.len() && is_shell_config_id(#[trigger] v.configs[i].id);
                assert(v.configs[i] == s.plan.configs@[i]@);
                assert(is_shell_config_id(s.plan.configs@[i].id@));
            }
            assert(v.mise.len() == s.plan.mise@.len());
            assert(v.needs_mise == plan_needs_mise(v));
        }
        assert(s.logs.deep_view() =~= Seq::<Seq<char>>::empty());
        s
    }
}


proof fn lemma_settle_stops(v: InstallView)
    requires
        0 <= v.next,
    ensures
        !at_internal(settle(v)),
        settle(v).mise_ready == v.mise_ready,
        settle(v).configs == v.configs,
        settle(v).mise == v.mise,
        settle(v).tasks == v.tasks,
    decreases v.tasks.len() - v.next,
{
    if at_internal(v) {
        lemma_settle_stops(internal_step(v));
    }
}

/// Once mise is unavailable, nothing that needs it runs: the installation
/// never again hands out a mise tool or the bash or fish configuration as a
/// step, gives each of them up with the outcome `mise prerequisite failed`,
/// and no result makes mise available again.
pub proof fn lemma_unavailable_mise_gives_up_its_dependents(v: InstallView)
    requires
        !v.mise_ready,
        0 <= v.next,
    ensures
        !(step_of(settle(v)) is Activate),
        forall|i: usize| #[trigger] step_of(settle(v)) == InstallStep::SetupConfig(i) ==> settle(v).configs[i as int].id
            != "config-bash"@ && settle(v).configs[i as int].id != "config-fish"@,
        !settle(v).mise_ready,
        0 <= v.next < v.tasks.len() ==> forall|r: ReportView| !(#[trigger] apply(v, r)).mise_ready,
        0 <= v.next < v.tasks.len() ==> forall|i: usize|
            v.tasks[v.next] == Task::Activate(i) ==> at_internal(v) && #[trigger] internal_step(v).outcomes[v.mise[i as int].id]
                == OutcomeView::Failed("mise prerequisite failed"@),
        0 <= v.next < v.tasks.len() ==> forall|i: usize|
            v.tasks[v.next] == Task::Config(i) && (v.configs[i as int].id == "config-bash"@ || v.configs[i as int].id
                == "config-fish"@) ==> at_internal(v) && #[trigger] internal_step(v).outcomes[v.configs[i as int].id]
                == OutcomeView::Failed("mise prerequisite failed"@),
{
    lemma_settle_stops(v);
    let w = settle(v);
    if step_of(w) is Activate {
        assert(0 <= w.next < w.tasks.len());
        assert(at_internal(w));
    }
    assert forall|i: usize| #[trigger] step_of(w) == InstallStep::SetupConfig(i) implies w.configs[i as int].id
        != "config-bash"@ && w.configs[i as int].id != "config-fish"@ by {
        assert(0 <= w.next < w.tasks.len());
        assert(w.tasks[w.next] == Task::Config(i));
    }
}

/// The id belongs to a component of the plan.
pub open spec fn in_plan(v: InstallView, id: Seq<char>) -> bool {
    ||| exists|i: int| 0 <= i < v.system.len() && #[trigger] v.system[i].id == id
    ||| exists|i: int| 0 <= i < v.deactivate.len() && #[trigger] v.deactivate[i].id == id
    ||| exists|i: int| 0 <= i < v.mise.len() && #[trigger] v.mise[i].id == id
    ||| exists|i: int| 0 <= i < v.configs.len() && #[trigger] v.configs[i].id == id
}

/// When an installation has run its whole course, every component of its
/// plan has an outcome, and it is no longer Pending.
pub proof fn lemma_finished_resolves_plan(s: Installation)
    requires
        s.wf(),
        s.finished(),
    ensures
        forall|id: Seq<char>| in_plan(s@, id) ==> s@.outcomes.dom().contains(id) && !(#[trigger] s@.outcomes[id] is Pending),
{
    let v = s@;
    lemma_task_positions(v.deactivate.len(), v.mise.len(), v.configs.len(), v.needs_mise);
    assert forall|id: Seq<char>| in_plan(v, id) implies v.outcomes.dom().contains(id) && !(#[trigger] v.outcomes[id] is Pending) by {
        if exists|i: int| 0 <= i < v.system.len() && #[trigger] v.system[i].id == id {
            let i = choose|i: int| 0 <= i < v.system.len() && #[trigger] v.system[i].id == id;
            assert(settled_by(v, v.tasks[1])[i] == v.system[i]);
        } else if exists|i: int| 0 <= i < v.deactivate.len() && #[trigger] v.deactivate[i].id == id {
            let i = choose|i: int| 0 <= i < v.deactivate.len() && #[trigger] v.deactivate[i].id == id;
            let j = pos_deactivate(i);
            assert(settled_by(v, v.tasks[j])[0] == v.deactivate[i]);
        } else if exists|i: int| 0 <= i < v.mise.len() && #[trigger] v.mise[i].id == id {
            let i = choose|i: int| 0 <= i < v.mise.len() && #[trigger] v.mise[i].id == id;
            let j = pos_activate(v.deactivate.len(), v.needs_mise, i);
            assert(settled_by(v, v.tasks[j])[0] == v.mise[i]);
        } else {
            let i = choose|i: int| 0 <= i < v.configs.len() && #[trigger] v.configs[i].id == id;
            let j = pos_config(v.deactivate.len(), v.needs_mise, v.mise.len(), i);
            assert(settled_by(v, v.tasks[j])[0] == v.configs[i]);
        }
    }
}

/// An installation only records outcomes of the components of its plan:
/// through the tasks that need no outside work, any other id keeps its
/// outcome.
pub proof fn lemma_settle_keeps_others(v: InstallView, id: Seq<char>)
    requires
        view_wf(v),
        !in_plan(v, id),
    ensures
        settle(v).outcomes.dom().contains(id) == v.outcomes.dom().contains(id),
        settle(v).outcomes[id] == v.outcomes[id],
        view_wf(settle(v)),
        !in_plan(settle(v), id),
    decreases v.tasks.len() - v.next,
{
    if at_internal(v) {
        let w = internal_step(v);
        lemma_task_bounds(v.deactivate.len(), v.mise.len(), v.configs.len(), v.needs_mise, v.next);
        match v.tasks[v.next] {
            Task::Activate(i) => {
                assert(v.mise[i as int].id != id);
            },
            Task::Config(i) => {
                assert(v.configs[i as int].id != id);
            },
            _ => {},
        }
        assert(w.outcomes.dom().contains(id) == v.outcomes.dom().contains(id));
        assert(w.outcomes[id] == v.outcomes[id]);
        lemma_internal_wf(v);
        lemma_settle_keeps_others(w, id);
    }
}

proof fn lemma_internal_wf(v: InstallView)
    requires
        view_wf(v),
        at_internal(v),
    ensures
        view_wf(internal_step(v)),
{
    let w = internal_step(v);
    lemma_task_bounds(v.deactivate.len(), v.mise.len(), v.configs.len(), v.needs_mise, v.next);
    lemma_resolved_step(v, w);
}

/// Through the outside work of a task, any id outside the plan keeps its
/// outcome.
pub proof fn lemma_apply_keeps_others(v: InstallView, r: ReportView, id: Seq<char>)
    requires
        view_wf(v),
        0 <= v.next < v.tasks.len(),
        !at_internal(v),
        !in_plan(v, id),
    ensures
        apply(v, r).outcomes.dom().contains(id) == v.outcomes.dom().contains(id),
        apply(v, r).outcomes[id] == v.outcomes[id],
{
    lemma_task_bounds(v.deactivate.len(), v.mise.len(), v.configs.len(), v.needs_mise, v.next);
    match v.tasks[v.next] {
        Task::System => {
            lemma_all_set_to(v.outcomes, v.system, OutcomeView::Succeeded, id);
            match r {
                ReportView::Failed(e) => lemma_all_set_to(v.outcomes, v.system, OutcomeView::Failed(e), id),
                _ => {},
            }
        },
        Task::Deactivate(i) => assert(v.deactivate[i as int].id != id),
        Task::Activate(i) => assert(v.mise[i as int].id != id),
        Task::Config(i) => assert(v.configs[i as int].id != id),
        _ => {},
    }
}

/// What each kind of report leaves as the outcome of the component the
/// step was for: a failure its error; otherwise a deactivation is
/// Deactivated, a configuration found in place AlreadyConfigured, and any
/// other step Succeeded (for the system packages, each of their
/// components). A failed mise prerequisite makes mise unavailable; one that
/// did not fail leaves it as it was.
pub proof fn lemma_reports_become_outcomes(v: InstallView, r: ReportView)
    requires
        view_wf(v),
        0 <= v.next < v.tasks.len(),
    ensures
        forall|i: usize| v.tasks[v.next] == Task::Deactivate(i) ==> #[trigger] apply(v, r).outcomes[v.deactivate[i as int].id]
            == match r {
            ReportView::Failed(e) => OutcomeView::Failed(e),
            _ => OutcomeView::Deactivated,
        },
        forall|i: usize| v.tasks[v.next] == Task::Activate(i) ==> #[trigger] apply(v, r).outcomes[v.mise[i as int].id]
            == match r {
            ReportView::Failed(e) => OutcomeView::Failed(e),
            _ => OutcomeView::Succeeded,
        },
        forall|i: usize| v.tasks[v.next] == Task::Config(i) ==> #[trigger] apply(v, r).outcomes[v.configs[i as int].id]
            == match r {
            ReportView::Failed(e) => OutcomeView::Failed(e),
            ReportView::AlreadyConfigured => OutcomeView::AlreadyConfigured,
            ReportView::Changed => OutcomeView::Succeeded,
        },
        v.tasks[v.next] == Task::System ==> forall|k: int| 0 <= k < v.system.len() ==> #[trigger] apply(v, r).outcomes[v.system[k].id]
            == match r {
            ReportView::Failed(e) => OutcomeView::Failed(e),
            _ => OutcomeView::Succeeded,
        },
        v.tasks[v.next] == Task::MisePrerequisite ==> apply(v, r).mise_ready == (v.mise_ready && !(r is Failed)),
        (v.tasks[v.next] is System || v.tasks[v.next] is Deactivate || v.tasks[v.next] is MisePrerequisite
            || v.tasks[v.next] is Activate || v.tasks[v.next] is Config) ==> apply(v, r).next == v.next + 1,
{
    lemma_task_bounds(v.deactivate.len(), v.mise.len(), v.configs.len(), v.needs_mise, v.next);
    if v.tasks[v.next] == Task::System {
        let o = match r {
            ReportView::Failed(e) => OutcomeView::Failed(e),
            _ => OutcomeView::Succeeded,
        };
        assert forall|k: int| 0 <= k < v.system.len() implies #[trigger] apply(v, r).outcomes[v.system[k].id] == o by {
            lemma_all_set_to(v.outcomes, v.system, o, v.system[k].id);
        }
    }
}

fn phase_header_text(k: usize) -> (r: String)
    ensures
        r@ == phase_header(k as int),
{
    if k == 0 {
        owned(">>> Phase 1: System Packages")
    } else if k == 1 {
        owned("\n>>> Phase 2: Mise Tools")
    } else {
        owned("\n>>> Phase 3: Configurations")
    }
}

fn error_text(prefix: &str, id: &str, e: &str) -> (r: String)
    ensures
        r@ == prefix@ + id@ + ": "@ + e@,
{
    let mut r = concat_str(prefix, id);
    r.append(": ");
    r.append(e);
    r
}

proof fn lemma_settle_internal(v: InstallView)
    requires
        at_internal(v),
    ensures
        settle(v) == settle(internal_step(v)),
{
}

impl Installation {
    fn push_log(&mut self, line: String)
        ensures
            *final(self) == (Installation { logs: final(self).logs, ..*old(self) }),
            final(self)@.logs == old(self)@.logs.push(line@),
    {
        let ghost before = self.logs.deep_view();
        self.logs.push(line);
        assert(self.logs.deep_view() =~= before.push(line@));
    }

    fn mise_task_skipped(&self, t: Task) -> (b: bool)
        requires
            self.wf(),
            t matches Task::Activate(i) ==> i < self.plan.mise@.len(),
            t matches Task::Config(i) ==> i < self.plan.configs@.len(),
        ensures
            b == (task_needs_mise(self@, t) && !self.mise_ready),
    {
        if self.mise_ready {
            return false;
        }
        match t {
            Task::Activate(_) => true,
            Task::Config(i) => {
                let id = self.plan.configs[i].id.as_str();
                assert(self@.configs[i as int] == self.plan.configs@[i as int]@);
                str_eq(id, "config-bash") || str_eq(id, "config-fish")
            },
            _ => false,
        }
    }

    fn set_all_system(&mut self, outcome: &ComponentOutcome)
        ensures
            *final(self) == (Installation { outcomes: final(self).outcomes, ..*old(self) }),
            final(self)@.outcomes == all_set_to(old(self)@.outcomes, old(self)@.system, outcome@),
    {
        let ghost m0 = self@.outcomes;
        let ghost cs = self@.system;
        let mut i: usize = 0;
        assert(cs.take(0) =~= Seq::<ComponentView>::empty());
        while i < self.plan.system.len()
            invariant
                i <= self.plan.system@.len(),
                cs == views(self.plan.system@),
                *self == (Installation { outcomes: self.outcomes, ..*old(self) }),
                self.outcomes@ == all_set_to(m0, cs.take(i as int), outcome@),
            decreases self.plan.system@.len() - i,
        {
            let o = outcome.duplicate();
            let id = self.plan.system[i].id.clone();
            self.outcomes.set(id.as_str(), o);
            proof {
                let t = cs.take(i + 1);
                assert(t.drop_last() =~= cs.take(i as int));
                assert(t.last() == self.plan.system@[i as int]@);
            }
            i = i + 1;
        }
        assert(cs.take(self.plan.system@.len() as int) =~= cs);
    }

    /// Takes the result of the outside work that the installation waits
    /// for: the components of the task get their outcome, a failure is
    /// logged, and a failed mise prerequisite gives up what needs mise.
    pub fn record(&mut self, report: StepReport)
        requires
            old(self).wf(),
            0 <= old(self)@.next < old(self)@.tasks.len(),
            !at_internal(old(self)@),
        ensures
            final(self).wf(),
            final(self)@ == apply(old(self)@, report@),
            final(self).plan == old(self).plan,
    {
        let ghost v = self@;
        let ntasks = self.tasks.len();
        let t = self.tasks[self.next];
        proof {
            lemma_task_bounds(v.deactivate.len(), v.mise.len(), v.configs.len(), v.needs_mise, v.next);
        }
        match t {
            Task::System => {
                match &report {
                    StepReport::Failed(e) => {
                        let o = ComponentOutcome::Failed(e.clone());
                        self.set_all_system(&o);
                        let line = concat_str("[ERROR] System packages: ", e.as_str());
                        self.push_log(line);
                    },
                    _ => {
                        let o = ComponentOutcome::Succeeded;
                        self.set_all_system(&o);
                    },
                }
                assert(self.next < ntasks);
                self.next = self.next + 1;
                proof {
                    let w = self@;
                    assert(w =~= apply(v, report@));
                    let o = match report@ {
                        ReportView::Failed(e) => OutcomeView::Failed(e),
                        _ => OutcomeView::Succeeded,
                    };
                    assert forall|k: Seq<char>| #[trigger] v.outcomes.dom().contains(k) implies w.outcomes.dom().contains(k) by {
                        lemma_all_set_to(v.outcomes, v.system, o, k);
                    }
                    assert forall|k: Seq<char>| #[trigger] w.outcomes.dom().contains(k) && !(v.outcomes.dom().contains(k) && w.outcomes[k] == v.outcomes[k]) implies !(w.outcomes[k] is Pending) by {
                        lemma_all_set_to(v.outcomes, v.system, o, k);
                    }
                    assert forall|k: int| 0 <= k < settled_by(v, v.tasks[v.next]).len() implies {
                        let id = (#[trigger] settled_by(v, v.tasks[v.next])[k]).id;
                        w.outcomes.dom().contains(id) && !(w.outcomes[id] is Pending)
                    } by {
                        let id = v.system[k].id;
                        lemma_all_set_to(v.outcomes, v.system, o, id);
                    }
                    lemma_resolved_step(v, w);
                }
            },
            Task::MisePrerequisite => {
                match &report {
                    StepReport::Failed(e) => {
                        self.mise_ready = false;
                        let line = concat_str("[ERROR] mise prerequisite: ", e.as_str());
                        self.push_log(line);
                    },
                    _ => {},
                }
                self.next = self.next + 1;
                proof {
                    let w = self@;
                    assert(w =~= apply(v, report@));
                    lemma_resolved_step(v, w);
                }
            },
            Task::Deactivate(i) | Task::Activate(i) | Task::Config(i) => {
                let id = match t {
                    Task::Deactivate(i) => self.plan.deactivate_mise[i].id.clone(),
                    Task::Activate(i) => self.plan.mise[i].id.clone(),
                    _ => self.plan.configs[i].id.clone(),
                };
                proof {
                    match t {
                        Task::Deactivate(i) => assert(v.deactivate[i as int] == self.plan.deactivate_mise@[i as int]@),
                        Task::Activate(i) => assert(v.mise[i as int] == self.plan.mise@[i as int]@),
                        _ => assert(v.configs[i as int] == self.plan.configs@[i as int]@),
                    }
                }
                let prefix = match t {
                    Task::Deactivate(_) => "[ERROR] deactivate ",
                    Task::Activate(_) => "[ERROR] mise tool ",
                    _ => "[ERROR] config ",
                };
                let outcome = match &report {
                    StepReport::Failed(e) => ComponentOutcome::Failed(e.clone()),
                    StepReport::AlreadyConfigured => match t {
                        Task::Config(_) => ComponentOutcome::AlreadyConfigured,
                        Task::Deactivate(_) => ComponentOutcome::Deactivated,
                        _ => ComponentOutcome::Succeeded,
                    },
                    StepReport::Changed => match t {
                        Task::Deactivate(_) => ComponentOutcome::Deactivated,
                        _ => ComponentOutcome::Succeeded,
                    },
                };
                self.outcomes.set(id.as_str(), outcome);
                match &report {
                    StepReport::Failed(e) => {
                        let line = error_text(prefix, id.as_str(), e.as_str());
                        self.push_log(line);
                    },
                    _ => {},
                }
                assert(self.next < ntasks);
                self.next = self.next + 1;
                proof {
                    let w = self@;
                    assert(w =~= apply(v, report@));
                    lemma_resolved_step(v, w);
                }
            },
            _ => {
                proof {
                    assert(false);
                }
            },
        }
    }

    /// Carries out the tasks that need no outside work (phase headers, the
    /// end, and mise tools or shell configurations that cannot run because
    /// the mise prerequisite failed), then names the outside work that the
    /// installation waits for.
    pub fn next_step(&mut self) -> (step: InstallStep)
        requires
            old(self).wf(),
        ensures
            final(self).wf(),
            final(self)@ == settle(old(self)@),
            step == step_of(final(self)@),
            final(self).plan == old(self).plan,
            !at_internal(final(self)@),
    {
        loop
            invariant
                self.wf(),
                settle(self@) == settle(old(self)@),
                self.plan == old(self).plan,
            decreases self.tasks@.len() - self.next,
        {
            let ghost v = self@;
            if self.next >= self.tasks.len() {
                return InstallStep::Finished;
            }
            let t = self.tasks[self.next];
            proof {
                lemma_task_bounds(v.deactivate.len(), v.mise.len(), v.configs.len(), v.needs_mise, v.next);
            }
            if self.mise_task_skipped(t) {
                let id = match t {
                    Task::Activate(i) => self.plan.mise[i].id.clone(),
                    Task::Config(i) => self.plan.configs[i].id.clone(),
                    _ => String::new(),
                };
                proof {
                    if let Task::Activate(i) = t {
                        assert(v.mise[i as int] == self.plan.mise@[i as int]@);
                    }
                    if let Task::Config(i) = t {
                        assert(v.configs[i as int] == self.plan.configs@[i as int]@);
                    }
                }
                self.outcomes.set(id.as_str(), ComponentOutcome::Failed(owned("mise prerequisite failed")));
                if !self.interactive {
                    let prefix = match t {
                        Task::Activate(_) => "[ERROR] mise tool ",
                        _ => "[ERROR] config ",
                    };
                    let line = error_text(prefix, id.as_str(), "mise is unavailable");
                    self.push_log(line);
                }
                self.next = self.next + 1;
                proof {
                    let w = self@;
                    assert(w =~= internal_step(v));
                    lemma_resolved_step(v, w);
                    lemma_settle_internal(v);
                }
            } else {
                match t {
                    Task::Phase(k) => {
                        let line = phase_header_text(k);
                        self.push_log(line);
                        self.phase = k;
                        self.next = self.next + 1;
                        proof {
                            let w = self@;
                            assert(w =~= internal_step(v));
                            lemma_resolved_step(v, w);
                            lemma_settle_internal(v);
                        }
                    },
                    Task::Finish => {
                        if self.interactive {
                            let line = owned("\n✅ All done! Press Enter to view the summary.");
                            self.push_log(line);
                        }
                        self.done = true;
                        self.next = self.next + 1;
                        proof {
                            let w = self@;
                            assert(w =~= internal_step(v));
                            lemma_resolved_step(v, w);
                            lemma_settle_internal(v);
                        }
                    },
                    Task::System => {
                        return InstallStep::SystemPackages;
                    },
                    Task::Deactivate(i) => {
                        return InstallStep::Deactivate(i);
                    },
                    Task::MisePrerequisite => {
                        return InstallStep::InstallMise;
                    },
                    Task::Activate(i) => {
                        return InstallStep::Activate(i);
                    },
                    Task::Config(i) => {
                        return InstallStep::SetupConfig(i);
                    },
                }
            }
        }
    }
}

} // verus!
