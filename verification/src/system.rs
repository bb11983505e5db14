//! System packages: the package manager commands that install the system
//! components on a distribution family, and what their results come to.
use vstd::prelude::*;
use crate::mise::component_views;
use crate::registry::{Component, ComponentView};
use crate::sys::{CommandResult, DistroFamily};
use crate::text::{concat_str, has_infix, join, join_strings, owned, str_eq, trim, trim_str};

verus! {

// ---------------------------------------------------------------------------
// Commands and packages
// ---------------------------------------------------------------------------

/// The command that refreshes the package lists before an installation.
pub open spec fn update_command(d: DistroFamily) -> Option<Seq<Seq<char>>> {
    match d {
        DistroFamily::Debian => Some(seq!["sudo"@, "apt-get"@, "update"@]),
        DistroFamily::Arch => Some(seq!["sudo"@, "pacman"@, "-Sy"@]),
        _ => None,
    }
}

/// The command that installs packages, before the package names.
pub open spec fn install_prefix(d: DistroFamily) -> Seq<Seq<char>> {
    match d {
        DistroFamily::Debian => seq!["sudo"@, "apt-get"@, "install"@, "-y"@],
        DistroFamily::Arch => seq!["sudo"@, "pacman"@, "-S"@, "--noconfirm"@],
        DistroFamily::RedHat => seq!["sudo"@, "dnf"@, "install"@, "-y"@],
        DistroFamily::Unknown => seq![],
    }
}

/// The packages of the `base-deps` component: a compiler toolchain, curl,
/// wget, git, unzip and tar.
pub open spec fn base_packages(d: DistroFamily) -> Seq<Seq<char>> {
    match d {
        DistroFamily::Debian => seq!["build-essential"@, "curl"@, "wget"@, "git"@, "unzip"@, "tar"@],
        DistroFamily::Arch => seq!["base-devel"@, "curl"@, "wget"@, "git"@, "unzip"@, "tar"@],
        DistroFamily::RedHat => seq!["gcc"@, "gcc-c++"@, "make"@, "curl"@, "wget"@, "git"@, "unzip"@, "tar"@],
        DistroFamily::Unknown => seq![],
    }
}

pub open spec fn is_base_deps(id: Seq<char>) -> bool {
    id == "base-deps"@
}

/// The packages that the components with these ids stand for, in order.
pub open spec fn packages_of(ids: Seq<Seq<char>>, d: DistroFamily) -> Seq<Seq<char>>
    decreases ids.len(),
{
    if ids.len() == 0 {
        seq![]
    } else {
        packages_of(ids.drop_last(), d) + if is_base_deps(ids.last()) {
            base_packages(d)
        } else {
            seq![]
        }
    }
}

pub open spec fn ignored_line(id: Seq<char>) -> Seq<char> {
    "Ignoring unknown system component: "@ + id
}

/// A log line for each id that is no known system component.
pub open spec fn ignored_of(ids: Seq<Seq<char>>) -> Seq<Seq<char>>
    decreases ids.len(),
{
    if ids.len() == 0 {
        seq![]
    } else if is_base_deps(ids.last()) {
        ignored_of(ids.drop_last())
    } else {
        ignored_of(ids.drop_last()).push(ignored_line(ids.last()))
    }
}

pub open spec fn ids_of(cs: Seq<ComponentView>) -> Seq<Seq<char>> {
    cs.map_values(|c: ComponentView| c.id)
}

pub open spec fn unsupported_message() -> Seq<char> {
    "Unsupported distribution family: Unknown"@
}

// ---------------------------------------------------------------------------
// The plan
// ---------------------------------------------------------------------------

/// The commands that install a set of system components.
pub struct SystemPlan {
    /// The command to run first, whatever comes after it.
    pub update: Option<Vec<String>>,
    /// A log line for each component that is no known system component.
    pub ignored: Vec<String>,
    /// The packages to install; none means that nothing is installed.
    pub packages: Vec<String>,
    /// The command that installs `packages`.
    pub install: Vec<String>,
}

pub struct SystemPlanView {
    pub update: Option<Seq<Seq<char>>>,
    pub ignored: Seq<Seq<char>>,
    pub packages: Seq<Seq<char>>,
    pub install: Seq<Seq<char>>,
}

impl View for SystemPlan {
    type V = SystemPlanView;

    open spec fn view(&self) -> SystemPlanView {
        SystemPlanView {
            update: match self.update {
                Some(u) => Some(u.deep_view()),
                None => None,
            },
            ignored: self.ignored.deep_view(),
            packages: self.packages.deep_view(),
            install: self.install.deep_view(),
        }
    }
}

/// What installing the system components with these ids on `d` runs: no
/// command at all for no component; none either, but an error, on a family
/// that is not supported.
pub open spec fn system_plan_of(ids: Seq<Seq<char>>, d: DistroFamily) -> Result<SystemPlanView, Seq<char>> {
    if ids.len() == 0 {
        Ok(SystemPlanView { update: None, ignored: seq![], packages: seq![], install: seq![] })
    } else if d == DistroFamily::Unknown {
        Err(unsupported_message())
    } else {
        Ok(
            SystemPlanView {
                update: update_command(d),
                ignored: ignored_of(ids),
                packages: packages_of(ids, d),
                install: install_prefix(d) + packages_of(ids, d),
            },
        )
    }
}

pub open spec fn plan_view_result(r: Result<SystemPlan, String>) -> Result<SystemPlanView, Seq<char>> {
    match r {
        Ok(p) => Ok(p@),
        Err(e) => Err(e@),
    }
}

fn push_all(v: &mut Vec<String>, words: &[&str])
    ensures
        final(v).deep_view() == old(v).deep_view() + words@.map_values(|w: &str| w@),
{
    let ghost start = v.deep_view();
    let mut i: usize = 0;
    while i < words.len()
        invariant
            i <= words@.len(),
            v.deep_view() == start + words@.take(i as int).map_values(|w: &str| w@),
        decreases words.len() - i,
    {
        let ghost before = v.deep_view();
        v.push(owned(words[i]));
        assert(v.deep_view() =~= before.push(words@[i as int]@));
        assert(words@.take(i + 1).map_values(|w: &str| w@) =~= words@.take(i as int).map_values(
            |w: &str| w@,
        ).push(words@[i as int]@));
        i = i + 1;
    }
    assert(words@.take(words@.len() as int) =~= words@);
}

fn strings3(a: &str, b: &str, c: &str) -> (r: Vec<String>)
    ensures
        r.deep_view() == seq![a@, b@, c@],
{
    let mut r: Vec<String> = Vec::new();
    r.push(owned(a));
    r.push(owned(b));
    r.push(owned(c));
    assert(r.deep_view() =~= seq![a@, b@, c@]);
    r
}

fn strings4(a: &str, b: &str, c: &str, d: &str) -> (r: Vec<String>)
    ensures
        r.deep_view() == seq![a@, b@, c@, d@],
{
    let mut r = strings3(a, b, c);
    let ghost before = r.deep_view();
    r.push(owned(d));
    assert(r.deep_view() =~= before.push(d@));
    assert(before.push(d@) =~= seq![a@, b@, c@, d@]);
    r
}

fn update_command_exec(d: DistroFamily) -> (r: Option<Vec<String>>)
    ensures
        match r {
            Some(v) => update_command(d) == Some(v.deep_view()),
            None => update_command(d) is None,
        },
{
    match d {
        DistroFamily::Debian => Some(strings3("sudo", "apt-get", "update")),
        DistroFamily::Arch => Some(strings3("sudo", "pacman", "-Sy")),
        _ => None,
    }
}

fn install_prefix_exec(d: DistroFamily) -> (r: Vec<String>)
    ensures
        r.deep_view() == install_prefix(d),
{
    match d {
        DistroFamily::Debian => strings4("sudo", "apt-get", "install", "-y"),
        DistroFamily::Arch => strings4("sudo", "pacman", "-S", "--noconfirm"),
        DistroFamily::RedHat => strings4("sudo", "dnf", "install", "-y"),
        DistroFamily::Unknown => {
            let r: Vec<String> = Vec::new();
            assert(r.deep_view() =~= Seq::<Seq<char>>::empty());
            r
        },
    }
}

fn push_base_packages(v: &mut Vec<String>, d: DistroFamily)
    ensures
        final(v).deep_view() == old(v).deep_view() + base_packages(d),
{
    let ghost start = v.deep_view();
    match d {
        DistroFamily::Debian => {
            push_all(v, &["build-essential", "curl", "wget", "git", "unzip", "tar"]);
        },
        DistroFamily::Arch => {
            push_all(v, &["base-devel", "curl", "wget", "git", "unzip", "tar"]);
        },
        DistroFamily::RedHat => {
            push_all(v, &["gcc", "gcc-c++", "make", "curl", "wget", "git", "unzip", "tar"]);
        },
        DistroFamily::Unknown => {},
    }
    assert(v.deep_view() =~= start + base_packages(d));
}

/// The commands that install the system components `components` on a
/// distribution of the family `distro`.
pub fn system_package_plan(components: &[&Component], distro: DistroFamily) -> (r: Result<SystemPlan, String>)
    ensures
        plan_view_result(r) == system_plan_of(ids_of(component_views(components@)), distro),
{
    let ghost ids = ids_of(component_views(components@));
    if components.len() == 0 {
        let p = SystemPlan { update: None, ignored: Vec::new(), packages: Vec::new(), install: Vec::new() };
        assert(p@.ignored =~= Seq::<Seq<char>>::empty());
        assert(p@.packages =~= Seq::<Seq<char>>::empty());
        assert(p@.install =~= Seq::<Seq<char>>::empty());
        return Ok(p);
    }
    if distro == DistroFamily::Unknown {
        return Err(owned("Unsupported distribution family: Unknown"));
    }
    let update = update_command_exec(distro);
    let mut ignored: Vec<String> = Vec::new();
    let mut packages: Vec<String> = Vec::new();
    let mut i: usize = 0;
    assert(ids.take(0) =~= Seq::<Seq<char>>::empty());
    while i < components.len()
        invariant
            i <= components@.len(),
            ids == ids_of(component_views(components@)),
            ignored.deep_view() == ignored_of(ids.take(i as int)),
            packages.deep_view() == packages_of(ids.take(i as int), distro),
        decreases components@.len() - i,
    {
        let ghost t = ids.take(i + 1);
        assert(t.drop_last() =~= ids.take(i as int));
        assert(t.last() == components@[i as int].id@);
        if str_eq(components[i].id.as_str(), "base-deps") {
            push_base_packages(&mut packages, distro);
        } else {
            let ghost before = ignored.deep_view();
            ignored.push(concat_str("Ignoring unknown system component: ", components[i].id.as_str()));
            assert(ignored.deep_view() =~= before.push(ignored_line(t.last())));
            assert(packages_of(t, distro) =~= packages_of(ids.take(i as int), distro));
        }
        i = i + 1;
    }
    assert(ids.take(components@.len() as int) =~= ids);
    let mut install = install_prefix_exec(distro);
    let ghost prefix = install.deep_view();
    let mut j: usize = 0;
    while j < packages.len()
        invariant
            j <= packages@.len(),
            install.deep_view() == prefix + packages.deep_view().take(j as int),
        decreases packages.len() - j,
    {
        let ghost before = install.deep_view();
        install.push(packages[j].clone());
        assert(install.deep_view() =~= before.push(packages[j as int]@));
        assert(packages.deep_view().take(j + 1) =~= packages.deep_view().take(j as int).push(packages[j as int]@));
        j = j + 1;
    }
    assert(packages.deep_view().take(packages@.len() as int) =~= packages.deep_view());
    Ok(SystemPlan { update, ignored, packages, install })
}

/// Every supported distribution installs its system components: on an
/// os-release text that names Debian, Ubuntu, Arch, Fedora or CentOS the
/// plan is no error, it refreshes the package lists on Debian and Arch
/// first, and it installs with apt-get, pacman or dnf through sudo.
pub proof fn lemma_supported_distributions_install(os_release: Seq<char>, ids: Seq<Seq<char>>)
    requires
        ids.len() > 0,
    ensures
        ({
            let d = crate::sys::distro_of(os_release);
            let named = has_infix(os_release, "ID=debian"@) || has_infix(os_release, "ID=ubuntu"@)
                || has_infix(os_release, "ID_LIKE=debian"@) || has_infix(os_release, "ID=arch"@)
                || has_infix(os_release, "ID_LIKE=arch"@) || has_infix(os_release, "ID=fedora"@)
                || has_infix(os_release, "ID=centos"@) || has_infix(os_release, "ID_LIKE=fedora"@)
                || has_infix(os_release, "ID_LIKE=centos"@);
            &&& named <==> system_plan_of(ids, d) is Ok
            &&& has_infix(os_release, "ID=debian"@) ==> (system_plan_of(ids, d) matches Ok(p)
                && p.install.take(4) == seq!["sudo"@, "apt-get"@, "install"@, "-y"@]
                && p.update == Some(seq!["sudo"@, "apt-get"@, "update"@]))
            &&& system_plan_of(ids, d) matches Ok(p) ==> p.install.len() >= 4 && p.install[0] == "sudo"@
        }),
{
    crate::sys::lemma_distro_classification(os_release);
    let d = crate::sys::distro_of(os_release);
    if let Ok(p) = system_plan_of(ids, d) {
        assert(p.install.take(4) =~= install_prefix(d));
    }
}

/// Installing `base-deps` on a supported family runs that family's package
/// manager through sudo (apt-get on Debian, pacman on Arch, dnf on Red Hat)
/// and installs curl, wget, git, unzip and tar among its packages; on an
/// unsupported family it is refused. A system component other than
/// `base-deps` installs no package and is logged as ignored.
pub proof fn lemma_base_deps_install(d: DistroFamily, id: Seq<char>)
    ensures
        d == DistroFamily::Unknown <==> system_plan_of(seq!["base-deps"@], d) is Err,
        system_plan_of(seq!["base-deps"@], d) matches Ok(p) ==> {
            &&& p.install[0] == "sudo"@
            &&& p.install[1] == match d {
                DistroFamily::Debian => "apt-get"@,
                DistroFamily::Arch => "pacman"@,
                _ => "dnf"@,
            }
            &&& p.packages.contains("curl"@) && p.packages.contains("wget"@) && p.packages.contains("git"@)
            &&& p.packages.contains("unzip"@) && p.packages.contains("tar"@)
            &&& p.install.len() == 4 + p.packages.len()
            &&& p.install.skip(4) == p.packages
        },
        id != "base-deps"@ && d != DistroFamily::Unknown ==> (system_plan_of(seq![id], d) matches Ok(p)
            && p.packages.len() == 0 && p.ignored == seq!["Ignoring unknown system component: "@ + id]),
{
    let ids = seq!["base-deps"@];
    assert(ids.drop_last() =~= Seq::<Seq<char>>::empty());
    assert(ids.last() == "base-deps"@);
    assert(packages_of(ids.drop_last(), d) == Seq::<Seq<char>>::empty());
    assert(packages_of(ids, d) =~= base_packages(d));
    let b = base_packages(d);
    match d {
        DistroFamily::Debian => {
            assert(b[1] == "curl"@ && b[2] == "wget"@ && b[3] == "git"@ && b[4] == "unzip"@ && b[5] == "tar"@);
        },
        DistroFamily::Arch => {
            assert(b[1] == "curl"@ && b[2] == "wget"@ && b[3] == "git"@ && b[4] == "unzip"@ && b[5] == "tar"@);
        },
        DistroFamily::RedHat => {
            assert(b[3] == "curl"@ && b[4] == "wget"@ && b[5] == "git"@ && b[6] == "unzip"@ && b[7] == "tar"@);
        },
        DistroFamily::Unknown => {},
    }
    if let Ok(p) = system_plan_of(ids, d) {
        assert(p.install.skip(4) =~= p.packages);
    }
    let other = seq![id];
    assert(other.drop_last() =~= Seq::<Seq<char>>::empty());
    assert(other.last() == id);
    assert(packages_of(other.drop_last(), d) == Seq::<Seq<char>>::empty());
    assert(ignored_of(other.drop_last()) == Seq::<Seq<char>>::empty());
    if id != "base-deps"@ {
        assert(packages_of(other, d) =~= Seq::<Seq<char>>::empty());
        assert(ignored_of(other) =~= seq![ignored_line(id)]);
    }
}

// ---------------------------------------------------------------------------
// Results
// ---------------------------------------------------------------------------

pub open spec fn update_warning_line(stderr: Seq<char>) -> Seq<char> {
    "Warning: Package list update returned non-zero. Error: "@ + stderr
}

/// The warning that a failed refresh of the package lists leaves; the
/// installation goes on after it.
pub fn update_warning(result: &CommandResult) -> (w: Option<String>)
    ensures
        match w {
            Some(t) => !result.success && t@ == update_warning_line(result.stderr@),
            None => result.success,
        },
{
    if result.success {
        None
    } else {
        Some(concat_str("Warning: Package list update returned non-zero. Error: ", result.stderr.as_str()))
    }
}

pub open spec fn install_failure(stderr: Seq<char>) -> Seq<char> {
    "Failed to install system packages: "@ + trim(stderr)
}

/// Whether the refresh command ran and could not be started at all.
pub open spec fn update_aborted(d: DistroFamily, update: Option<Result<CommandResult, String>>) -> bool {
    update_command(d) is Some && update matches Some(Err(_))
}

/// The result of installing the system components with these ids on `d`,
/// where `update` is the result of the refresh command and `install` that of
/// the install command, each where it ran.
pub open spec fn system_result(
    ids: Seq<Seq<char>>,
    d: DistroFamily,
    update: Option<Result<CommandResult, String>>,
    install: Option<Result<CommandResult, String>>,
) -> Result<(), Seq<char>> {
    if ids.len() == 0 {
        Ok(())
    } else if d == DistroFamily::Unknown {
        Err(unsupported_message())
    } else if update_aborted(d, update) {
        match update {
            Some(Err(e)) => Err(e@),
            _ => Ok(()),
        }
    } else if packages_of(ids, d).len() == 0 {
        Ok(())
    } else {
        match install {
            Some(Ok(r)) => if r.success {
                Ok(())
            } else {
                Err(install_failure(r.stderr@))
            },
            Some(Err(e)) => Err(e@),
            None => Ok(()),
        }
    }
}

/// The commands of the plan that run: the refresh command where the family
/// has one, then the install command where there are packages, unless the
/// refresh command could not be started.
pub open spec fn results_match(
    ids: Seq<Seq<char>>,
    d: DistroFamily,
    update: Option<Result<CommandResult, String>>,
    install: Option<Result<CommandResult, String>>,
) -> bool {
    let active = ids.len() > 0 && d != DistroFamily::Unknown;
    &&& update is Some <==> (active && update_command(d) is Some)
    &&& install is Some <==> (active && !update_aborted(d, update) && packages_of(ids, d).len() > 0)
}

pub open spec fn unit_result_view(r: Result<(), String>) -> Result<(), Seq<char>> {
    match r {
        Ok(()) => Ok(()),
        Err(e) => Err(e@),
    }
}

/// The result of installing the system components `components` on
/// `distro`, given how the commands of its plan went: a failed refresh is
/// only a warning, a refresh that could not be started ends the
/// installation with its error, and a failed install fails it.
pub fn install_system_packages(
    components: &[&Component],
    distro: DistroFamily,
    update: Option<Result<CommandResult, String>>,
    install: Option<Result<CommandResult, String>>,
) -> (r: Result<(), String>)
    requires
        results_match(ids_of(component_views(components@)), distro, update, install),
    ensures
        unit_result_view(r) == system_result(ids_of(component_views(components@)), distro, update, install),
{
    let ghost ids = ids_of(component_views(components@));
    let plan = system_package_plan(components, distro);
    match plan {
        Err(e) => Err(e),
        Ok(p) => {
            if components.len() == 0 {
                return Ok(());
            }
            match update {
                Some(Err(e)) => {
                    return Err(e);
                },
                _ => {},
            }
            if p.packages.len() == 0 {
                return Ok(());
            }
            match install {
                Some(Ok(r)) => {
                    if r.success {
                        Ok(())
                    } else {
                        let why = trim_str(r.stderr.as_str());
                        Err(concat_str("Failed to install system packages: ", why.as_str()))
                    }
                },
                Some(Err(e)) => Err(e),
                None => Ok(()),
            }
        },
    }
}

/// Whether the install command of `plan` runs after the refresh went as
/// `update`: where there are packages and the refresh did not fail to
/// start.
pub fn install_runs(plan: &SystemPlan, update: &Option<Result<CommandResult, String>>) -> (b: bool)
    ensures
        b == (plan.packages@.len() > 0 && !(*update matches Some(Err(_)))),
{
    let aborted = match update {
        Some(Err(_)) => true,
        _ => false,
    };
    plan.packages.len() > 0 && !aborted
}

/// `Installing system packages: <packages>`.
pub fn install_log_line(plan: &SystemPlan) -> (r: String)
    ensures
        r@ == "Installing system packages: "@ + join(plan.packages.deep_view(), " "@),
{
    let joined = join_strings(&plan.packages, " ");
    concat_str("Installing system packages: ", joined.as_str())
}

} // verus!
