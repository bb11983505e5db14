use devenv::registry::{Category, Component, Group};
use devenv::sys::{CommandResult, DistroFamily};
use devenv::system::{install_log_line, install_runs, install_system_packages, system_package_plan, update_warning};

fn system(id: &str) -> Component {
    Component::new(id, id, "system dependencies", Category::SystemPackage, Group::System, None, &[])
}

fn ran(success: bool, stderr: &str) -> CommandResult {
    CommandResult { success, _stdout: String::new(), stderr: stderr.to_string() }
}

#[test]
fn debian_base_dependencies_refresh_then_install() {
    let base = system("base-deps");
    let plan = system_package_plan(&[&base], DistroFamily::Debian).unwrap();

    assert_eq!(plan.update, Some(vec!["sudo".to_string(), "apt-get".to_string(), "update".to_string()]));
    assert_eq!(plan.packages, vec!["build-essential", "curl", "wget", "git", "unzip", "tar"]);
    assert_eq!(
        plan.install,
        vec!["sudo", "apt-get", "install", "-y", "build-essential", "curl", "wget", "git", "unzip", "tar"]
    );
    assert!(plan.ignored.is_empty());
    assert_eq!(install_log_line(&plan), "Installing system packages: build-essential curl wget git unzip tar");
}

#[test]
fn redhat_needs_no_refresh_and_arch_uses_pacman() {
    let base = system("base-deps");
    let redhat = system_package_plan(&[&base], DistroFamily::RedHat).unwrap();
    assert_eq!(redhat.update, None);
    assert_eq!(redhat.install[..4], ["sudo", "dnf", "install", "-y"]);
    assert_eq!(redhat.packages.len(), 8);
    let arch = system_package_plan(&[&base], DistroFamily::Arch).unwrap();
    assert_eq!(arch.update, Some(vec!["sudo".to_string(), "pacman".to_string(), "-Sy".to_string()]));
    assert_eq!(arch.packages[0], "base-devel");
}

#[test]
fn unknown_system_components_are_logged_and_skipped() {
    let other = system("fonts");
    let plan = system_package_plan(&[&other], DistroFamily::Debian).unwrap();

    assert_eq!(plan.ignored, vec!["Ignoring unknown system component: fonts"]);
    assert!(plan.packages.is_empty());
}

#[test]
fn unsupported_distribution_is_an_error_only_with_components() {
    let base = system("base-deps");
    assert_eq!(
        system_package_plan(&[&base], DistroFamily::Unknown).err(),
        Some("Unsupported distribution family: Unknown".to_string())
    );
    let empty = system_package_plan(&[], DistroFamily::Unknown).unwrap();
    assert_eq!(empty.update, None);
    assert!(empty.install.is_empty());
    assert!(install_system_packages(&[], DistroFamily::Unknown, None, None).is_ok());
}

#[test]
fn failed_install_reports_trimmed_error() {
    let base = system("base-deps");
    let result = install_system_packages(
        &[&base],
        DistroFamily::Debian,
        Some(Ok(ran(false, "stale lists"))),
        Some(Ok(ran(false, "E: Unable to locate package\n"))),
    );

    assert_eq!(result.unwrap_err(), "Failed to install system packages: E: Unable to locate package");
}

#[test]
fn refresh_that_cannot_start_ends_the_install() {
    let base = system("base-deps");
    let result = install_system_packages(&[&base], DistroFamily::Debian, Some(Err("no sudo".to_string())), None);

    assert_eq!(result.unwrap_err(), "no sudo");
}

#[test]
fn failed_refresh_is_only_a_warning() {
    let base = system("base-deps");
    let result = install_system_packages(
        &[&base],
        DistroFamily::Debian,
        Some(Ok(ran(false, "stale"))),
        Some(Ok(ran(true, ""))),
    );
    assert!(result.is_ok());
    assert_eq!(
        update_warning(&ran(false, "stale\n")),
        Some("Warning: Package list update returned non-zero. Error: stale\n".to_string())
    );
    assert_eq!(update_warning(&ran(true, "stale")), None);
}

#[test]
fn install_runs_only_with_packages_and_a_started_refresh() {
    let base = system("base-deps");
    let plan = system_package_plan(&[&base], DistroFamily::Debian).unwrap();
    assert!(install_runs(&plan, &Some(Ok(ran(false, "stale")))));
    assert!(!install_runs(&plan, &Some(Err("no sudo".to_string()))));
    let other = system("fonts");
    let empty = system_package_plan(&[&other], DistroFamily::RedHat).unwrap();
    assert!(!install_runs(&empty, &None));
}
