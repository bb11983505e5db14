use devenv::app::App;
use devenv::install::{InstallStep, Installation, StepReport};
use devenv::registry::{Category, Component, ComponentAction, ComponentOutcome, Group, InstallPlan, ObservedState};

fn component(id: &str, category: Category, group: Group) -> Component {
    Component::new(id, id, "description", category, group, None, &[])
}

fn installation(components: Vec<Component>, interactive: bool) -> Installation {
    let mut app = App::with_components(components, Vec::new());
    app.prepare_installation();
    let plan = InstallPlan::from_components(&app.components);
    Installation::new(plan, app.outcomes.duplicate(), interactive)
}

/// Runs the installation to its end, answering each step with `answer`.
fn run(mut s: Installation, answer: impl Fn(InstallStep) -> StepReport) -> (Installation, Vec<InstallStep>) {
    let mut steps = Vec::new();
    loop {
        let step = s.next_step();
        if step == InstallStep::Finished {
            return (s, steps);
        }
        steps.push(step);
        s.record(answer(step));
    }
}

#[test]
fn failed_tool_fails_alone_and_other_components_continue() {
    let mut node = component("node", Category::Mise("node".to_string()), Group::Languages);
    node.action = ComponentAction::Install;
    let mut bash = component("config-bash", Category::Config, Group::Configurations);
    bash.action = ComponentAction::Install;
    let kept = component("go", Category::Mise("go".to_string()), Group::Languages);
    let s = installation(vec![node, bash, kept], false);

    let (s, steps) = run(s, |step| match step {
        InstallStep::Activate(0) => StepReport::Failed("Some mise tools failed to install: node@latest (exit 1)".to_string()),
        _ => StepReport::Changed,
    });

    assert_eq!(
        steps,
        vec![InstallStep::SystemPackages, InstallStep::InstallMise, InstallStep::Activate(0), InstallStep::SetupConfig(0)]
    );
    assert!(s.done);
    assert!(matches!(s.outcomes.get("node"), Some(ComponentOutcome::Failed(_))));
    assert_eq!(s.outcomes.get("config-bash"), Some(&ComponentOutcome::Succeeded));
    assert_eq!(s.outcomes.get("go"), Some(&ComponentOutcome::Kept));
    assert!(s.logs.iter().any(|l| l.starts_with("[ERROR] mise tool node: ")));
    assert!(!s.logs.iter().any(|l| l.contains("All done!")));
}

#[test]
fn failed_mise_prerequisite_gives_up_what_needs_mise() {
    let mut bash = component("config-bash", Category::Config, Group::Configurations);
    bash.action = ComponentAction::Install;
    let mut nvim = component("config-nvim", Category::Config, Group::Configurations);
    nvim.action = ComponentAction::Install;
    let s = installation(vec![bash, nvim], true);

    let (s, steps) = run(s, |step| match step {
        InstallStep::InstallMise => StepReport::Failed("Failed to install mise: curl: (22)".to_string()),
        _ => StepReport::Changed,
    });

    assert_eq!(steps, vec![InstallStep::SystemPackages, InstallStep::InstallMise, InstallStep::SetupConfig(1)]);
    assert_eq!(
        s.outcomes.get("config-bash"),
        Some(&ComponentOutcome::Failed("mise prerequisite failed".to_string()))
    );
    assert_eq!(s.outcomes.get("config-nvim"), Some(&ComponentOutcome::Succeeded));
    assert!(s.logs.contains(&"[ERROR] mise prerequisite: Failed to install mise: curl: (22)".to_string()));
    assert_eq!(s.logs.last().map(String::as_str), Some("\n✅ All done! Press Enter to view the summary."));
}

#[test]
fn system_failure_marks_every_system_component() {
    let mut base = component("base-deps", Category::SystemPackage, Group::System);
    base.action = ComponentAction::Install;
    let mut other = component("fonts", Category::SystemPackage, Group::System);
    other.action = ComponentAction::Install;
    let s = installation(vec![base, other], false);

    let (s, _) = run(s, |_| StepReport::Failed("Unsupported distribution family: Unknown".to_string()));

    for id in ["base-deps", "fonts"] {
        assert_eq!(
            s.outcomes.get(id),
            Some(&ComponentOutcome::Failed("Unsupported distribution family: Unknown".to_string()))
        );
    }
    assert_eq!(
        s.logs,
        vec![
            ">>> Phase 1: System Packages".to_string(),
            "[ERROR] System packages: Unsupported distribution family: Unknown".to_string(),
            "\n>>> Phase 2: Mise Tools".to_string(),
            "\n>>> Phase 3: Configurations".to_string(),
        ]
    );
}

#[test]
fn deactivation_and_existing_configuration_outcomes() {
    let mut rust = component("rust", Category::Mise("rust".to_string()), Group::Languages);
    rust.observed = ObservedState::MiseGlobal { versions: vec!["stable".to_string()] };
    rust.action = ComponentAction::Deactivate;
    let mut fish = component("config-fish", Category::Config, Group::Configurations);
    fish.action = ComponentAction::Install;
    let s = installation(vec![rust, fish], true);

    let (s, steps) = run(s, |step| match step {
        InstallStep::SetupConfig(_) => StepReport::AlreadyConfigured,
        _ => StepReport::Changed,
    });

    assert_eq!(
        steps,
        vec![InstallStep::SystemPackages, InstallStep::Deactivate(0), InstallStep::InstallMise, InstallStep::SetupConfig(0)]
    );
    assert_eq!(s.outcomes.get("rust"), Some(&ComponentOutcome::Deactivated));
    assert_eq!(s.outcomes.get("config-fish"), Some(&ComponentOutcome::AlreadyConfigured));
}

#[test]
fn headless_run_logs_what_mise_being_unavailable_gives_up() {
    let mut node = component("node", Category::Mise("node".to_string()), Group::Languages);
    node.action = ComponentAction::Install;
    let mut bash = component("config-bash", Category::Config, Group::Configurations);
    bash.action = ComponentAction::Install;
    let s = installation(vec![node, bash], false);

    let (s, _) = run(s, |step| match step {
        InstallStep::InstallMise => StepReport::Failed("Failed to install mise: offline".to_string()),
        _ => StepReport::Changed,
    });

    assert!(s.logs.contains(&"[ERROR] mise tool node: mise is unavailable".to_string()));
    assert!(s.logs.contains(&"[ERROR] config config-bash: mise is unavailable".to_string()));
    assert_eq!(s.outcomes.get("node"), Some(&ComponentOutcome::Failed("mise prerequisite failed".to_string())));
}
