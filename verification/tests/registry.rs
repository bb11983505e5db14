use devenv::registry::{
    get_all_components, Category, Component, ComponentAction, Group, InstallPlan, ObservedState,
};

fn mise_component() -> Component {
    Component::new(
        "rust",
        "Rust",
        "Rust programming language",
        Category::Mise("rust".to_string()),
        Group::Languages,
        Some("rustc"),
        &["--version"],
    )
}

fn config_component(id: &str) -> Component {
    Component::new(
        id,
        id,
        "configuration",
        Category::Config,
        Group::Configurations,
        None,
        &[],
    )
}

#[test]
fn component_should_only_allow_deactivate_for_global_mise_tools() {
    let mut component = mise_component();
    component.observed = ObservedState::PathDetected("1.85.0".to_string());

    assert!(!component.set_action(ComponentAction::Deactivate));
}

#[test]
fn component_should_allow_deactivate_for_global_mise_tools() {
    let mut component = mise_component();
    component.observed = ObservedState::MiseGlobal {
        versions: vec!["stable".to_string()],
    };

    assert!(component.set_action(ComponentAction::Deactivate));
}

#[test]
fn empty_plan_should_keep_every_component() {
    let components = get_all_components();

    let plan = InstallPlan::from_components(&components);

    assert!(plan.is_empty() && plan.kept_count == components.len());
}

#[test]
fn plan_should_request_sudo_only_for_system_install_actions() {
    let mut component = Component::new(
        "base-deps",
        "Base Dependencies",
        "system dependencies",
        Category::SystemPackage,
        Group::System,
        None,
        &[],
    );
    component.action = ComponentAction::Install;

    assert!(InstallPlan::from_components(&[component]).needs_sudo());
}

#[test]
fn shell_config_should_add_implicit_mise_prerequisite() {
    let mut component = config_component("config-bash");
    component.action = ComponentAction::Install;

    assert!(InstallPlan::from_components(&[component]).needs_mise_install());
}

#[test]
fn nvim_config_should_not_add_mise_prerequisite() {
    let mut component = config_component("config-nvim");
    component.action = ComponentAction::Install;

    assert!(!InstallPlan::from_components(&[component]).needs_mise_install());
}

#[test]
fn review_should_warn_when_existing_nvim_config_will_be_replaced() {
    let mut component = config_component("config-nvim");
    component.action = ComponentAction::Install;
    component.observed = ObservedState::ExistingConfig;

    assert!(InstallPlan::from_components(&[component]).replaces_existing_nvim_config());
}

#[test]
fn install_action_should_describe_global_mise_tool_as_update() {
    let mut component = mise_component();
    component.action = ComponentAction::Install;
    component.observed = ObservedState::MiseGlobal {
        versions: vec!["1.85".to_string()],
    };

    assert_eq!(component.action_label(), "Update to latest");
}

#[test]
fn plan_should_partition_deactivation_separately_from_install() {
    let mut component = mise_component();
    component.observed = ObservedState::MiseGlobal {
        versions: vec!["stable".to_string()],
    };
    component.action = ComponentAction::Deactivate;

    let plan = InstallPlan::from_components(&[component]);

    assert!(plan.mise.is_empty() && plan.deactivate_mise.len() == 1);
}

#[test]
fn install_plan_should_separate_selected_system_packages() {
    let mut system = Component::new(
        "base-deps",
        "Base Dependencies",
        "Compilers, curl, git, tar, unzip",
        Category::SystemPackage,
        Group::System,
        None,
        &[],
    );
    system.action = ComponentAction::Install;

    let plan = InstallPlan::from_components(&[system]);

    assert_eq!(plan.system.len(), 1);
    assert!(plan.mise.is_empty());
    assert!(plan.deactivate_mise.is_empty());
    assert!(plan.configs.is_empty());
}

#[test]
fn install_plan_should_only_clone_selected_components_per_phase() {
    let mut system = Component::new(
        "base-deps",
        "Base Dependencies",
        "Compilers, curl, git, tar, unzip",
        Category::SystemPackage,
        Group::System,
        None,
        &[],
    );
    system.action = ComponentAction::Install;

    let mut mise = Component::new(
        "rust",
        "Rust",
        "Rust programming language",
        Category::Mise("rust".to_string()),
        Group::Languages,
        Some("rustc"),
        &["--version"],
    );
    mise.action = ComponentAction::Install;

    let mut config = Component::new(
        "config-fish",
        "Fish Configuration",
        "Aliases, colors, mise paths",
        Category::Config,
        Group::Configurations,
        None,
        &[],
    );
    config.action = ComponentAction::Keep;

    let plan = InstallPlan::from_components(&[system, mise, config]);

    assert_eq!(plan.system.len(), 1);
    assert_eq!(plan.mise.len(), 1);
    assert!(plan.deactivate_mise.is_empty());
    assert!(plan.configs.is_empty());
}

#[test]
fn install_plan_should_preserve_mise_versions() {
    let mut mise = Component::new(
        "rust",
        "Rust",
        "Rust programming language",
        Category::Mise("rust".to_string()),
        Group::Languages,
        Some("rustc"),
        &["--version"],
    );
    mise.action = ComponentAction::Install;
    mise.mise_version = Some("1.85.0".to_string());

    let plan = InstallPlan::from_components(&[mise]);

    assert_eq!(plan.mise[0].mise_version.as_deref(), Some("1.85.0"));
}

#[test]
fn plan_counts_mutations_and_kept_components() {
    let mut install = mise_component();
    install.action = ComponentAction::Install;
    let kept = config_component("config-nvim");
    let mut deactivate = mise_component();
    deactivate.id = "go".to_string();
    deactivate.observed = ObservedState::MiseGlobal {
        versions: vec!["1.22".to_string()],
    };
    deactivate.action = ComponentAction::Deactivate;

    let plan = InstallPlan::from_components(&[install, kept, deactivate]);

    assert_eq!(plan.mutation_count(), 2);
    assert_eq!(plan.kept_count, 1);
    assert!(!plan.needs_sudo());
    assert!(plan.needs_mise_install());
}

#[test]
fn deactivated_system_components_are_left_out_of_every_phase() {
    let mut system = Component::new(
        "base-deps",
        "Base Dependencies",
        "system dependencies",
        Category::SystemPackage,
        Group::System,
        None,
        &[],
    );
    system.action = ComponentAction::Deactivate;

    let plan = InstallPlan::from_components(&[system]);

    assert!(plan.is_empty());
    assert_eq!(plan.kept_count, 0);
}

#[test]
fn observed_labels_describe_each_state() {
    let mut component = mise_component();
    assert_eq!(component.observed_label(), "Unknown");
    component.observed = ObservedState::Missing;
    assert_eq!(component.observed_label(), "Not detected");
    component.observed = ObservedState::PathDetected("1.85.0".to_string());
    assert_eq!(component.observed_label(), "Detected on PATH (1.85.0)");
    component.observed = ObservedState::ExistingConfig;
    assert_eq!(component.observed_label(), "Existing configuration");
    component.observed = ObservedState::MiseGlobal {
        versions: vec!["1.84".to_string(), "stable".to_string()],
    };
    assert_eq!(component.observed_label(), "Globally managed by mise (1.84, stable)");
}

#[test]
fn action_labels_follow_category_and_observation() {
    let mut config = config_component("config-nvim");
    assert_eq!(config.action_label(), "Keep");
    config.action = ComponentAction::Install;
    assert_eq!(config.action_label(), "Install");
    config.observed = ObservedState::ExistingConfig;
    assert_eq!(config.action_label(), "Reinstall");
    let mut mise = mise_component();
    mise.observed = ObservedState::MiseGlobal {
        versions: vec!["stable".to_string()],
    };
    mise.action = ComponentAction::Deactivate;
    assert_eq!(mise.action_label(), "Deactivate");
}

#[test]
fn toggle_install_switches_keep_and_install() {
    let mut component = mise_component();
    component.toggle_install();
    assert_eq!(component.action, ComponentAction::Install);
    component.toggle_install();
    assert_eq!(component.action, ComponentAction::Keep);
}

#[test]
fn group_labels_name_each_section() {
    assert_eq!(Group::System.label(), "🖥️  System");
    assert_eq!(Group::ExtraTools.label(), "📦  Extra Tools");
}

#[test]
fn built_in_components_have_unique_ids() {
    let components = get_all_components();
    for (i, a) in components.iter().enumerate() {
        for b in components.iter().skip(i + 1) {
            assert_ne!(a.id, b.id);
        }
    }
    assert_eq!(components[0].id, "base-deps");
}
