use devenv::observe::{config_probe, observe_command, observe_component, observe_config, observed_mise_state, ConfigProbe};
use devenv::registry::{Category, Component, Group, ObservedState};

fn mise_component() -> Component {
    Component::new(
        "rust",
        "Rust",
        "Rust programming language",
        Category::Mise("rust".to_string()),
        Group::Languages,
        Some("rustc"),
        &["--version"],
    )
}

#[test]
fn mise_detection_failure_should_preserve_path_detection() {
    let observed = observed_mise_state::<&str, _>(Err("command failed"), || {
        Some(ObservedState::PathDetected("1.85.0".to_string()))
    });

    assert_eq!(observed, ObservedState::PathDetected("1.85.0".to_string()));
}

#[test]
fn mise_detection_failure_without_path_tool_should_be_unknown() {
    let observed = observed_mise_state::<&str, _>(Err("command failed"), || None);

    assert_eq!(observed, ObservedState::Unknown);
}

#[test]
fn successful_empty_mise_detection_without_path_tool_should_be_missing() {
    let observed = observed_mise_state::<&str, _>(Ok(Vec::new()), || None);

    assert_eq!(observed, ObservedState::Missing);
}

#[test]
fn global_versions_win_over_path_detection() {
    let observed = observed_mise_state::<&str, _>(Ok(vec!["stable".to_string()]), || {
        Some(ObservedState::PathDetected("1.85.0".to_string()))
    });

    assert_eq!(
        observed,
        ObservedState::MiseGlobal {
            versions: vec!["stable".to_string()]
        }
    );
}

#[test]
fn command_observation_reports_version_or_detected() {
    let component = mise_component();
    assert_eq!(
        observe_command(&component, |_: &String| true, |_: &String, _: &Vec<String>| Some("1.85.0".to_string())),
        Some(ObservedState::PathDetected("1.85.0".to_string()))
    );
    assert_eq!(
        observe_command(&component, |_: &String| true, |_: &String, _: &Vec<String>| None),
        Some(ObservedState::PathDetected("Detected".to_string()))
    );
    assert_eq!(
        observe_command(&component, |_: &String| false, |_: &String, _: &Vec<String>| None),
        None
    );
    let mut no_args = component.clone();
    no_args.check_args = Vec::new();
    assert_eq!(
        observe_command(&no_args, |c: &String| c == "rustc", |_: &String, _: &Vec<String>| Some("x".to_string())),
        Some(ObservedState::PathDetected("Detected".to_string()))
    );
}

#[test]
fn config_observation_reads_activation_lines() {
    assert_eq!(
        config_probe("config-bash"),
        ConfigProbe::Mentions {
            path: ".bashrc".to_string(),
            needle: "mise activate bash".to_string()
        }
    );
    assert_eq!(config_probe("config-nvim"), ConfigProbe::Dir(".config/nvim".to_string()));
    assert_eq!(config_probe("other"), ConfigProbe::Nothing);
    let read = |p: &String| {
        if p == ".bashrc" {
            Some("eval \"$(mise activate bash)\"\n".to_string())
        } else {
            None
        }
    };
    assert_eq!(observe_config("config-bash", |_: &String| false, read), ObservedState::ExistingConfig);
    assert_eq!(observe_config("config-fish", |_: &String| false, read), ObservedState::Missing);
    assert_eq!(observe_config("config-nvim", |p: &String| p == ".config/nvim", read), ObservedState::ExistingConfig);
}

#[test]
fn components_are_observed_by_category() {
    let rust = mise_component();
    let observed = observe_component(
        &rust,
        |_: &String| Err("mise missing".to_string()),
        |_: &String| false,
        |_: &String, _: &Vec<String>| None,
        |_: &String| false,
        |_: &String| None,
    );
    assert_eq!(observed, ObservedState::Unknown);

    let system = Component::new("base-deps", "Base", "deps", Category::SystemPackage, Group::System, None, &[]);
    let observed = observe_component(
        &system,
        |_: &String| Ok(Vec::new()),
        |_: &String| true,
        |_: &String, _: &Vec<String>| None,
        |_: &String| false,
        |_: &String| None,
    );
    assert_eq!(observed, ObservedState::Unknown);

    let observed = observe_component(
        &rust,
        |tool: &String| Ok(vec![format!("{tool}-1")]),
        |_: &String| false,
        |_: &String, _: &Vec<String>| None,
        |_: &String| false,
        |_: &String| None,
    );
    assert_eq!(
        observed,
        ObservedState::MiseGlobal {
            versions: vec!["rust-1".to_string()]
        }
    );
}
