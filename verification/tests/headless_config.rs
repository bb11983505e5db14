use devenv::headless_config::{components_from_config, ConfiguredComponent};
use devenv::registry::{get_all_components, Category, Component, ComponentAction};

fn entry(id: &str, enabled: bool, version: Option<&str>) -> ConfiguredComponent {
    ConfiguredComponent {
        id: id.to_string(),
        enabled,
        version: version.map(str::to_string),
    }
}

fn selected_component<'a>(components: &'a [Component], id: &str) -> &'a Component {
    components
        .iter()
        .find(|component| component.id == id)
        .expect("component should exist")
}

#[test]
fn config_should_select_only_enabled_components() {
    let components = components_from_config(&vec![entry("rust", true, None), entry("node", false, None)])
        .expect("config should parse");

    assert_eq!(selected_component(&components, "rust").action, ComponentAction::Install);
    assert_eq!(selected_component(&components, "node").action, ComponentAction::Keep);
    assert_eq!(selected_component(&components, "go").action, ComponentAction::Keep);
}

#[test]
fn config_should_default_mise_versions_to_latest() {
    let components = components_from_config(&vec![entry("rust", true, None)]).expect("config should parse");

    assert_eq!(selected_component(&components, "rust").mise_version, None);
}

#[test]
fn config_should_preserve_pinned_mise_versions() {
    let components =
        components_from_config(&vec![entry("rust", true, Some("1.85.0"))]).expect("config should parse");

    assert_eq!(selected_component(&components, "rust").mise_version.as_deref(), Some("1.85.0"));
}

#[test]
fn config_should_reject_unknown_component_ids() {
    let error = components_from_config(&vec![entry("does-not-exist", true, None)]).expect_err("config should fail");

    assert!(error.message().contains("Unknown component id"));
}

#[test]
fn config_should_reject_duplicate_component_ids() {
    let error = components_from_config(&vec![entry("rust", true, None), entry("rust", false, None)])
        .expect_err("config should fail");

    assert!(error.message().contains("Duplicate component id"));
}

#[test]
fn config_should_reject_version_on_non_mise_components() {
    let error =
        components_from_config(&vec![entry("config-bash", true, Some("1.0.0"))]).expect_err("config should fail");

    assert!(error.message().contains("cannot set version"));
}

#[test]
fn config_should_treat_latest_as_default_version() {
    let components =
        components_from_config(&vec![entry("rust", true, Some("latest"))]).expect("config should parse");

    assert_eq!(selected_component(&components, "rust").mise_version.as_deref(), None);
    assert!(matches!(selected_component(&components, "rust").category, Category::Mise(_)));
}

#[test]
fn sample_config_should_parse() {
    // The sample configuration lists every built-in component, enabled.
    let sample: Vec<ConfiguredComponent> = get_all_components()
        .iter()
        .map(|component| entry(&component.id, true, None))
        .collect();

    let components = components_from_config(&sample).expect("sample config should parse");

    assert!(components.iter().all(|component| component.action == ComponentAction::Install));
}

#[test]
fn config_should_reject_empty_versions() {
    let error = components_from_config(&vec![entry("rust", true, Some("   "))]).expect_err("config should fail");

    assert_eq!(error.message(), "Component rust has an empty version");
}

#[test]
fn config_should_trim_pinned_versions() {
    let components = components_from_config(&vec![entry("node", false, Some(" 22 "))]).expect("config should parse");

    let node = selected_component(&components, "node");
    assert_eq!(node.mise_version.as_deref(), Some("22"));
    assert_eq!(node.action, ComponentAction::Keep);
}

#[test]
fn empty_config_keeps_every_component() {
    let components = components_from_config(&Vec::new()).expect("config should parse");

    assert_eq!(components.len(), get_all_components().len());
    assert!(components.iter().all(|component| component.action == ComponentAction::Keep));
}
