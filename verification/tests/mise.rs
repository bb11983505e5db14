use devenv::mise::{
    activate_mise_tools, activation_notice, deactivate_mise_tools, deactivation_args, deactivation_specs,
    global_mise_versions, home_mise_path, listing_versions, mise_bin, mise_bootstrap_result,
    mise_bootstrap_script, mise_present, mise_tool_spec, parse_global_mise_versions, JsonField,
    ListedEntry, MiseListing,
};
use devenv::registry::{Category, Component, Group, ObservedState};
use devenv::sys::CommandResult;

fn mise_component(version: Option<&str>) -> Component {
    let mut component = Component::new(
        "rust",
        "Rust",
        "Rust programming language",
        Category::Mise("rust".to_string()),
        Group::Languages,
        Some("rustc"),
        &["--version"],
    );
    component.mise_version = version.map(str::to_string);
    component
}

fn text(s: &str) -> JsonField {
    JsonField::Text(s.to_string())
}

fn entry(requested_version: JsonField, version: JsonField) -> ListedEntry {
    ListedEntry {
        requested_version,
        version,
    }
}

fn ran(success: bool, stderr: &str) -> CommandResult {
    CommandResult {
        success,
        _stdout: String::new(),
        stderr: stderr.to_string(),
    }
}

#[test]
fn mise_tool_spec_should_default_to_latest() {
    assert_eq!(
        mise_tool_spec(&mise_component(None)),
        Some("rust@latest".to_string())
    );
}

#[test]
fn mise_tool_spec_should_use_configured_version() {
    assert_eq!(
        mise_tool_spec(&mise_component(Some("1.85.0"))),
        Some("rust@1.85.0".to_string())
    );
}

#[test]
fn global_mise_json_should_prefer_requested_versions() {
    let json = r#"[
            {"version":"1.85.1","requested_version":"1.85"},
            {"version":"stable","requested_version":"stable"}
        ]"#;

    assert_eq!(
        parse_global_mise_versions("rust", json).expect("JSON should parse"),
        vec!["1.85".to_string(), "stable".to_string()]
    );
}

#[test]
fn global_mise_json_should_fall_back_to_resolved_versions() {
    let json = r#"{"rust":[{"version":"1.85.1"}]}"#;

    assert_eq!(
        parse_global_mise_versions("rust", json).expect("JSON should parse"),
        vec!["1.85.1".to_string()]
    );
}

#[test]
fn global_mise_json_should_reject_missing_versions() {
    let error = parse_global_mise_versions("rust", r#"{"rust":[{}]}"#).expect_err("missing version should fail");

    assert!(error.contains("had no version"));
}

#[test]
fn global_mise_json_should_list_each_version_once() {
    let json = r#"{"a":[{"requested_version":"stable","version":"1.85.1"}],
                   "b":[{"version":"stable"},{"requested_version":"1.84"}]}"#;

    assert_eq!(
        parse_global_mise_versions("rust", json).unwrap(),
        vec!["stable".to_string(), "1.84".to_string()]
    );
}

#[test]
fn global_mise_json_errors_name_the_tool() {
    assert_eq!(parse_global_mise_versions("rust", "not json").unwrap_err(), "invalid JSON from mise ls for rust");
    assert_eq!(
        parse_global_mise_versions("rust", "42").unwrap_err(),
        "mise ls JSON for rust was not an array or object"
    );
    assert_eq!(
        parse_global_mise_versions("rust", r#"{"rust":{"version":"1"}}"#).unwrap_err(),
        "mise ls JSON entries for rust were not an array"
    );
    assert_eq!(
        parse_global_mise_versions("rust", r#"[{"requested_version":null,"version":"1.0"}]"#).unwrap_err(),
        "mise ls JSON entry for rust had no version"
    );
    assert_eq!(
        parse_global_mise_versions("rust", r#"[7]"#).unwrap_err(),
        "mise ls JSON entry for rust had no version"
    );
}

#[test]
fn listings_are_read_by_their_parts() {
    let listing = Some(MiseListing::Groups(vec![
        Some(vec![entry(text("stable"), text("1.85.1"))]),
        Some(vec![entry(JsonField::Missing, text("stable")), entry(text("1.84"), JsonField::Missing)]),
    ]));
    assert_eq!(listing_versions("rust", &listing).unwrap(), vec!["stable".to_string(), "1.84".to_string()]);
    assert_eq!(listing_versions("rust", &None).unwrap_err(), "invalid JSON from mise ls for rust");
    assert_eq!(
        listing_versions("rust", &Some(MiseListing::Other)).unwrap_err(),
        "mise ls JSON for rust was not an array or object"
    );
}

#[test]
fn failed_mise_ls_reports_trimmed_error() {
    assert_eq!(
        global_mise_versions("rust", &ran(false, "  boom \n")).unwrap_err(),
        "mise ls failed for rust: boom"
    );
    let listed = CommandResult { success: true, _stdout: "[]".to_string(), stderr: String::new() };
    assert_eq!(global_mise_versions("rust", &listed).unwrap(), Vec::<String>::new());
}

#[test]
fn deactivation_should_target_every_global_requested_version() {
    let mut component = mise_component(None);
    component.observed = ObservedState::MiseGlobal {
        versions: vec!["1.84".to_string(), "stable".to_string()],
    };

    assert_eq!(
        deactivation_specs(&component),
        vec!["rust@1.84".to_string(), "rust@stable".to_string()]
    );
}

#[test]
fn deactivation_args_should_keep_cache_and_target_global_config() {
    assert_eq!(
        deactivation_args("rust@stable"),
        vec![
            "unuse".to_string(),
            "--global".to_string(),
            "--no-prune".to_string(),
            "rust@stable".to_string(),
        ]
    );
}

#[test]
fn deactivation_should_reject_unproven_global_state() {
    let component = mise_component(None);

    let error = deactivate_mise_tools(&[&component], &[])
        .expect_err("unproven global ownership should fail");

    assert!(error.contains("no globally configured versions"));
}

#[test]
fn deactivation_reports_each_failed_version() {
    let mut component = mise_component(None);
    component.observed = ObservedState::MiseGlobal {
        versions: vec!["1.84".to_string(), "stable".to_string()],
    };
    let results = vec![Ok(ran(true, "")), Ok(ran(false, " locked\n"))];

    assert_eq!(
        deactivate_mise_tools(&[&component], &results).unwrap_err(),
        "Some mise versions failed to deactivate: rust@stable (locked)"
    );
    let all_ok = vec![Ok(ran(true, "")), Ok(ran(true, ""))];
    assert!(deactivate_mise_tools(&[&component], &all_ok).is_ok());
}

#[test]
fn activation_reports_failed_tools_with_their_errors() {
    let rust = mise_component(None);
    let mut node = mise_component(Some("22"));
    node.id = "node".to_string();
    node.category = Category::Mise("node".to_string());
    let results = vec![Ok(ran(false, "no network\n")), Ok(ran(false, " timeout "))];

    assert_eq!(
        activate_mise_tools(&[&rust, &node], &results).unwrap_err(),
        "Some mise tools failed to install: rust@latest (no network), node@22 (timeout)"
    );
    assert!(activate_mise_tools(&[&rust], &[Ok(ran(true, ""))]).is_ok());
    assert!(activate_mise_tools(&[], &[]).is_ok());
}

#[test]
fn activation_stops_at_a_command_that_cannot_start() {
    let rust = mise_component(None);
    let mut node = mise_component(None);
    node.category = Category::Mise("node".to_string());
    let results = vec![Ok(ran(false, "no network")), Err("failed to execute process: mise".to_string())];

    assert_eq!(
        activate_mise_tools(&[&rust, &node], &results).unwrap_err(),
        "failed to execute process: mise"
    );
    let early = vec![Err("failed to execute process: mise".to_string())];
    assert_eq!(
        activate_mise_tools(&[&rust, &node], &early).unwrap_err(),
        "failed to execute process: mise"
    );
}

#[test]
fn mise_binary_prefers_path_then_home_install() {
    assert_eq!(mise_bin(true, "/home/u", |_: &String| true), "mise");
    assert_eq!(
        mise_bin(false, "/home/u", |p: &String| p == "/home/u/.local/bin/mise"),
        "/home/u/.local/bin/mise"
    );
    assert_eq!(mise_bin(false, "/home/u", |_: &String| false), "mise");
    assert_eq!(home_mise_path("/h"), "/h/.local/bin/mise");
    assert!(mise_present("/h/.local/bin/mise", false));
    assert!(mise_present("mise", true));
    assert!(!mise_present("mise", false));
}

#[test]
fn bootstrap_results_name_the_failed_stage() {
    assert_eq!(
        mise_bootstrap_result(&ran(false, " curl: (22)\n"), None).unwrap_err(),
        "Failed to install mise: curl: (22)"
    );
    assert!(mise_bootstrap_result(&ran(true, ""), Some(Ok(true))).is_ok());
    assert_eq!(
        mise_bootstrap_result(&ran(true, ""), Some(Ok(false))).unwrap_err(),
        "mise bootstrap completed but mise verification failed"
    );
    assert_eq!(
        mise_bootstrap_result(&ran(true, ""), Some(Err("not found".to_string()))).unwrap_err(),
        "mise bootstrap completed but mise could not be executed"
    );
}

#[test]
fn bootstrap_script_checks_download_before_running_it() {
    let script = mise_bootstrap_script();
    let download = script.find("curl -fsSL").unwrap();
    let check = script.find("test -s").unwrap();
    let run = script.find("sh \"$devenv_script\"").unwrap();
    assert!(script.starts_with("set -eu\n"));
    assert!(download < check && check < run);
}

#[test]
fn empty_activation_only_logs_a_notice() {
    assert_eq!(activation_notice(&[]), Some("No mise components to install."));
    assert!(activate_mise_tools(&[], &[]).is_ok());
    let rust = mise_component(None);
    assert_eq!(activation_notice(&[&rust]), None);
}
