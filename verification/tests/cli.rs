use devenv::cli::{all_components_to_install, cli_helper, headless_all, headless_config_path, help_text, version_text, CliHelper};
use devenv::registry::{get_all_components, ComponentAction};

fn args(list: &[&str]) -> Vec<String> {
    list.iter().map(|a| a.to_string()).collect()
}

#[test]
fn headless_config_path_should_parse_long_flag() {
    let args = args(&["devenv", "--config", "devenv.example.toml"]);

    assert_eq!(
        headless_config_path(&args).expect("args should parse"),
        Some("devenv.example.toml".to_string())
    );
}

#[test]
fn headless_config_path_should_parse_equals_form() {
    let args = args(&["devenv", "--config=devenv.example.toml"]);

    assert_eq!(
        headless_config_path(&args).expect("args should parse"),
        Some("devenv.example.toml".to_string())
    );
}

#[test]
fn headless_config_path_should_reject_missing_path() {
    let args = args(&["devenv", "--config"]);

    assert!(headless_config_path(&args).is_err());
}

#[test]
fn headless_config_path_errors_name_the_flag() {
    assert_eq!(headless_config_path(&args(&["devenv", "-c"])).unwrap_err(), "-c requires a path");
    assert_eq!(headless_config_path(&args(&["devenv", "--config="])).unwrap_err(), "--config requires a path");
    assert_eq!(headless_config_path(&args(&["devenv", "--all"])).unwrap(), None);
    assert_eq!(headless_config_path(&args(&["--config", "ignored"])).unwrap(), None);
    assert_eq!(headless_config_path(&args(&["devenv", "-c", "a.toml", "--config", "b.toml"])).unwrap(), Some("a.toml".to_string()));
}

#[test]
fn cli_helper_should_parse_help_flags() {
    for flag in ["--help", "-h"] {
        let args = args(&["devenv", flag]);

        assert_eq!(cli_helper(&args), Some(CliHelper::Help));
    }
}

#[test]
fn cli_helper_should_parse_version_flags() {
    for flag in ["--version", "-v"] {
        let args = args(&["devenv", flag]);

        assert_eq!(cli_helper(&args), Some(CliHelper::Version));
    }
}

#[test]
fn cli_helper_should_prefer_help_over_later_install_args() {
    let args = args(&["devenv", "--help", "--all"]);

    assert_eq!(cli_helper(&args), Some(CliHelper::Help));
}

#[test]
fn cli_helper_ignores_the_program_name() {
    assert_eq!(cli_helper(&args(&["--help"])), None);
    assert_eq!(cli_helper(&args(&["devenv", "--all", "-v", "-h"])), Some(CliHelper::Version));
}

#[test]
fn headless_all_follows_flag_and_environment() {
    assert!(headless_all(&args(&["devenv", "--all"]), None, None));
    assert!(headless_all(&args(&["devenv"]), Some("true"), None));
    assert!(!headless_all(&args(&["devenv"]), Some("1"), None));
    assert!(headless_all(&args(&["devenv"]), None, Some("1")));
    assert!(!headless_all(&args(&["devenv"]), None, Some("true")));
}

#[test]
fn all_mode_installs_every_built_in_component() {
    let components = all_components_to_install();

    assert_eq!(components.len(), get_all_components().len());
    assert!(components.iter().all(|c| c.action == ComponentAction::Install));
}

#[test]
fn help_and_version_texts() {
    assert_eq!(version_text("0.3.0"), "devenv 0.3.0");
    let help = help_text("0.3.0");
    assert!(help.starts_with("devenv-linux 0.3.0\n\nUsage:\n  devenv [OPTIONS]\n"));
    assert!(help.contains("  -c, --config <PATH>    Install enabled components from a TOML config\n"));
}
