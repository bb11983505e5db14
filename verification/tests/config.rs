use devenv::config::{
    bash_activation_text, clone_args, config_needs_mise, config_target, ensure_success,
    fish_activation_text, fish_defaults_text, has_shell_activation, next_backup_path,
    next_staging_path, nvim_backup_line, osc52_config_text, shell_backup_line,
    shell_config_update, swap_failure, ConfigOutcome, StagedSwap, SwapStep, ConfigTarget, NvimSetup, NvimStep,
    ShellConfigUpdate,
};
use devenv::registry::{Category, Component, Group};
use devenv::sys::CommandResult;

fn config_component(id: &str) -> Component {
    Component::new(id, id, "test configuration", Category::Config, Group::Configurations, None, &[])
}

fn written(update: ShellConfigUpdate) -> (String, bool) {
    match update {
        ShellConfigUpdate::Write { contents, backup } => (contents, backup),
        ShellConfigUpdate::AlreadyConfigured => panic!("expected a write"),
    }
}

/// Runs the shell setup of `id` twice on a file that holds `file`.
fn setup_twice(id: &str, file: Option<String>) -> (ConfigOutcome, ConfigOutcome) {
    let ConfigTarget::Shell { shell, activation, defaults, .. } = config_target(id) else {
        panic!("expected a shell configuration");
    };
    let first = shell_config_update(file.as_deref(), &shell, &activation, &defaults);
    let (contents, first_outcome) = match first {
        ShellConfigUpdate::Write { contents, .. } => (Some(contents), ConfigOutcome::Changed),
        ShellConfigUpdate::AlreadyConfigured => (file, ConfigOutcome::AlreadyConfigured),
    };
    let second = match shell_config_update(contents.as_deref(), &shell, &activation, &defaults) {
        ShellConfigUpdate::Write { .. } => ConfigOutcome::Changed,
        ShellConfigUpdate::AlreadyConfigured => ConfigOutcome::AlreadyConfigured,
    };
    (first_outcome, second)
}

#[test]
fn legacy_activation_should_be_backed_up_migrated_and_idempotent() {
    for (shell, legacy, activation) in [
        ("fish", "~/.local/bin/mise activate fish | source", fish_activation_text()),
        ("bash", "eval \"$($HOME/.local/bin/mise activate bash)\"", bash_activation_text()),
    ] {
        let original = format!("# user settings\n{legacy}\n# keep me\n");
        let (updated, backup) = written(shell_config_update(Some(&original), shell, &activation, ""));
        assert!(backup);
        assert!(updated.contains(&activation) && updated.ends_with("# keep me\n"));
        assert_eq!(updated, format!("# user settings\n{activation}# keep me\n"));
        assert!(!updated.contains(legacy));
        assert_eq!(
            shell_config_update(Some(&updated), shell, &activation, ""),
            ShellConfigUpdate::AlreadyConfigured
        );
    }
}

#[test]
fn commented_activation_should_not_prevent_setup() {
    let update = shell_config_update(
        Some("# mise activate fish | source\n"),
        "fish",
        &fish_activation_text(),
        "",
    );
    assert!(matches!(update, ShellConfigUpdate::Write { .. }));
}

#[test]
fn custom_activation_should_be_preserved() {
    let original = "if status is-interactive\n    /opt/mise activate fish | source\nend\n";
    assert_eq!(
        shell_config_update(Some(original), "fish", &fish_activation_text(), ""),
        ShellConfigUpdate::AlreadyConfigured
    );
}

#[test]
fn backup_path_should_use_numbered_suffixes_without_overwriting() {
    let existing = ["/root/nvim", "/root/nvim.bak", "/root/nvim.bak.1"];
    let taken = |p: &String| existing.contains(&p.as_str());

    assert_eq!(
        next_backup_path("/root/nvim", taken).expect("backup path should be available"),
        "/root/nvim.bak.2"
    );
}

#[test]
fn staging_path_is_the_plain_suffix_when_free() {
    assert_eq!(
        next_staging_path("/h/.config/nvim", |_: &String| false).unwrap(),
        "/h/.config/nvim.devenv-staging"
    );
    let taken = |p: &String| p == "/h/.config/nvim.devenv-staging";
    assert_eq!(
        next_staging_path("/h/.config/nvim", taken).unwrap(),
        "/h/.config/nvim.devenv-staging.1"
    );
}

#[test]
fn bash_configuration_should_be_idempotent() {
    assert_eq!(
        setup_twice("config-bash", None),
        (ConfigOutcome::Changed, ConfigOutcome::AlreadyConfigured)
    );
}

#[test]
fn fish_configuration_should_be_idempotent() {
    assert_eq!(
        setup_twice("config-fish", None),
        (ConfigOutcome::Changed, ConfigOutcome::AlreadyConfigured)
    );
}

#[test]
fn setup_of_existing_user_file_is_idempotent() {
    assert_eq!(
        setup_twice("config-bash", Some("alias ll='ls -l'\n".to_string())),
        (ConfigOutcome::Changed, ConfigOutcome::AlreadyConfigured)
    );
}

#[test]
fn new_fish_configuration_starts_from_defaults() {
    let (contents, backup) = written(shell_config_update(
        None,
        "fish",
        &fish_activation_text(),
        &fish_defaults_text(),
    ));
    assert!(!backup);
    assert_eq!(contents, format!("{}\n{}", fish_defaults_text(), fish_activation_text()));
}

#[test]
fn activation_is_found_only_on_uncommented_lines() {
    assert!(has_shell_activation("  eval \"$(mise activate bash)\"\n", "bash"));
    assert!(!has_shell_activation("# mise activate bash\n", "bash"));
    assert!(!has_shell_activation("mise activate fish\n", "bash"));
}

#[test]
fn config_targets_name_files_under_home() {
    match config_target("config-bash") {
        ConfigTarget::Shell { path, shell, defaults, .. } => {
            assert_eq!((path.as_str(), shell.as_str(), defaults.as_str()), (".bashrc", "bash", ""));
        }
        other => panic!("unexpected target {other:?}"),
    }
    assert_eq!(
        config_target("config-nvim"),
        ConfigTarget::Nvim { path: ".config/nvim".to_string() }
    );
    assert_eq!(
        config_target("config-zsh"),
        ConfigTarget::Unknown { message: "Unknown config component: config-zsh".to_string() }
    );
    assert!(config_needs_mise(&config_component("config-fish")));
    assert!(!config_needs_mise(&config_component("config-nvim")));
}

#[test]
fn ensure_success_explains_failures() {
    let ok = CommandResult { success: true, _stdout: String::new(), stderr: "noise".to_string() };
    assert!(ensure_success(ok, "clone LazyVim starter").is_ok());
    let quiet = CommandResult { success: false, _stdout: String::new(), stderr: " \n".to_string() };
    assert_eq!(ensure_success(quiet, "clone LazyVim starter").unwrap_err(), "Failed to clone LazyVim starter");
    let loud = CommandResult { success: false, _stdout: String::new(), stderr: "fatal: no route\n".to_string() };
    assert_eq!(
        ensure_success(loud, "clone LazyVim starter").unwrap_err(),
        "Failed to clone LazyVim starter: fatal: no route"
    );
}

#[test]
fn staged_swap_should_restore_original_when_final_swap_fails() {
    // The destination exists, so it is backed up first; the staged
    // configuration is missing, so moving it into place fails.
    let mut swap = StagedSwap::new("/h/nvim", Some("/h/nvim.bak".to_string()));
    let mut steps = Vec::new();
    while swap.step != SwapStep::Finished {
        steps.push(swap.step);
        let result = match swap.step {
            SwapStep::Install => Err("No such file or directory (os error 2)".to_string()),
            _ => Ok(()),
        };
        swap.record(result);
    }

    assert_eq!(steps, vec![SwapStep::BackUp, SwapStep::Install, SwapStep::Restore, SwapStep::DiscardStaging]);
    let error = swap.outcome().unwrap().unwrap_err();
    assert!(error.contains("Failed to install staged nvim config"));
    assert_eq!(error, "Failed to install staged nvim config: No such file or directory (os error 2)");
}

#[test]
fn staged_swap_should_back_up_existing_config_after_staging_succeeds() {
    let mut swap = StagedSwap::new("/h/nvim", Some("/h/nvim.bak".to_string()));
    assert_eq!(swap.step, SwapStep::BackUp);
    swap.record(Ok(()));
    assert_eq!(swap.step, SwapStep::Install);
    swap.record(Ok(()));
    assert_eq!(swap.outcome(), Some(Ok(Some("/h/nvim.bak".to_string()))));
}

#[test]
fn failed_restore_keeps_staging_and_reports_both_errors() {
    let mut swap = StagedSwap::new("/h/nvim", Some("/h/nvim.bak".to_string()));
    swap.record(Ok(()));
    swap.record(Err("busy".to_string()));
    assert_eq!(swap.step, SwapStep::Restore);
    swap.record(Err("denied".to_string()));
    assert_eq!(swap.step, SwapStep::Finished);
    assert_eq!(
        swap.outcome(),
        Some(Err("Failed to install staged nvim config: busy; also failed to restore original: denied".to_string()))
    );
    assert_eq!(
        swap_failure("busy", Some("denied")),
        "Failed to install staged nvim config: busy; also failed to restore original: denied"
    );
}

#[test]
fn swap_without_existing_config_needs_no_backup() {
    let mut swap = StagedSwap::new("/h/nvim", None);
    assert_eq!(swap.step, SwapStep::Install);
    swap.record(Err("gone".to_string()));
    assert_eq!(swap.step, SwapStep::DiscardStaging);
    swap.record(Ok(()));
    assert_eq!(swap.outcome(), Some(Err("Failed to install staged nvim config: gone".to_string())));
    let mut failed_backup = StagedSwap::new("/h/nvim", Some("/h/nvim.bak.1".to_string()));
    failed_backup.record(Err("denied".to_string()));
    assert_eq!(
        failed_backup.outcome(),
        Some(Err("Failed to back up nvim config from /h/nvim to /h/nvim.bak.1".to_string()))
    );
}

#[test]
fn nvim_setup_discards_staging_after_a_failed_step() {
    let mut setup = NvimSetup::new();
    assert_eq!(setup.step, NvimStep::CreateParent);
    setup.record(Ok(()));
    assert_eq!(setup.message(), Some("Cloning LazyVim starter into staging..."));
    setup.record(Err("Failed to clone LazyVim starter".to_string()));
    assert_eq!(setup.step, NvimStep::DiscardStaging);
    assert!(setup.outcome().is_none());
    setup.record(Err("cannot remove".to_string()));
    assert_eq!(setup.outcome(), Some(Err("Failed to clone LazyVim starter".to_string())));
}

#[test]
fn nvim_setup_swaps_after_every_step_succeeds() {
    let mut setup = NvimSetup::new();
    let mut steps = Vec::new();
    while setup.step != NvimStep::Finished {
        steps.push(setup.step);
        setup.record(Ok(()));
    }
    assert_eq!(
        steps,
        vec![
            NvimStep::CreateParent,
            NvimStep::Clone,
            NvimStep::RemoveGitMetadata,
            NvimStep::AppendClipboard,
            NvimStep::Swap,
        ]
    );
    assert_eq!(setup.outcome(), Some(Ok(ConfigOutcome::Changed)));
}

#[test]
fn nvim_texts() {
    assert_eq!(
        clone_args("/h/.config/nvim.devenv-staging"),
        vec!["clone", "https://github.com/LazyVim/starter", "/h/.config/nvim.devenv-staging"]
    );
    assert_eq!(nvim_backup_line("/h/nvim.bak"), "Existing nvim config backed up to /h/nvim.bak");
    assert_eq!(shell_backup_line("/h/.bashrc.bak"), "Existing configuration backed up to /h/.bashrc.bak");
    assert!(osc52_config_text().contains("vim.g.clipboard"));
}
