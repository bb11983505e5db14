use devenv::app::{handle_selection_action_key, App, Key, KeyEffect, Screen};
use devenv::manifest::ManifestTool;
use devenv::registry::{
    get_all_components, Category, Component, ComponentAction, ComponentOutcome, Group,
    ObservedState,
};

fn test_app(components: Vec<Component>) -> App {
    App::with_components(components, Vec::new())
}

fn mise_component() -> Component {
    Component::new(
        "rust",
        "Rust",
        "Rust programming language",
        Category::Mise("rust".to_string()),
        Group::Languages,
        Some("rustc"),
        &["--version"],
    )
}

fn action_test_component() -> Component {
    let mut component = mise_component();
    component.observed = ObservedState::MiseGlobal {
        versions: vec!["stable".to_string()],
    };
    component
}

fn tool(name: &str, mise_id: &str, description: &str) -> ManifestTool {
    ManifestTool {
        name: name.to_string(),
        mise_id: mise_id.to_string(),
        description: description.to_string(),
    }
}

#[test]
fn built_in_components_should_default_to_keep() {
    assert!(get_all_components()
        .iter()
        .all(|component| component.action == ComponentAction::Keep));
}

#[test]
fn space_toggle_should_switch_keep_and_install() {
    let mut app = test_app(vec![mise_component()]);

    app.toggle_current();

    assert_eq!(app.components[0].action, ComponentAction::Install);
}

#[test]
fn space_toggle_should_return_deactivate_to_keep() {
    let mut component = mise_component();
    component.observed = ObservedState::MiseGlobal {
        versions: vec!["stable".to_string()],
    };
    component.action = ComponentAction::Deactivate;
    let mut app = test_app(vec![component]);

    app.toggle_current();

    assert_eq!(app.components[0].action, ComponentAction::Keep);
}

#[test]
fn deactivate_should_be_rejected_for_path_only_tools() {
    let mut component = mise_component();
    component.observed = ObservedState::PathDetected("1.85.0".to_string());
    let mut app = test_app(vec![component]);

    app.set_current_action(ComponentAction::Deactivate);

    assert_eq!(app.components[0].action, ComponentAction::Keep);
}

#[test]
fn bulk_actions_should_never_select_deactivate() {
    let mut app = test_app(vec![mise_component()]);

    app.install_all();
    app.keep_all();

    assert_eq!(app.components[0].action, ComponentAction::Keep);
}

#[test]
fn search_result_should_set_existing_tool_to_install() {
    let mut app = test_app(vec![mise_component()]);
    app.search_results = vec![tool("rust", "rust", "Rust programming language")];

    app.add_search_result();

    assert_eq!(app.components[0].action, ComponentAction::Install);
}

#[test]
fn preparing_installation_should_record_kept_and_pending_outcomes() {
    let kept = mise_component();
    let mut install = mise_component();
    install.id = "node".to_string();
    install.action = ComponentAction::Install;
    let mut app = test_app(vec![kept, install]);

    app.prepare_installation();

    assert_eq!(
        (app.outcomes.get("rust"), app.outcomes.get("node")),
        (Some(&ComponentOutcome::Kept), Some(&ComponentOutcome::Pending))
    );
}

#[test]
fn selection_action_keys_should_map_to_explicit_actions() {
    let cases = [
        (Key::Char('i'), ComponentAction::Install),
        (Key::Char('u'), ComponentAction::Keep),
        (Key::Char('d'), ComponentAction::Deactivate),
    ];
    let mut actual = Vec::new();

    for (key, expected) in cases {
        let mut app = test_app(vec![action_test_component()]);
        app.components[0].action = if expected == ComponentAction::Keep {
            ComponentAction::Install
        } else {
            ComponentAction::Keep
        };
        assert!(handle_selection_action_key(&mut app, key));
        actual.push(app.components[0].action);
    }

    assert_eq!(
        actual,
        vec![
            ComponentAction::Install,
            ComponentAction::Keep,
            ComponentAction::Deactivate,
        ]
    );
}

#[test]
fn rejected_deactivation_leaves_a_notice() {
    let mut app = test_app(vec![mise_component()]);

    app.set_current_action(ComponentAction::Deactivate);

    assert_eq!(
        app.notice.as_deref(),
        Some("Only globally configured mise tools can be deactivated.")
    );
}

#[test]
fn search_result_should_add_unknown_tool_as_extra_component() {
    let mut app = test_app(vec![mise_component()]);
    app.search_results = vec![tool("zig", "zig", "Zig compiler")];

    let added = app.add_search_result();

    assert_eq!(added, Some(1));
    assert_eq!(app.cursor, 1);
    let extra = &app.components[1];
    assert_eq!(extra.id, "extra-zig");
    assert_eq!(extra.action, ComponentAction::Install);
    assert_eq!(extra.category, Category::Mise("zig".to_string()));
    assert_eq!(extra.check_args, vec!["--version".to_string()]);
    assert_eq!(app.outcomes.get("extra-zig"), Some(&ComponentOutcome::Pending));
}

#[test]
fn cursor_stays_within_the_list() {
    let mut other = mise_component();
    other.id = "node".to_string();
    let mut app = test_app(vec![mise_component(), other]);

    app.previous();
    assert_eq!(app.cursor, 0);
    app.next();
    app.next();
    assert_eq!(app.cursor, 1);
}

#[test]
fn enter_without_changes_stays_on_selection_with_notice() {
    let mut app = test_app(vec![mise_component()]);

    let effect = app.handle_key(Key::Enter);

    assert_eq!(effect, KeyEffect::Nothing);
    assert!(app.screen == Screen::Selection);
    assert_eq!(app.notice.as_deref(), Some("No changes selected."));
}

#[test]
fn confirming_review_asks_for_sudo_only_with_system_packages() {
    let mut system = Component::new(
        "base-deps",
        "Base Dependencies",
        "system dependencies",
        Category::SystemPackage,
        Group::System,
        None,
        &[],
    );
    system.action = ComponentAction::Install;
    let mut app = test_app(vec![system]);

    assert_eq!(app.handle_key(Key::Enter), KeyEffect::Nothing);
    assert!(app.screen == Screen::Review);
    assert_eq!(
        app.handle_key(Key::Enter),
        KeyEffect::StartInstallation { needs_sudo: true }
    );
    assert_eq!(app.handle_key(Key::Esc), KeyEffect::Nothing);
    assert!(app.screen == Screen::Selection);
}

#[test]
fn typing_in_search_filters_case_insensitively() {
    let tools = vec![
        tool("ripgrep", "aqua:BurntSushi/ripgrep", "Fast grep"),
        tool("Zellij", "zellij", "Terminal workspace"),
    ];
    let mut app = App::with_components(vec![mise_component()], tools);

    app.handle_key(Key::Char('/'));
    assert!(app.screen == Screen::Search);
    assert_eq!(app.search_results.len(), 2);
    app.handle_key(Key::Char('Z'));
    app.handle_key(Key::Char('E'));
    assert_eq!(app.search_query, "ZE");
    assert_eq!(app.search_results.len(), 1);
    assert_eq!(app.search_results[0].name, "Zellij");
    app.handle_key(Key::Backspace);
    app.handle_key(Key::Backspace);
    assert_eq!(app.search_query, "");
    assert_eq!(app.search_results.len(), 2);
}

#[test]
fn adding_from_search_asks_to_observe_new_component() {
    let tools = vec![tool("zig", "zig", "Zig compiler")];
    let mut app = App::with_components(vec![mise_component()], tools);

    app.handle_key(Key::Char('/'));
    let effect = app.handle_key(Key::Enter);

    assert_eq!(effect, KeyEffect::ObserveComponent(1));
    assert!(app.screen == Screen::Selection);
}

#[test]
fn report_screen_quits_on_enter() {
    let mut app = test_app(vec![mise_component()]);
    app.screen = Screen::Report;

    app.handle_key(Key::Enter);

    assert!(app.should_quit);
}

#[test]
fn search_cursor_moves_within_results() {
    let tools = vec![tool("a", "a", "a"), tool("b", "b", "b")];
    let mut app = App::with_components(vec![mise_component()], tools);
    app.search_previous();
    assert_eq!(app.search_cursor, 0);
    app.search_next();
    app.search_next();
    assert_eq!(app.search_cursor, 1);
    app.update_search();
    assert_eq!(app.search_cursor, 0);
}

#[test]
fn finishing_installation_shows_the_summary() {
    let mut app = test_app(vec![mise_component()]);
    app.start_installation();
    let mut outcomes = devenv::outcomes::Outcomes::new();
    outcomes.set("rust", ComponentOutcome::Succeeded);

    app.finish_installation(outcomes, vec!["done".to_string()], 2);

    assert!(app.screen == Screen::Report);
    assert!(app.install_done);
    assert_eq!(app.install_index, 2);
    assert_eq!(app.logs, vec!["done".to_string()]);
    assert_eq!(app.outcomes.get("rust"), Some(&ComponentOutcome::Succeeded));
}

#[test]
fn search_enter_on_existing_tool_moves_cursor_and_keeps_outcomes() {
    let mut other = mise_component();
    other.id = "node".to_string();
    other.category = Category::Mise("node".to_string());
    let tools = vec![tool("Rust", "rust", "Rust programming language")];
    let mut app = App::with_components(vec![other, mise_component()], tools);
    app.cursor = 0;
    app.handle_key(Key::Char('/'));

    let effect = app.handle_key(Key::Enter);

    assert_eq!(effect, KeyEffect::Nothing);
    assert!(app.screen == Screen::Selection);
    assert_eq!(app.cursor, 1);
    assert_eq!(app.components.len(), 2);
    assert_eq!(app.components[1].action, ComponentAction::Install);
    assert_eq!(app.outcomes.get("rust"), Some(&ComponentOutcome::Kept));
}
