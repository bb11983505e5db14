use devenv::outcomes::Outcomes;
use devenv::registry::{Category, Component, ComponentAction, ComponentOutcome, Group, InstallPlan, ObservedState};
use devenv::view::{
    action_marker, category_label, check_command_line, cursor_row, installing_title, log_tail,
    log_tone, observed_tone, plain_report_lines, report, report_title, review_notes,
    review_rows, review_title, search_title, selection_footer, selection_rows, ReviewNote,
    SelectionRow, Tally, Tone,
};

fn component(id: &str, group: Group, category: Category) -> Component {
    Component::new(id, id, "description", category, group, Some("tool"), &["--version"])
}

#[test]
fn selection_rows_put_a_header_before_each_group() {
    let components = vec![
        component("base-deps", Group::System, Category::SystemPackage),
        component("fish", Group::Shells, Category::Mise("fish".to_string())),
        component("zsh", Group::Shells, Category::Mise("zsh".to_string())),
        component("rust", Group::Languages, Category::Mise("rust".to_string())),
    ];

    let rows = selection_rows(&components);

    assert_eq!(
        rows,
        vec![
            SelectionRow::Header(Group::System),
            SelectionRow::Item(0),
            SelectionRow::Header(Group::Shells),
            SelectionRow::Item(1),
            SelectionRow::Item(2),
            SelectionRow::Header(Group::Languages),
            SelectionRow::Item(3),
        ]
    );
    assert_eq!(cursor_row(&rows, 2), 4);
    assert_eq!(cursor_row(&rows, 9), 0);
}

#[test]
fn selection_details() {
    assert_eq!(action_marker(ComponentAction::Keep), "[=] ");
    assert_eq!(action_marker(ComponentAction::Install), "[+] ");
    assert_eq!(action_marker(ComponentAction::Deactivate), "[-] ");
    assert_eq!(category_label(&Category::Mise("aqua:x/y".to_string())), "Mise Tool (aqua:x/y)");
    assert_eq!(category_label(&Category::SystemPackage), "System Package (apt/pacman/dnf)");
    let rust = component("rust", Group::Languages, Category::Mise("rust".to_string()));
    assert_eq!(check_command_line(&rust), Some("tool \"--version\"".to_string()));
    let none = Component::new("c", "c", "d", Category::Config, Group::Configurations, None, &[]);
    assert_eq!(check_command_line(&none), None);
    assert_eq!(observed_tone(&ObservedState::Missing), Tone::Muted);
    assert_eq!(observed_tone(&ObservedState::Unknown), Tone::Warning);
    assert_eq!(observed_tone(&ObservedState::ExistingConfig), Tone::Success);
    assert_eq!(selection_footer(&None), " [=] Keep   [+] Install/update/reinstall   [-] Deactivate");
    assert_eq!(selection_footer(&Some("No changes selected.".to_string())), "No changes selected.");
}

#[test]
fn review_lists_only_changes() {
    let mut install = component("rust", Group::Languages, Category::Mise("rust".to_string()));
    install.action = ComponentAction::Install;
    let kept = component("node", Group::Languages, Category::Mise("node".to_string()));
    let mut system = component("base-deps", Group::System, Category::SystemPackage);
    system.action = ComponentAction::Install;
    let components = vec![install, kept, system];

    let rows = review_rows(&components);
    let plan = InstallPlan::from_components(&components);

    assert_eq!(rows.len(), 2);
    assert_eq!((rows[0].name.as_str(), rows[0].action.as_str(), rows[0].observed.as_str()), ("rust", "Install", "Unknown"));
    assert_eq!(rows[0].tone, Tone::Success);
    assert_eq!(review_title(&plan), " 2 mutation(s) | 1 kept ");
    assert_eq!(review_notes(&plan), vec![ReviewNote::Prerequisite, ReviewNote::Privilege]);
    assert_eq!(ReviewNote::Privilege.text(), ("Privilege: ", "sudo authentication follows confirmation."));
    let empty = InstallPlan::from_components(&[]);
    assert_eq!(review_notes(&empty), vec![ReviewNote::Nothing]);
    assert_eq!(review_title(&empty), " 0 mutation(s) | 0 kept ");
}

#[test]
fn report_counts_every_component_once() {
    let mut components = Vec::new();
    for id in ["a", "b", "c", "d", "e", "f"] {
        components.push(component(id, Group::CliTools, Category::Mise(id.to_string())));
    }
    let mut outcomes = Outcomes::new();
    outcomes.set("a", ComponentOutcome::Succeeded);
    outcomes.set("b", ComponentOutcome::Failed("boom".to_string()));
    outcomes.set("c", ComponentOutcome::AlreadyConfigured);
    outcomes.set("d", ComponentOutcome::Kept);
    outcomes.set("e", ComponentOutcome::Deactivated);

    let summary = report(&components, &outcomes);

    assert_eq!((summary.succeeded, summary.failed, summary.kept), (3, 2, 1));
    let statuses: Vec<&str> = summary.rows.iter().map(|r| r.status.as_str()).collect();
    assert_eq!(
        statuses,
        vec!["Succeeded", "Failed: boom", "Already configured", "Kept", "Deactivated", "Failed: no outcome recorded"]
    );
    assert_eq!(summary.rows[5].tone, Tone::Warning);
    assert_eq!(summary.rows[1].tally, Tally::Failed);
    assert_eq!(report_title(&summary), " Summary [ 3 succeeded | 2 failed | 1 kept ] ");
    assert_eq!(plain_report_lines(&summary)[1], "b: Failed: boom");
}

#[test]
fn installation_screen_texts() {
    assert_eq!(installing_title(0), " Installing: System Packages (1/3) ");
    assert_eq!(installing_title(2), " Installing: Configurations (3/3) ");
    assert_eq!(installing_title(3), " Installing: Finishing… (4/3) ");
    let logs: Vec<String> = (0..10).map(|i| format!("line {i}")).collect();
    assert_eq!(log_tail(&logs, 8), vec!["line 7", "line 8", "line 9"]);
    assert_eq!(log_tail(&logs, 40).len(), 10);
    assert!(log_tail(&logs, 5).is_empty());
    assert_eq!(log_tone("[ERROR] config x: y", 0), Tone::Error);
    assert_eq!(log_tone("==> devenv", 1), Tone::Success);
    assert_eq!(log_tone("[WARN] slow", 0), Tone::Warning);
    assert_eq!(log_tone("plain", 0), Tone::Plain);
    assert_eq!(log_tone("plain", 1), Tone::Info);
}

#[test]
fn search_titles() {
    assert_eq!(search_title(0), " No results ");
    assert_eq!(search_title(1), " 1 result(s) ");
    assert_eq!(search_title(1234), " 1234 result(s) ");
}
