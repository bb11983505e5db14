use devenv::sys::{parse_command_version_output, parse_distro, parse_mise_tool_version, DistroFamily};

#[test]
fn parse_distro_should_detect_debian_like_distributions() {
    let os_release = "ID=ubuntu\nID_LIKE=debian\n";

    assert_eq!(parse_distro(os_release), DistroFamily::Debian);
}

#[test]
fn parse_distro_should_detect_redhat_like_distributions() {
    let os_release = "ID=fedora\nID_LIKE=fedora\n";

    assert_eq!(parse_distro(os_release), DistroFamily::RedHat);
}

#[test]
fn parse_distro_should_detect_arch_and_unknown() {
    assert_eq!(parse_distro("NAME=\"Arch Linux\"\nID=arch\n"), DistroFamily::Arch);
    assert_eq!(parse_distro("ID=alpine\n"), DistroFamily::Unknown);
    assert_eq!(parse_distro(""), DistroFamily::Unknown);
}

#[test]
fn parse_mise_tool_version_should_return_matching_tool_version() {
    let output = "rust 1.85.0 ~/.config/mise/config.toml\nnode 22.0.0 (missing)\n";

    assert_eq!(parse_mise_tool_version("rust", output), Some("1.85.0".to_string()));
}

#[test]
fn parse_mise_tool_version_should_ignore_missing_placeholders() {
    let output = "rust (missing) ~/.config/mise/config.toml\n";

    assert_eq!(parse_mise_tool_version("rust", output), None);
}

#[test]
fn parse_command_version_output_should_parse_stdout_versions() {
    let version = parse_command_version_output("zellij 0.41.2\n", "");

    assert_eq!(version, Some("0.41.2".to_string()));
}

#[test]
fn parse_command_version_output_should_fall_back_to_stderr() {
    let version = parse_command_version_output("", "java version 21.0.2\n");

    assert_eq!(version, Some("21.0.2".to_string()));
}

#[test]
fn parse_command_version_output_without_output_is_none() {
    assert_eq!(parse_command_version_output("", ""), None);
    assert_eq!(parse_command_version_output("\n  \n", " \n"), None);
}
