use devenv::manifest::{merge, offered_tools, parse_runtime_registry, search, ManifestTool};

fn tool(name: &str, mise_id: &str, description: &str) -> ManifestTool {
    ManifestTool { name: name.to_string(), mise_id: mise_id.to_string(), description: description.to_string() }
}

fn names(tools: &[ManifestTool]) -> Vec<&str> {
    tools.iter().map(|t| t.name.as_str()).collect()
}

#[test]
fn search_is_case_insensitive_over_name_and_description() {
    let tools = vec![
        tool("ripgrep", "aqua:BurntSushi/ripgrep", "Fast line-oriented search"),
        tool("bat", "aqua:sharkdp/bat", "A cat clone with WINGS"),
    ];

    assert_eq!(names(&search(&tools, "RIP")), vec!["ripgrep"]);
    assert_eq!(names(&search(&tools, "wings")), vec!["bat"]);
    assert_eq!(names(&search(&tools, "")), vec!["ripgrep", "bat"]);
    assert!(search(&tools, "zzz").is_empty());
}

#[test]
fn merge_keeps_curated_tools_and_adds_new_ids_once() {
    let curated = vec![tool("node", "node", "Node.js"), tool("rust", "rust", "Rust")];
    let runtime = vec![
        tool("rust-alias", "rust", "rust"),
        tool("zig", "zig", "zig"),
        tool("zig2", "zig", "zig"),
    ];

    let merged = merge(curated, runtime);

    assert_eq!(names(&merged), vec!["node", "rust", "zig"]);
}

#[test]
fn runtime_registry_lines_name_tool_and_backend() {
    let output = "ripgrep    aqua:BurntSushi/ripgrep\nlonely\n\nzig core:zig extra\n";

    let tools = parse_runtime_registry(output).expect("tools should be listed");

    assert_eq!(names(&tools), vec!["ripgrep", "zig"]);
    assert_eq!(tools[0].mise_id, "aqua:BurntSushi/ripgrep");
    assert_eq!(tools[0].description, "aqua:BurntSushi/ripgrep");
    assert!(parse_runtime_registry("single\n").is_none());
}

#[test]
fn offered_tools_merge_only_a_reported_registry() {
    let curated = vec![tool("node", "node", "Node.js")];
    assert_eq!(names(&offered_tools(curated.clone(), None)), vec!["node"]);
    let runtime = vec![tool("node2", "node", "node"), tool("zig", "zig", "zig")];
    assert_eq!(names(&offered_tools(curated, Some(runtime))), vec!["node", "zig"]);
}
