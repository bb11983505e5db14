//! What the installer finds on the machine for each component before any
//! change. The probes themselves (the PATH, `mise ls`, files under the home
//! directory) are handed in by the caller; what their answers amount to is
//! decided here, whatever they answer.
use vstd::prelude::*;
use crate::config::{config_target_of, ConfigTargetView};
use crate::registry::{Category, Component, ObservedState, ObservedView};
use crate::text::{has_infix, owned, str_contains, str_eq};

verus! {

/// `p`, or `fallback` where `p` is none.
pub open spec fn or_state(p: Option<ObservedState>, fallback: ObservedView) -> ObservedView {
    match p {
        Some(s) => s@,
        None => fallback,
    }
}

/// The state of a mise tool: the versions that mise manages globally where
/// there are any; else what the PATH shows, which is `Missing` when mise
/// answered and `Unknown` when it could not.
pub fn observed_mise_state<E, F: FnOnce() -> Option<ObservedState>>(
    global_versions: Result<Vec<String>, E>,
    path_fallback: F,
) -> (o: ObservedState)
    requires
        call_requires(path_fallback, ()),
    ensures
        match global_versions {
            Ok(v) => if v@.len() > 0 {
                o@ == ObservedView::MiseGlobal(v.deep_view())
            } else {
                exists|p: Option<ObservedState>| call_ensures(path_fallback, (), p) && o@ == or_state(p, ObservedView::Missing)
            },
            Err(_) => exists|p: Option<ObservedState>|
                call_ensures(path_fallback, (), p) && o@ == or_state(p, ObservedView::Unknown),
        },
{
    match global_versions {
        Ok(versions) => {
            if versions.len() > 0 {
                ObservedState::MiseGlobal { versions }
            } else {
                let p = path_fallback();
                let o = match p {
                    Some(s) => s,
                    None => ObservedState::Missing,
                };
                assert(call_ensures(path_fallback, (), p) && o@ == or_state(p, ObservedView::Missing));
                o
            }
        },
        Err(_) => {
            let p = path_fallback();
            let o = match p {
                Some(s) => s,
                None => ObservedState::Unknown,
            };
            assert(call_ensures(path_fallback, (), p) && o@ == or_state(p, ObservedView::Unknown));
            o
        },
    }
}

/// What the check command of `c` shows, given the answers of the probes:
/// nothing without a check command or where it is not on the PATH; else
/// `Detected on PATH` with the version it reports, or `Detected` where it
/// takes no arguments or reports none.
pub open spec fn command_observed<F: Fn(&String) -> bool, G: Fn(&String, &Vec<String>) -> Option<String>>(
    c: Component,
    on_path: F,
    version_of: G,
    r: Option<ObservedState>,
) -> bool {
    match c.check_command {
        None => r is None,
        Some(cmd) => exists|found: bool| {
            &&& call_ensures(on_path, (&cmd,), found)
            &&& !found ==> r is None
            &&& found ==> (if c.check_args@.len() == 0 {
                r matches Some(s) && s@ == ObservedView::PathDetected("Detected"@)
            } else {
                exists|v: Option<String>| {
                    &&& call_ensures(version_of, (&cmd, &c.check_args), v)
                    &&& r matches Some(s)
                    &&& s@ == ObservedView::PathDetected(
                        match v {
                            Some(t) => t@,
                            None => "Detected"@,
                        },
                    )
                }
            })
        },
    }
}

/// Looks for the check command of `component` on the PATH (`on_path`) and
/// asks it for its version (`version_of`).
pub fn observe_command<F: Fn(&String) -> bool, G: Fn(&String, &Vec<String>) -> Option<String>>(
    component: &Component,
    on_path: F,
    version_of: G,
) -> (r: Option<ObservedState>)
    requires
        forall|s: &String| call_requires(on_path, (s,)),
        forall|s: &String, a: &Vec<String>| call_requires(version_of, (s, a)),
    ensures
        command_observed(*component, on_path, version_of, r),
{
    match &component.check_command {
        None => None,
        Some(cmd) => {
            let found = on_path(cmd);
            if !found {
                return None;
            }
            if component.check_args.len() == 0 {
                Some(ObservedState::PathDetected(owned("Detected")))
            } else {
                let v = version_of(cmd, &component.check_args);
                let version = match v {
                    Some(t) => t,
                    None => owned("Detected"),
                };
                Some(ObservedState::PathDetected(version))
            }
        },
    }
}

/// Where the configuration of a component shows on the machine, relative
/// to the home directory.
#[derive(Debug, Clone, PartialEq, Eq)]
pub enum ConfigProbe {
    /// The configuration exists when this directory does.
    Dir(String),
    /// The configuration exists when this file mentions `needle`.
    Mentions { path: String, needle: String },
    /// Nothing shows it.
    Nothing,
}

pub enum ProbeView {
    Dir(Seq<char>),
    Mentions { path: Seq<char>, needle: Seq<char> },
    Nothing,
}

impl View for ConfigProbe {
    type V = ProbeView;

    open spec fn view(&self) -> ProbeView {
        match self {
            ConfigProbe::Dir(p) => ProbeView::Dir(p@),
            ConfigProbe::Mentions { path, needle } => ProbeView::Mentions { path: path@, needle: needle@ },
            ConfigProbe::Nothing => ProbeView::Nothing,
        }
    }
}

pub open spec fn config_probe_of(id: Seq<char>) -> ProbeView {
    if id == "config-nvim"@ {
        ProbeView::Dir(".config/nvim"@)
    } else if id == "config-bash"@ {
        ProbeView::Mentions { path: ".bashrc"@, needle: "mise activate bash"@ }
    } else if id == "config-fish"@ {
        ProbeView::Mentions { path: ".config/fish/config.fish"@, needle: "mise activate fish"@ }
    } else {
        ProbeView::Nothing
    }
}

pub fn config_probe(id: &str) -> (p: ConfigProbe)
    ensures
        p@ == config_probe_of(id@),
{
    if str_eq(id, "config-nvim") {
        ConfigProbe::Dir(owned(".config/nvim"))
    } else if str_eq(id, "config-bash") {
        ConfigProbe::Mentions { path: owned(".bashrc"), needle: owned("mise activate bash") }
    } else if str_eq(id, "config-fish") {
        ConfigProbe::Mentions { path: owned(".config/fish/config.fish"), needle: owned("mise activate fish") }
    } else {
        ConfigProbe::Nothing
    }
}

/// What the probes of a configuration found: `dir_exists` answers whether
/// a directory exists, `read` gives a file's contents where it can be read.
pub open spec fn config_observed<F: Fn(&String) -> bool, G: Fn(&String) -> Option<String>>(
    id: Seq<char>,
    dir_exists: F,
    read: G,
    o: ObservedView,
) -> bool {
    let found = |b: bool| if b { o == ObservedView::ExistingConfig } else { o == ObservedView::Missing };
    match config_probe_of(id) {
        ProbeView::Dir(p) => exists|s: String, b: bool| s@ == p && call_ensures(dir_exists, (&s,), b) && found(b),
        ProbeView::Mentions { path, needle } => exists|s: String, c: Option<String>| {
            &&& s@ == path
            &&& call_ensures(read, (&s,), c)
            &&& found(
                match c {
                    Some(t) => has_infix(t@, needle),
                    None => false,
                },
            )
        },
        ProbeView::Nothing => o == ObservedView::Missing,
    }
}

/// A configuration is observed where its setup puts it: a shell
/// configuration in the very file that its setup writes, found by the
/// activation of that same shell (`mise activate <shell>`); the Neovim
/// configuration by the directory that its setup replaces; any other id
/// not at all.
pub proof fn lemma_probe_reads_what_setup_writes(id: Seq<char>)
    ensures
        config_target_of(id) matches ConfigTargetView::Shell { path, shell, .. } ==> config_probe_of(id)
            == (ProbeView::Mentions { path, needle: "mise activate "@ + shell }),
        config_target_of(id) matches ConfigTargetView::Nvim { path } ==> config_probe_of(id) == ProbeView::Dir(path),
        config_target_of(id) is Unknown ==> config_probe_of(id) is Nothing,
{
    reveal_strlit("config-bash");
    reveal_strlit("config-fish");
    reveal_strlit("config-nvim");
    reveal_strlit("mise activate ");
    reveal_strlit("mise activate bash");
    reveal_strlit("mise activate fish");
    reveal_strlit("bash");
    reveal_strlit("fish");
    assert("mise activate bash"@ =~= "mise activate "@ + "bash"@);
    assert("mise activate fish"@ =~= "mise activate "@ + "fish"@);
    assert("config-bash"@[7] != "config-nvim"@[7]);
    assert("config-fish"@[7] != "config-nvim"@[7]);
    assert("config-fish"@[7] != "config-bash"@[7]);
    if id == "config-bash"@ {
        assert(config_probe_of(id) == (ProbeView::Mentions { path: ".bashrc"@, needle: "mise activate bash"@ }));
    } else if id == "config-fish"@ {
        assert(config_probe_of(id) == (ProbeView::Mentions {
            path: ".config/fish/config.fish"@,
            needle: "mise activate fish"@,
        }));
    }
}

/// A configuration shows as in place when its probe finds it, and as
/// missing when the probe does not: the bash configuration by whether
/// `.bashrc` mentions `mise activate bash`, the fish configuration by
/// whether `.config/fish/config.fish` mentions `mise activate fish`, the
/// Neovim configuration by whether `.config/nvim` exists; any other id is
/// always missing.
pub proof fn lemma_config_found_by_its_probe<F: Fn(&String) -> bool, G: Fn(&String) -> Option<String>>(
    id: Seq<char>,
    dir_exists: F,
    read: G,
    o: ObservedView,
)
    requires
        config_observed(id, dir_exists, read, o),
    ensures
        id == "config-bash"@ && (forall|s: String, c: Option<String>| s@ == ".bashrc"@ && call_ensures(read, (&s,), c)
            ==> (c matches Some(t) && has_infix(t@, "mise activate bash"@))) ==> o == ObservedView::ExistingConfig,
        id == "config-bash"@ && (forall|s: String, c: Option<String>| s@ == ".bashrc"@ && call_ensures(read, (&s,), c)
            ==> !(c matches Some(t) && has_infix(t@, "mise activate bash"@))) ==> o == ObservedView::Missing,
        id == "config-fish"@ && (forall|s: String, c: Option<String>| s@ == ".config/fish/config.fish"@ && call_ensures(read, (&s,), c)
            ==> (c matches Some(t) && has_infix(t@, "mise activate fish"@))) ==> o == ObservedView::ExistingConfig,
        id == "config-fish"@ && (forall|s: String, c: Option<String>| s@ == ".config/fish/config.fish"@ && call_ensures(read, (&s,), c)
            ==> !(c matches Some(t) && has_infix(t@, "mise activate fish"@))) ==> o == ObservedView::Missing,
        id == "config-nvim"@ && (forall|s: String, b: bool| s@ == ".config/nvim"@ && call_ensures(dir_exists, (&s,), b) ==> b)
            ==> o == ObservedView::ExistingConfig,
        id == "config-nvim"@ && (forall|s: String, b: bool| s@ == ".config/nvim"@ && call_ensures(dir_exists, (&s,), b) ==> !b)
            ==> o == ObservedView::Missing,
        id != "config-bash"@ && id != "config-fish"@ && id != "config-nvim"@ ==> o == ObservedView::Missing,
{
    reveal_strlit("config-bash");
    reveal_strlit("config-fish");
    reveal_strlit("config-nvim");
    assert("config-bash"@[7] != "config-nvim"@[7]);
    assert("config-fish"@[7] != "config-nvim"@[7]);
    assert("config-fish"@[7] != "config-bash"@[7]);
}

/// Whether the configuration component `id` is in place already.
pub fn observe_config<F: Fn(&String) -> bool, G: Fn(&String) -> Option<String>>(
    id: &str,
    dir_exists: F,
    read: G,
) -> (o: ObservedState)
    requires
        forall|s: &String| call_requires(dir_exists, (s,)),
        forall|s: &String| call_requires(read, (s,)),
    ensures
        config_observed(id@, dir_exists, read, o@),
{
    let exists = match config_probe(id) {
        ConfigProbe::Dir(p) => dir_exists(&p),
        ConfigProbe::Mentions { path, needle } => match read(&path) {
            Some(contents) => str_contains(contents.as_str(), needle.as_str()),
            None => false,
        },
        ConfigProbe::Nothing => false,
    };
    if exists {
        ObservedState::ExistingConfig
    } else {
        ObservedState::Missing
    }
}

/// What the probes found for a component: its configuration for a
/// configuration component; for a mise tool, the versions that mise manages
/// globally (`global`), else its check command; for system packages, its
/// check command.
pub open spec fn component_observed<
    H: Fn(&String) -> Result<Vec<String>, String>,
    F: Fn(&String) -> bool,
    G: Fn(&String, &Vec<String>) -> Option<String>,
    D: Fn(&String) -> bool,
    R: Fn(&String) -> Option<String>,
>(c: Component, global: H, on_path: F, version_of: G, dir_exists: D, read: R, o: ObservedView) -> bool {
    match c.category {
        Category::Config => config_observed(c.id@, dir_exists, read, o),
        Category::Mise(tool) => exists|g: Result<Vec<String>, String>| {
            &&& call_ensures(global, (&tool,), g)
            &&& match g {
                Ok(v) => if v@.len() > 0 {
                    o == ObservedView::MiseGlobal(v.deep_view())
                } else {
                    exists|p: Option<ObservedState>|
                        command_observed(c, on_path, version_of, p) && o == or_state(p, ObservedView::Missing)
                },
                Err(_) => exists|p: Option<ObservedState>|
                    command_observed(c, on_path, version_of, p) && o == or_state(p, ObservedView::Unknown),
            }
        },
        Category::SystemPackage => exists|p: Option<ObservedState>|
            command_observed(c, on_path, version_of, p) && o == or_state(p, ObservedView::Unknown),
    }
}

/// What is on the machine for `component` before any change, from the
/// answers of the probes.
pub fn observe_component<
    H: Fn(&String) -> Result<Vec<String>, String>,
    F: Fn(&String) -> bool,
    G: Fn(&String, &Vec<String>) -> Option<String>,
    D: Fn(&String) -> bool,
    R: Fn(&String) -> Option<String>,
>(component: &Component, global: H, on_path: F, version_of: G, dir_exists: D, read: R) -> (o: ObservedState)
    requires
        forall|s: &String| call_requires(global, (s,)),
        forall|s: &String| call_requires(on_path, (s,)),
        forall|s: &String, a: &Vec<String>| call_requires(version_of, (s, a)),
        forall|s: &String| call_requires(dir_exists, (s,)),
        forall|s: &String| call_requires(read, (s,)),
    ensures
        component_observed(*component, global, on_path, version_of, dir_exists, read, o@),
{
    match &component.category {
        Category::Config => observe_config(component.id.as_str(), dir_exists, read),
        Category::Mise(tool) => {
            let g = global(tool);
            let ghost gg = g;
            let fallback = move || -> (p: Option<ObservedState>)
                requires
                    forall|s: &String| call_requires(on_path, (s,)),
                    forall|s: &String, a: &Vec<String>| call_requires(version_of, (s, a)),
                ensures
                    command_observed(*component, on_path, version_of, p),
                { observe_command(component, on_path, version_of) };
            let o = observed_mise_state(g, fallback);
            assert(call_ensures(global, (tool,), gg));
            o
        },
        Category::SystemPackage => {
            let p = observe_command(component, on_path, version_of);
            let o = match p {
                Some(s) => s,
                None => ObservedState::Unknown,
            };
            assert(command_observed(*component, on_path, version_of, p) && o@ == or_state(p, ObservedView::Unknown));
            o
        },
    }
}

} // verus!
