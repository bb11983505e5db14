//! The command line: the flags that print help or the version, the
//! configuration file of a run without the terminal interface, and when
//! such a run installs everything.
use vstd::prelude::*;
use crate::registry::{builtin_components, get_all_components, views, with_action, Component, ComponentAction, ComponentView};
use crate::text::{concat_str, has_prefix, owned, str_eq, str_starts_with};

verus! {

/// A flag that prints something and ends the program.
#[derive(Debug, Clone, Copy, PartialEq, Eq, Structural)]
pub enum CliHelper {
    Help,
    Version,
}

pub open spec fn helper_of(arg: Seq<char>) -> Option<CliHelper> {
    if arg == "--help"@ || arg == "-h"@ {
        Some(CliHelper::Help)
    } else if arg == "--version"@ || arg == "-v"@ {
        Some(CliHelper::Version)
    } else {
        None
    }
}

/// The first helper flag among the arguments after the program name.
pub open spec fn first_helper(args: Seq<Seq<char>>, from: int) -> Option<CliHelper>
    decreases args.len() - from,
{
    if from >= args.len() || from < 0 {
        None
    } else {
        match helper_of(args[from]) {
            Some(h) => Some(h),
            None => first_helper(args, from + 1),
        }
    }
}

pub fn cli_helper(args: &Vec<String>) -> (r: Option<CliHelper>)
    ensures
        r == first_helper(args.deep_view(), 1),
{
    let mut i: usize = 1;
    while i < args.len()
        invariant
            1 <= i,
            first_helper(args.deep_view(), 1) == first_helper(args.deep_view(), i as int),
        decreases args.len() - i,
    {
        let a = args[i].as_str();
        assert(args.deep_view()[i as int] == a@);
        if str_eq(a, "--help") || str_eq(a, "-h") {
            return Some(CliHelper::Help);
        }
        if str_eq(a, "--version") || str_eq(a, "-v") {
            return Some(CliHelper::Version);
        }
        i = i + 1;
    }
    None
}

/// Where the configuration file of a headless run is named: after
/// `--config` or `-c`, or in `--config=<path>`, at the first such argument
/// after the program name.
pub open spec fn config_path_from(args: Seq<Seq<char>>, from: int) -> Result<Option<Seq<char>>, Seq<char>>
    decreases args.len() - from,
{
    if from >= args.len() || from < 0 {
        Ok(None)
    } else {
        let a = args[from];
        if a == "--config"@ || a == "-c"@ {
            if from + 1 < args.len() {
                Ok(Some(args[from + 1]))
            } else {
                Err(a + " requires a path"@)
            }
        } else if has_prefix(a, "--config="@) {
            let path = a.skip(9);
            if path.len() == 0 {
                Err("--config requires a path"@)
            } else {
                Ok(Some(path))
            }
        } else {
            config_path_from(args, from + 1)
        }
    }
}

pub open spec fn path_result_view(r: Result<Option<String>, String>) -> Result<Option<Seq<char>>, Seq<char>> {
    match r {
        Ok(Some(p)) => Ok(Some(p@)),
        Ok(None) => Ok(None),
        Err(e) => Err(e@),
    }
}

fn suffix_after(s: &str, k: usize) -> (r: String)
    requires
        k <= s@.len(),
    ensures
        r@ == s@.skip(k as int),
{
    let mut r = String::new();
    let n = s.unicode_len();
    let mut i: usize = k;
    while i < n
        invariant
            k <= i <= n,
            n == s@.len(),
            r@ == s@.subrange(k as int, i as int),
        decreases n - i,
    {
        crate::text::string_push(&mut r, s.get_char(i));
        i = i + 1;
        assert(r@ =~= s@.subrange(k as int, i as int));
    }
    assert(s@.subrange(k as int, n as int) =~= s@.skip(k as int));
    r
}

/// The configuration file that the arguments name, if any.
pub fn headless_config_path(args: &Vec<String>) -> (r: Result<Option<String>, String>)
    ensures
        path_result_view(r) == config_path_from(args.deep_view(), 1),
{
    let ghost dv = args.deep_view();
    let mut i: usize = 1;
    while i < args.len()
        invariant
            1 <= i,
            dv == args.deep_view(),
            config_path_from(dv, 1) == config_path_from(dv, i as int),
        decreases args.len() - i,
    {
        let a = args[i].as_str();
        assert(dv[i as int] == a@);
        if str_eq(a, "--config") || str_eq(a, "-c") {
            if i + 1 < args.len() {
                assert(dv[i + 1] == args@[i + 1]@);
                return Ok(Some(args[i + 1].clone()));
            }
            return Err(concat_str(a, " requires a path"));
        }
        if str_starts_with(a, "--config=") {
            proof {
                reveal_strlit("--config=");
            }
            let path = suffix_after(a, 9);
            if path.as_str().unicode_len() == 0 {
                return Err(owned("--config requires a path"));
            }
            return Ok(Some(path));
        }
        i = i + 1;
    }
    Ok(None)
}

/// Whether a run installs every built-in component without the terminal
/// interface: an `--all` argument, `CI=true` or `INSTALLER_ALL=1` in the
/// environment.
pub open spec fn wants_all(args: Seq<Seq<char>>, ci: Option<Seq<char>>, installer_all: Option<Seq<char>>) -> bool {
    ||| exists|i: int| 0 <= i < args.len() && args[i] == "--all"@
    ||| ci == Some("true"@)
    ||| installer_all == Some("1"@)
}

pub fn headless_all(args: &Vec<String>, ci: Option<&str>, installer_all: Option<&str>) -> (b: bool)
    ensures
        b == wants_all(
            args.deep_view(),
            match ci {
                Some(v) => Some(v@),
                None => None,
            },
            match installer_all {
                Some(v) => Some(v@),
                None => None,
            },
        ),
{
    let mut i: usize = 0;
    while i < args.len()
        invariant
            i <= args@.len(),
            forall|k: int| 0 <= k < i ==> args.deep_view()[k] != "--all"@,
        decreases args.len() - i,
    {
        if str_eq(args[i].as_str(), "--all") {
            assert(args.deep_view()[i as int] == "--all"@);
            return true;
        }
        assert(args.deep_view()[i as int] == args@[i as int]@);
        i = i + 1;
    }
    let ci_set = match ci {
        Some(v) => str_eq(v, "true"),
        None => false,
    };
    let all_set = match installer_all {
        Some(v) => str_eq(v, "1"),
        None => false,
    };
    ci_set || all_set
}

/// The command line as the help text describes it: `--help` or `-h` asks
/// for the help, `--version` or `-v` for the version; `--config <PATH>`,
/// `-c <PATH>` and `--config=<PATH>` name the configuration file, and a
/// missing path is an error; `--all`, like `CI=true` or `INSTALLER_ALL=1`,
/// installs everything.
pub proof fn lemma_command_line(prog: Seq<char>, path: Seq<char>)
    ensures
        first_helper(seq![prog, "--help"@], 1) == Some(CliHelper::Help),
        first_helper(seq![prog, "-h"@], 1) == Some(CliHelper::Help),
        first_helper(seq![prog, "--version"@], 1) == Some(CliHelper::Version),
        first_helper(seq![prog, "-v"@], 1) == Some(CliHelper::Version),
        first_helper(seq![prog], 1) is None,
        config_path_from(seq![prog, "--config"@, path], 1) == Ok::<Option<Seq<char>>, Seq<char>>(Some(path)),
        config_path_from(seq![prog, "-c"@, path], 1) == Ok::<Option<Seq<char>>, Seq<char>>(Some(path)),
        path.len() > 0 ==> config_path_from(seq![prog, "--config="@ + path], 1)
            == Ok::<Option<Seq<char>>, Seq<char>>(Some(path)),
        config_path_from(seq![prog, "--config="@], 1) is Err,
        config_path_from(seq![prog, "-c"@], 1) is Err,
        config_path_from(seq![prog, "--config"@], 1) is Err,
        config_path_from(seq![prog], 1) == Ok::<Option<Seq<char>>, Seq<char>>(None),
        wants_all(seq![prog, "--all"@], None, None),
        wants_all(seq![prog], Some("true"@), None),
        wants_all(seq![prog], None, Some("1"@)),
        prog != "--all"@ ==> !wants_all(seq![prog], None, None),
{
    reveal_strlit("--help");
    reveal_strlit("-h");
    reveal_strlit("--version");
    reveal_strlit("-v");
    reveal_strlit("--config");
    reveal_strlit("-c");
    reveal_strlit("--config=");
    let a = "--config="@ + path;
    assert(a.len() != "--config"@.len() && a.len() != "-c"@.len());
    assert(a.take(9) =~= "--config="@);
    assert(a.skip(9) =~= path);
    assert("--config="@.skip(9) =~= Seq::<char>::empty());
    assert("-v"@[1] != "-h"@[1]);
    assert("--version"@.len() != "--help"@.len());
    assert("--config="@.len() != "--config"@.len());
    assert("--config="@.take(9) =~= "--config="@);
    assert(seq![prog, "--all"@][1] == "--all"@);
}

/// Every built-in component, set to be installed.
pub fn all_components_to_install() -> (v: Vec<Component>)
    ensures
        views(v@) == builtin_components().map_values(
            |c: ComponentView| with_action(c, ComponentAction::Install),
        ),
{
    let mut v = get_all_components();
    let ghost start = views(v@);
    let mut i: usize = 0;
    while i < v.len()
        invariant
            i <= v@.len(),
            start == builtin_components(),
            v@.len() == start.len(),
            forall|k: int| 0 <= k < i ==> #[trigger] v@[k]@ == with_action(start[k], ComponentAction::Install),
            forall|k: int| i <= k < v@.len() ==> #[trigger] v@[k]@ == start[k],
        decreases v.len() - i,
    {
        let mut c = v[i].duplicate();
        c.set_action(ComponentAction::Install);
        v.set(i, c);
        i = i + 1;
    }
    assert(views(v@) =~= start.map_values(|c: ComponentView| with_action(c, ComponentAction::Install)));
    v
}

pub open spec fn help_text_of(version: Seq<char>) -> Seq<char> {
    "devenv-linux "@ + version
        + "\n\nUsage:\n  devenv [OPTIONS]\n\nOptions:\n      --all              Install every built-in component\n  -c, --config <PATH>    Install enabled components from a TOML config\n  -h, --help             Print help\n  -v, --version          Print version\n"@
}

/// What `--help` prints for the program of this version.
pub fn help_text(version: &str) -> (r: String)
    ensures
        r@ == help_text_of(version@),
{
    let mut r = concat_str("devenv-linux ", version);
    r.append(
        "\n\nUsage:\n  devenv [OPTIONS]\n\nOptions:\n      --all              Install every built-in component\n  -c, --config <PATH>    Install enabled components from a TOML config\n  -h, --help             Print help\n  -v, --version          Print version\n",
    );
    r
}

/// What `--version` prints.
pub fn version_text(version: &str) -> (r: String)
    ensures
        r@ == "devenv "@ + version@,
{
    concat_str("devenv ", version)
}

} // verus!
