//! Shell and editor configurations: which file each configuration component
//! writes, and how an existing shell configuration is brought to activate
//! mise without losing what the user wrote.
use vstd::prelude::*;
use crate::registry::{is_shell_config_id, Component};
use crate::sys::CommandResult;
use crate::text::{
    chars_contain, chars_of, chars_start_with, concat_str, decimal, decimal_text, has_infix,
    has_prefix, line_end, lines, lines_of, owned, str_eq, string_of_chars, strip_cr, trim,
    trim_chars, trim_str,
};

verus! {

#[derive(Debug, Clone, Copy, PartialEq, Eq, Structural)]
pub enum ConfigOutcome {
    Changed,
    AlreadyConfigured,
}

// ---------------------------------------------------------------------------
// The texts that are written
// ---------------------------------------------------------------------------

pub open spec fn nl() -> Seq<char> {
    seq!['\n']
}

/// The lines of the bash activation block.
pub open spec fn bash_activation_lines() -> Seq<Seq<char>> {
    seq![
        "# mise activation -- added by devenv-linux installer"@,
        "if ! command -v mise >/dev/null 2>&1; then"@,
        "    export PATH=\"$HOME/.local/bin:$PATH\""@,
        "fi"@,
        "case $- in"@,
        "    *i*) eval \"$(mise activate bash)\" ;;"@,
        "esac"@,
    ]
}

/// The lines of the fish activation block.
pub open spec fn fish_activation_lines() -> Seq<Seq<char>> {
    seq![
        "# mise activation -- added by devenv-linux installer"@,
        "if not type -q mise"@,
        "    set -gx PATH \"$HOME/.local/bin\" $PATH"@,
        "end"@,
        "if status is-interactive"@,
        "    mise activate fish | source"@,
        "else"@,
        "    mise activate fish --shims | source"@,
        "end"@,
    ]
}

/// Lines, each ended by a line feed.
pub open spec fn text_of_lines(ls: Seq<Seq<char>>) -> Seq<char>
    decreases ls.len(),
{
    if ls.len() == 0 {
        seq![]
    } else {
        text_of_lines(ls.drop_last()) + ls.last() + nl()
    }
}

pub open spec fn bash_activation() -> Seq<char> {
    text_of_lines(bash_activation_lines())
}

pub open spec fn fish_activation() -> Seq<char> {
    text_of_lines(fish_activation_lines())
}

fn push_line(text: &mut String, line: &str)
    ensures
        final(text)@ == old(text)@ + line@ + nl(),
{
    text.append(line);
    text.append("\n");
    proof {
        reveal_strlit("\n");
    }
    assert(final(text)@ =~= old(text)@ + line@ + nl());
}

/// The bash activation block.
pub fn bash_activation_text() -> (t: String)
    ensures
        t@ == bash_activation(),
{
    let mut t = String::new();
    push_line(&mut t, "# mise activation -- added by devenv-linux installer");
    push_line(&mut t, "if ! command -v mise >/dev/null 2>&1; then");
    push_line(&mut t, "    export PATH=\"$HOME/.local/bin:$PATH\"");
    push_line(&mut t, "fi");
    push_line(&mut t, "case $- in");
    push_line(&mut t, "    *i*) eval \"$(mise activate bash)\" ;;");
    push_line(&mut t, "esac");
    proof {
        let ls = bash_activation_lines();
        reveal_with_fuel(text_of_lines, 8);
        assert(ls.drop_last().drop_last().drop_last().drop_last().drop_last().drop_last().drop_last() =~= Seq::<Seq<char>>::empty());
        assert(t@ =~= text_of_lines(ls));
    }
    t
}

/// The fish activation block.
pub fn fish_activation_text() -> (t: String)
    ensures
        t@ == fish_activation(),
{
    let mut t = String::new();
    push_line(&mut t, "# mise activation -- added by devenv-linux installer");
    push_line(&mut t, "if not type -q mise");
    push_line(&mut t, "    set -gx PATH \"$HOME/.local/bin\" $PATH");
    push_line(&mut t, "end");
    push_line(&mut t, "if status is-interactive");
    push_line(&mut t, "    mise activate fish | source");
    push_line(&mut t, "else");
    push_line(&mut t, "    mise activate fish --shims | source");
    push_line(&mut t, "end");
    proof {
        let ls = fish_activation_lines();
        reveal_with_fuel(text_of_lines, 10);
        assert(ls.drop_last().drop_last().drop_last().drop_last().drop_last().drop_last().drop_last().drop_last().drop_last() =~= Seq::<Seq<char>>::empty());
        assert(t@ =~= text_of_lines(ls));
    }
    t
}

pub open spec fn fish_defaults() -> Seq<char> {
    "\n# colors\nexport LS_COLORS=\"di=1;36:ln=35:so=32:pi=33:ex=31:bd=34;46:cd=34;43:su=30;41:sg=30;46:tw=30;42:ow=30;43\"\n\n# path\nset PATH $PATH ~/.local/bin ~/.local/share/mise/shims\n\n# aliases\nalias ls='eza --icons=always'\nalias la='ls -a'\nalias ll='eza -lah'\nalias l='eza -lah --classify --grid'\n\nalias vim='v'\nalias v='nvim'\nalias vd='nvim -d'\nalias cat='BAT_THEME=Dracula bat --paging=never --plain'\n\nfunction history\n    builtin history --show-time=\"%Y-%m-%d %H:%M:%S \" $argv\nend\n\n"@
}

/// What a new fish configuration starts with: colors, paths and aliases.
pub fn fish_defaults_text() -> (t: String)
    ensures
        t@ == fish_defaults(),
{
    owned("\n# colors\nexport LS_COLORS=\"di=1;36:ln=35:so=32:pi=33:ex=31:bd=34;46:cd=34;43:su=30;41:sg=30;46:tw=30;42:ow=30;43\"\n\n# path\nset PATH $PATH ~/.local/bin ~/.local/share/mise/shims\n\n# aliases\nalias ls='eza --icons=always'\nalias la='ls -a'\nalias ll='eza -lah'\nalias l='eza -lah --classify --grid'\n\nalias vim='v'\nalias v='nvim'\nalias vd='nvim -d'\nalias cat='BAT_THEME=Dracula bat --paging=never --plain'\n\nfunction history\n    builtin history --show-time=\"%Y-%m-%d %H:%M:%S \" $argv\nend\n\n")
}

pub open spec fn osc52_config() -> Seq<char> {
    "\n\n-- OSC 52 clipboard configuration\nvim.opt.clipboard = \"unnamedplus\"\n\nvim.g.clipboard = {\n  name = \"OSC 52\",\n  copy = {\n    [\"+\"] = require(\"vim.ui.clipboard.osc52\").copy(\"+\"),\n    [\"*\"] = require(\"vim.ui.clipboard.osc52\").copy(\"*\"),\n  },\n  paste = {\n    [\"+\"] = require(\"vim.ui.clipboard.osc52\").paste(\"+\"),\n    [\"*\"] = require(\"vim.ui.clipboard.osc52\").paste(\"*\"),\n  },\n}\n"@
}

/// What is appended to the LazyVim options so that copies reach the
/// terminal's clipboard.
pub fn osc52_config_text() -> (t: String)
    ensures
        t@ == osc52_config(),
{
    owned("\n\n-- OSC 52 clipboard configuration\nvim.opt.clipboard = \"unnamedplus\"\n\nvim.g.clipboard = {\n  name = \"OSC 52\",\n  copy = {\n    [\"+\"] = require(\"vim.ui.clipboard.osc52\").copy(\"+\"),\n    [\"*\"] = require(\"vim.ui.clipboard.osc52\").copy(\"*\"),\n  },\n  paste = {\n    [\"+\"] = require(\"vim.ui.clipboard.osc52\").paste(\"+\"),\n    [\"*\"] = require(\"vim.ui.clipboard.osc52\").paste(\"*\"),\n  },\n}\n")
}

// ---------------------------------------------------------------------------
// Shell activation
// ---------------------------------------------------------------------------

/// A line activates mise for `shell`: trimmed, it is no comment and holds
/// `mise activate <shell>`.
pub open spec fn activates(line: Seq<char>, shell: Seq<char>) -> bool {
    !has_prefix(trim(line), "#"@) && has_infix(trim(line), "mise activate "@ + shell)
}

/// Some line of `contents` activates mise for `shell`.
pub open spec fn has_activation(contents: Seq<char>, shell: Seq<char>) -> bool {
    exists|i: int| 0 <= i < lines_of(contents).len() && activates(#[trigger] lines_of(contents)[i], shell)
}

pub fn has_shell_activation(contents: &str, shell: &str) -> (b: bool)
    ensures
        b == has_activation(contents@, shell@),
{
    let pattern = chars_of(concat_str("mise activate ", shell).as_str());
    let hash = chars_of("#");
    let text = chars_of(contents);
    let ls = lines(&text);
    let ghost lv = lines_of(contents@);
    let mut i: usize = 0;
    while i < ls.len()
        invariant
            i <= ls@.len(),
            ls.deep_view() == lv,
            lv == lines_of(contents@),
            pattern@ == "mise activate "@ + shell@,
            hash@ == "#"@,
            forall|k: int| 0 <= k < i ==> !activates(#[trigger] lv[k], shell@),
        decreases ls.len() - i,
    {
        let t = trim_chars(&ls[i]);
        assert(ls@[i as int].deep_view() =~= ls@[i as int]@);
        assert(lv[i as int] == ls@[i as int]@);
        if !chars_start_with(&t, &hash) && chars_contain(&t, &pattern) {
            return true;
        }
        i = i + 1;
    }
    false
}

/// The activation line that earlier versions wrote for `shell`.
pub open spec fn legacy_line(shell: Seq<char>) -> Seq<char> {
    if shell == "fish"@ {
        "~/.local/bin/mise activate fish | source"@
    } else {
        "eval \"$($HOME/.local/bin/mise activate bash)\""@
    }
}

/// `contents` with each piece between line feeds that is exactly the
/// legacy line replaced by `activation` (its line feed with it).
pub open spec fn migrated(s: Seq<char>, legacy: Seq<char>, activation: Seq<char>) -> Seq<char>
    decreases s.len(),
{
    if s.len() == 0 {
        seq![]
    } else if line_end(s) < s.len() {
        let k = line_end(s) as int;
        (if s.take(k) == legacy { activation } else { s.take(k + 1) }) + migrated(s.skip(k + 1), legacy, activation)
    } else if s == legacy {
        activation
    } else {
        s
    }
}

pub open spec fn has_line(contents: Seq<char>, l: Seq<char>) -> bool {
    exists|i: int| 0 <= i < lines_of(contents).len() && #[trigger] lines_of(contents)[i] == l
}

/// What setting up a shell configuration does to its file.
#[derive(Debug, Clone, PartialEq, Eq)]
pub enum ShellConfigUpdate {
    /// The file activates mise already; it is left alone.
    AlreadyConfigured,
    /// The file is to hold `contents`; an existing file is backed up first.
    Write { contents: String, backup: bool },
}

pub enum ShellUpdateView {
    AlreadyConfigured,
    Write { contents: Seq<char>, backup: bool },
}

impl View for ShellConfigUpdate {
    type V = ShellUpdateView;

    open spec fn view(&self) -> ShellUpdateView {
        match self {
            ShellConfigUpdate::AlreadyConfigured => ShellUpdateView::AlreadyConfigured,
            ShellConfigUpdate::Write { contents, backup } => ShellUpdateView::Write { contents: contents@, backup: *backup },
        }
    }
}

/// The update of a shell configuration that holds `existing` (or does not
/// exist, and then starts from `defaults`): a legacy activation line is
/// replaced by `activation`; without one, a file that activates mise is
/// left alone, and any other gets `activation` appended after a line feed.
pub open spec fn shell_update(
    existing: Option<Seq<char>>,
    shell: Seq<char>,
    activation: Seq<char>,
    defaults: Seq<char>,
) -> ShellUpdateView {
    let original = match existing {
        Some(e) => e,
        None => defaults,
    };
    let legacy = legacy_line(shell);
    if !has_line(original, legacy) && has_activation(original, shell) {
        ShellUpdateView::AlreadyConfigured
    } else {
        ShellUpdateView::Write {
            contents: if has_line(original, legacy) {
                migrated(original, legacy, activation)
            } else {
                original + nl() + activation
            },
            backup: existing is Some,
        }
    }
}

fn legacy_text(shell: &str) -> (r: String)
    ensures
        r@ == legacy_line(shell@),
{
    if str_eq(shell, "fish") {
        owned("~/.local/bin/mise activate fish | source")
    } else {
        owned("eval \"$($HOME/.local/bin/mise activate bash)\"")
    }
}

fn chars_eq(a: &Vec<char>, b: &Vec<char>) -> (r: bool)
    ensures
        r == (a@ == b@),
{
    if a.len() != b.len() {
        return false;
    }
    let mut i: usize = 0;
    while i < a.len()
        invariant
            a@.len() == b@.len(),
            i <= a@.len(),
            forall|k: int| 0 <= k < i ==> a@[k] == b@[k],
        decreases a.len() - i,
    {
        if a[i] != b[i] {
            return false;
        }
        i = i + 1;
    }
    assert(a@ =~= b@);
    true
}

fn has_line_exec(text: &Vec<char>, l: &Vec<char>) -> (b: bool)
    ensures
        b == has_line(text@, l@),
{
    let ls = lines(text);
    let ghost lv = lines_of(text@);
    let mut i: usize = 0;
    while i < ls.len()
        invariant
            i <= ls@.len(),
            ls.deep_view() == lv,
            lv == lines_of(text@),
            forall|k: int| 0 <= k < i ==> #[trigger] lv[k] != l@,
        decreases ls.len() - i,
    {
        assert(ls@[i as int].deep_view() =~= ls@[i as int]@);
        if chars_eq(&ls[i], l) {
            assert(lines_of(text@)[i as int] == l@);
            return true;
        }
        i = i + 1;
    }
    false
}

fn migrate_exec(s: &Vec<char>, legacy: &Vec<char>, activation: &Vec<char>) -> (r: Vec<char>)
    ensures
        r@ == migrated(s@, legacy@, activation@),
{
    let n = s.len();
    let mut out: Vec<char> = Vec::new();
    let mut pos: usize = 0;
    assert(s@.skip(0) =~= s@);
    while pos < n
        invariant
            n == s@.len(),
            pos <= n,
            migrated(s@, legacy@, activation@) == out@ + migrated(s@.skip(pos as int), legacy@, activation@),
        decreases n - pos,
    {
        let mut j: usize = pos;
        while j < n && s[j] != '\n'
            invariant
                n == s@.len(),
                pos <= j <= n,
                forall|k: int| pos <= k < j ==> #[trigger] s@[k] != '\n',
            decreases n - j,
        {
            j = j + 1;
        }
        let ghost rest = s@.skip(pos as int);
        proof {
            assert forall|k: int| 0 <= k < j - pos implies #[trigger] rest[k] != '\n' by {
                assert(rest[k] == s@[pos + k]);
            }
            if j < n {
                assert(rest[j - pos] == s@[j as int]);
            }
            crate::text::lemma_line_end(rest, (j - pos) as int);
        }
        let content = crate::text::copy_range(s, pos, j);
        assert(content@ =~= rest.take((j - pos) as int));
        let replace = chars_eq(&content, legacy);
        let ghost before = out@;
        if j < n {
            let piece = if replace {
                crate::text::copy_range(activation, 0, activation.len())
            } else {
                crate::text::copy_range(s, pos, j + 1)
            };
            proof {
                assert(activation@.subrange(0, activation@.len() as int) =~= activation@);
                assert(rest.take((j - pos) + 1) =~= s@.subrange(pos as int, j + 1));
                assert(rest.skip((j - pos) + 1) =~= s@.skip(j + 1));
            }
            let mut k: usize = 0;
            while k < piece.len()
                invariant
                    k <= piece@.len(),
                    out@ == before + piece@.take(k as int),
                decreases piece.len() - k,
            {
                out.push(piece[k]);
                k = k + 1;
                assert(out@ =~= before + piece@.take(k as int));
            }
            assert(piece@.take(piece@.len() as int) =~= piece@);
            assert(out@ + migrated(s@.skip(j + 1), legacy@, activation@) =~= before + migrated(rest, legacy@, activation@));
            pos = j + 1;
        } else {
            let piece = if replace {
                crate::text::copy_range(activation, 0, activation.len())
            } else {
                crate::text::copy_range(s, pos, n)
            };
            proof {
                assert(activation@.subrange(0, activation@.len() as int) =~= activation@);
                assert(rest.take((j - pos) as int) =~= rest);
            }
            let mut k: usize = 0;
            while k < piece.len()
                invariant
                    k <= piece@.len(),
                    out@ == before + piece@.take(k as int),
                decreases piece.len() - k,
            {
                out.push(piece[k]);
                k = k + 1;
                assert(out@ =~= before + piece@.take(k as int));
            }
            assert(piece@.take(piece@.len() as int) =~= piece@);
            pos = n;
            assert(migrated(s@.skip(pos as int), legacy@, activation@) =~= seq![]);
            assert(out@ + migrated(s@.skip(pos as int), legacy@, activation@) =~= before + migrated(rest, legacy@, activation@));
        }
    }
    assert(migrated(s@.skip(pos as int), legacy@, activation@) =~= seq![]);
    assert(out@ + migrated(s@.skip(pos as int), legacy@, activation@) =~= out@);
    out
}

/// Decides how a shell configuration is brought to activate mise; the
/// caller reads the file before and writes it (after a backup) as told.
pub fn shell_config_update(
    existing: Option<&str>,
    shell: &str,
    activation: &str,
    defaults: &str,
) -> (u: ShellConfigUpdate)
    ensures
        u@ == shell_update(
            match existing {
                Some(e) => Some(e@),
                None => None,
            },
            shell@,
            activation@,
            defaults@,
        ),
{
    let original = match existing {
        Some(e) => chars_of(e),
        None => chars_of(defaults),
    };
    let legacy = chars_of(legacy_text(shell).as_str());
    let has_legacy = has_line_exec(&original, &legacy);
    let original_str = string_of_chars(original.as_slice());
    let ghost ex = match existing {
        Some(e) => Some(e@),
        None => None::<Seq<char>>,
    };
    assert(original@ == match ex { Some(e) => e, None => defaults@ });
    if !has_legacy && has_shell_activation(original_str.as_str(), shell) {
        return ShellConfigUpdate::AlreadyConfigured;
    }
    let contents = if has_legacy {
        let act = chars_of(activation);
        let m = migrate_exec(&original, &legacy, &act);
        string_of_chars(m.as_slice())
    } else {
        let mut c = original_str;
        c.append("\n");
        c.append(activation);
        proof {
            reveal_strlit("\n");
            assert("\n"@ =~= nl());
        }
        c
    };
    ShellConfigUpdate::Write { contents, backup: existing.is_some() }
}


// ---------------------------------------------------------------------------
// Setting up a shell configuration twice changes it once
// ---------------------------------------------------------------------------

pub open spec fn cr() -> Seq<char> {
    seq!['\r']
}

/// Some piece of `x` that a line feed ends is `l` followed by a carriage
/// return.
pub open spec fn crlf_segment(x: Seq<char>, l: Seq<char>) -> bool
    decreases x.len(),
{
    if x.len() == 0 {
        false
    } else if line_end(x) < x.len() {
        x.take(line_end(x) as int) == l + cr() || crlf_segment(x.skip(line_end(x) as int + 1), l)
    } else {
        false
    }
}

/// What follows the last line feed of `x` (all of `x` when it has none).
pub open spec fn tail_segment(x: Seq<char>) -> Seq<char>
    decreases x.len(),
{
    if x.len() > 0 && line_end(x) < x.len() {
        tail_segment(x.skip(line_end(x) as int + 1))
    } else {
        x
    }
}

/// The text a shell configuration update starts from.
pub open spec fn original_of(existing: Option<Seq<char>>, defaults: Seq<char>) -> Seq<char> {
    match existing {
        Some(e) => e,
        None => defaults,
    }
}

proof fn lemma_lines_single(c: Seq<char>)
    requires
        forall|j: int| 0 <= j < c.len() ==> #[trigger] c[j] != '\n',
    ensures
        lines_of(c + nl()) == seq![strip_cr(c)],
{
    let p = c + nl();
    assert forall|j: int| 0 <= j < c.len() implies #[trigger] p[j] != '\n' by {
        assert(p[j] == c[j]);
    }
    crate::text::lemma_line_end(p, c.len() as int);
    assert(p.take(c.len() as int) =~= c);
    assert(p.skip(c.len() as int + 1) =~= Seq::<char>::empty());
    assert(lines_of(p.skip(c.len() as int + 1)) =~= Seq::<Seq<char>>::empty());
    assert(lines_of(p) =~= seq![strip_cr(c)]);
}

/// The pieces of a text: its first line and the rest.
proof fn lemma_first_piece(x: Seq<char>)
    requires
        x.len() > 0,
        line_end(x) < x.len(),
    ensures
        ({
            let k = line_end(x) as int;
            &&& x == x.take(k + 1) + x.skip(k + 1)
            &&& x.take(k + 1) == x.take(k) + nl()
            &&& forall|j: int| 0 <= j < k ==> #[trigger] x.take(k)[j] != '\n'
            &&& lines_of(x.take(k + 1)) == seq![strip_cr(x.take(k))]
            &&& lines_of(x) == seq![strip_cr(x.take(k))] + lines_of(x.skip(k + 1))
        }),
{
    crate::text::lemma_line_end_bound(x);
    let k = line_end(x) as int;
    assert(x =~= x.take(k + 1) + x.skip(k + 1));
    assert(x.take(k + 1) =~= x.take(k) + nl());
    assert forall|j: int| 0 <= j < k implies #[trigger] x.take(k)[j] != '\n' by {
        assert(x.take(k)[j] == x[j]);
    }
    lemma_lines_single(x.take(k));
}

proof fn lemma_no_newline_lines(x: Seq<char>)
    requires
        x.len() > 0,
        line_end(x) == x.len(),
    ensures
        lines_of(x) == seq![x],
{
}

/// A text without a line of `l`, that does not end in `l` and a carriage
/// return, still has none once a line feed is appended.
proof fn lemma_newline_keeps_no_line(x: Seq<char>, l: Seq<char>)
    requires
        l.len() > 0,
        !has_line(x, l),
        tail_segment(x) != l + cr(),
    ensures
        !has_line(x + nl(), l),
    decreases x.len(),
{
    let p = x + nl();
    if x.len() == 0 {
        assert(p =~= nl());
        lemma_lines_single(x);
        assert(strip_cr(x) =~= Seq::<char>::empty());
    } else if line_end(x) < x.len() {
        lemma_first_piece(x);
        let k = line_end(x) as int;
        let rest = x.skip(k + 1);
        assert forall|i: int| 0 <= i < lines_of(rest).len() implies #[trigger] lines_of(rest)[i] != l by {
            assert(lines_of(x)[i + 1] == lines_of(rest)[i]);
        }
        assert(lines_of(x)[0] == strip_cr(x.take(k)));
        lemma_newline_keeps_no_line(rest, l);
        assert(p =~= x.take(k + 1) + (rest + nl()));
        crate::text::lemma_lines_of_append(x.take(k + 1), rest + nl());
        assert forall|i: int| 0 <= i < lines_of(p).len() implies #[trigger] lines_of(p)[i] != l by {
            if i > 0 {
                assert(lines_of(p)[i] == lines_of(rest + nl())[i - 1]);
            }
        }
    } else {
        crate::text::lemma_line_end_bound(x);
        lemma_lines_single(x);
        lemma_no_newline_lines(x);
        assert(lines_of(x)[0] == x);
        if strip_cr(x) == l {
            assert(x.len() > 0 && x.last() == '\r');
            assert(x =~= l + cr());
        }
        assert(lines_of(p)[0] == strip_cr(x));
    }
}

/// The activation text meets what the law needs of it.
pub open spec fn activation_fits(a: Seq<char>, shell: Seq<char>) -> bool {
    &&& a.len() > 0
    &&& a.last() == '\n'
    &&& has_activation(a, shell)
    &&& !has_line(a, legacy_line(shell))
}

proof fn lemma_migrated(x: Seq<char>, l: Seq<char>, a: Seq<char>, shell: Seq<char>)
    requires
        l.len() > 0,
        activation_fits(a, shell),
        l == legacy_line(shell),
        !crlf_segment(x, l),
    ensures
        !has_line(migrated(x, l, a), l),
        has_line(x, l) ==> has_activation(migrated(x, l, a), shell),
    decreases x.len(),
{
    let u = migrated(x, l, a);
    if x.len() == 0 {
        assert(lines_of(u) =~= Seq::<Seq<char>>::empty());
    } else if line_end(x) < x.len() {
        lemma_first_piece(x);
        let k = line_end(x) as int;
        let c = x.take(k);
        let rest = x.skip(k + 1);
        let piece = if c == l { a } else { x.take(k + 1) };
        lemma_migrated(rest, l, a, shell);
        assert(u == piece + migrated(rest, l, a));
        crate::text::lemma_lines_of_append(piece, migrated(rest, l, a));
        let lp = lines_of(piece);
        let lr = lines_of(migrated(rest, l, a));
        assert(lines_of(u) == lp + lr);
        if c != l {
            assert(lp == seq![strip_cr(c)]);
            if strip_cr(c) == l {
                assert(c.len() > 0 && c.last() == '\r');
                assert(c =~= l + cr());
            }
        }
        assert forall|i: int| 0 <= i < lines_of(u).len() implies #[trigger] lines_of(u)[i] != l by {
            if i < lp.len() {
                assert(lines_of(u)[i] == lp[i]);
            } else {
                assert(lines_of(u)[i] == lr[i - lp.len()]);
            }
        }
        if has_line(x, l) {
            let i = choose|i: int| 0 <= i < lines_of(x).len() && #[trigger] lines_of(x)[i] == l;
            if i == 0 {
                assert(strip_cr(c) == l);
                if c != l {
                    assert(c =~= l + cr());
                }
                let j = choose|j: int| 0 <= j < lines_of(a).len() && activates(#[trigger] lines_of(a)[j], shell);
                assert(lines_of(u)[j] == lines_of(a)[j]);
            } else {
                assert(lines_of(rest)[i - 1] == l);
                let j = choose|j: int| 0 <= j < lr.len() && activates(#[trigger] lr[j], shell);
                assert(lines_of(u)[lp.len() + j] == lr[j]);
            }
        }
    } else {
        crate::text::lemma_line_end_bound(x);
        lemma_no_newline_lines(x);
        assert(lines_of(x)[0] == x);
        if x == l {
            assert(u == a);
        } else {
            assert(u == x);
            assert forall|i: int| 0 <= i < lines_of(u).len() implies #[trigger] lines_of(u)[i] != l by {}
        }
    }
}

/// Setting up a shell configuration a second time finds it configured: when
/// the update of a file writes new contents, the update of those contents
/// leaves them alone. This holds for any activation text that ends with a
/// line feed, activates mise and has no legacy line, and for any original
/// text except one that holds the legacy line followed by a carriage
/// return (a piece before a line feed, or, where no legacy line is found,
/// the end of the text).
pub proof fn lemma_shell_update_idempotent(
    existing: Option<Seq<char>>,
    shell: Seq<char>,
    activation: Seq<char>,
    defaults: Seq<char>,
)
    requires
        activation_fits(activation, shell),
        ({
            let x = original_of(existing, defaults);
            let l = legacy_line(shell);
            &&& !crlf_segment(x, l)
            &&& (has_line(x, l) || tail_segment(x) != l + cr())
        }),
    ensures
        shell_update(existing, shell, activation, defaults) matches ShellUpdateView::Write { contents, .. }
            ==> shell_update(Some(contents), shell, activation, defaults) == ShellUpdateView::AlreadyConfigured,
{
    let x = original_of(existing, defaults);
    let l = legacy_line(shell);
    assert(l.len() > 0) by {
        reveal_strlit("~/.local/bin/mise activate fish | source");
        reveal_strlit("eval \"$($HOME/.local/bin/mise activate bash)\"");
    }
    if let ShellUpdateView::Write { contents, .. } = shell_update(existing, shell, activation, defaults) {
        if has_line(x, l) {
            lemma_migrated(x, l, activation, shell);
        } else {
            lemma_newline_keeps_no_line(x, l);
            let p = x + nl();
            assert(contents == p + activation);
            assert(p.last() == '\n');
            crate::text::lemma_lines_of_append(p, activation);
            let lp = lines_of(p);
            let la = lines_of(activation);
            assert forall|i: int| 0 <= i < lines_of(contents).len() implies #[trigger] lines_of(contents)[i] != l by {
                if i < lp.len() {
                    assert(lines_of(contents)[i] == lp[i]);
                } else {
                    assert(lines_of(contents)[i] == la[i - lp.len()]);
                }
            }
            let j = choose|j: int| 0 <= j < la.len() && activates(#[trigger] la[j], shell);
            assert(lines_of(contents)[lp.len() + j] == la[j]);
        }
    }
}


/// Setting up the bash or fish configuration keeps what the user wrote: a
/// file that activates mise already (and holds no legacy line) is left
/// alone; any other file without the legacy line is backed up and keeps its
/// text, followed by a line feed and the activation block, after which it
/// activates mise for that shell.
pub proof fn lemma_shell_setup_keeps_user_text(existing: Seq<char>, shell: Seq<char>)
    requires
        shell == "bash"@ || shell == "fish"@,
        !has_line(existing, legacy_line(shell)),
    ensures
        ({
            let activation = if shell == "fish"@ { fish_activation() } else { bash_activation() };
            let defaults = if shell == "fish"@ { fish_defaults() } else { seq![] };
            let u = shell_update(Some(existing), shell, activation, defaults);
            &&& has_activation(existing, shell) ==> u == ShellUpdateView::AlreadyConfigured
            &&& !has_activation(existing, shell) ==> (u matches ShellUpdateView::Write { contents, backup } && backup
                && contents.take(existing.len() as int) == existing && contents[existing.len() as int] == '\n'
                && contents.skip(existing.len() + 1int) == activation && has_activation(contents, shell))
        }),
{
    let activation = if shell == "fish"@ { fish_activation() } else { bash_activation() };
    if shell == "fish"@ {
        lemma_fish_activation_fits();
    } else {
        lemma_bash_activation_fits();
    }
    if !has_activation(existing, shell) {
        let p = existing + nl();
        let contents = p + activation;
        assert(contents.take(existing.len() as int) =~= existing);
        assert(contents.skip(existing.len() + 1int) =~= activation);
        assert(p.last() == '\n');
        crate::text::lemma_lines_of_append(p, activation);
        let lp = lines_of(p);
        let la = lines_of(activation);
        let j = choose|j: int| 0 <= j < la.len() && activates(#[trigger] la[j], shell);
        assert(lines_of(contents)[lp.len() + j] == la[j]);
    }
}

/// A line that holds no line feed and does not end with a carriage return.
pub open spec fn plain_line(l: Seq<char>) -> bool {
    &&& forall|j: int| 0 <= j < l.len() ==> #[trigger] l[j] != '\n'
    &&& (l.len() > 0 ==> l.last() != '\r')
}

proof fn lemma_lines_of_text(ls: Seq<Seq<char>>)
    requires
        forall|i: int| 0 <= i < ls.len() ==> plain_line(#[trigger] ls[i]),
    ensures
        lines_of(text_of_lines(ls)) == ls,
        ls.len() > 0 ==> text_of_lines(ls).len() > 0 && text_of_lines(ls).last() == '\n',
    decreases ls.len(),
{
    if ls.len() > 0 {
        let d = ls.drop_last();
        assert forall|i: int| 0 <= i < d.len() implies plain_line(#[trigger] d[i]) by {
            assert(d[i] == ls[i]);
        }
        lemma_lines_of_text(d);
        let t = text_of_lines(d);
        let l = ls.last();
        assert(plain_line(ls[ls.len() - 1]));
        assert(text_of_lines(ls) == t + (l + nl()));
        crate::text::lemma_lines_of_append(t, l + nl());
        lemma_lines_single(l);
        assert(strip_cr(l) == l);
        assert(lines_of(text_of_lines(ls)) =~= ls);
    }
}

proof fn lemma_bash_activation_fits()
    ensures
        activation_fits(bash_activation(), "bash"@),
{
    let ls = bash_activation_lines();
    reveal_strlit("# mise activation -- added by devenv-linux installer");
    reveal_strlit("if ! command -v mise >/dev/null 2>&1; then");
    reveal_strlit("    export PATH=\"$HOME/.local/bin:$PATH\"");
    reveal_strlit("fi");
    reveal_strlit("case $- in");
    reveal_strlit("    *i*) eval \"$(mise activate bash)\" ;;");
    reveal_strlit("esac");
    reveal_strlit("bash");
    reveal_strlit("fish");
    reveal_strlit("eval \"$($HOME/.local/bin/mise activate bash)\"");
    reveal_strlit("mise activate ");
    reveal_strlit("#");
    assert forall|i: int| 0 <= i < ls.len() implies plain_line(#[trigger] ls[i]) by {
        assert(ls[i].len() > 0 ==> ls[i].last() != '\r');
    }
    lemma_lines_of_text(ls);
    let l = legacy_line("bash"@);
    assert("bash"@[0] != "fish"@[0]);
    assert("bash"@ != "fish"@);
    assert(l == "eval \"$($HOME/.local/bin/mise activate bash)\""@);
    assert forall|i: int| 0 <= i < ls.len() implies #[trigger] ls[i] != l by {
        assert(ls[i].len() != l.len() || ls[i][0] != l[0]);
    }
    let a = ls[5];
    crate::text::lemma_lead_ws(a, 4);
    let t = a.skip(4);
    crate::text::lemma_trail_ws(t, 0);
    assert(trim(a) =~= t);
    assert(t[0] == '*');
    let p = "mise activate "@ + "bash"@;
    assert(t.subrange(13, 13 + p.len() as int) =~= p);
    assert(crate::text::occurs_at(t, p, 13));
    assert(activates(lines_of(bash_activation())[5], "bash"@));
}

proof fn lemma_fish_activation_fits()
    ensures
        activation_fits(fish_activation(), "fish"@),
{
    let ls = fish_activation_lines();
    reveal_strlit("# mise activation -- added by devenv-linux installer");
    reveal_strlit("if not type -q mise");
    reveal_strlit("    set -gx PATH \"$HOME/.local/bin\" $PATH");
    reveal_strlit("end");
    reveal_strlit("if status is-interactive");
    reveal_strlit("    mise activate fish | source");
    reveal_strlit("else");
    reveal_strlit("    mise activate fish --shims | source");
    reveal_strlit("fish");
    reveal_strlit("~/.local/bin/mise activate fish | source");
    reveal_strlit("mise activate ");
    reveal_strlit("#");
    assert forall|i: int| 0 <= i < ls.len() implies plain_line(#[trigger] ls[i]) by {
        assert(ls[i].len() > 0 ==> ls[i].last() != '\r');
    }
    lemma_lines_of_text(ls);
    let l = legacy_line("fish"@);
    assert(l == "~/.local/bin/mise activate fish | source"@);
    assert forall|i: int| 0 <= i < ls.len() implies #[trigger] ls[i] != l by {
        assert(ls[i].len() != l.len() || ls[i][0] != l[0]);
    }
    let a = ls[5];
    crate::text::lemma_lead_ws(a, 4);
    let t = a.skip(4);
    crate::text::lemma_trail_ws(t, 0);
    assert(trim(a) =~= t);
    assert(t[0] == 'm');
    let p = "mise activate "@ + "fish"@;
    assert(t.subrange(0, p.len() as int) =~= p);
    assert(crate::text::occurs_at(t, p, 0));
    assert(activates(lines_of(fish_activation())[5], "fish"@));
}

/// Running the bash or fish configuration setup a second time leaves the
/// file alone: when the first run writes new contents, the second finds
/// mise activated and no legacy line. `existing` is what the file held
/// before the first run (`None` when it did not exist); excluded are only
/// originals that hold the legacy activation line followed by a carriage
/// return, the case in which the legacy line stays in place.
pub proof fn lemma_shell_setup_idempotent(existing: Option<Seq<char>>, shell: Seq<char>)
    requires
        shell == "bash"@ || shell == "fish"@,
        ({
            let defaults = if shell == "fish"@ { fish_defaults() } else { seq![] };
            let x = original_of(existing, defaults);
            let l = legacy_line(shell);
            &&& !crlf_segment(x, l)
            &&& (has_line(x, l) || tail_segment(x) != l + cr())
        }),
    ensures
        ({
            let activation = if shell == "fish"@ { fish_activation() } else { bash_activation() };
            let defaults = if shell == "fish"@ { fish_defaults() } else { seq![] };
            shell_update(existing, shell, activation, defaults) matches ShellUpdateView::Write { contents, .. }
                ==> shell_update(Some(contents), shell, activation, defaults) == ShellUpdateView::AlreadyConfigured
        }),
{
    if shell == "fish"@ {
        lemma_fish_activation_fits();
        lemma_shell_update_idempotent(existing, shell, fish_activation(), fish_defaults());
    } else {
        lemma_bash_activation_fits();
        lemma_shell_update_idempotent(existing, shell, bash_activation(), seq![]);
    }
}

// ---------------------------------------------------------------------------
// Which configuration a component sets up
// ---------------------------------------------------------------------------

/// What setting up a configuration component works on; paths are relative
/// to the home directory.
#[derive(Debug, Clone, PartialEq, Eq)]
pub enum ConfigTarget {
    /// A shell configuration file that is to activate mise.
    Shell { path: String, shell: String, activation: String, defaults: String },
    /// The Neovim configuration directory, replaced by the LazyVim starter.
    Nvim { path: String },
    /// No configuration has this id: the setup logs the line and counts as
    /// a change.
    Unknown { message: String },
}

pub enum ConfigTargetView {
    Shell { path: Seq<char>, shell: Seq<char>, activation: Seq<char>, defaults: Seq<char> },
    Nvim { path: Seq<char> },
    Unknown { message: Seq<char> },
}

impl View for ConfigTarget {
    type V = ConfigTargetView;

    open spec fn view(&self) -> ConfigTargetView {
        match self {
            ConfigTarget::Shell { path, shell, activation, defaults } => ConfigTargetView::Shell {
                path: path@,
                shell: shell@,
                activation: activation@,
                defaults: defaults@,
            },
            ConfigTarget::Nvim { path } => ConfigTargetView::Nvim { path: path@ },
            ConfigTarget::Unknown { message } => ConfigTargetView::Unknown { message: message@ },
        }
    }
}

pub open spec fn config_target_of(id: Seq<char>) -> ConfigTargetView {
    if id == "config-bash"@ {
        ConfigTargetView::Shell { path: ".bashrc"@, shell: "bash"@, activation: bash_activation(), defaults: seq![] }
    } else if id == "config-fish"@ {
        ConfigTargetView::Shell {
            path: ".config/fish/config.fish"@,
            shell: "fish"@,
            activation: fish_activation(),
            defaults: fish_defaults(),
        }
    } else if id == "config-nvim"@ {
        ConfigTargetView::Nvim { path: ".config/nvim"@ }
    } else {
        ConfigTargetView::Unknown { message: "Unknown config component: "@ + id }
    }
}

/// What the configuration component with this id sets up.
pub fn config_target(id: &str) -> (t: ConfigTarget)
    ensures
        t@ == config_target_of(id@),
{
    if str_eq(id, "config-bash") {
        ConfigTarget::Shell {
            path: owned(".bashrc"),
            shell: owned("bash"),
            activation: bash_activation_text(),
            defaults: String::new(),
        }
    } else if str_eq(id, "config-fish") {
        ConfigTarget::Shell {
            path: owned(".config/fish/config.fish"),
            shell: owned("fish"),
            activation: fish_activation_text(),
            defaults: fish_defaults_text(),
        }
    } else if str_eq(id, "config-nvim") {
        ConfigTarget::Nvim { path: owned(".config/nvim") }
    } else {
        ConfigTarget::Unknown { message: concat_str("Unknown config component: ", id) }
    }
}

/// Each configuration component sets up its own file: `config-bash`
/// activates mise for bash in `.bashrc`, `config-fish` for fish in
/// `.config/fish/config.fish`, `config-nvim` replaces `.config/nvim`; the
/// activation text written activates mise for that same shell.
pub proof fn lemma_config_targets(id: Seq<char>)
    ensures
        id == "config-bash"@ ==> (config_target_of(id) matches ConfigTargetView::Shell { path, shell, activation, .. }
            && path == ".bashrc"@ && shell == "bash"@ && has_activation(activation, "bash"@)),
        id == "config-fish"@ ==> (config_target_of(id) matches ConfigTargetView::Shell { path, shell, activation, .. }
            && path == ".config/fish/config.fish"@ && shell == "fish"@ && has_activation(activation, "fish"@)),
        id == "config-nvim"@ ==> config_target_of(id) == (ConfigTargetView::Nvim { path: ".config/nvim"@ }),
        id != "config-bash"@ && id != "config-fish"@ && id != "config-nvim"@ ==> config_target_of(id) is Unknown,
{
    lemma_bash_activation_fits();
    lemma_fish_activation_fits();
    reveal_strlit("config-bash");
    reveal_strlit("config-fish");
    reveal_strlit("config-nvim");
    assert("config-fish"@[7] != "config-bash"@[7]);
    assert("config-nvim"@[7] != "config-bash"@[7]);
    assert("config-nvim"@[7] != "config-fish"@[7]);
}

/// The shell configurations activate mise, so they cannot be set up
/// without it.
pub fn config_needs_mise(component: &Component) -> (b: bool)
    ensures
        b == is_shell_config_id(component.id@),
{
    str_eq(component.id.as_str(), "config-bash") || str_eq(component.id.as_str(), "config-fish")
}

/// `Existing configuration backed up to <path>`.
pub fn shell_backup_line(path: &str) -> (r: String)
    ensures
        r@ == "Existing configuration backed up to "@ + path@,
{
    concat_str("Existing configuration backed up to ", path)
}

// ---------------------------------------------------------------------------
// Commands that must succeed
// ---------------------------------------------------------------------------

/// The error of a command that had to succeed: `Failed to <action>`, with
/// its trimmed standard error where there is any.
pub open spec fn success_result(success: bool, stderr: Seq<char>, action: Seq<char>) -> Result<(), Seq<char>> {
    if success {
        Ok(())
    } else if trim(stderr).len() == 0 {
        Err("Failed to "@ + action)
    } else {
        Err("Failed to "@ + action + ": "@ + trim(stderr))
    }
}

pub open spec fn unit_view(r: Result<(), String>) -> Result<(), Seq<char>> {
    match r {
        Ok(()) => Ok(()),
        Err(e) => Err(e@),
    }
}

pub fn ensure_success(result: CommandResult, action: &str) -> (r: Result<(), String>)
    ensures
        unit_view(r) == success_result(result.success, result.stderr@, action@),
{
    if result.success {
        Ok(())
    } else {
        let stderr = trim_str(result.stderr.as_str());
        if stderr.as_str().unicode_len() == 0 {
            Err(concat_str("Failed to ", action))
        } else {
            let mut e = concat_str("Failed to ", action);
            e.append(": ");
            e.append(stderr.as_str());
            Err(e)
        }
    }
}

// ---------------------------------------------------------------------------
// Numbered paths
// ---------------------------------------------------------------------------

/// The `k`-th path tried after `base`: `base` itself, then `base.1`,
/// `base.2`, and so on.
pub open spec fn numbered_candidate(base: Seq<char>, k: nat) -> Seq<char> {
    if k == 0 {
        base
    } else {
        base + "."@ + decimal(k)
    }
}

/// `taken` answered `answer` for a path with this text.
pub open spec fn answered<F: Fn(&String) -> bool>(taken: F, path: Seq<char>, answer: bool) -> bool {
    exists|s: String| s@ == path && call_ensures(taken, (&s,), answer)
}

pub open spec fn no_numbered_path(base: Seq<char>) -> Seq<char> {
    "No available numbered path after "@ + base
}

/// The first of `destination + suffix` and its numbered variants (up to
/// `u32::MAX`) that `taken` reports free, or the error that none is.
pub fn next_numbered_path<F: Fn(&String) -> bool>(destination: &str, suffix: &str, taken: F) -> (r: Result<String, String>)
    requires
        forall|s: &String| call_requires(taken, (s,)),
    ensures
        match r {
            Ok(p) => exists|k: nat| {
                &&& k <= u32::MAX
                &&& p@ == #[trigger] numbered_candidate(destination@ + suffix@, k)
                &&& call_ensures(taken, (&p,), false)
                &&& forall|j: nat| j < k ==> answered(taken, #[trigger] numbered_candidate(destination@ + suffix@, j), true)
            },
            Err(e) => {
                &&& e@ == no_numbered_path(destination@ + suffix@)
                &&& forall|j: nat| j <= u32::MAX ==> answered(taken, #[trigger] numbered_candidate(destination@ + suffix@, j), true)
            },
        },
{
    let base = concat_str(destination, suffix);
    let ghost b = base@;
    if !taken(&base) {
        assert(base@ == numbered_candidate(b, 0));
        return Ok(base);
    }
    assert(answered(taken, numbered_candidate(b, 0), true)) by {
        assert(base@ == numbered_candidate(b, 0));
    }
    let mut index: u64 = 1;
    while index <= 0xffff_ffff
        invariant
            1 <= index <= 0x1_0000_0000,
            b == base@,
            b == destination@ + suffix@,
            forall|s: &String| call_requires(taken, (s,)),
            forall|j: nat| j < index ==> answered(taken, #[trigger] numbered_candidate(b, j), true),
        decreases 0x1_0000_0000 - index,
    {
        let mut candidate = concat_str(base.as_str(), ".");
        candidate.append(decimal_text(index as usize).as_str());
        assert(candidate@ == numbered_candidate(b, index as nat));
        if !taken(&candidate) {
            return Ok(candidate);
        }
        assert(answered(taken, numbered_candidate(b, index as nat), true));
        index = index + 1;
    }
    let mut e = owned("No available numbered path after ");
    e.append(base.as_str());
    Err(e)
}

/// Where the Neovim configuration is staged before it replaces the old one.
pub fn next_staging_path<F: Fn(&String) -> bool>(destination: &str, taken: F) -> (r: Result<String, String>)
    requires
        forall|s: &String| call_requires(taken, (s,)),
    ensures
        match r {
            Ok(p) => exists|k: nat| {
                &&& k <= u32::MAX
                &&& p@ == #[trigger] numbered_candidate(destination@ + ".devenv-staging"@, k)
                &&& call_ensures(taken, (&p,), false)
                &&& forall|j: nat| j < k ==> answered(taken, #[trigger] numbered_candidate(destination@ + ".devenv-staging"@, j), true)
            },
            Err(e) => e@ == no_numbered_path(destination@ + ".devenv-staging"@),
        },
{
    next_numbered_path(destination, ".devenv-staging", taken)
}

/// Where an existing configuration is backed up before it is replaced.
pub fn next_backup_path<F: Fn(&String) -> bool>(destination: &str, taken: F) -> (r: Result<String, String>)
    requires
        forall|s: &String| call_requires(taken, (s,)),
    ensures
        match r {
            Ok(p) => exists|k: nat| {
                &&& k <= u32::MAX
                &&& p@ == #[trigger] numbered_candidate(destination@ + ".bak"@, k)
                &&& call_ensures(taken, (&p,), false)
                &&& forall|j: nat| j < k ==> answered(taken, #[trigger] numbered_candidate(destination@ + ".bak"@, j), true)
            },
            Err(e) => e@ == no_numbered_path(destination@ + ".bak"@),
        },
{
    next_numbered_path(destination, ".bak", taken)
}

/// An existing configuration directory is backed up to `<dir>.bak`, or,
/// where that is taken, to `<dir>.bak.1`, `<dir>.bak.2`, and so on; the
/// staging directory is named the same way after `<dir>.devenv-staging`.
pub proof fn lemma_backup_names(destination: Seq<char>)
    ensures
        numbered_candidate(destination + ".bak"@, 0) == destination + ".bak"@,
        numbered_candidate(destination + ".bak"@, 1) == destination + ".bak.1"@,
        numbered_candidate(destination + ".bak"@, 2) == destination + ".bak.2"@,
        numbered_candidate(destination + ".devenv-staging"@, 0) == destination + ".devenv-staging"@,
        numbered_candidate(destination + ".devenv-staging"@, 1) == destination + ".devenv-staging.1"@,
        forall|k: nat| k > 0 ==> #[trigger] numbered_candidate(destination + ".bak"@, k).take(destination.len() + 5int)
            == destination + ".bak."@,
{
    reveal_strlit(".bak");
    reveal_strlit(".bak.1");
    reveal_strlit(".bak.2");
    reveal_strlit(".bak.");
    reveal_strlit(".");
    reveal_strlit(".devenv-staging");
    reveal_strlit(".devenv-staging.1");
    assert(decimal(1) == seq!['1']);
    assert(decimal(2) == seq!['2']);
    assert(destination + ".bak"@ + "."@ + decimal(1) =~= destination + ".bak.1"@);
    assert(destination + ".bak"@ + "."@ + decimal(2) =~= destination + ".bak.2"@);
    assert(destination + ".devenv-staging"@ + "."@ + decimal(1) =~= destination + ".devenv-staging.1"@);
    assert forall|k: nat| k > 0 implies #[trigger] numbered_candidate(destination + ".bak"@, k).take(destination.len() + 5int)
        == destination + ".bak."@ by {
        assert((destination + ".bak"@ + "."@ + decimal(k)).take(destination.len() + 5int) =~= destination + ".bak."@);
    }
}

// ---------------------------------------------------------------------------
// The Neovim configuration
// ---------------------------------------------------------------------------

/// A step of setting up the Neovim configuration. The new configuration is
/// prepared in a staging directory and only then swapped into place, so a
/// failed preparation leaves the old one untouched.
#[derive(Debug, Clone, Copy, PartialEq, Eq, Structural)]
pub enum NvimStep {
    /// Create the directory that holds the staging directory.
    CreateParent,
    /// Clone the LazyVim starter into the staging directory.
    Clone,
    /// Remove the clone's git metadata.
    RemoveGitMetadata,
    /// Append the clipboard configuration to `lua/config/options.lua`.
    AppendClipboard,
    /// Remove the staging directory after a failed preparation.
    DiscardStaging,
    /// Move the old configuration to a backup and the staged one into place.
    Swap,
    /// Nothing is left to do.
    Finished,
}

/// The step that follows `step` when it ended with `r`, and the error that
/// the setup ends with, where there is one so far.
pub open spec fn nvim_after(step: NvimStep, error: Option<Seq<char>>, r: Result<(), Seq<char>>) -> (NvimStep, Option<Seq<char>>) {
    match step {
        NvimStep::CreateParent => match r {
            Ok(()) => (NvimStep::Clone, None),
            Err(e) => (NvimStep::Finished, Some(e)),
        },
        NvimStep::Clone => match r {
            Ok(()) => (NvimStep::RemoveGitMetadata, None),
            Err(e) => (NvimStep::DiscardStaging, Some(e)),
        },
        NvimStep::RemoveGitMetadata => match r {
            Ok(()) => (NvimStep::AppendClipboard, None),
            Err(e) => (NvimStep::DiscardStaging, Some(e)),
        },
        NvimStep::AppendClipboard => match r {
            Ok(()) => (NvimStep::Swap, None),
            Err(e) => (NvimStep::DiscardStaging, Some(e)),
        },
        NvimStep::DiscardStaging => (NvimStep::Finished, error),
        NvimStep::Swap => match r {
            Ok(()) => (NvimStep::Finished, None),
            Err(e) => (NvimStep::Finished, Some(e)),
        },
        NvimStep::Finished => (NvimStep::Finished, error),
    }
}

/// The progress of setting up the Neovim configuration.
pub struct NvimSetup {
    pub step: NvimStep,
    pub error: Option<String>,
}

pub open spec fn opt_seq(o: Option<String>) -> Option<Seq<char>> {
    match o {
        Some(s) => Some(s@),
        None => None,
    }
}

pub open spec fn result_seq(r: Result<(), String>) -> Result<(), Seq<char>> {
    match r {
        Ok(()) => Ok(()),
        Err(e) => Err(e@),
    }
}

pub open spec fn nvim_message_of(step: NvimStep) -> Option<Seq<char>> {
    match step {
        NvimStep::Clone => Some("Cloning LazyVim starter into staging..."@),
        NvimStep::AppendClipboard => Some("Appending OSC52 clipboard configuration..."@),
        _ => None,
    }
}

impl NvimSetup {
    pub fn new() -> (s: NvimSetup)
        ensures
            s.step == NvimStep::CreateParent,
            s.error is None,
    {
        NvimSetup { step: NvimStep::CreateParent, error: None }
    }

    /// Takes how the current step ended.
    pub fn record(&mut self, r: Result<(), String>)
        ensures
            (final(self).step, opt_seq(final(self).error)) == nvim_after(old(self).step, opt_seq(old(self).error), result_seq(r)),
    {
        match self.step {
            NvimStep::CreateParent => match r {
                Ok(()) => {
                    self.step = NvimStep::Clone;
                    self.error = None;
                },
                Err(e) => {
                    self.step = NvimStep::Finished;
                    self.error = Some(e);
                },
            },
            NvimStep::Clone => match r {
                Ok(()) => {
                    self.step = NvimStep::RemoveGitMetadata;
                    self.error = None;
                },
                Err(e) => {
                    self.step = NvimStep::DiscardStaging;
                    self.error = Some(e);
                },
            },
            NvimStep::RemoveGitMetadata => match r {
                Ok(()) => {
                    self.step = NvimStep::AppendClipboard;
                    self.error = None;
                },
                Err(e) => {
                    self.step = NvimStep::DiscardStaging;
                    self.error = Some(e);
                },
            },
            NvimStep::AppendClipboard => match r {
                Ok(()) => {
                    self.step = NvimStep::Swap;
                    self.error = None;
                },
                Err(e) => {
                    self.step = NvimStep::DiscardStaging;
                    self.error = Some(e);
                },
            },
            NvimStep::DiscardStaging => {
                self.step = NvimStep::Finished;
            },
            NvimStep::Swap => match r {
                Ok(()) => {
                    self.step = NvimStep::Finished;
                    self.error = None;
                },
                Err(e) => {
                    self.step = NvimStep::Finished;
                    self.error = Some(e);
                },
            },
            NvimStep::Finished => {},
        }
    }

    /// The line logged before the current step runs, if any.
    pub fn message(&self) -> (m: Option<&'static str>)
        ensures
            match m {
                Some(t) => nvim_message_of(self.step) == Some(t@),
                None => nvim_message_of(self.step) is None,
            },
    {
        match self.step {
            NvimStep::Clone => Some("Cloning LazyVim starter into staging..."),
            NvimStep::AppendClipboard => Some("Appending OSC52 clipboard configuration..."),
            _ => None,
        }
    }

    /// What the setup came to, once it is finished: a change, or its error.
    pub fn outcome(&self) -> (r: Option<Result<ConfigOutcome, String>>)
        ensures
            match r {
                None => self.step != NvimStep::Finished,
                Some(Ok(o)) => self.step == NvimStep::Finished && self.error is None && o == ConfigOutcome::Changed,
                Some(Err(e)) => self.step == NvimStep::Finished && self.error == Some(e),
            },
    {
        if self.step != NvimStep::Finished {
            None
        } else {
            match &self.error {
                None => Some(Ok(ConfigOutcome::Changed)),
                Some(e) => Some(Err(e.clone())),
            }
        }
    }
}

/// The preparation of the staged configuration fails at its first failed
/// step, and then the staging directory is discarded before the setup ends
/// with that step's error; when every step succeeds the setup ends with a
/// change.
pub proof fn lemma_nvim_failure_discards_staging(step: NvimStep, error: Option<Seq<char>>, e: Seq<char>)
    requires
        step == NvimStep::Clone || step == NvimStep::RemoveGitMetadata || step == NvimStep::AppendClipboard,
    ensures
        nvim_after(step, error, Err(e)) == (NvimStep::DiscardStaging, Some(e)),
        forall|r: Result<(), Seq<char>>| #[trigger] nvim_after(NvimStep::DiscardStaging, Some(e), r) == (NvimStep::Finished, Some(e)),
{
}

/// The live configuration is touched only after staging succeeded: the
/// swap follows only a successful clipboard step, which follows only a
/// successful removal of the git metadata, which follows only a successful
/// clone, which follows only a created parent directory.
pub proof fn lemma_nvim_swaps_only_after_preparation(step: NvimStep, error: Option<Seq<char>>, r: Result<(), Seq<char>>)
    ensures
        nvim_after(step, error, r).0 == NvimStep::Swap ==> step == NvimStep::AppendClipboard && r is Ok,
        nvim_after(step, error, r).0 == NvimStep::AppendClipboard ==> step == NvimStep::RemoveGitMetadata && r is Ok,
        nvim_after(step, error, r).0 == NvimStep::RemoveGitMetadata ==> step == NvimStep::Clone && r is Ok,
        nvim_after(step, error, r).0 == NvimStep::Clone ==> step == NvimStep::CreateParent && r is Ok,
{
}

/// `git clone https://github.com/LazyVim/starter <staging>`.
pub fn clone_args(staging: &str) -> (r: Vec<String>)
    ensures
        r.deep_view() == seq!["clone"@, "https://github.com/LazyVim/starter"@, staging@],
{
    let mut r: Vec<String> = Vec::new();
    r.push(owned("clone"));
    r.push(owned("https://github.com/LazyVim/starter"));
    r.push(owned(staging));
    assert(r.deep_view() =~= seq!["clone"@, "https://github.com/LazyVim/starter"@, staging@]);
    r
}

/// `Existing nvim config backed up to <path>`.
pub fn nvim_backup_line(path: &str) -> (r: String)
    ensures
        r@ == "Existing nvim config backed up to "@ + path@,
{
    concat_str("Existing nvim config backed up to ", path)
}

/// The error of a staged configuration that could not be moved into place:
/// with the error of restoring the backup, where that failed too.
pub open spec fn swap_failure_of(swap_error: Seq<char>, restore_error: Option<Seq<char>>) -> Seq<char> {
    match restore_error {
        Some(re) => "Failed to install staged nvim config: "@ + swap_error + "; also failed to restore original: "@ + re,
        None => "Failed to install staged nvim config: "@ + swap_error,
    }
}

pub fn swap_failure(swap_error: &str, restore_error: Option<&str>) -> (r: String)
    ensures
        r@ == swap_failure_of(
            swap_error@,
            match restore_error {
                Some(re) => Some(re@),
                None => None,
            },
        ),
{
    let mut r = concat_str("Failed to install staged nvim config: ", swap_error);
    match restore_error {
        Some(re) => {
            r.append("; also failed to restore original: ");
            r.append(re);
        },
        None => {},
    }
    r
}

pub open spec fn backup_failure_of(destination: Seq<char>, backup: Seq<char>) -> Seq<char> {
    "Failed to back up nvim config from "@ + destination + " to "@ + backup
}

/// A step of moving a staged configuration into place. The existing
/// configuration is moved to its backup first; when the staged one cannot
/// be moved into place, the backup is moved back before the staging
/// directory is discarded.
#[derive(Debug, Clone, Copy, PartialEq, Eq, Structural)]
pub enum SwapStep {
    /// Rename the existing configuration to the backup path.
    BackUp,
    /// Rename the staging directory to the configuration's path.
    Install,
    /// Rename the backup back to the configuration's path.
    Restore,
    /// Remove the staging directory; how that goes does not matter.
    DiscardStaging,
    /// Nothing is left to do.
    Finished,
}

/// The progress of moving a staged configuration into place.
pub struct StagedSwap {
    pub step: SwapStep,
    pub destination: String,
    /// Where the existing configuration goes, if there is one.
    pub backup: Option<String>,
    /// Why the staged configuration could not be moved into place.
    pub swap_error: Option<String>,
    /// The error the swap ends with, if any.
    pub error: Option<String>,
}

pub struct SwapView {
    pub step: SwapStep,
    pub destination: Seq<char>,
    pub backup: Option<Seq<char>>,
    pub swap_error: Option<Seq<char>>,
    pub error: Option<Seq<char>>,
}

impl View for StagedSwap {
    type V = SwapView;

    open spec fn view(&self) -> SwapView {
        SwapView {
            step: self.step,
            destination: self.destination@,
            backup: opt_seq(self.backup),
            swap_error: opt_seq(self.swap_error),
            error: opt_seq(self.error),
        }
    }
}

/// The state after the current step of `v` ended with `r`.
pub open spec fn swap_after(v: SwapView, r: Result<(), Seq<char>>) -> SwapView {
    match v.step {
        SwapStep::BackUp => match r {
            Ok(()) => SwapView { step: SwapStep::Install, ..v },
            Err(_) => SwapView {
                step: SwapStep::Finished,
                error: Some(
                    backup_failure_of(
                        v.destination,
                        match v.backup {
                            Some(b) => b,
                            None => seq![],
                        },
                    ),
                ),
                ..v
            },
        },
        SwapStep::Install => match r {
            Ok(()) => SwapView { step: SwapStep::Finished, error: None, ..v },
            Err(e) => if v.backup is Some {
                SwapView { step: SwapStep::Restore, swap_error: Some(e), ..v }
            } else {
                SwapView { step: SwapStep::DiscardStaging, swap_error: Some(e), error: Some(swap_failure_of(e, None)), ..v }
            },
        },
        SwapStep::Restore => {
            let e = match v.swap_error {
                Some(e) => e,
                None => seq![],
            };
            match r {
                Ok(()) => SwapView { step: SwapStep::DiscardStaging, error: Some(swap_failure_of(e, None)), ..v },
                Err(re) => SwapView { step: SwapStep::Finished, error: Some(swap_failure_of(e, Some(re))), ..v },
            }
        },
        SwapStep::DiscardStaging => SwapView { step: SwapStep::Finished, ..v },
        SwapStep::Finished => v,
    }
}

impl StagedSwap {
    /// A swap into `destination`; `backup` is where the configuration that
    /// exists there goes, and `None` where there is none.
    pub fn new(destination: &str, backup: Option<String>) -> (s: StagedSwap)
        ensures
            s@ == (SwapView {
                step: if backup is Some { SwapStep::BackUp } else { SwapStep::Install },
                destination: destination@,
                backup: opt_seq(backup),
                swap_error: None,
                error: None,
            }),
    {
        let step = if backup.is_some() { SwapStep::BackUp } else { SwapStep::Install };
        StagedSwap { step, destination: owned(destination), backup, swap_error: None, error: None }
    }

    /// Takes how the current step ended.
    pub fn record(&mut self, r: Result<(), String>)
        ensures
            final(self)@ == swap_after(old(self)@, result_seq(r)),
    {
        match self.step {
            SwapStep::BackUp => match r {
                Ok(()) => self.step = SwapStep::Install,
                Err(_) => {
                    let b = match &self.backup {
                        Some(b) => b.clone(),
                        None => String::new(),
                    };
                    let mut e = concat_str("Failed to back up nvim config from ", self.destination.as_str());
                    e.append(" to ");
                    e.append(b.as_str());
                    self.step = SwapStep::Finished;
                    self.error = Some(e);
                },
            },
            SwapStep::Install => match r {
                Ok(()) => {
                    self.step = SwapStep::Finished;
                    self.error = None;
                },
                Err(e) => {
                    if self.backup.is_some() {
                        self.step = SwapStep::Restore;
                    } else {
                        self.step = SwapStep::DiscardStaging;
                        self.error = Some(swap_failure(e.as_str(), None));
                    }
                    self.swap_error = Some(e);
                },
            },
            SwapStep::Restore => {
                let e = match &self.swap_error {
                    Some(e) => e.clone(),
                    None => String::new(),
                };
                match r {
                    Ok(()) => {
                        self.step = SwapStep::DiscardStaging;
                        self.error = Some(swap_failure(e.as_str(), None));
                    },
                    Err(re) => {
                        self.step = SwapStep::Finished;
                        self.error = Some(swap_failure(e.as_str(), Some(re.as_str())));
                    },
                }
            },
            SwapStep::DiscardStaging => self.step = SwapStep::Finished,
            SwapStep::Finished => {},
        }
    }

    /// What the swap came to, once it is finished: the backup of the old
    /// configuration, if one was made, or the error.
    pub fn outcome(&self) -> (r: Option<Result<Option<String>, String>>)
        ensures
            match r {
                None => self.step != SwapStep::Finished,
                Some(Ok(b)) => self.step == SwapStep::Finished && self.error is None && opt_seq(b) == opt_seq(self.backup),
                Some(Err(e)) => self.step == SwapStep::Finished && opt_seq(self.error) == Some(e@),
            },
    {
        if self.step != SwapStep::Finished {
            None
        } else {
            match &self.error {
                None => Some(Ok(self.backup.clone())),
                Some(e) => Some(Err(e.clone())),
            }
        }
    }
}

/// If the staged configuration cannot be moved into place, the original
/// configuration is restored: a failed install with a backup leads to
/// moving the backup back, and the staging directory is discarded only
/// after that succeeded (or where there was nothing to restore). A failed
/// restore keeps the staging directory and ends with both errors. The
/// configuration is never swapped without its backup having been made.
pub proof fn lemma_swap_restores_original(v: SwapView, r: Result<(), Seq<char>>)
    ensures
        v.step == SwapStep::Install && v.backup is Some && r is Err ==> swap_after(v, r).step == SwapStep::Restore,
        swap_after(v, r).step == SwapStep::DiscardStaging && v.step != SwapStep::DiscardStaging ==> (v.step == SwapStep::Restore
            && r is Ok) || (v.step == SwapStep::Install && v.backup is None && r is Err),
        v.step == SwapStep::Restore && r is Err ==> swap_after(v, r).step == SwapStep::Finished && swap_after(v, r).error is Some,
        swap_after(v, r).step == SwapStep::Install && v.step != SwapStep::Install ==> v.step == SwapStep::BackUp && r is Ok,
        v.step == SwapStep::BackUp && r is Err ==> swap_after(v, r).step == SwapStep::Finished,
{
}

/// No character of `s` is a line feed.
pub open spec fn free_of_line_feeds(s: Seq<char>) -> bool
    decreases s.len(),
{
    s.len() == 0 || (s[0] != '\n' && free_of_line_feeds(s.drop_first()))
}

proof fn lemma_free_of_line_feeds(s: Seq<char>)
    requires
        free_of_line_feeds(s),
    ensures
        forall|j: int| 0 <= j < s.len() ==> #[trigger] s[j] != '\n',
    decreases s.len(),
{
    if s.len() > 0 {
        lemma_free_of_line_feeds(s.drop_first());
        assert forall|j: int| 0 <= j < s.len() implies #[trigger] s[j] != '\n' by {
            if j > 0 {
                assert(s[j] == s.drop_first()[j - 1]);
            }
        }
    }
}

proof fn lemma_legacy_lines_plain()
    ensures
        free_of_line_feeds(legacy_line("bash"@)),
        free_of_line_feeds(legacy_line("fish"@)),
{
    reveal_strlit("eval \"$($HOME/.local/bin/mise activate bash)\"");
    reveal_strlit("~/.local/bin/mise activate fish | source");
    reveal_with_fuel(free_of_line_feeds, 50);
}

proof fn lemma_plain_piece(a: Seq<char>, rest: Seq<char>)
    requires
        free_of_line_feeds(a),
    ensures
        line_end(a + nl() + rest) == a.len(),
        (a + nl() + rest).take(a.len() as int) == a,
        (a + nl() + rest).skip(a.len() as int + 1) == rest,
        a.len() < (a + nl() + rest).len(),
{
    lemma_free_of_line_feeds(a);
    let y = a + nl() + rest;
    assert forall|j: int| 0 <= j < a.len() implies #[trigger] y[j] != '\n' by {
        assert(y[j] == a[j]);
    }
    assert(y[a.len() as int] == '\n');
    crate::text::lemma_line_end(y, a.len() as int);
    assert(y.take(a.len() as int) =~= a);
    assert(y.skip(a.len() as int + 1) =~= rest);
}

/// A legacy activation line between two other lines is replaced in place:
/// the file is backed up, the line gives way to the activation block, the
/// lines around it stay, and a second run finds the file configured.
pub proof fn lemma_legacy_line_replaced_in_place(before: Seq<char>, after: Seq<char>, shell: Seq<char>)
    requires
        shell == "bash"@ || shell == "fish"@,
        free_of_line_feeds(before),
        free_of_line_feeds(after),
        before != legacy_line(shell),
        after != legacy_line(shell),
        before != legacy_line(shell) + cr(),
        after != legacy_line(shell) + cr(),
    ensures
        ({
            let l = legacy_line(shell);
            let activation = if shell == "fish"@ { fish_activation() } else { bash_activation() };
            let defaults = if shell == "fish"@ { fish_defaults() } else { seq![] };
            let original = before + nl() + l + nl() + after + nl();
            let updated = before + nl() + activation + after + nl();
            &&& shell_update(Some(original), shell, activation, defaults)
                == ShellUpdateView::Write { contents: updated, backup: true }
            &&& shell_update(Some(updated), shell, activation, defaults) == ShellUpdateView::AlreadyConfigured
        }),
{
    let l = legacy_line(shell);
    let activation = if shell == "fish"@ { fish_activation() } else { bash_activation() };
    let defaults = if shell == "fish"@ { fish_defaults() } else { seq![] };
    lemma_legacy_lines_plain();
    reveal_strlit("eval \"$($HOME/.local/bin/mise activate bash)\"");
    reveal_strlit("~/.local/bin/mise activate fish | source");
    assert(l.len() > 0 && l.last() != '\r');
    let r2 = after + nl();
    let r1 = l + nl() + r2;
    let x = before + nl() + r1;
    assert(x =~= before + nl() + l + nl() + after + nl());
    let e = Seq::<char>::empty();
    assert(r2 =~= after + nl() + e);
    lemma_plain_piece(before, r1);
    lemma_plain_piece(l, r2);
    lemma_plain_piece(after, e);
    assert(l != l + cr()) by {
        assert((l + cr()).len() == l.len() + 1);
    }
    // The lines.
    assert(strip_cr(l) == l);
    assert(lines_of(r1)[0] == l);
    assert(lines_of(x) == seq![strip_cr(before)] + lines_of(r1));
    assert(lines_of(x)[1] == l);
    assert(has_line(x, l));
    // No legacy line ends in a carriage return.
    assert(!crlf_segment(e, l));
    assert(!crlf_segment(r2, l));
    assert(!crlf_segment(r1, l));
    assert(!crlf_segment(x, l));
    // The migration.
    assert(migrated(e, l, activation) == e);
    assert(migrated(r2, l, activation) == r2 + e);
    assert(migrated(r1, l, activation) == activation + migrated(r2, l, activation));
    assert(migrated(x, l, activation) == before + nl() + migrated(r1, l, activation)) by {
        assert(x.take(before.len() as int + 1) =~= before + nl());
    }
    assert(migrated(x, l, activation) =~= before + nl() + activation + after + nl());
    lemma_shell_setup_idempotent(Some(x), shell);
}

/// The example of a file that keeps its own lines around a legacy
/// activation line: `# user settings`, the legacy line, `# keep me`. It is
/// backed up, the legacy line is replaced in place, the file still ends
/// with `# keep me`, and a second run finds it configured.
pub proof fn lemma_user_settings_migrated(shell: Seq<char>)
    requires
        shell == "bash"@ || shell == "fish"@,
    ensures
        ({
            let activation = if shell == "fish"@ { fish_activation() } else { bash_activation() };
            let defaults = if shell == "fish"@ { fish_defaults() } else { seq![] };
            let original = "# user settings"@ + nl() + legacy_line(shell) + nl() + "# keep me"@ + nl();
            let updated = "# user settings"@ + nl() + activation + "# keep me"@ + nl();
            &&& shell_update(Some(original), shell, activation, defaults)
                == ShellUpdateView::Write { contents: updated, backup: true }
            &&& shell_update(Some(updated), shell, activation, defaults) == ShellUpdateView::AlreadyConfigured
        }),
{
    let before = "# user settings"@;
    let after = "# keep me"@;
    let l = legacy_line(shell);
    reveal_strlit("# user settings");
    reveal_strlit("# keep me");
    reveal_strlit("eval \"$($HOME/.local/bin/mise activate bash)\"");
    reveal_strlit("~/.local/bin/mise activate fish | source");
    reveal_with_fuel(free_of_line_feeds, 20);
    assert(free_of_line_feeds(before));
    assert(free_of_line_feeds(after));
    assert(before.len() < l.len() && after.len() < l.len());
    assert(before != l && after != l);
    assert(before != l + cr() && after != l + cr()) by {
        assert((l + cr()).len() == l.len() + 1);
    }
    lemma_legacy_line_replaced_in_place(before, after, shell);
}

} // verus!
