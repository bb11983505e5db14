//! What the installer reads from the system: the distribution family, and
//! tool versions from the output of `mise ls` and of `--version` commands.
use vstd::prelude::*;
use crate::text::{
    chars_contain, chars_of, chars_start_with, has_infix, has_prefix, is_ascii_digit, is_digit,
    lines, lines_of, string_of_chars, trim, trim_chars, trim_start_char, trim_start_char_chars,
    words, words_of,
};

verus! {

#[derive(Debug, Clone, Copy, PartialEq, Eq, Structural)]
pub enum DistroFamily {
    Debian,
    Arch,
    RedHat,
    Unknown,
}

/// How a finished command went.
#[derive(Debug, Clone)]
pub struct CommandResult {
    pub success: bool,
    pub _stdout: String,
    pub stderr: String,
}

// ---------------------------------------------------------------------------
// Distribution
// ---------------------------------------------------------------------------

/// The family that `/etc/os-release` names: Debian for Debian and Ubuntu,
/// Arch, and Red Hat for Fedora and CentOS, by `ID=` or `ID_LIKE=`.
pub open spec fn distro_of(s: Seq<char>) -> DistroFamily {
    if has_infix(s, "ID=debian"@) || has_infix(s, "ID=ubuntu"@) || has_infix(s, "ID_LIKE=debian"@) {
        DistroFamily::Debian
    } else if has_infix(s, "ID=arch"@) || has_infix(s, "ID_LIKE=arch"@) {
        DistroFamily::Arch
    } else if has_infix(s, "ID=fedora"@) || has_infix(s, "ID=centos"@) || has_infix(s, "ID_LIKE=fedora"@)
        || has_infix(s, "ID_LIKE=centos"@) {
        DistroFamily::RedHat
    } else {
        DistroFamily::Unknown
    }
}

/// How an os-release text is classified: any text that names Debian or
/// Ubuntu (as `ID=` or `ID_LIKE=debian`) is Debian, whatever else it holds;
/// one that names Arch and no Debian family is Arch; one that names Fedora
/// or CentOS and neither of those is Red Hat; a text that names none of
/// them is Unknown, and only such a text is.
pub proof fn lemma_distro_classification(s: Seq<char>)
    ensures
        has_infix(s, "ID=debian"@) ==> distro_of(s) == DistroFamily::Debian,
        has_infix(s, "ID=ubuntu"@) ==> distro_of(s) == DistroFamily::Debian,
        has_infix(s, "ID_LIKE=debian"@) ==> distro_of(s) == DistroFamily::Debian,
        distro_of(s) == DistroFamily::Debian ==> has_infix(s, "ID=debian"@) || has_infix(s, "ID=ubuntu"@)
            || has_infix(s, "ID_LIKE=debian"@),
        distro_of(s) != DistroFamily::Debian && (has_infix(s, "ID=arch"@) || has_infix(s, "ID_LIKE=arch"@))
            ==> distro_of(s) == DistroFamily::Arch,
        distro_of(s) == DistroFamily::Arch ==> has_infix(s, "ID=arch"@) || has_infix(s, "ID_LIKE=arch"@),
        distro_of(s) != DistroFamily::Debian && distro_of(s) != DistroFamily::Arch && (has_infix(s, "ID=fedora"@)
            || has_infix(s, "ID=centos"@) || has_infix(s, "ID_LIKE=fedora"@) || has_infix(s, "ID_LIKE=centos"@))
            ==> distro_of(s) == DistroFamily::RedHat,
        distro_of(s) == DistroFamily::Unknown <==> !(has_infix(s, "ID=debian"@) || has_infix(s, "ID=ubuntu"@)
            || has_infix(s, "ID_LIKE=debian"@) || has_infix(s, "ID=arch"@) || has_infix(s, "ID_LIKE=arch"@)
            || has_infix(s, "ID=fedora"@) || has_infix(s, "ID=centos"@) || has_infix(s, "ID_LIKE=fedora"@)
            || has_infix(s, "ID_LIKE=centos"@)),
{
}

fn holds(text: &Vec<char>, p: &str) -> (b: bool)
    ensures
        b == has_infix(text@, p@),
{
    let pv = chars_of(p);
    chars_contain(text, &pv)
}

pub fn parse_distro(os_release: &str) -> (d: DistroFamily)
    ensures
        d == distro_of(os_release@),
{
    let t = chars_of(os_release);
    if holds(&t, "ID=debian") || holds(&t, "ID=ubuntu") || holds(&t, "ID_LIKE=debian") {
        DistroFamily::Debian
    } else if holds(&t, "ID=arch") || holds(&t, "ID_LIKE=arch") {
        DistroFamily::Arch
    } else if holds(&t, "ID=fedora") || holds(&t, "ID=centos") || holds(&t, "ID_LIKE=fedora")
        || holds(&t, "ID_LIKE=centos") {
        DistroFamily::RedHat
    } else {
        DistroFamily::Unknown
    }
}

// ---------------------------------------------------------------------------
// `mise ls <tool>`
// ---------------------------------------------------------------------------

/// The version on the first line from the start that names `tool` with a
/// version that is no `(...)` placeholder. A line with fewer than two words
/// ends the search without a version.
pub open spec fn mise_listed_version(ls: Seq<Seq<char>>, tool: Seq<char>) -> Option<Seq<char>>
    decreases ls.len(),
{
    if ls.len() == 0 {
        None
    } else {
        let w = words_of(ls[0]);
        if w.len() < 2 {
            None
        } else if w[0] == tool && !has_prefix(w[1], "("@) {
            Some(w[1])
        } else {
            mise_listed_version(ls.drop_first(), tool)
        }
    }
}

fn chars_eq(a: &Vec<char>, b: &Vec<char>) -> (r: bool)
    ensures
        r == (a@ == b@),
{
    if a.len() != b.len() {
        return false;
    }
    let mut i: usize = 0;
    while i < a.len()
        invariant
            a@.len() == b@.len(),
            i <= a@.len(),
            forall|k: int| 0 <= k < i ==> a@[k] == b@[k],
        decreases a.len() - i,
    {
        if a[i] != b[i] {
            return false;
        }
        i = i + 1;
    }
    assert(a@ =~= b@);
    true
}

pub fn parse_mise_tool_version(tool: &str, stdout: &str) -> (r: Option<String>)
    ensures
        match r {
            Some(v) => mise_listed_version(lines_of(stdout@), tool@) == Some(v@),
            None => mise_listed_version(lines_of(stdout@), tool@) is None,
        },
{
    let tool_v = chars_of(tool);
    let paren = chars_of("(");
    let text = chars_of(stdout);
    let ls = lines(&text);
    let ghost lv = lines_of(stdout@);
    let mut i: usize = 0;
    assert(lv.skip(0) =~= lv);
    while i < ls.len()
        invariant
            i <= ls@.len(),
            ls.deep_view() == lv,
            lv == lines_of(stdout@),
            tool_v@ == tool@,
            paren@ == "("@,
            mise_listed_version(lv, tool@) == mise_listed_version(lv.skip(i as int), tool@),
        decreases ls.len() - i,
    {
        assert(ls@[i as int].deep_view() =~= ls@[i as int]@);
        assert(lv.skip(i as int)[0] == ls@[i as int]@);
        assert(lv.skip(i as int).drop_first() =~= lv.skip(i + 1));
        let w = words(&ls[i]);
        if w.len() < 2 {
            return None;
        }
        assert(w@[0].deep_view() =~= w@[0]@);
        assert(w@[1].deep_view() =~= w@[1]@);
        if chars_eq(&w[0], &tool_v) && !chars_start_with(&w[1], &paren) {
            return Some(string_of_chars(w[1].as_slice()));
        }
        i = i + 1;
    }
    None
}

// ---------------------------------------------------------------------------
// `<command> --version`
// ---------------------------------------------------------------------------

/// Bytes that UTF-8 takes for `c`.
pub open spec fn utf8_len(c: char) -> nat {
    let u = c as u32;
    if u < 0x80 {
        1
    } else if u < 0x800 {
        2
    } else if u < 0x10000 {
        3
    } else {
        4
    }
}

/// Bytes that UTF-8 takes for `s`.
pub open spec fn byte_len(s: Seq<char>) -> nat
    decreases s.len(),
{
    if s.len() == 0 {
        0
    } else {
        byte_len(s.drop_last()) + utf8_len(s.last())
    }
}

/// The first line that is not blank.
pub open spec fn first_nonblank(ls: Seq<Seq<char>>) -> Option<Seq<char>>
    decreases ls.len(),
{
    if ls.len() == 0 {
        None
    } else if trim(ls[0]).len() > 0 {
        Some(ls[0])
    } else {
        first_nonblank(ls.drop_first())
    }
}

/// The first word that, without its leading `v`s, starts with a digit;
/// given without those `v`s.
pub open spec fn first_version_word(ws: Seq<Seq<char>>) -> Option<Seq<char>>
    decreases ws.len(),
{
    if ws.len() == 0 {
        None
    } else {
        let clean = trim_start_char(ws[0], 'v');
        if clean.len() > 0 && is_digit(clean[0]) {
            Some(clean)
        } else {
            first_version_word(ws.drop_first())
        }
    }
}

/// The first line of a command's output that is not blank, looking at
/// standard output before standard error.
pub open spec fn version_line(stdout: Seq<char>, stderr: Seq<char>) -> Option<Seq<char>> {
    first_nonblank(lines_of(stdout + seq!['\n'] + stderr))
}

/// A long fallback is cut after its first 17 bytes, which must end a
/// character.
pub open spec fn cuttable(f: Seq<char>) -> bool {
    byte_len(f) > 20 ==> exists|k: int| 0 <= k <= f.len() && byte_len(#[trigger] f.take(k)) == 17
}

/// What the version of a command reads as: the first version-like word of
/// the first non-blank line; else that line trimmed, cut to 17 bytes and
/// `...` when it is longer than 20 bytes.
pub open spec fn version_from_output(stdout: Seq<char>, stderr: Seq<char>) -> Option<Seq<char>> {
    match version_line(stdout, stderr) {
        None => None,
        Some(l) => match first_version_word(words_of(l)) {
            Some(v) => Some(v),
            None => {
                let f = trim(l);
                if byte_len(f) > 20 {
                    let k = choose|k: int| 0 <= k <= f.len() && byte_len(#[trigger] f.take(k)) == 17;
                    Some(f.take(k) + "..."@)
                } else {
                    Some(f)
                }
            },
        },
    }
}

proof fn lemma_byte_len_concat(a: Seq<char>, b: Seq<char>)
    ensures
        byte_len(a + b) == byte_len(a) + byte_len(b),
    decreases b.len(),
{
    if b.len() > 0 {
        assert((a + b).drop_last() =~= a + b.drop_last());
        assert((a + b).last() == b.last());
        lemma_byte_len_concat(a, b.drop_last());
    } else {
        assert(a + b =~= a);
    }
}

proof fn lemma_first_nonblank(ls: Seq<Seq<char>>)
    ensures
        first_nonblank(ls) is None <==> forall|i: int| 0 <= i < ls.len() ==> trim(#[trigger] ls[i]).len() == 0,
        first_nonblank(ls) matches Some(l) ==> trim(l).len() > 0,
    decreases ls.len(),
{
    if ls.len() > 0 {
        let d = ls.drop_first();
        lemma_first_nonblank(d);
        if trim(ls[0]).len() == 0 {
            assert forall|i: int| 0 <= i < ls.len() && (forall|j: int| 0 <= j < d.len() ==> trim(#[trigger] d[j]).len() == 0)
                implies trim(#[trigger] ls[i]).len() == 0 by {
                if i > 0 {
                    assert(ls[i] == d[i - 1]);
                }
            }
            assert forall|j: int| 0 <= j < d.len() && (forall|i: int| 0 <= i < ls.len() ==> trim(#[trigger] ls[i]).len() == 0)
                implies trim(#[trigger] d[j]).len() == 0 by {
                assert(d[j] == ls[j + 1]);
            }
        }
    }
}

proof fn lemma_first_version_word(ws: Seq<Seq<char>>)
    ensures
        first_version_word(ws) matches Some(v) ==> v.len() > 0 && is_digit(v[0]),
    decreases ws.len(),
{
    if ws.len() > 0 {
        lemma_first_version_word(ws.drop_first());
    }
}

/// A version is read from the output of `<command> --version` exactly when
/// some line of it is not blank; it is then never empty, and it either
/// starts with a digit or, read from the whole line, takes at most 20 bytes.
pub proof fn lemma_version_reading(stdout: Seq<char>, stderr: Seq<char>)
    requires
        version_output_cuttable(stdout, stderr),
    ensures
        version_from_output(stdout, stderr) is None <==> forall|i: int| 0 <= i < lines_of(stdout + seq!['\n'] + stderr).len()
            ==> trim(#[trigger] lines_of(stdout + seq!['\n'] + stderr)[i]).len() == 0,
        version_from_output(stdout, stderr) matches Some(v) ==> v.len() > 0 && (is_digit(v[0]) || byte_len(v) <= 20),
{
    let ls = lines_of(stdout + seq!['\n'] + stderr);
    lemma_first_nonblank(ls);
    if let Some(l) = version_line(stdout, stderr) {
        lemma_first_version_word(words_of(l));
        if first_version_word(words_of(l)) is None {
            let f = trim(l);
            if byte_len(f) > 20 {
                let k = choose|k: int| 0 <= k <= f.len() && byte_len(#[trigger] f.take(k)) == 17;
                reveal_strlit("...");
                let dots = "..."@;
                let d1 = dots.drop_last();
                let d2 = d1.drop_last();
                let d3 = d2.drop_last();
                assert(dots.len() == 3 && dots[0] == '.' && dots[1] == '.' && dots[2] == '.');
                assert(('.' as u32) < 0x80);
                assert(utf8_len('.') == 1);
                assert(byte_len(d3) == 0);
                assert(d2.last() == '.' && d1.last() == '.' && dots.last() == '.');
                assert(byte_len(d2) == 1);
                assert(byte_len(d1) == 2);
                assert(byte_len(dots) == 3);
                lemma_byte_len_concat(f.take(k), dots);
            }
        }
    }
}

/// The output would not cut a character in two.
pub open spec fn version_output_cuttable(stdout: Seq<char>, stderr: Seq<char>) -> bool {
    match version_line(stdout, stderr) {
        Some(l) => first_version_word(words_of(l)) is None ==> cuttable(trim(l)),
        None => true,
    }
}

proof fn lemma_byte_len_step(s: Seq<char>, k: int)
    requires
        0 <= k < s.len(),
    ensures
        byte_len(s.take(k + 1)) == byte_len(s.take(k)) + utf8_len(s[k]),
{
    assert(s.take(k + 1).drop_last() =~= s.take(k));
}

proof fn lemma_byte_len_mono(s: Seq<char>, a: int, b: int)
    requires
        0 <= a <= b <= s.len(),
    ensures
        byte_len(s.take(a)) + (b - a) <= byte_len(s.take(b)),
    decreases b - a,
{
    if a < b {
        lemma_byte_len_mono(s, a, b - 1);
        lemma_byte_len_step(s, b - 1);
    }
}

fn utf8_width(c: char) -> (n: usize)
    ensures
        n == utf8_len(c),
{
    let u = c as u32;
    if u < 0x80 {
        1
    } else if u < 0x800 {
        2
    } else if u < 0x10000 {
        3
    } else {
        4
    }
}

/// Counts bytes of `f` up to the first count above 20.
fn capped_byte_len(f: &Vec<char>) -> (b: usize)
    ensures
        b <= 24,
        byte_len(f@) <= 20 ==> b == byte_len(f@),
        byte_len(f@) > 20 ==> b > 20,
{
    let n = f.len();
    let mut k: usize = 0;
    let mut bytes: usize = 0;
    assert(f@.take(0) =~= Seq::<char>::empty());
    while k < n && bytes <= 20
        invariant
            n == f@.len(),
            k <= n,
            bytes == byte_len(f@.take(k as int)),
            bytes <= 24,
        decreases n - k,
    {
        proof {
            lemma_byte_len_step(f@, k as int);
        }
        bytes = bytes + utf8_width(f[k]);
        k = k + 1;
    }
    proof {
        lemma_byte_len_mono(f@, k as int, n as int);
        assert(f@.take(n as int) =~= f@);
    }
    bytes
}

/// The fallback text: `f` itself, or its first 17 bytes and `...` when it
/// is longer than 20 bytes.
fn fallback(f: &Vec<char>) -> (r: Vec<char>)
    requires
        cuttable(f@),
    ensures
        r@ == if byte_len(f@) > 20 {
            f@.take(choose|k: int| 0 <= k <= f@.len() && byte_len(#[trigger] f@.take(k)) == 17) + "..."@
        } else {
            f@
        },
{
    let n = f.len();
    if capped_byte_len(f) <= 20 {
        return crate::text::copy_range(f, 0, n);
    }
    let ghost kk = choose|j: int| 0 <= j <= f@.len() && byte_len(#[trigger] f@.take(j)) == 17;
    let mut k: usize = 0;
    let mut bytes: usize = 0;
    assert(f@.take(0) =~= Seq::<char>::empty());
    while k < n && bytes < 17
        invariant
            n == f@.len(),
            0 <= kk <= n,
            byte_len(f@.take(kk)) == 17,
            k <= n,
            bytes == byte_len(f@.take(k as int)),
            bytes <= 20,
            k <= kk,
        decreases n - k,
    {
        proof {
            lemma_byte_len_step(f@, k as int);
            if k == kk {
                assert(false);
            }
            lemma_byte_len_mono(f@, k + 1, kk);
        }
        bytes = bytes + utf8_width(f[k]);
        k = k + 1;
    }
    proof {
        if k < kk {
            lemma_byte_len_mono(f@, k as int, kk);
            assert(bytes < 17);
            assert(k == n);
        }
        assert(k == kk);
    }
    let mut r = crate::text::copy_range(f, 0, k);
    r.push('.');
    r.push('.');
    r.push('.');
    proof {
        reveal_strlit("...");
        assert(f@.subrange(0, k as int) =~= f@.take(k as int));
        assert(r@ =~= f@.take(kk) + "..."@);
    }
    r
}

fn first_nonblank_index(ls: &Vec<Vec<char>>) -> (r: Option<usize>)
    ensures
        match r {
            Some(i) => i < ls@.len() && first_nonblank(ls.deep_view()) == Some(ls@[i as int]@),
            None => first_nonblank(ls.deep_view()) is None,
        },
{
    let ghost lv = ls.deep_view();
    let mut i: usize = 0;
    assert(lv.skip(0) =~= lv);
    while i < ls.len()
        invariant
            i <= ls@.len(),
            lv == ls.deep_view(),
            first_nonblank(lv) == first_nonblank(lv.skip(i as int)),
        decreases ls.len() - i,
    {
        assert(ls@[i as int].deep_view() =~= ls@[i as int]@);
        assert(lv.skip(i as int)[0] == ls@[i as int]@);
        assert(lv.skip(i as int).drop_first() =~= lv.skip(i + 1));
        let t = trim_chars(&ls[i]);
        if t.len() > 0 {
            return Some(i);
        }
        i = i + 1;
    }
    assert(lv.skip(i as int) =~= Seq::<Seq<char>>::empty());
    None
}

fn first_version_index(ws: &Vec<Vec<char>>) -> (r: Option<Vec<char>>)
    ensures
        match r {
            Some(v) => first_version_word(ws.deep_view()) == Some(v@),
            None => first_version_word(ws.deep_view()) is None,
        },
{
    let ghost wv = ws.deep_view();
    let mut w: usize = 0;
    assert(wv.skip(0) =~= wv);
    while w < ws.len()
        invariant
            w <= ws@.len(),
            wv == ws.deep_view(),
            first_version_word(wv) == first_version_word(wv.skip(w as int)),
        decreases ws.len() - w,
    {
        assert(ws@[w as int].deep_view() =~= ws@[w as int]@);
        assert(wv.skip(w as int)[0] == ws@[w as int]@);
        assert(wv.skip(w as int).drop_first() =~= wv.skip(w + 1));
        let clean = trim_start_char_chars(&ws[w], 'v');
        if clean.len() > 0 && is_ascii_digit(clean[0]) {
            return Some(clean);
        }
        w = w + 1;
    }
    assert(wv.skip(w as int) =~= Seq::<Seq<char>>::empty());
    None
}

fn version_line_exec(stdout: &str, stderr: &str) -> (r: Option<Vec<char>>)
    ensures
        match r {
            Some(l) => version_line(stdout@, stderr@) == Some(l@),
            None => version_line(stdout@, stderr@) is None,
        },
{
    let mut text = chars_of(stdout);
    text.push('\n');
    let err = chars_of(stderr);
    let mut j: usize = 0;
    let ghost base = text@;
    while j < err.len()
        invariant
            j <= err@.len(),
            text@ == base + err@.take(j as int),
        decreases err.len() - j,
    {
        text.push(err[j]);
        j = j + 1;
        assert(text@ =~= base + err@.take(j as int));
    }
    assert(err@.take(err@.len() as int) =~= err@);
    assert(text@ =~= stdout@ + seq!['\n'] + stderr@);
    let mut ls = lines(&text);
    match first_nonblank_index(&ls) {
        Some(index) => {
            assert(ls@[index as int].deep_view() =~= ls@[index as int]@);
            Some(ls.swap_remove(index))
        },
        None => None,
    }
}

/// Whether some prefix of `f` takes exactly 17 bytes, where `f` takes more
/// than 20.
fn cuttable_exec(f: &Vec<char>) -> (b: bool)
    ensures
        b == cuttable(f@),
{
    if capped_byte_len(f) <= 20 {
        return true;
    }
    let n = f.len();
    let mut k: usize = 0;
    let mut bytes: usize = 0;
    assert(f@.take(0) =~= Seq::<char>::empty());
    while k < n && bytes < 17
        invariant
            n == f@.len(),
            k <= n,
            bytes == byte_len(f@.take(k as int)),
            bytes <= 20,
            forall|j: int| 0 <= j < k ==> byte_len(#[trigger] f@.take(j)) < 17,
        decreases n - k,
    {
        proof {
            lemma_byte_len_step(f@, k as int);
        }
        bytes = bytes + utf8_width(f[k]);
        k = k + 1;
    }
    if bytes == 17 {
        return true;
    }
    proof {
        assert forall|j: int| 0 <= j <= f@.len() implies byte_len(#[trigger] f@.take(j)) != 17 by {
            if j < k {
            } else if j == k {
            } else {
                lemma_byte_len_mono(f@, k as int, j);
            }
        }
        if k == n {
            assert(f@.take(n as int) =~= f@);
        }
    }
    false
}

/// Whether reading the version from this output cuts no character in two:
/// the condition under which `parse_command_version_output` may be called.
pub fn version_output_is_cuttable(stdout: &str, stderr: &str) -> (b: bool)
    ensures
        b == version_output_cuttable(stdout@, stderr@),
{
    match version_line_exec(stdout, stderr) {
        None => true,
        Some(line) => {
            let ws = words(&line);
            match first_version_index(&ws) {
                Some(_) => true,
                None => {
                    let f = trim_chars(&line);
                    cuttable_exec(&f)
                },
            }
        },
    }
}

pub fn parse_command_version_output(stdout: &str, stderr: &str) -> (r: Option<String>)
    requires
        version_output_cuttable(stdout@, stderr@),
    ensures
        match r {
            Some(v) => version_from_output(stdout@, stderr@) == Some(v@),
            None => version_from_output(stdout@, stderr@) is None,
        },
{
    let line = match version_line_exec(stdout, stderr) {
        Some(line) => line,
        None => {
            return None;
        },
    };
    let ws = words(&line);
    match first_version_index(&ws) {
        Some(v) => Some(string_of_chars(v.as_slice())),
        None => {
            let f = trim_chars(&line);
            let r = fallback(&f);
            Some(string_of_chars(r.as_slice()))
        },
    }
}

} // verus!
