//! The pseudo terminal a shell runs in: which shell, with what environment,
//! and how its input and output are buffered between frames.

use std::path::PathBuf;

use portable_pty::CommandBuilder;
use vstd::prelude::*;
use vstd::string::*;

use crate::text::{after_bracket, chars_of, nth_word, parse_number, trim};

verus! {

// ---------------------------------------------------------------------------
// The command
// ---------------------------------------------------------------------------

/// Identity of the terminal a process runs inside; inherited values are wrong.
/// Entries that end in an underscore stand for every name they begin.
pub const SCRUB_TERMINAL_IDENTITY: [&'static str; 15] = [
    "TERM_PROGRAM",
    "TERM_PROGRAM_VERSION",
    "GHOSTTY_",
    "KITTY_",
    "WEZTERM_",
    "ALACRITTY_",
    "VTE_VERSION",
    "KONSOLE_",
    "ITERM_",
    "WT_SESSION",
    "WT_PROFILE_ID",
    "WINDOWID",
    "TMUX",
    "TMUX_",
    "STY",
];

/// Activated dev-shell state; the new shell re-activates from its own cwd.
pub const SCRUB_DEV_SHELL_STATE: [&'static str; 6] = [
    "DEVENV_",
    "DIRENV_",
    "IN_NIX_SHELL",
    "VIRTUAL_ENV",
    "VIRTUAL_ENV_",
    "CONDA_",
];

pub open spec fn starts_with(s: Seq<char>, prefix: Seq<char>) -> bool {
    prefix.len() <= s.len() && s.take(prefix.len() as int) == prefix
}

/// An entry of the lists covers a name: by prefix where it ends in an
/// underscore, else as a whole.
pub open spec fn covers(entry: Seq<char>, key: Seq<char>) -> bool {
    if entry.len() > 0 && entry.last() == '_' {
        starts_with(key, entry)
    } else {
        key == entry
    }
}

/// A name of an environment variable that is not handed on.
pub open spec fn is_scrubbed(key: Seq<char>) -> bool {
    ||| exists|i: int| 0 <= i < 15 && covers((#[trigger] SCRUB_TERMINAL_IDENTITY[i])@, key)
    ||| exists|i: int| 0 <= i < 6 && covers((#[trigger] SCRUB_DEV_SHELL_STATE[i])@, key)
}

/// Whether an entry covers a name.
fn hit(entry: &str, key: &Vec<char>) -> (r: bool)
    ensures
        r == covers(entry@, key@),
{
    let head = chars_of(entry);
    let n: usize = head.len();
    let prefix: bool = n > 0 && head[n - 1] == '_';
    if n > key.len() || (!prefix && n != key.len()) {
        return false;
    }
    let mut i: usize = 0;
    while i < n
        invariant
            i <= n,
            head@ == entry@,
            n == head@.len(),
            n <= key@.len(),
            prefix || n == key@.len(),
            prefix == (head@.len() > 0 && head@.last() == '_'),
            forall|k: int| 0 <= k < i ==> head@[k] == key@[k],
        decreases n - i,
    {
        if head[i] != key[i] {
            assert(key@.take(n as int)[i as int] != head@[i as int]);
            return false;
        }
        i = i + 1;
    }
    assert(key@.take(n as int) == head@);
    assert(!prefix ==> key@ == head@);
    true
}

pub fn scrubbed(key: &str) -> (r: bool)
    ensures
        r == is_scrubbed(key@),
{
    let name = chars_of(key);
    let mut i: usize = 0;
    while i < 15
        invariant
            i <= 15,
            name@ == key@,
            forall|k: int| 0 <= k < i ==> !covers((#[trigger] SCRUB_TERMINAL_IDENTITY[k])@, key@),
        decreases 15 - i,
    {
        if hit(SCRUB_TERMINAL_IDENTITY[i], &name) {
            assert(covers(SCRUB_TERMINAL_IDENTITY[i as int]@, key@));
            return true;
        }
        i = i + 1;
    }
    let mut j: usize = 0;
    while j < 6
        invariant
            j <= 6,
            name@ == key@,
            forall|k: int| 0 <= k < 15 ==> !covers((#[trigger] SCRUB_TERMINAL_IDENTITY[k])@, key@),
            forall|k: int| 0 <= k < j ==> !covers((#[trigger] SCRUB_DEV_SHELL_STATE[k])@, key@),
        decreases 6 - j,
    {
        if hit(SCRUB_DEV_SHELL_STATE[j], &name) {
            assert(covers(SCRUB_DEV_SHELL_STATE[j as int]@, key@));
            return true;
        }
        j = j + 1;
    }
    false
}

pub struct Options<'a> {
    pub cols: u16,
    pub rows: u16,
    pub cell_w: u16,
    pub cell_h: u16,
    pub shell: Option<&'a str>,
    pub cwd: &'a PathBuf,
    pub login: bool,
}

/// `portable_pty::CommandBuilder`, of which only the names below tell.
#[verifier::external_type_specification]
#[verifier::external_body]
pub struct ExCommandBuilder(portable_pty::CommandBuilder);

/// `std::path::PathBuf`, carried through as it is.
#[verifier::external_type_specification]
#[verifier::external_body]
pub struct ExPathBuf(std::path::PathBuf);

/// The program and arguments a command holds.
pub uninterp spec fn argv(cmd: CommandBuilder) -> Seq<Seq<char>>;

/// The environment a command holds: what its lookup finds under each name.
pub uninterp spec fn env(cmd: CommandBuilder) -> Map<Seq<char>, Seq<char>>;

/// The directory a command starts in, where one is set.
pub uninterp spec fn dir(cmd: CommandBuilder) -> Option<PathBuf>;

pub open spec fn is_ascii_text(s: Seq<char>) -> bool {
    forall|i: int| 0 <= i < s.len() ==> (#[trigger] s[i] as u32) < 128
}

pub open spec fn lower(c: char) -> char {
    if 'A' <= c <= 'Z' {
        (c as u32 + 32) as char
    } else {
        c
    }
}

/// Two names differ at this place whether or not case counts: both are plain
/// ASCII up to it, and go on with different ASCII letters or one of them ends.
pub open spec fn differ_at(a: Seq<char>, b: Seq<char>, i: int) -> bool {
    &&& 0 <= i <= a.len()
    &&& i <= b.len()
    &&& is_ascii_text(a.take(i))
    &&& is_ascii_text(b.take(i))
    &&& if i < a.len() && i < b.len() {
        (a[i] as u32) < 128 && (b[i] as u32) < 128 && lower(a[i]) != lower(b[i])
    } else {
        a.len() != b.len()
    }
}

/// Two names that no platform takes for the same variable.
pub open spec fn apart(a: Seq<char>, b: Seq<char>) -> bool {
    exists|i: int| differ_at(a, b, i)
}

/// Nothing is different under a name.
pub open spec fn same_at(a: Map<Seq<char>, Seq<char>>, b: Map<Seq<char>, Seq<char>>, key: Seq<char>) -> bool {
    a.dom().contains(key) == b.dom().contains(key) && a[key] == b[key]
}

/// `CommandBuilder::new`: a command that runs the program without arguments
/// and has no directory set. Its environment is the one inherited, of which
/// nothing is said.
#[verifier::external_body]
fn new_command(program: &str) -> (cmd: CommandBuilder)
    ensures
        argv(cmd) == seq![program@],
        dir(cmd) is None,
{
    CommandBuilder::new(program)
}

/// `CommandBuilder::arg`: appends an argument. It panics on a command without
/// a program.
#[verifier::external_body]
fn add_arg(cmd: &mut CommandBuilder, arg: &str)
    requires
        argv(*old(cmd)).len() > 0,
    ensures
        argv(*final(cmd)) == argv(*old(cmd)).push(arg@),
        env(*final(cmd)) == env(*old(cmd)),
        dir(*final(cmd)) == dir(*old(cmd)),
{
    cmd.arg(arg)
}

/// `CommandBuilder::env`: sets a variable. Names are taken as they are on some
/// platforms and in lower case on others, so only those that differ either way
/// are said to stay as they were.
#[verifier::external_body]
fn set_env(cmd: &mut CommandBuilder, key: &str, value: &str)
    ensures
        argv(*final(cmd)) == argv(*old(cmd)),
        dir(*final(cmd)) == dir(*old(cmd)),
        env(*final(cmd)).dom().contains(key@),
        env(*final(cmd))[key@] == value@,
        forall|k: Seq<char>| #[trigger] apart(k, key@) ==> same_at(env(*final(cmd)), env(*old(cmd)), k),
{
    cmd.env(key, value)
}

/// `CommandBuilder::env_remove`: removes a variable. Every other one is gone
/// with it or stays as it was, and those that differ whether or not case counts
/// stay.
#[verifier::external_body]
fn remove_env(cmd: &mut CommandBuilder, key: &str)
    ensures
        argv(*final(cmd)) == argv(*old(cmd)),
        dir(*final(cmd)) == dir(*old(cmd)),
        !env(*final(cmd)).dom().contains(key@),
        forall|k: Seq<char>| #[trigger]
            env(*final(cmd)).dom().contains(k) ==> env(*old(cmd)).dom().contains(k) && env(*final(cmd))[k] == env(*old(cmd))[k],
        forall|k: Seq<char>| #[trigger] apart(k, key@) ==> same_at(env(*final(cmd)), env(*old(cmd)), k),
{
    cmd.env_remove(key)
}

/// `CommandBuilder::cwd`: sets the directory to start in.
#[verifier::external_body]
fn set_dir(cmd: &mut CommandBuilder, path: &PathBuf)
    ensures
        argv(*final(cmd)) == argv(*old(cmd)),
        env(*final(cmd)) == env(*old(cmd)),
        dir(*final(cmd)) == Some(*path),
{
    cmd.cwd(path)
}

/// An entry covers no case variant of `TERM` or `COLORTERM`: it begins
/// otherwise, or it stands for one longer name only.
spec fn spares_set_names(e: Seq<char>) -> bool {
    &&& e.len() >= 3
    &&& is_ascii_text(e)
    &&& lower(e[0]) != 't' || lower(e[1]) != 'e' || (e.len() > 9 && e.last() != '_')
    &&& lower(e[0]) != 'c' || lower(e[2]) != 'l'
}

proof fn identity_entry(i: int)
    requires
        0 <= i < 15,
    ensures
        spares_set_names(SCRUB_TERMINAL_IDENTITY[i]@),
{
    reveal_strlit("TERM_PROGRAM");
    reveal_strlit("TERM_PROGRAM_VERSION");
    reveal_strlit("GHOSTTY_");
    reveal_strlit("KITTY_");
    reveal_strlit("WEZTERM_");
    reveal_strlit("ALACRITTY_");
    reveal_strlit("VTE_VERSION");
    reveal_strlit("KONSOLE_");
    reveal_strlit("ITERM_");
    reveal_strlit("WT_SESSION");
    reveal_strlit("WT_PROFILE_ID");
    reveal_strlit("WINDOWID");
    reveal_strlit("TMUX");
    reveal_strlit("TMUX_");
    reveal_strlit("STY");
}

proof fn dev_shell_entry(i: int)
    requires
        0 <= i < 6,
    ensures
        spares_set_names(SCRUB_DEV_SHELL_STATE[i]@),
{
    reveal_strlit("DEVENV_");
    reveal_strlit("DIRENV_");
    reveal_strlit("IN_NIX_SHELL");
    reveal_strlit("VIRTUAL_ENV");
    reveal_strlit("VIRTUAL_ENV_");
    reveal_strlit("CONDA_");
}

/// A scrubbed name is no case variant of a variable that the command sets.
proof fn scrubbed_is_apart(key: Seq<char>)
    requires
        is_scrubbed(key),
    ensures
        apart("TERM"@, key),
        apart("COLORTERM"@, key),
{
    reveal_strlit("TERM");
    reveal_strlit("COLORTERM");
    let entry = if exists|i: int| 0 <= i < 15 && covers((#[trigger] SCRUB_TERMINAL_IDENTITY[i])@, key) {
        let i = choose|i: int| 0 <= i < 15 && covers((#[trigger] SCRUB_TERMINAL_IDENTITY[i])@, key);
        identity_entry(i);
        SCRUB_TERMINAL_IDENTITY[i]@
    } else {
        let i = choose|i: int| 0 <= i < 6 && covers((#[trigger] SCRUB_DEV_SHELL_STATE[i])@, key);
        dev_shell_entry(i);
        SCRUB_DEV_SHELL_STATE[i]@
    };
    let n = entry.len() as int;
    assert(key.take(n) == entry);
    assert forall|i: int| 0 <= i < n implies #[trigger] key[i] == entry[i] by {
        assert(key.take(n)[i] == key[i]);
    }
    let term = "TERM"@;
    let colorterm = "COLORTERM"@;
    if lower(key[0]) != 't' {
        assert(differ_at(term, key, 0));
    } else if lower(key[1]) != 'e' {
        assert(differ_at(term, key, 1));
    } else {
        assert(differ_at(term, key, 4));
    }
    if lower(key[0]) != 'c' {
        assert(differ_at(colorterm, key, 0));
    } else {
        assert(differ_at(colorterm, key, 2));
    }
}

/// A name that differs from every one that is set or scrubbed.
pub open spec fn untouched(k: Seq<char>, inherited: Seq<String>) -> bool {
    &&& apart(k, "TERM"@)
    &&& apart(k, "COLORTERM"@)
    &&& forall|i: int| 0 <= i < inherited.len() && is_scrubbed((#[trigger] inherited[i])@) ==> apart(k, inherited[i]@)
}

/// Make a command's environment as fresh as in a new terminal window: the
/// terminal's own type is set, names to be scrubbed are gone, and everything
/// else stays. `inherited` names the variables of the environment. Of a name
/// that differs from a scrubbed one by case alone nothing is said: whether the
/// two are one variable depends on the platform.
pub fn freshen(cmd: &mut CommandBuilder, inherited: &Vec<String>)
    ensures
        argv(*final(cmd)) == argv(*old(cmd)),
        dir(*final(cmd)) == dir(*old(cmd)),
        env(*final(cmd)).dom().contains("TERM"@),
        env(*final(cmd))["TERM"@] == "xterm-256color"@,
        env(*final(cmd)).dom().contains("COLORTERM"@),
        env(*final(cmd))["COLORTERM"@] == "truecolor"@,
        env_scrubbed(*final(cmd), inherited@),
        env_kept(*old(cmd), *final(cmd), inherited@),
{
    let ghost start = env(*cmd);
    set_env(cmd, "TERM", "xterm-256color");
    set_env(cmd, "COLORTERM", "truecolor");
    proof {
        reveal_strlit("TERM");
        reveal_strlit("COLORTERM");
        assert(differ_at("TERM"@, "COLORTERM"@, 0));
        assert(apart("TERM"@, "COLORTERM"@));
    }
    let mut i: usize = 0;
    while i < inherited.len()
        invariant
            i <= inherited@.len(),
            start == env(*old(cmd)),
            argv(*cmd) == argv(*old(cmd)),
            dir(*cmd) == dir(*old(cmd)),
            forall|k: int| 0 <= k < i && is_scrubbed((#[trigger] inherited@[k])@) ==> !env(*cmd).dom().contains(inherited@[k]@),
            env(*cmd).dom().contains("TERM"@) && env(*cmd)["TERM"@] == "xterm-256color"@,
            env(*cmd).dom().contains("COLORTERM"@) && env(*cmd)["COLORTERM"@] == "truecolor"@,
            forall|k: Seq<char>| #[trigger] untouched(k, inherited@) ==> same_at(env(*cmd), start, k),
        decreases inherited@.len() - i,
    {
        let key = inherited[i].as_str();
        if scrubbed(key) {
            let ghost before = env(*cmd);
            remove_env(cmd, key);
            proof {
                scrubbed_is_apart(key@);
                assert(apart("TERM"@, key@));
                assert(apart("COLORTERM"@, key@));
                assert forall|k: Seq<char>| #[trigger] untouched(k, inherited@) implies same_at(env(*cmd), start, k) by {
                    assert(apart(k, inherited@[i as int]@));
                    assert(same_at(before, start, k));
                }
            }
        }
        i = i + 1;
    }
}

/// No inherited name that is to be scrubbed is left.
pub open spec fn env_scrubbed(cmd: CommandBuilder, inherited: Seq<String>) -> bool {
    forall|i: int| 0 <= i < inherited.len() && is_scrubbed((#[trigger] inherited[i])@) ==> !env(cmd).dom().contains(inherited[i]@)
}

/// Every name that differs from those set or scrubbed is as it was.
pub open spec fn env_kept(before: CommandBuilder, after: CommandBuilder, inherited: Seq<String>) -> bool {
    forall|k: Seq<char>| #[trigger] untouched(k, inherited) ==> same_at(env(after), env(before), k)
}

/// Make a new command that of a shell: a login shell where asked for and the
/// platform has them, in its directory, as fresh as in a new terminal window.
/// `inherited` names the variables of the command's environment.
pub fn prepare(cmd: &mut CommandBuilder, opts: &Options, unix: bool, inherited: &Vec<String>)
    requires
        opts.login && unix ==> argv(*old(cmd)).len() > 0,
    ensures
        argv(*final(cmd)) == (if opts.login && unix { argv(*old(cmd)).push("-l"@) } else { argv(*old(cmd)) }),
        dir(*final(cmd)) == Some(*opts.cwd),
        env(*final(cmd)).dom().contains("TERM"@),
        env(*final(cmd))["TERM"@] == "xterm-256color"@,
        env(*final(cmd)).dom().contains("COLORTERM"@),
        env(*final(cmd))["COLORTERM"@] == "truecolor"@,
        env_scrubbed(*final(cmd), inherited@),
        env_kept(*old(cmd), *final(cmd), inherited@),
{
    if opts.login && unix {
        add_arg(cmd, "-l");
    }
    freshen(cmd, inherited);
    set_dir(cmd, opts.cwd);
}

/// The command a shell is started with. `inherited` names the variables of the
/// environment it would inherit. What those hold is up to the process, so that
/// the others are kept is said by `prepare`.
pub fn command(shell: &str, opts: &Options, unix: bool, inherited: &Vec<String>) -> (cmd: CommandBuilder)
    ensures
        argv(cmd) == (if opts.login && unix { seq![shell@, "-l"@] } else { seq![shell@] }),
        dir(cmd) == Some(*opts.cwd),
        env_scrubbed(cmd, inherited@),
        env(cmd).dom().contains("TERM"@),
        env(cmd)["TERM"@] == "xterm-256color"@,
        env(cmd).dom().contains("COLORTERM"@),
        env(cmd)["COLORTERM"@] == "truecolor"@,
{
    let mut cmd = new_command(shell);
    prepare(&mut cmd, opts, unix, inherited);
    assert(argv(cmd) == (if opts.login && unix { seq![shell@, "-l"@] } else { seq![shell@] }));
    cmd
}

/// A window size as a pty takes it.
#[derive(Clone, Copy, Debug, PartialEq, Eq, Structural)]
pub struct PtySize {
    pub rows: u16,
    pub cols: u16,
    pub pixel_width: u16,
    pub pixel_height: u16,
}

pub open spec fn at_most_u16(v: int) -> int {
    if v > u16::MAX {
        u16::MAX as int
    } else {
        v
    }
}

fn times(a: u16, b: u16) -> (r: u16)
    ensures
        r == at_most_u16(a * b),
{
    assert(a * b <= 0xffff * 0xffff) by (nonlinear_arith)
        requires
            a <= 0xffff,
            b <= 0xffff,
    ;
    let product: u32 = a as u32 * b as u32;
    if product > 65535 {
        65535
    } else {
        product as u16
    }
}

/// The size of a grid; pixel sizes stop at what a pty can hold.
pub fn size(cols: u16, rows: u16, cell_w: u16, cell_h: u16) -> (s: PtySize)
    ensures
        s.rows == rows,
        s.cols == cols,
        s.pixel_width == at_most_u16(cols * cell_w),
        s.pixel_height == at_most_u16(rows * cell_h),
{
    PtySize { rows, cols, pixel_width: times(cols, cell_w), pixel_height: times(rows, cell_h) }
}

// ---------------------------------------------------------------------------
// Shells
// ---------------------------------------------------------------------------

/// The shell to run on Unix: the configured one, else the user's. An empty
/// one gives the system's.
pub fn unix_shell(configured: Option<&str>, user: Option<String>) -> (shell: String)
    ensures
        shell@ == ({
            let wished = match configured {
                Some(shell) => Some(shell@),
                None => match user {
                    Some(shell) => Some(shell@),
                    None => None,
                },
            };
            match wished {
                Some(shell) if shell.len() > 0 => shell,
                _ => "/bin/sh"@,
            }
        }),
{
    let wished: Option<String> = match configured {
        Some(shell) => Some(shell.to_owned()),
        None => user,
    };
    match wished {
        Some(shell) if !shell.as_str().is_empty() => shell,
        _ => "/bin/sh".to_owned(),
    }
}

/// The shell to run on Windows: the configured one unless it is empty, else
/// the default one.
pub fn windows_shell(configured: Option<&str>, default: &ShellProfile) -> (shell: String)
    ensures
        shell@ == (match configured {
            Some(shell) if shell@.len() > 0 => shell@,
            _ => default.path@,
        }),
{
    match configured {
        Some(shell) if !shell.is_empty() => shell.to_owned(),
        _ => default.path.clone(),
    }
}

#[derive(Clone)]
pub struct ShellProfile {
    pub name: String,
    pub path: String,
}

impl ShellProfile {
    /// Name and path.
    pub open spec fn pair(self) -> (Seq<char>, Seq<char>) {
        (self.name@, self.path@)
    }
}

pub open spec fn pairs(list: Seq<ShellProfile>) -> Seq<(Seq<char>, Seq<char>)> {
    list.map_values(|s: ShellProfile| s.pair())
}

fn profile(name: &str, path: &str) -> (s: ShellProfile)
    ensures
        s.pair() == (name@, path@),
{
    ShellProfile { name: name.to_owned(), path: path.to_owned() }
}

pub open spec fn is_separator(c: char) -> bool {
    c == '/' || c == '\\'
}

/// A drive letter and its colon.
pub open spec fn is_drive(s: Seq<char>) -> bool {
    s.len() == 2 && ('a' <= s[0] <= 'z' || 'A' <= s[0] <= 'Z') && s[1] == ':'
}

/// Where the last component of a path begins: behind its last slash, and with
/// `windows` behind its last backslash or its drive, too.
pub open spec fn name_start(path: Seq<char>, windows: bool) -> int
    decreases path.len(),
{
    if path.len() == 0 {
        0
    } else if path.last() == '/' || windows && (path.last() == '\\' || is_drive(path)) {
        path.len() as int
    } else {
        name_start(path.drop_last(), windows)
    }
}

/// The last component of a path.
pub open spec fn name_of(path: Seq<char>, windows: bool) -> Seq<char> {
    path.skip(name_start(path, windows))
}

/// The place of the last dot, or -1.
pub open spec fn last_dot(name: Seq<char>) -> int
    decreases name.len(),
{
    if name.len() == 0 {
        -1
    } else if name.last() == '.' {
        name.len() - 1
    } else {
        last_dot(name.drop_last())
    }
}

/// A file name without its extension. A leading dot begins none.
pub open spec fn stem_of(name: Seq<char>) -> Seq<char> {
    if last_dot(name) > 0 {
        name.take(last_dot(name))
    } else {
        name
    }
}

/// The path ends in a file name on every platform: it is no share or device,
/// and does not end in a separator or in dots for a directory.
pub open spec fn ends_in_a_name(path: Seq<char>) -> bool {
    &&& !(path.len() >= 2 && is_separator(path[0]) && is_separator(path[1]))
    &&& name_of(path, true).len() > 0
    &&& name_of(path, true) != seq!['.']
    &&& name_of(path, true) != seq!['.', '.']
}

/// `std::path::Path::file_stem`: the last component without its extension.
/// Whether backslashes and drives part components depends on the platform, so
/// the result is one of two where a path has them. Of a path that ends
/// otherwise than in a name nothing is said.
#[verifier::external_body]
fn file_stem(path: &str) -> (stem: Option<String>)
    ensures
        ends_in_a_name(path@) ==> (stem matches Some(stem) && (stem@ == stem_of(name_of(path@, true)) || stem@ == stem_of(name_of(path@, false)))),
{
    match std::path::Path::new(path).file_stem() {
        Some(stem) => stem.to_str().map(str::to_owned),
        None => None,
    }
}

/// The system's command interpreter, named by its file name without the
/// extension where it has one.
pub fn interpreter(path: String, stem: Option<String>) -> (s: ShellProfile)
    ensures
        s.pair() == (match stem {
            Some(stem) => stem@,
            None => "cmd"@,
        }, path@),
{
    let name = match stem {
        Some(stem) => stem,
        None => "cmd".to_owned(),
    };
    ShellProfile { name, path }
}

/// Name and path of the default shell: PowerShell in its newest form that is
/// there, else the system's command interpreter. None where the system tells
/// which that is.
pub open spec fn default_pair(pwsh: bool, powershell: bool, comspec: Option<String>) -> Option<(Seq<char>, Seq<char>)> {
    if pwsh {
        Some(("pwsh"@, "pwsh.exe"@))
    } else if powershell {
        Some(("powershell"@, "powershell.exe"@))
    } else if comspec is None {
        Some(("cmd"@, "cmd.exe"@))
    } else {
        None
    }
}

/// The default shell. `comspec` is the system's command interpreter, where it
/// is set and a file.
pub fn default_shell(pwsh: bool, powershell: bool, comspec: Option<String>) -> (s: ShellProfile)
    ensures
        match default_pair(pwsh, powershell, comspec) {
            Some(pair) => s.pair() == pair,
            None => {
                let path = comspec->Some_0@;
                &&& s.path@ == path
                &&& ends_in_a_name(path) ==> s.name@ == stem_of(name_of(path, true)) || s.name@ == stem_of(name_of(path, false))
            },
        },
{
    if pwsh {
        return profile("pwsh", "pwsh.exe");
    }
    if powershell {
        return profile("powershell", "powershell.exe");
    }
    match comspec {
        Some(path) => {
            let stem = file_stem(path.as_str());
            interpreter(path, stem)
        },
        None => profile("cmd", "cmd.exe"),
    }
}

/// Paths of shells found below a programs directory.
pub struct ProgramShells {
    pub git_bash: Option<String>,
    /// The scoop package manager's shims are there.
    pub scoop: bool,
    pub scoop_nu: Option<String>,
    pub scoop_elvish: Option<String>,
    pub scoop_xonsh: Option<String>,
}

/// Which shells were found.
pub struct ShellFacts {
    pub pwsh: bool,
    pub powershell: bool,
    pub wsl: bool,
    pub nu: bool,
    pub elvish: bool,
    pub xonsh: bool,
    pub sh: bool,
    pub programs: Option<ProgramShells>,
    /// The git bash below the 32-bit programs directory.
    pub git_bash_x86: Option<String>,
}

pub open spec fn listed(found: bool, name: Seq<char>, path: Seq<char>) -> Seq<(Seq<char>, Seq<char>)> {
    if found {
        seq![(name, path)]
    } else {
        seq![]
    }
}

pub open spec fn listed_at(path: Option<String>, name: Seq<char>) -> Seq<(Seq<char>, Seq<char>)> {
    match path {
        Some(path) => seq![(name, path@)],
        None => seq![],
    }
}

pub open spec fn program_pairs(programs: Option<ProgramShells>) -> Seq<(Seq<char>, Seq<char>)> {
    match programs {
        Some(p) => listed_at(p.git_bash, "git bash"@) + (if p.scoop {
            listed_at(p.scoop_nu, "nushell (scoop)"@) + listed_at(p.scoop_elvish, "elvish (scoop)"@) + listed_at(
                p.scoop_xonsh,
                "xonsh (scoop)"@,
            )
        } else {
            seq![]
        }),
        None => seq![],
    }
}

/// The shells on the search path.
pub open spec fn path_pairs(f: ShellFacts) -> Seq<(Seq<char>, Seq<char>)> {
    Seq::empty() + listed(f.pwsh, "pwsh"@, "pwsh.exe"@) + listed(f.powershell, "powershell"@, "powershell.exe"@) + listed(
        true,
        "cmd"@,
        "cmd.exe"@,
    ) + listed(f.wsl, "wsl"@, "wsl.exe"@) + listed(f.nu, "nushell"@, "nu.exe"@) + listed(f.elvish, "elvish"@, "elvish.exe"@) + listed(
        f.xonsh,
        "xonsh"@,
        "xonsh.exe"@,
    ) + listed(f.sh, "busybox sh"@, "sh.exe"@)
}

/// The shells on offer, in their order. The command interpreter always is.
pub open spec fn available(f: ShellFacts) -> Seq<(Seq<char>, Seq<char>)> {
    path_pairs(f) + program_pairs(f.programs) + listed_at(f.git_bash_x86, "git bash (x86)"@)
}

fn offer(shells: &mut Vec<ShellProfile>, found: bool, name: &str, path: &str)
    ensures
        pairs(final(shells)@) == pairs(old(shells)@) + listed(found, name@, path@),
{
    if found {
        shells.push(profile(name, path));
    }
    assert(pairs(shells@) == pairs(old(shells)@) + listed(found, name@, path@));
}

fn offer_at(shells: &mut Vec<ShellProfile>, path: &Option<String>, name: &str)
    ensures
        pairs(final(shells)@) == pairs(old(shells)@) + listed_at(*path, name@),
{
    if let Some(path) = path {
        shells.push(profile(name, path.as_str()));
    }
    assert(pairs(shells@) == pairs(old(shells)@) + listed_at(*path, name@));
}

fn offer_programs(shells: &mut Vec<ShellProfile>, programs: &Option<ProgramShells>)
    ensures
        pairs(final(shells)@) == pairs(old(shells)@) + program_pairs(*programs),
{
    if let Some(programs) = programs {
        offer_at(shells, &programs.git_bash, "git bash");
        // Scoop shells, less common.
        if programs.scoop {
            offer_at(shells, &programs.scoop_nu, "nushell (scoop)");
            offer_at(shells, &programs.scoop_elvish, "elvish (scoop)");
            offer_at(shells, &programs.scoop_xonsh, "xonsh (scoop)");
        }
    }
    assert(pairs(shells@) == pairs(old(shells)@) + program_pairs(*programs));
}

/// The shells on offer on Windows.
pub fn get_available_shells(facts: &ShellFacts) -> (shells: Vec<ShellProfile>)
    ensures
        pairs(shells@) == available(*facts),
{
    let mut shells: Vec<ShellProfile> = Vec::new();
    assert(pairs(shells@) == Seq::<(Seq<char>, Seq<char>)>::empty());
    offer(&mut shells, facts.pwsh, "pwsh", "pwsh.exe");
    offer(&mut shells, facts.powershell, "powershell", "powershell.exe");
    offer(&mut shells, true, "cmd", "cmd.exe");
    offer(&mut shells, facts.wsl, "wsl", "wsl.exe");
    // Less common.
    offer(&mut shells, facts.nu, "nushell", "nu.exe");
    offer(&mut shells, facts.elvish, "elvish", "elvish.exe");
    offer(&mut shells, facts.xonsh, "xonsh", "xonsh.exe");
    offer(&mut shells, facts.sh, "busybox sh", "sh.exe");
    offer_programs(&mut shells, &facts.programs);
    offer_at(&mut shells, &facts.git_bash_x86, "git bash (x86)");
    shells
}

/// A PowerShell that is there is both the default and the first on offer.
pub proof fn default_is_first_offer(f: ShellFacts, comspec: Option<String>)
    requires
        f.pwsh || f.powershell,
    ensures
        default_pair(f.pwsh, f.powershell, comspec) == Some(available(f)[0]),
{
}

/// The command interpreter is always on offer.
pub proof fn command_interpreter_is_offered(f: ShellFacts)
    ensures
        available(f).contains(("cmd"@, "cmd.exe"@)),
{
    let before = listed(f.pwsh, "pwsh"@, "pwsh.exe"@) + listed(f.powershell, "powershell"@, "powershell.exe"@);
    assert(available(f)[before.len() as int] == ("cmd"@, "cmd.exe"@));
}

// ---------------------------------------------------------------------------
// Output
// ---------------------------------------------------------------------------

/// What draining a pty's output gave.
#[derive(Clone, Copy, Debug, PartialEq, Eq, Structural)]
pub enum Drained {
    Data,
    Empty,
    Eof,
}

/// Per-frame byte cap; a flooding child must not stall the frame loop.
pub const DRAIN_BUDGET: usize = 0x40_0000;

/// Most bytes one read hands over.
pub const READ_CHUNK: usize = 0x1_0000;

/// What one attempt to read gave.
#[derive(Clone, Copy, Debug, PartialEq, Eq, Structural)]
pub enum ReadResult {
    Data(usize),
    /// Nothing is there now.
    Empty,
    /// The call was interrupted and is made again.
    Interrupted,
    /// The other side is gone: an end of file, or an error that stands for it.
    Closed,
}

/// Progress of one frame's draining.
#[derive(Clone, Copy, Debug, PartialEq, Eq, Structural)]
pub struct Drain {
    pub total: usize,
    /// The end is told only when nothing came before it in this frame.
    pub end_last: bool,
}

impl Drain {
    pub open spec fn wf(self) -> bool {
        self.total < DRAIN_BUDGET + READ_CHUNK
    }

    /// The frame's budget is used up.
    pub open spec fn spent(self) -> bool {
        self.total >= DRAIN_BUDGET
    }

    /// A new frame. A non-blocking descriptor reports its end at once; a
    /// channel that was closed still has data to be shown, so its end waits
    /// for the next frame.
    pub fn new(channel: bool) -> (d: Drain)
        ensures
            d == (Drain { total: 0, end_last: channel }),
            d.wf(),
    {
        Drain { total: 0, end_last: channel }
    }

    /// What the frame ends with after this read; none goes on reading.
    pub open spec fn after(self, result: ReadResult) -> Option<Drained> {
        match result {
            ReadResult::Data(n) => if self.total + n >= DRAIN_BUDGET { Some(Drained::Data) } else { None },
            ReadResult::Interrupted => None,
            ReadResult::Empty => Some(if self.total > 0 { Drained::Data } else { Drained::Empty }),
            ReadResult::Closed => Some(if self.end_last && self.total > 0 { Drained::Data } else { Drained::Eof }),
        }
    }

    /// Take the result of a read. Tells what the frame ended with, if it did:
    /// the budget used up, nothing more there now, or the end.
    pub fn step(&mut self, result: ReadResult) -> (done: Option<Drained>)
        requires
            !old(self).spent(),
            result matches ReadResult::Data(n) ==> 0 < n <= READ_CHUNK,
        ensures
            final(self).wf(),
            done == old(self).after(result),
            *final(self) == (Drain {
                total: (old(self).total + (if let ReadResult::Data(n) = result { n as int } else { 0 })) as usize,
                ..*old(self)
            }),
            done is None ==> !final(self).spent(),
    {
        match result {
            ReadResult::Data(n) => {
                self.total = self.total + n;
                if self.total >= DRAIN_BUDGET {
                    Some(Drained::Data)
                } else {
                    None
                }
            },
            ReadResult::Interrupted => None,
            ReadResult::Empty => Some(if self.total > 0 { Drained::Data } else { Drained::Empty }),
            ReadResult::Closed => Some(if self.end_last && self.total > 0 { Drained::Data } else { Drained::Eof }),
        }
    }
}

/// A frame takes no more than its budget and one read.
pub proof fn frames_are_bounded(d: Drain, n: usize)
    requires
        !d.spent(),
        n <= READ_CHUNK,
    ensures
        d.total + n < DRAIN_BUDGET + READ_CHUNK,
{
}

// ---------------------------------------------------------------------------
// Input
// ---------------------------------------------------------------------------

/// A query-flooding child that never reads its input cannot grow the pending
/// buffer beyond this.
pub const PENDING_CAP: usize = 0x40_0000;

/// What one attempt to write gave.
#[derive(Clone, Copy, Debug, PartialEq, Eq, Structural)]
pub enum WriteResult {
    Wrote(usize),
    /// The call was interrupted and is made again.
    Interrupted,
    /// The kernel takes nothing now.
    WouldBlock,
    Failed,
}

/// Write side of a pty. The descriptor is non-blocking, so remainders the
/// kernel refuses (large pastes) are buffered rather than dropped; the frame
/// loop flushes them.
pub struct Writer {
    pub pending: Vec<u8>,
}

/// As much of the data as still fits behind the pending bytes.
pub open spec fn buffered(pending: Seq<u8>, data: Seq<u8>) -> Seq<u8> {
    let room = if pending.len() < PENDING_CAP { PENDING_CAP - pending.len() } else { 0 };
    if data.len() <= room {
        pending + data
    } else {
        pending + data.take(room)
    }
}

impl Writer {
    pub open spec fn wf(self) -> bool {
        self.pending@.len() <= PENDING_CAP
    }

    pub fn new() -> (w: Writer)
        ensures
            w.wf(),
            w.pending@.len() == 0,
    {
        Writer { pending: Vec::new() }
    }

    fn buffer(&mut self, data: &Vec<u8>, from: usize)
        requires
            old(self).wf(),
            from <= data@.len(),
        ensures
            final(self).wf(),
            final(self).pending@ == buffered(old(self).pending@, data@.skip(from as int)),
    {
        let len: usize = data.len();
        let mut i: usize = from;
        while i < len && self.pending.len() < PENDING_CAP
            invariant
                from <= i <= len,
                len == data@.len(),
                self.pending@.len() <= PENDING_CAP,
                self.pending@ == old(self).pending@ + data@.subrange(from as int, i as int),
            decreases len - i,
        {
            self.pending.push(data[i]);
            i = i + 1;
            assert(self.pending@ == old(self).pending@ + data@.subrange(from as int, i as int));
        }
        proof {
            let rest = data@.skip(from as int);
            if i == len {
                assert(data@.subrange(from as int, i as int) == rest);
            } else {
                assert(data@.subrange(from as int, i as int) == rest.take(i - from));
            }
            assert(self.pending@ == buffered(old(self).pending@, rest));
        }
    }

    /// Take data to write. While earlier bytes wait it queues behind them;
    /// otherwise tells to hand it to the kernel now.
    pub fn write(&mut self, data: &Vec<u8>) -> (try_now: bool)
        requires
            old(self).wf(),
        ensures
            final(self).wf(),
            try_now == (old(self).pending@.len() == 0 && data@.len() > 0),
            final(self).pending@ == (if old(self).pending@.len() > 0 { buffered(old(self).pending@, data@) } else { old(self).pending@ }),
    {
        if self.pending.len() > 0 {
            assert(data@.skip(0) == data@);
            self.buffer(data, 0);
            return false;
        }
        data.len() > 0
    }

    /// Take the result of writing `data` from `sent` on. Tells how much is
    /// sent where the rest is to be tried again; what the kernel refuses is
    /// kept for later, and an error gives the rest up.
    pub fn wrote(&mut self, data: &Vec<u8>, sent: usize, result: WriteResult) -> (again: Option<usize>)
        requires
            old(self).wf(),
            old(self).pending@.len() == 0,
            sent < data@.len(),
            result matches WriteResult::Wrote(n) ==> sent + n <= data@.len(),
        ensures
            final(self).wf(),
            again == (match result {
                WriteResult::Wrote(n) => if sent + n < data@.len() { Some((sent + n) as usize) } else { None },
                WriteResult::Interrupted => Some(sent),
                _ => None,
            }),
            final(self).pending@ == (if result is WouldBlock { buffered(Seq::empty(), data@.skip(sent as int)) } else { Seq::empty() }),
    {
        assert(self.pending@ == Seq::<u8>::empty());
        match result {
            WriteResult::Wrote(n) => {
                let len: usize = data.len();
                let next: usize = sent + n;
                if next < len {
                    Some(next)
                } else {
                    None
                }
            },
            WriteResult::Interrupted => Some(sent),
            WriteResult::WouldBlock => {
                self.buffer(data, sent);
                None
            },
            WriteResult::Failed => None,
        }
    }

    /// Take the result of writing the pending bytes. Tells whether to try
    /// again now; an error gives them up.
    pub fn flush(&mut self, result: WriteResult) -> (again: bool)
        requires
            old(self).wf(),
            old(self).pending@.len() > 0,
            result matches WriteResult::Wrote(n) ==> n <= old(self).pending@.len(),
        ensures
            final(self).wf(),
            final(self).pending@ == (match result {
                WriteResult::Wrote(n) => old(self).pending@.skip(n as int),
                WriteResult::Failed => Seq::empty(),
                _ => old(self).pending@,
            }),
            again == ((result is Wrote || result is Interrupted) && final(self).pending@.len() > 0),
    {
        match result {
            WriteResult::Wrote(n) => {
                self.pending = self.pending.split_off(n);
                assert(self.pending@ == old(self).pending@.skip(n as int));
                self.pending.len() > 0
            },
            WriteResult::Interrupted => true,
            WriteResult::WouldBlock => false,
            WriteResult::Failed => {
                self.pending.clear();
                false
            },
        }
    }
}

/// Input arrives in order and, up to the cap, whole: bytes that waited go
/// before those that came later, and what was refused continues what was
/// sent.
pub proof fn input_keeps_its_order(pending: Seq<u8>, data: Seq<u8>, sent: int)
    requires
        0 <= sent <= data.len(),
        pending.len() <= PENDING_CAP,
    ensures
        pending.len() + data.len() <= PENDING_CAP ==> buffered(pending, data) == pending + data,
        buffered(pending, data).is_prefix_of(pending + data),
        data.len() - sent <= PENDING_CAP ==> data.take(sent) + buffered(Seq::empty(), data.skip(sent)) == data,
{
    let all = buffered(pending, data);
    assert(all == (pending + data).take(all.len() as int));
    if data.len() - sent <= PENDING_CAP {
        assert(data.take(sent) + buffered(Seq::empty(), data.skip(sent)) =~= data);
    }
}

// ---------------------------------------------------------------------------
// Foreground process
// ---------------------------------------------------------------------------

/// The foreground process group in a process's status line: the sixth word
/// after its name, which brackets enclose. There is none where it is not a
/// positive number.
pub open spec fn group_in(stat: Seq<char>) -> Option<int> {
    match crate::text::bracket_tail(stat) {
        Some(tail) if crate::text::words(tail).len() > 5 => match crate::text::number(crate::text::words(tail)[5]) {
            Some(n) if n > 0 => Some(n),
            _ => None,
        },
        _ => None,
    }
}

/// The terminal's foreground process group, from the shell's status line.
pub fn foreground_group(stat: &str) -> (group: Option<i64>)
    ensures
        match group {
            Some(n) => group_in(stat@) == Some(n as int),
            None => group_in(stat@) is None,
        },
{
    let tail = match after_bracket(stat) {
        Some(tail) => tail,
        None => {
            return None;
        },
    };
    let word = match nth_word(tail.as_str(), 5) {
        Some(word) => word,
        None => {
            return None;
        },
    };
    match parse_number(word.as_str()) {
        Some(n) if n > 0 => Some(n),
        _ => None,
    }
}

/// Name of a process from its `comm` file, used for titles.
pub fn foreground_process_name(comm: &str) -> (name: Option<String>)
    ensures
        name is Some <==> crate::text::trimmed(comm@).len() > 0,
        name matches Some(n) ==> n@ == crate::text::trimmed(comm@),
{
    let name = trim(comm);
    if name.as_str().is_empty() {
        None
    } else {
        Some(name)
    }
}

// ---------------------------------------------------------------------------
// What running a shell comes to
// ---------------------------------------------------------------------------

/// A name begins with these characters.
pub open spec fn begins(name: Seq<char>, head: Seq<char>) -> bool {
    name.len() >= head.len() && name.take(head.len() as int) == head
}

proof fn scrub_lists()
    ensures
        forall|key: Seq<char>|
            (exists|i: int| 0 <= i < 15 && #[trigger] covers(SCRUB_TERMINAL_IDENTITY[i]@, key)) <==> #[trigger] is_identity(key),
        forall|key: Seq<char>|
            (exists|i: int| 0 <= i < 6 && #[trigger] covers(SCRUB_DEV_SHELL_STATE[i]@, key)) <==> #[trigger] is_shell_state(key),
{
    reveal_strlit("TERM_PROGRAM");
    reveal_strlit("TERM_PROGRAM_VERSION");
    reveal_strlit("GHOSTTY_");
    reveal_strlit("KITTY_");
    reveal_strlit("WEZTERM_");
    reveal_strlit("ALACRITTY_");
    reveal_strlit("VTE_VERSION");
    reveal_strlit("KONSOLE_");
    reveal_strlit("ITERM_");
    reveal_strlit("WT_SESSION");
    reveal_strlit("WT_PROFILE_ID");
    reveal_strlit("WINDOWID");
    reveal_strlit("TMUX");
    reveal_strlit("TMUX_");
    reveal_strlit("STY");
    reveal_strlit("DEVENV_");
    reveal_strlit("DIRENV_");
    reveal_strlit("IN_NIX_SHELL");
    reveal_strlit("VIRTUAL_ENV");
    reveal_strlit("VIRTUAL_ENV_");
    reveal_strlit("CONDA_");
    assert forall|key: Seq<char>| #[trigger] is_identity(key) implies (exists|i: int|
        0 <= i < 15 && #[trigger] covers(SCRUB_TERMINAL_IDENTITY[i]@, key)) by {
        let i = if key == "TERM_PROGRAM"@ {
            0int
        } else if key == "TERM_PROGRAM_VERSION"@ {
            1
        } else if begins(key, "GHOSTTY_"@) {
            2
        } else if begins(key, "KITTY_"@) {
            3
        } else if begins(key, "WEZTERM_"@) {
            4
        } else if begins(key, "ALACRITTY_"@) {
            5
        } else if key == "VTE_VERSION"@ {
            6
        } else if begins(key, "KONSOLE_"@) {
            7
        } else if begins(key, "ITERM_"@) {
            8
        } else if key == "WT_SESSION"@ {
            9
        } else if key == "WT_PROFILE_ID"@ {
            10
        } else if key == "WINDOWID"@ {
            11
        } else if key == "TMUX"@ {
            12
        } else if begins(key, "TMUX_"@) {
            13
        } else {
            14
        };
        assert(covers(SCRUB_TERMINAL_IDENTITY[i]@, key));
    }
    assert forall|key: Seq<char>| #[trigger] is_shell_state(key) implies (exists|i: int|
        0 <= i < 6 && #[trigger] covers(SCRUB_DEV_SHELL_STATE[i]@, key)) by {
        let i = if begins(key, "DEVENV_"@) {
            0int
        } else if begins(key, "DIRENV_"@) {
            1
        } else if key == "IN_NIX_SHELL"@ {
            2
        } else if key == "VIRTUAL_ENV"@ {
            3
        } else if begins(key, "VIRTUAL_ENV_"@) {
            4
        } else {
            5
        };
        assert(covers(SCRUB_DEV_SHELL_STATE[i]@, key));
    }
    assert forall|key: Seq<char>| (exists|i: int| 0 <= i < 15 && #[trigger] covers(SCRUB_TERMINAL_IDENTITY[i]@, key)) implies #[trigger] is_identity(
        key,
    ) by {
        let i = choose|i: int| 0 <= i < 15 && #[trigger] covers(SCRUB_TERMINAL_IDENTITY[i]@, key);
        assert(i == 0 || i == 1 || i == 2 || i == 3 || i == 4 || i == 5 || i == 6 || i == 7 || i == 8 || i == 9 || i == 10 || i == 11 || i == 12 || i == 13
            || i == 14);
    }
    assert forall|key: Seq<char>| (exists|i: int| 0 <= i < 6 && #[trigger] covers(SCRUB_DEV_SHELL_STATE[i]@, key)) implies #[trigger] is_shell_state(
        key,
    ) by {
        let i = choose|i: int| 0 <= i < 6 && #[trigger] covers(SCRUB_DEV_SHELL_STATE[i]@, key);
        assert(i == 0 || i == 1 || i == 2 || i == 3 || i == 4 || i == 5);
    }
}

/// A name that tells of the terminal a process runs in.
pub open spec fn is_identity(key: Seq<char>) -> bool {
    ||| key == "TERM_PROGRAM"@ || key == "TERM_PROGRAM_VERSION"@
    ||| begins(key, "GHOSTTY_"@) || begins(key, "KITTY_"@) || begins(key, "WEZTERM_"@) || begins(key, "ALACRITTY_"@)
    ||| key == "VTE_VERSION"@ || begins(key, "KONSOLE_"@) || begins(key, "ITERM_"@)
    ||| key == "WT_SESSION"@ || key == "WT_PROFILE_ID"@ || key == "WINDOWID"@
    ||| key == "TMUX"@ || begins(key, "TMUX_"@) || key == "STY"@
}

/// A name that an activated dev shell sets.
pub open spec fn is_shell_state(key: Seq<char>) -> bool {
    ||| begins(key, "DEVENV_"@) || begins(key, "DIRENV_"@) || key == "IN_NIX_SHELL"@
    ||| key == "VIRTUAL_ENV"@ || begins(key, "VIRTUAL_ENV_"@) || begins(key, "CONDA_"@)
}

/// Names are scrubbed exactly if they tell of another terminal or of a dev
/// shell's state.
pub proof fn foreign_identities_are_scrubbed(key: &str, r: bool)
    requires
        call_ensures(scrubbed, (key,), r),
    ensures
        r <==> is_identity(key@) || is_shell_state(key@),
{
    scrub_lists();
    if exists|i: int| 0 <= i < 15 && covers((#[trigger] SCRUB_TERMINAL_IDENTITY[i])@, key@) {
        let i = choose|i: int| 0 <= i < 15 && covers((#[trigger] SCRUB_TERMINAL_IDENTITY[i])@, key@);
        assert(covers(SCRUB_TERMINAL_IDENTITY[i]@, key@));
    }
    if exists|i: int| 0 <= i < 6 && covers((#[trigger] SCRUB_DEV_SHELL_STATE[i])@, key@) {
        let i = choose|i: int| 0 <= i < 6 && covers((#[trigger] SCRUB_DEV_SHELL_STATE[i])@, key@);
        assert(covers(SCRUB_DEV_SHELL_STATE[i]@, key@));
    }
    assert(is_identity(key@) || !is_identity(key@));
    assert(is_shell_state(key@) || !is_shell_state(key@));
}

/// No name that is set or scrubbed begins with this character, in either case.
pub open spec fn begins_kept_names(c: char) -> bool {
    (c as u32) < 128 && {
        let l = if 'A' <= c <= 'Z' { (c as u32 + 32) as char } else { c };
        l != 't' && l != 'g' && l != 'k' && l != 'w' && l != 'a' && l != 'v' && l != 'i' && l != 's' && l != 'd' && l != 'c'
    }
}

proof fn scrubbed_names_begin_so(key: Seq<char>)
    requires
        is_scrubbed(key),
    ensures
        key.len() > 0,
        (key[0] as u32) < 128,
        !begins_kept_names(key[0]),
{
    reveal_strlit("TERM_PROGRAM");
    reveal_strlit("TERM_PROGRAM_VERSION");
    reveal_strlit("GHOSTTY_");
    reveal_strlit("KITTY_");
    reveal_strlit("WEZTERM_");
    reveal_strlit("ALACRITTY_");
    reveal_strlit("VTE_VERSION");
    reveal_strlit("KONSOLE_");
    reveal_strlit("ITERM_");
    reveal_strlit("WT_SESSION");
    reveal_strlit("WT_PROFILE_ID");
    reveal_strlit("WINDOWID");
    reveal_strlit("TMUX");
    reveal_strlit("TMUX_");
    reveal_strlit("STY");
    reveal_strlit("DEVENV_");
    reveal_strlit("DIRENV_");
    reveal_strlit("IN_NIX_SHELL");
    reveal_strlit("VIRTUAL_ENV");
    reveal_strlit("VIRTUAL_ENV_");
    reveal_strlit("CONDA_");
    if exists|i: int| 0 <= i < 15 && covers((#[trigger] SCRUB_TERMINAL_IDENTITY[i])@, key) {
        let i = choose|i: int| 0 <= i < 15 && covers((#[trigger] SCRUB_TERMINAL_IDENTITY[i])@, key);
        let e = SCRUB_TERMINAL_IDENTITY[i]@;
        assert(i == 0 || i == 1 || i == 2 || i == 3 || i == 4 || i == 5 || i == 6 || i == 7 || i == 8 || i == 9 || i == 10 || i == 11 || i == 12 || i == 13
            || i == 14);
        assert(key.take(e.len() as int)[0] == e[0] || key[0] == e[0]);
    } else {
        let i = choose|i: int| 0 <= i < 6 && covers((#[trigger] SCRUB_DEV_SHELL_STATE[i])@, key);
        let e = SCRUB_DEV_SHELL_STATE[i]@;
        assert(i == 0 || i == 1 || i == 2 || i == 3 || i == 4 || i == 5);
        assert(key.take(e.len() as int)[0] == e[0] || key[0] == e[0]);
    }
}

/// A shell keeps its environment: a variable that begins like no name that is
/// set or scrubbed, as `PATH`, `HOME`, `LANG` and `USER` do, is as it was.
/// `TERM` and `COLORTERM` are the terminal's own, a login shell gets its
/// argument, and the directory is the one asked for.
pub proof fn shells_keep_their_environment(cmd: &mut CommandBuilder, opts: &Options, unix: bool, inherited: &Vec<String>, k: Seq<char>)
    requires
        call_ensures(prepare, (cmd, opts, unix, inherited), ()),
    ensures
        k.len() > 0 && begins_kept_names(k[0]) ==> (env(*final(cmd)).dom().contains(k) <==> env(*old(cmd)).dom().contains(k)) && env(*final(cmd))[k]
            == env(*old(cmd))[k],
        env(*final(cmd)).dom().contains("TERM"@) && env(*final(cmd))["TERM"@] == "xterm-256color"@,
        env(*final(cmd)).dom().contains("COLORTERM"@) && env(*final(cmd))["COLORTERM"@] == "truecolor"@,
        opts.login && unix ==> argv(*final(cmd)) == argv(*old(cmd)).push("-l"@),
        !(opts.login && unix) ==> argv(*final(cmd)) == argv(*old(cmd)),
        dir(*final(cmd)) == Some(*opts.cwd),
{
    if k.len() > 0 && begins_kept_names(k[0]) {
        reveal_strlit("TERM");
        reveal_strlit("COLORTERM");
        assert(differ_at(k, "TERM"@, 0));
        assert(differ_at(k, "COLORTERM"@, 0));
        assert forall|i: int| 0 <= i < inherited@.len() && is_scrubbed((#[trigger] inherited@[i])@) implies apart(k, inherited@[i]@) by {
            scrubbed_names_begin_so(inherited@[i]@);
            assert(differ_at(k, inherited@[i]@, 0));
        }
        assert(untouched(k, inherited@));
        assert(env_kept(*old(cmd), *final(cmd), inherited@));
    }
}

/// Scrubbed names that were inherited are gone, whatever else is there.
pub proof fn scrubbed_names_are_gone(cmd: &mut CommandBuilder, opts: &Options, unix: bool, inherited: &Vec<String>, i: int)
    requires
        call_ensures(prepare, (cmd, opts, unix, inherited), ()),
        0 <= i < inherited@.len(),
        is_identity(inherited@[i]@) || is_shell_state(inherited@[i]@),
    ensures
        !env(*final(cmd)).dom().contains(inherited@[i]@),
{
    scrub_lists();
    let key = inherited@[i]@;
    if is_identity(key) {
        let n = choose|n: int| 0 <= n < 15 && #[trigger] covers(SCRUB_TERMINAL_IDENTITY[n]@, key);
        assert(SCRUB_TERMINAL_IDENTITY[n]@ == SCRUB_TERMINAL_IDENTITY[n]@);
    } else {
        let n = choose|n: int| 0 <= n < 6 && #[trigger] covers(SCRUB_DEV_SHELL_STATE[n]@, key);
        assert(SCRUB_DEV_SHELL_STATE[n]@ == SCRUB_DEV_SHELL_STATE[n]@);
    }
    assert(is_scrubbed(key));
    assert(env_scrubbed(*final(cmd), inherited@));
}

/// A pty is as large as its cells, as far as sixteen bits reach.
pub proof fn ptys_are_as_large_as_their_cells(cols: u16, rows: u16, cell_w: u16, cell_h: u16, s: PtySize)
    requires
        call_ensures(size, (cols, rows, cell_w, cell_h), s),
    ensures
        s.cols == cols && s.rows == rows,
        cols * cell_w <= 0xffff ==> s.pixel_width == cols * cell_w,
        rows * cell_h <= 0xffff ==> s.pixel_height == rows * cell_h,
        cols * cell_w > 0xffff ==> s.pixel_width == 0xffff,
        rows * cell_h > 0xffff ==> s.pixel_height == 0xffff,
{
}

/// A configured shell is run if it is named, else the user's, else the
/// system's; on Windows else the default one.
pub proof fn configured_shells_are_run(configured: Option<&str>, user: Option<String>, shell: String, default: &ShellProfile, windows: String)
    requires
        call_ensures(unix_shell, (configured, user), shell),
        call_ensures(windows_shell, (configured, default), windows),
    ensures
        configured is Some && configured->0@.len() > 0 ==> shell@ == configured->0@ && windows@ == configured->0@,
        configured is None && user is Some && user->0@.len() > 0 ==> shell@ == user->0@,
        configured is None && user is None ==> shell@ == "/bin/sh"@,
        configured is Some && configured->0@.len() == 0 ==> shell@ == "/bin/sh"@,
        configured is None || configured->0@.len() == 0 ==> windows@ == default.path@,
        configured is None && user is Some && user->0@.len() == 0 ==> shell@ == "/bin/sh"@,
{
}

/// The newest PowerShell that is there is the default shell, else the system's
/// command interpreter.
pub proof fn newest_shells_are_the_default(pwsh: bool, powershell: bool, comspec: Option<String>, s: ShellProfile, path: String, stem: Option<String>, t: ShellProfile)
    requires
        call_ensures(default_shell, (pwsh, powershell, comspec), s),
        call_ensures(interpreter, (path, stem), t),
    ensures
        pwsh ==> s.name@ == "pwsh"@ && s.path@ == "pwsh.exe"@,
        !pwsh && powershell ==> s.name@ == "powershell"@ && s.path@ == "powershell.exe"@,
        !pwsh && !powershell && comspec is Some ==> s.path@ == comspec->0@,
        !pwsh && !powershell && comspec is None ==> s.name@ == "cmd"@ && s.path@ == "cmd.exe"@,
        t.path@ == path@,
        stem is Some ==> t.name@ == stem->0@,
        stem is None ==> t.name@ == "cmd"@,
{
}

/// A shell is on the list.
pub open spec fn offers(shells: Seq<ShellProfile>, name: Seq<char>, path: Seq<char>) -> bool {
    exists|i: int| 0 <= i < shells.len() && (#[trigger] shells[i]).name@ == name && shells[i].path@ == path
}

proof fn offers_pair(shells: Seq<ShellProfile>, name: Seq<char>, path: Seq<char>)
    ensures
        offers(shells, name, path) <==> pairs(shells).contains((name, path)),
{
    if offers(shells, name, path) {
        let i = choose|i: int| 0 <= i < shells.len() && (#[trigger] shells[i]).name@ == name && shells[i].path@ == path;
        assert(pairs(shells)[i] == (name, path));
    }
    if pairs(shells).contains((name, path)) {
        let i = choose|i: int| 0 <= i < pairs(shells).len() && pairs(shells)[i] == (name, path);
        assert(shells[i].name@ == name);
    }
}

proof fn in_sum(a: Seq<(Seq<char>, Seq<char>)>, b: Seq<(Seq<char>, Seq<char>)>, x: (Seq<char>, Seq<char>))
    ensures
        (a + b).contains(x) <==> a.contains(x) || b.contains(x),
{
    if a.contains(x) {
        let i = choose|i: int| 0 <= i < a.len() && a[i] == x;
        assert((a + b)[i] == x);
    }
    if b.contains(x) {
        let i = choose|i: int| 0 <= i < b.len() && b[i] == x;
        assert((a + b)[a.len() + i] == x);
    }
    if (a + b).contains(x) {
        let i = choose|i: int| 0 <= i < (a + b).len() && (a + b)[i] == x;
        if i < a.len() {
            assert(a[i] == x);
        } else {
            assert(b[i - a.len()] == x);
        }
    }
}

/// Every shell that was found is on offer under its name, and the command
/// interpreter always.
pub proof fn found_shells_are_offered(facts: &ShellFacts, shells: Vec<ShellProfile>)
    requires
        call_ensures(get_available_shells, (facts,), shells),
    ensures
        facts.pwsh ==> offers(shells@, "pwsh"@, "pwsh.exe"@),
        facts.powershell ==> offers(shells@, "powershell"@, "powershell.exe"@),
        offers(shells@, "cmd"@, "cmd.exe"@),
        facts.wsl ==> offers(shells@, "wsl"@, "wsl.exe"@),
        facts.nu ==> offers(shells@, "nushell"@, "nu.exe"@),
        facts.elvish ==> offers(shells@, "elvish"@, "elvish.exe"@),
        facts.xonsh ==> offers(shells@, "xonsh"@, "xonsh.exe"@),
        facts.sh ==> offers(shells@, "busybox sh"@, "sh.exe"@),
        facts.git_bash_x86 is Some ==> offers(shells@, "git bash (x86)"@, facts.git_bash_x86->0@),
        facts.programs is Some ==> {
            let p = facts.programs->0;
            &&& p.git_bash is Some ==> offers(shells@, "git bash"@, p.git_bash->0@)
            &&& p.scoop && p.scoop_nu is Some ==> offers(shells@, "nushell (scoop)"@, p.scoop_nu->0@)
            &&& p.scoop && p.scoop_elvish is Some ==> offers(shells@, "elvish (scoop)"@, p.scoop_elvish->0@)
            &&& p.scoop && p.scoop_xonsh is Some ==> offers(shells@, "xonsh (scoop)"@, p.scoop_xonsh->0@)
        },
        shells@.len() == found_count(*facts),
{
    let f = *facts;
    let e = Seq::<(Seq<char>, Seq<char>)>::empty();
    let s1 = e + listed(f.pwsh, "pwsh"@, "pwsh.exe"@);
    let s2 = s1 + listed(f.powershell, "powershell"@, "powershell.exe"@);
    let s3 = s2 + listed(true, "cmd"@, "cmd.exe"@);
    let s4 = s3 + listed(f.wsl, "wsl"@, "wsl.exe"@);
    let s5 = s4 + listed(f.nu, "nushell"@, "nu.exe"@);
    let s6 = s5 + listed(f.elvish, "elvish"@, "elvish.exe"@);
    let s7 = s6 + listed(f.xonsh, "xonsh"@, "xonsh.exe"@);
    let s8 = s7 + listed(f.sh, "busybox sh"@, "sh.exe"@);
    let q = program_pairs(f.programs);
    let x = listed_at(f.git_bash_x86, "git bash (x86)"@);
    assert(available(f) == s8 + q + x);
    assert(pairs(shells@).len() == shells@.len());
    assert forall|name: Seq<char>, path: Seq<char>| #[trigger] offers(shells@, name, path) == available(f).contains((name, path)) by {
        offers_pair(shells@, name, path);
    }
    assert forall|v: (Seq<char>, Seq<char>)| #[trigger] available(f).contains(v) <==> listed(f.pwsh, "pwsh"@, "pwsh.exe"@).contains(v) || listed(
        f.powershell,
        "powershell"@,
        "powershell.exe"@,
    ).contains(v) || listed(true, "cmd"@, "cmd.exe"@).contains(v) || listed(f.wsl, "wsl"@, "wsl.exe"@).contains(v) || listed(
        f.nu,
        "nushell"@,
        "nu.exe"@,
    ).contains(v) || listed(f.elvish, "elvish"@, "elvish.exe"@).contains(v) || listed(f.xonsh, "xonsh"@, "xonsh.exe"@).contains(v) || listed(
        f.sh,
        "busybox sh"@,
        "sh.exe"@,
    ).contains(v) || q.contains(v) || x.contains(v) by {
        in_sum(e, listed(f.pwsh, "pwsh"@, "pwsh.exe"@), v);
        in_sum(s1, listed(f.powershell, "powershell"@, "powershell.exe"@), v);
        in_sum(s2, listed(true, "cmd"@, "cmd.exe"@), v);
        in_sum(s3, listed(f.wsl, "wsl"@, "wsl.exe"@), v);
        in_sum(s4, listed(f.nu, "nushell"@, "nu.exe"@), v);
        in_sum(s5, listed(f.elvish, "elvish"@, "elvish.exe"@), v);
        in_sum(s6, listed(f.xonsh, "xonsh"@, "xonsh.exe"@), v);
        in_sum(s7, listed(f.sh, "busybox sh"@, "sh.exe"@), v);
        in_sum(s8, q, v);
        in_sum(s8 + q, x, v);
    }
    assert forall|found: bool, name: Seq<char>, path: Seq<char>| found implies #[trigger] listed(found, name, path).contains((name, path)) by {
        assert(listed(found, name, path)[0] == (name, path));
    }
    assert forall|path: Option<String>, name: Seq<char>| path is Some implies #[trigger] listed_at(path, name).contains((name, path->0@)) by {
        assert(listed_at(path, name)[0] == (name, path->0@));
    }
    if f.programs is Some {
        let p = f.programs->0;
        let a = listed_at(p.git_bash, "git bash"@);
        let b = listed_at(p.scoop_nu, "nushell (scoop)"@);
        let c = listed_at(p.scoop_elvish, "elvish (scoop)"@);
        let d = listed_at(p.scoop_xonsh, "xonsh (scoop)"@);
        assert forall|v: (Seq<char>, Seq<char>)| p.scoop implies (#[trigger] q.contains(v) <==> a.contains(v) || b.contains(v) || c.contains(v)
            || d.contains(v)) by {
            in_sum(a, b + c + d, v);
            in_sum(b + c, d, v);
            in_sum(b, c, v);
        }
        if !p.scoop {
            assert(q =~= a);
        }
    }
}

/// How many shells were found, the command interpreter included.
pub open spec fn found_count(f: ShellFacts) -> int {
    let one = |found: bool| if found { 1int } else { 0 };
    let below = match f.programs {
        None => 0,
        Some(p) => one(p.git_bash is Some) + (if p.scoop {
            one(p.scoop_nu is Some) + one(p.scoop_elvish is Some) + one(p.scoop_xonsh is Some)
        } else {
            0
        }),
    };
    1 + one(f.pwsh) + one(f.powershell) + one(f.wsl) + one(f.nu) + one(f.elvish) + one(f.xonsh) + one(f.sh) + below + one(f.git_bash_x86 is Some)
}

/// A frame that read anything ends with data, and one that read nothing with
/// nothing, or with the end once that was told: at once by a descriptor, and
/// by a channel in a frame of its own. It ends when nothing more is there,
/// when it has read four megabytes, or at the end; else it goes on.
pub proof fn frames_end_with_what_they_read(d: &mut Drain, result: ReadResult, done: Option<Drained>)
    requires
        call_ensures(Drain::step, (d, result), done),
        old(d).total < 0x40_0000,
        result matches ReadResult::Data(n) ==> 0 < n <= 0x1_0000,
    ensures
        result matches ReadResult::Data(n) ==> final(d).total == old(d).total + n && (done is None <==> old(d).total + n < 0x40_0000) && (done is Some
            ==> done == Some(Drained::Data)),
        result !is Data ==> final(d).total == old(d).total,
        result is Interrupted ==> done is None,
        result is Empty ==> done == Some(if old(d).total > 0 { Drained::Data } else { Drained::Empty }),
        result is Closed && (old(d).total == 0 || !old(d).end_last) ==> done == Some(Drained::Eof),
        result is Closed && old(d).total > 0 && old(d).end_last ==> done == Some(Drained::Data),
        final(d).end_last == old(d).end_last,
{
}

/// As much of some bytes as four megabytes hold.
pub open spec fn capped(bytes: Seq<u8>) -> Seq<u8> {
    if bytes.len() <= 0x40_0000 {
        bytes
    } else {
        bytes.take(0x40_0000)
    }
}

proof fn buffered_is_capped(pending: Seq<u8>, data: Seq<u8>)
    requires
        pending.len() <= PENDING_CAP,
    ensures
        buffered(pending, data) == capped(pending + data),
{
    assert(buffered(pending, data) =~= capped(pending + data));
}

/// Input is neither lost nor reordered up to four megabytes: what cannot be
/// written now waits behind what waits already.
pub proof fn input_waits_in_order(w: &mut Writer, data: &Vec<u8>, try_now: bool)
    requires
        call_ensures(Writer::write, (w, data), try_now),
        old(w).pending@.len() <= 0x40_0000,
    ensures
        old(w).pending@.len() > 0 ==> !try_now && final(w).pending@ == capped(old(w).pending@ + data@),
        old(w).pending@.len() == 0 ==> final(w).pending@.len() == 0 && (try_now <==> data@.len() > 0),
{
    buffered_is_capped(old(w).pending@, data@);
}

/// What the kernel took is not sent again, what it refused is kept, and what
/// was interrupted is tried again; an error gives the rest up.
pub proof fn refused_input_is_kept(w: &mut Writer, data: &Vec<u8>, sent: usize, result: WriteResult, again: Option<usize>)
    requires
        call_ensures(Writer::wrote, (w, data, sent, result), again),
        sent < data@.len(),
        result matches WriteResult::Wrote(n) ==> sent + n <= data@.len(),
    ensures
        result is WouldBlock ==> again is None && final(w).pending@ == capped(data@.skip(sent as int)),
        result !is WouldBlock ==> final(w).pending@.len() == 0,
        result is Interrupted ==> again == Some(sent),
        result is Failed ==> again is None,
        result matches WriteResult::Wrote(n) ==> (again is None <==> sent + n == data@.len()) && (again is Some ==> again->0 == sent + n),
{
    assert(data@.len() == data.len());
    buffered_is_capped(Seq::empty(), data@.skip(sent as int));
    assert(Seq::<u8>::empty() + data@.skip(sent as int) =~= data@.skip(sent as int));
}

/// Flushing sends the waiting bytes in order and goes on while the kernel takes
/// them.
pub proof fn waiting_input_is_flushed(w: &mut Writer, result: WriteResult, again: bool)
    requires
        call_ensures(Writer::flush, (w, result), again),
        old(w).pending@.len() > 0,
        result matches WriteResult::Wrote(n) ==> n <= old(w).pending@.len(),
    ensures
        result matches WriteResult::Wrote(n) ==> old(w).pending@.take(n as int) + final(w).pending@ == old(w).pending@ && (again <==> n
            < old(w).pending@.len()),
        result is Interrupted ==> again && final(w).pending@ == old(w).pending@,
        result is WouldBlock ==> !again && final(w).pending@ == old(w).pending@,
        result is Failed ==> !again && final(w).pending@.len() == 0,
{
    if let WriteResult::Wrote(n) = result {
        assert(old(w).pending@.take(n as int) + old(w).pending@.skip(n as int) =~= old(w).pending@);
    }
}

/// The foreground group is the sixth word behind the bracket that closes the
/// process's name, if that is a positive number.
pub proof fn groups_stand_behind_the_name(stat: &str, tail: &str, word: &str, after: Option<String>, sixth: Option<String>, number: Option<i64>, group: Option<i64>)
    requires
        call_ensures(foreground_group, (stat,), group),
        call_ensures(after_bracket, (stat,), after),
        call_ensures(nth_word, (tail, 5usize), sixth),
        call_ensures(parse_number, (word,), number),
    ensures
        after is None ==> group is None,
        after is Some && after->0@ == tail@ && sixth is None ==> group is None,
        after is Some && after->0@ == tail@ && sixth is Some && sixth->0@ == word@ ==> {
            &&& number is Some && number->0 > 0 ==> group == number
            &&& number is None || number->0 <= 0 ==> group is None
        },
{
}

/// A process goes by its name without the white space around it, if anything
/// is left.
pub proof fn processes_go_by_their_name(comm: &str, t: String, name: Option<String>)
    requires
        call_ensures(foreground_process_name, (comm,), name),
        call_ensures(trim, (comm,), t),
    ensures
        t@.len() > 0 ==> name is Some && name->0@ == t@,
        t@.len() == 0 ==> name is None,
{
}

/// Shells on the search path come first, in one order: those that were found
/// before a shell give its place.
#[verifier::spinoff_prover]
#[verifier::rlimit(60)]
pub proof fn shells_are_offered_in_order(facts: &ShellFacts, shells: Vec<ShellProfile>)
    requires
        call_ensures(get_available_shells, (facts,), shells),
    ensures
        ({
            let p = if facts.pwsh { 1int } else { 0 };
            let c = p + (if facts.powershell { 1int } else { 0 });
            let w = c + 1 + (if facts.wsl { 1int } else { 0 });
            let n = w + (if facts.nu { 1int } else { 0 });
            let e = n + (if facts.elvish { 1int } else { 0 });
            let x = e + (if facts.xonsh { 1int } else { 0 });
            &&& facts.pwsh ==> shells@[0].path@ == "pwsh.exe"@
            &&& facts.powershell ==> shells@[p].path@ == "powershell.exe"@
            &&& shells@[c].path@ == "cmd.exe"@
            &&& facts.wsl ==> shells@[c + 1].path@ == "wsl.exe"@
            &&& facts.nu ==> shells@[w].path@ == "nu.exe"@
            &&& facts.elvish ==> shells@[n].path@ == "elvish.exe"@
            &&& facts.xonsh ==> shells@[e].path@ == "xonsh.exe"@
            &&& facts.sh ==> shells@[x].path@ == "sh.exe"@
        }),
{
    assert forall|i: int| 0 <= i < shells@.len() implies (#[trigger] shells@[i]).path@ == available(*facts)[i].1 by {
        assert(pairs(shells@)[i] == shells@[i].pair());
    }
    assert(pairs(shells@).len() == shells@.len());
}

proof fn plain_names_start_at_the_front(path: Seq<char>, windows: bool)
    requires
        forall|i: int| 0 <= i < path.len() ==> #[trigger] path[i] != '/' && path[i] != '\\' && path[i] != ':',
    ensures
        name_of(path, windows) == path,
        name_start(path, windows) == 0,
    decreases path.len(),
{
    if path.len() > 0 {
        let rest = path.drop_last();
        assert forall|i: int| 0 <= i < rest.len() implies #[trigger] rest[i] != '/' && rest[i] != '\\' && rest[i] != ':' by {
            assert(rest[i] == path[i]);
        }
        assert(path[path.len() - 1] == path.last());
        assert(!is_drive(path)) by {
            if path.len() == 2 {
                assert(path[1] != ':');
            }
        }
        plain_names_start_at_the_front(rest, windows);
    }
    assert(path.skip(0) =~= path);
}

proof fn dots_split_names(stem: Seq<char>, ext: Seq<char>)
    requires
        forall|i: int| 0 <= i < ext.len() ==> #[trigger] ext[i] != '.',
    ensures
        last_dot(stem.push('.') + ext) == stem.len(),
    decreases ext.len(),
{
    let name = stem.push('.') + ext;
    if ext.len() > 0 {
        let rest = ext.drop_last();
        assert forall|i: int| 0 <= i < rest.len() implies #[trigger] rest[i] != '.' by {
            assert(rest[i] == ext[i]);
        }
        dots_split_names(stem, rest);
        assert(name.drop_last() =~= stem.push('.') + rest);
        assert(name.last() == ext[ext.len() - 1]);
    } else {
        assert(name =~= stem.push('.'));
    }
}

/// Without a newer shell the configured interpreter is run, and goes by the
/// name of its file without the extension.
pub proof fn interpreters_go_by_their_file_name(comspec: Option<String>, s: ShellProfile, stem: Seq<char>, ext: Seq<char>)
    requires
        call_ensures(default_shell, (false, false, comspec), s),
        comspec is Some,
        comspec->0@ == stem.push('.') + ext,
        forall|i: int| 0 <= i < comspec->0@.len() ==> #[trigger] comspec->0@[i] != '/' && comspec->0@[i] != '\\' && comspec->0@[i] != ':',
        forall|i: int| 0 <= i < ext.len() ==> #[trigger] ext[i] != '.',
        stem.len() > 0,
        ext.len() > 0,
    ensures
        s.path@ == comspec->0@,
        s.name@ == stem,
{
    let path = comspec->0@;
    plain_names_start_at_the_front(path, true);
    plain_names_start_at_the_front(path, false);
    dots_split_names(stem, ext);
    assert(path.take(stem.len() as int) =~= stem);
    assert(path.len() >= 3);
}

/// A fresh frame has read nothing. Where a thread hands the output on, the end
/// is told in the frame after the last output; else right behind it.
pub proof fn ends_are_told_behind_the_output(channel: bool, fresh: Drain, first: &mut Drain, then: &mut Drain, n: usize, data: Option<Drained>, end: Option<Drained>, none: &mut Drain, at_once: Option<Drained>)
    requires
        call_ensures(Drain::new, (channel,), fresh),
        *old(first) == fresh,
        call_ensures(Drain::step, (first, ReadResult::Data(n)), data),
        *final(first) == *old(then),
        call_ensures(Drain::step, (then, ReadResult::Closed), end),
        *old(none) == fresh,
        call_ensures(Drain::step, (none, ReadResult::Closed), at_once),
        0 < n <= 0x1_0000,
    ensures
        data is None,
        channel ==> end == Some(Drained::Data),
        !channel ==> end == Some(Drained::Eof),
        at_once == Some(Drained::Eof),
{
}

/// A command runs the shell that was asked for, in the directory asked for,
/// with no scrubbed name and with the terminal's own; freshening one leaves
/// what it runs, and where.
pub proof fn commands_run_their_shell(shell: &str, opts: &Options, unix: bool, inherited: &Vec<String>, cmd: CommandBuilder, other: &mut CommandBuilder, i: int)
    requires
        call_ensures(command, (shell, opts, unix, inherited), cmd),
        call_ensures(freshen, (other, inherited), ()),
    ensures
        argv(cmd)[0] == shell@,
        argv(cmd).len() == (if opts.login && unix { 2int } else { 1 }),
        opts.login && unix ==> argv(cmd)[1] == "-l"@,
        dir(cmd) == Some(*opts.cwd),
        env(cmd)["TERM"@] == "xterm-256color"@ && env(cmd)["COLORTERM"@] == "truecolor"@,
        env(cmd).dom().contains("TERM"@) && env(cmd).dom().contains("COLORTERM"@),
        argv(*final(other)) == argv(*old(other)) && dir(*final(other)) == dir(*old(other)),
        env(*final(other))["TERM"@] == "xterm-256color"@ && env(*final(other))["COLORTERM"@] == "truecolor"@,
        env(*final(other)).dom().contains("TERM"@) && env(*final(other)).dom().contains("COLORTERM"@),
        0 <= i < inherited@.len() && (is_identity(inherited@[i]@) || is_shell_state(inherited@[i]@)) ==> !env(cmd).dom().contains(inherited@[i]@)
            && !env(*final(other)).dom().contains(inherited@[i]@),
{
    if 0 <= i < inherited@.len() && (is_identity(inherited@[i]@) || is_shell_state(inherited@[i]@)) {
        scrub_lists();
        let key = inherited@[i]@;
        if is_identity(key) {
            let n = choose|n: int| 0 <= n < 15 && #[trigger] covers(SCRUB_TERMINAL_IDENTITY[n]@, key);
            assert(SCRUB_TERMINAL_IDENTITY[n]@ == SCRUB_TERMINAL_IDENTITY[n]@);
        } else {
            let n = choose|n: int| 0 <= n < 6 && #[trigger] covers(SCRUB_DEV_SHELL_STATE[n]@, key);
            assert(SCRUB_DEV_SHELL_STATE[n]@ == SCRUB_DEV_SHELL_STATE[n]@);
        }
        assert(is_scrubbed(key));
        assert(env_scrubbed(cmd, inherited@));
        assert(env_scrubbed(*final(other), inherited@));
    }
}

/// Nothing waits at first, so that the first input is tried at once.
pub proof fn fresh_writers_try_at_once(w: &mut Writer, fresh: Writer, data: &Vec<u8>, try_now: bool)
    requires
        call_ensures(Writer::new, (), fresh),
        *old(w) == fresh,
        call_ensures(Writer::write, (w, data), try_now),
    ensures
        fresh.pending@.len() == 0,
        try_now <==> data@.len() > 0,
        final(w).pending@.len() == 0,
{
}

} // verus!
