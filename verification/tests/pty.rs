use std::path::PathBuf;

use godotty::pty::{
    command, default_shell, freshen, interpreter, prepare, foreground_group, foreground_process_name, get_available_shells, scrubbed, size, unix_shell, windows_shell,
    Drain, Drained, Options, ProgramShells, ReadResult, ShellFacts, ShellProfile, WriteResult, Writer, DRAIN_BUDGET, PENDING_CAP,
    READ_CHUNK,
};
use portable_pty::CommandBuilder;

fn options(cwd: &PathBuf, login: bool) -> Options<'_> {
    Options { cols: 80, rows: 24, cell_w: 8, cell_h: 16, shell: None, cwd, login }
}

fn strings(list: &[&str]) -> Vec<String> {
    list.iter().map(|s| s.to_string()).collect()
}

#[test]
fn terminal_identity_is_scrubbed() {
    for key in [
        "TERM_PROGRAM", "TERM_PROGRAM_VERSION", "GHOSTTY_RESOURCES_DIR", "KITTY_", "WEZTERM_PANE", "ALACRITTY_LOG", "VTE_VERSION",
        "KONSOLE_VERSION", "ITERM_SESSION_ID", "WT_SESSION", "WT_PROFILE_ID", "WINDOWID", "TMUX", "TMUX_PANE", "STY", "DEVENV_ROOT",
        "DIRENV_DIR", "IN_NIX_SHELL", "VIRTUAL_ENV", "VIRTUAL_ENV_PROMPT", "CONDA_PREFIX",
    ] {
        assert!(scrubbed(key), "{key}");
    }
}

#[test]
fn other_variables_are_kept() {
    for key in [
        "", "TERM", "COLORTERM", "PATH", "HOME", "SHELL", "TERM_PROGRAM_", "STYLE", "TMUXX", "GHOSTTY", "tmux", "VIRTUAL_ENVS", "WT_SESSIONS",
    ] {
        assert!(!scrubbed(key), "{key}");
    }
}

#[test]
fn command_runs_a_login_shell() {
    let cwd = PathBuf::from("/tmp/project");
    let cmd = command("/bin/zsh", &options(&cwd, true), true, &vec![]);
    assert_eq!(cmd.get_argv().iter().map(|a| a.to_str().unwrap()).collect::<Vec<_>>(), vec!["/bin/zsh", "-l"]);
    assert_eq!(cmd.get_cwd().unwrap().to_str(), Some("/tmp/project"));
    let plain = command("/bin/zsh", &options(&cwd, false), true, &vec![]);
    assert_eq!(plain.get_argv().len(), 1);
    let windows = command("pwsh.exe", &options(&cwd, true), false, &vec![]);
    assert_eq!(windows.get_argv().len(), 1);
}

#[test]
fn command_sets_the_terminal_type() {
    let inherited = strings(&["PATH", "TERM", "TMUX", "KITTY_PID", "CONDA_EXE"]);
    let cmd = command("sh", &options(&PathBuf::from("/"), true), true, &inherited);
    assert_eq!(cmd.get_env("TERM").unwrap().to_str(), Some("xterm-256color"));
    assert_eq!(cmd.get_env("COLORTERM").unwrap().to_str(), Some("truecolor"));
    for key in ["TMUX", "KITTY_PID", "CONDA_EXE"] {
        assert!(cmd.get_env(key).is_none());
    }
}

#[test]
fn command_starts_in_any_directory() {
    let cwd = PathBuf::from("/tmp").join("pr\u{f6}ject dir");
    let cmd = command("sh", &options(&cwd, false), true, &vec![]);
    assert_eq!(cmd.get_cwd().map(PathBuf::from), Some(cwd));
}

#[test]
fn other_variables_stay_as_they_were() {
    let mut cmd = CommandBuilder::new("sh");
    cmd.env_clear();
    for (key, value) in
        [("PATH", "/bin"), ("HOME", "/root"), ("TERM", "dumb"), ("TERMINFO", "/ti"), ("TMUX", "1"), ("GHOSTTY_\u{e9}", "2"), ("\u{e9}", "3")]
    {
        cmd.env(key, value);
    }
    cmd.cwd("/srv");
    let inherited = strings(&["PATH", "HOME", "TERM", "TERMINFO", "TMUX", "GHOSTTY_\u{e9}", "\u{e9}"]);
    freshen(&mut cmd, &inherited);
    let value = |key: &str| cmd.get_env(key).map(|v| v.to_str().unwrap().to_string());
    assert_eq!(value("PATH").as_deref(), Some("/bin"));
    assert_eq!(value("HOME").as_deref(), Some("/root"));
    assert_eq!(value("TERMINFO").as_deref(), Some("/ti"));
    assert_eq!(value("\u{e9}").as_deref(), Some("3"));
    assert_eq!(value("TERM").as_deref(), Some("xterm-256color"));
    assert_eq!(value("COLORTERM").as_deref(), Some("truecolor"));
    assert_eq!(value("TMUX"), None);
    assert_eq!(value("GHOSTTY_\u{e9}"), None);
    assert_eq!(cmd.get_argv().len(), 1);
    assert_eq!(cmd.get_cwd().unwrap().to_str(), Some("/srv"));
}

#[test]
fn preparing_a_command_keeps_the_other_variables() {
    let cwd = PathBuf::from("/srv/game");
    for (login, unix, args) in [(true, true, 2), (true, false, 1), (false, true, 1), (false, false, 1)] {
        let mut cmd = CommandBuilder::new("zsh");
        cmd.env_clear();
        cmd.env("PATH", "/bin");
        cmd.env("TERM_PROGRAM", "kitty");
        prepare(&mut cmd, &options(&cwd, login), unix, &strings(&["PATH", "TERM_PROGRAM"]));
        assert_eq!(cmd.get_env("PATH").unwrap().to_str(), Some("/bin"));
        assert_eq!(cmd.get_env("TERM").unwrap().to_str(), Some("xterm-256color"));
        assert_eq!(cmd.get_env("COLORTERM").unwrap().to_str(), Some("truecolor"));
        assert!(cmd.get_env("TERM_PROGRAM").is_none());
        assert_eq!(cmd.get_argv().len(), args);
        assert_eq!(cmd.get_cwd().map(PathBuf::from), Some(cwd.clone()));
    }
}

#[test]
fn pixel_sizes_saturate() {
    let s = size(80, 24, 8, 16);
    assert_eq!((s.rows, s.cols, s.pixel_width, s.pixel_height), (24, 80, 640, 384));
    let s = size(60000, 2, 9, 65535);
    assert_eq!((s.pixel_width, s.pixel_height), (65535, 65535));
}

#[test]
fn unix_shells() {
    assert_eq!(unix_shell(Some("fish"), Some("/bin/zsh".to_string())), "fish");
    assert_eq!(unix_shell(None, Some("/bin/zsh".to_string())), "/bin/zsh");
    assert_eq!(unix_shell(None, None), "/bin/sh");
    assert_eq!(unix_shell(None, Some(String::new())), "/bin/sh");
    // An empty configured shell does not fall back to the user's.
    assert_eq!(unix_shell(Some(""), Some("/bin/zsh".to_string())), "/bin/sh");
}

#[test]
fn windows_shells() {
    let default = default_shell(false, true, None);
    assert_eq!(windows_shell(Some("nu.exe"), &default), "nu.exe");
    assert_eq!(windows_shell(Some(""), &default), "powershell.exe");
    assert_eq!(windows_shell(None, &default), "powershell.exe");
}

#[test]
fn default_shell_order() {
    let pair = |s: ShellProfile| (s.name, s.path);
    let own = |a: &str, b: &str| (a.to_string(), b.to_string());
    assert_eq!(pair(default_shell(true, true, None)), own("pwsh", "pwsh.exe"));
    assert_eq!(pair(default_shell(false, true, None)), own("powershell", "powershell.exe"));
    assert_eq!(pair(default_shell(true, true, Some("C:/sys/tcc.exe".to_string()))), own("pwsh", "pwsh.exe"));
    assert_eq!(pair(default_shell(false, false, None)), own("cmd", "cmd.exe"));
}

#[test]
fn interpreters_are_named_by_their_stem() {
    let named = |path: &str| {
        let shell = default_shell(false, false, Some(path.to_string()));
        assert_eq!(shell.path, path);
        shell.name
    };
    assert_eq!(named("C:/sys/tcc.exe"), "tcc");
    assert_eq!(named("C:/sys.d/4nt.old.exe"), "4nt.old");
    assert_eq!(named("C:/sys.d/tcc"), "tcc");
    assert_eq!(named("/sys/.tcc"), ".tcc");
    assert_eq!(named("tcc."), "tcc");
    // No file name.
    assert_eq!(named("C:/sys/.."), "cmd");
    assert_eq!(named(""), "cmd");
    // Parted at backslashes or not.
    let name = named("C:\\sys\\tcc.exe");
    assert!(name == "tcc" || name == "C:\\sys\\tcc");
}

#[test]
fn interpreters_without_a_name_are_called_cmd() {
    let path = || "C:\\sys\\tcc.exe".to_string();
    let shell = interpreter(path(), Some("tcc".to_string()));
    assert_eq!((shell.name, shell.path), ("tcc".to_string(), path()));
    let shell = interpreter(path(), None);
    assert_eq!((shell.name, shell.path), ("cmd".to_string(), path()));
}

fn facts() -> ShellFacts {
    ShellFacts {
        pwsh: false,
        powershell: false,
        wsl: false,
        nu: false,
        elvish: false,
        xonsh: false,
        sh: false,
        programs: None,
        git_bash_x86: None,
    }
}

fn listed(f: &ShellFacts) -> Vec<(String, String)> {
    get_available_shells(f).into_iter().map(|s| (s.name, s.path)).collect()
}

#[test]
fn command_interpreter_is_always_offered() {
    assert_eq!(listed(&facts()), vec![("cmd".to_string(), "cmd.exe".to_string())]);
}

#[test]
fn all_shells_are_offered_in_order() {
    let text = |s: &str| Some(s.to_string());
    let all = ShellFacts {
        pwsh: true,
        powershell: true,
        wsl: true,
        nu: true,
        elvish: true,
        xonsh: true,
        sh: true,
        programs: Some(ProgramShells {
            git_bash: text("P\\bash.exe"),
            scoop: true,
            scoop_nu: text("S\\nu.exe"),
            scoop_elvish: text("S\\elvish.exe"),
            scoop_xonsh: text("S\\xonsh.exe"),
        }),
        git_bash_x86: text("X\\bash.exe"),
    };
    let names: Vec<String> = listed(&all).into_iter().map(|(name, path)| format!("{name}={path}")).collect();
    assert_eq!(
        names,
        vec![
            "pwsh=pwsh.exe",
            "powershell=powershell.exe",
            "cmd=cmd.exe",
            "wsl=wsl.exe",
            "nushell=nu.exe",
            "elvish=elvish.exe",
            "xonsh=xonsh.exe",
            "busybox sh=sh.exe",
            "git bash=P\\bash.exe",
            "nushell (scoop)=S\\nu.exe",
            "elvish (scoop)=S\\elvish.exe",
            "xonsh (scoop)=S\\xonsh.exe",
            "git bash (x86)=X\\bash.exe",
        ]
    );
}

#[test]
fn scoop_shells_need_the_shims() {
    let mut f = facts();
    f.programs = Some(ProgramShells {
        git_bash: None,
        scoop: false,
        scoop_nu: Some("S\\nu.exe".to_string()),
        scoop_elvish: None,
        scoop_xonsh: None,
    });
    assert_eq!(listed(&f).len(), 1);
}

#[test]
fn default_powershell_is_the_first_offer() {
    for (pwsh, powershell) in [(true, true), (true, false), (false, true)] {
        let f = ShellFacts { pwsh, powershell, ..facts() };
        let default = default_shell(pwsh, powershell, None);
        assert_eq!(listed(&f)[0], (default.name, default.path));
    }
}

#[test]
fn draining_a_descriptor() {
    let mut d = Drain::new(false);
    assert_eq!(d.step(ReadResult::Empty), Some(Drained::Empty));
    let mut d = Drain::new(false);
    assert_eq!(d.step(ReadResult::Data(10)), None);
    assert_eq!(d.step(ReadResult::Interrupted), None);
    assert_eq!(d.step(ReadResult::Empty), Some(Drained::Data));
    let mut d = Drain::new(false);
    assert_eq!(d.step(ReadResult::Data(10)), None);
    assert_eq!(d.step(ReadResult::Closed), Some(Drained::Eof));
}

#[test]
fn draining_a_channel_shows_the_data_first() {
    let mut d = Drain::new(true);
    assert_eq!(d.step(ReadResult::Data(10)), None);
    assert_eq!(d.step(ReadResult::Closed), Some(Drained::Data));
    let mut d = Drain::new(true);
    assert_eq!(d.step(ReadResult::Closed), Some(Drained::Eof));
}

#[test]
fn floods_stop_at_the_budget() {
    let mut d = Drain::new(false);
    let mut reads = 0;
    loop {
        reads += 1;
        if let Some(done) = d.step(ReadResult::Data(READ_CHUNK)) {
            assert_eq!(done, Drained::Data);
            break;
        }
    }
    assert_eq!(reads * READ_CHUNK, DRAIN_BUDGET);
}

#[test]
fn refused_bytes_wait_in_order() {
    let mut w = Writer::new();
    let data = b"hello world".to_vec();
    assert!(w.write(&data));
    assert_eq!(w.wrote(&data, 0, WriteResult::Wrote(4)), Some(4));
    assert_eq!(w.wrote(&data, 4, WriteResult::Interrupted), Some(4));
    assert_eq!(w.wrote(&data, 4, WriteResult::WouldBlock), None);
    assert_eq!(w.pending, b"o world".to_vec());
    // Later input queues behind.
    assert!(!w.write(&b"!".to_vec()));
    assert_eq!(w.pending, b"o world!".to_vec());
    assert!(w.flush(WriteResult::Wrote(2)));
    assert!(w.flush(WriteResult::Interrupted));
    assert!(!w.flush(WriteResult::WouldBlock));
    assert_eq!(w.pending, b"world!".to_vec());
    assert!(!w.flush(WriteResult::Wrote(6)));
    assert!(w.pending.is_empty());
}

#[test]
fn whole_writes_leave_nothing() {
    let mut w = Writer::new();
    assert!(!w.write(&vec![]));
    let data = b"abc".to_vec();
    assert!(w.write(&data));
    assert_eq!(w.wrote(&data, 0, WriteResult::Wrote(3)), None);
    assert!(w.pending.is_empty());
}

#[test]
fn errors_give_input_up() {
    let mut w = Writer::new();
    let data = b"abc".to_vec();
    assert_eq!(w.wrote(&data, 0, WriteResult::Failed), None);
    assert!(w.pending.is_empty());
    assert_eq!(w.wrote(&data, 0, WriteResult::WouldBlock), None);
    assert!(!w.flush(WriteResult::Failed));
    assert!(w.pending.is_empty());
}

#[test]
fn pending_input_is_capped() {
    let mut w = Writer::new();
    let flood = vec![7u8; PENDING_CAP - 2];
    assert_eq!(w.wrote(&flood, 0, WriteResult::WouldBlock), None);
    assert!(!w.write(&vec![1, 2, 3, 4]));
    assert_eq!(w.pending.len(), PENDING_CAP);
    assert_eq!(&w.pending[PENDING_CAP - 2..], &[1, 2]);
    assert!(!w.write(&vec![5]));
    assert_eq!(w.pending.len(), PENDING_CAP);
}

#[test]
fn foreground_group_is_the_sixth_field_after_the_name() {
    assert_eq!(foreground_group("4242 (zsh) S 4000 4242 4242 34816 5151 4194304 1 2"), Some(5151));
    assert_eq!(foreground_group("4242 (a) b (c) S 4000 4242 4242 34816 7 4194304"), Some(7));
    assert_eq!(foreground_group("4242 (zsh) S 4000 4242 4242 34816 -1 4194304"), None);
    assert_eq!(foreground_group("4242 (zsh) S 4000 4242 4242 34816 0 4194304"), None);
    assert_eq!(foreground_group("4242 (zsh) S 4000"), None);
    assert_eq!(foreground_group("4242 zsh S 4000 4242 4242 34816 5151"), None);
    assert_eq!(foreground_group("4242 (zsh) S 4000 4242 4242 34816 x 4194304"), None);
}

#[test]
fn process_names_are_trimmed() {
    assert_eq!(foreground_process_name("nvim\n").as_deref(), Some("nvim"));
    assert_eq!(foreground_process_name(" my prog \n").as_deref(), Some("my prog"));
    assert_eq!(foreground_process_name("\n"), None);
}
