use vstd::prelude::*;

verus! {

/// The size of a pseudo-terminal, in character cells.
pub struct PtyGeometry {
    pub rows: u16,
    pub cols: u16,
}

/// The size a new session's pseudo-terminal opens with.
pub fn initial_geometry() -> (r: PtyGeometry)
    ensures
        r.rows == 24,
        r.cols == 80,
{
    PtyGeometry { rows: 24, cols: 80 }
}

/// The user's home directory: the first of the two environment values that
/// is set, else the current directory.
pub fn resolve_home_dir(userprofile: Option<String>, home: Option<String>) -> (r: String)
    ensures
        r@ == (match userprofile {
            Some(u) => u@,
            None => match home {
                Some(h) => h@,
                None => "."@,
            },
        }),
{
    match userprofile {
        Some(u) => u,
        None => match home {
            Some(h) => h,
            None => ".".to_owned(),
        },
    }
}

/// The shell to start in a new session: its program, arguments, working
/// directory and environment additions.
pub struct ShellCommand {
    pub program: String,
    pub args: Vec<String>,
    pub cwd: Option<String>,
    pub env: Vec<(String, String)>,
}

/// The shell for the platform, `cmd.exe` on Windows and a login `zsh`
/// elsewhere, started in the home directory; the terminal type advertises
/// colour.
pub fn shell_command(windows: bool, home_dir: String) -> (r: ShellCommand)
    ensures
        windows ==> r.program@ == "cmd.exe"@ && r.args@.len() == 0,
        !windows ==> r.program@ == "zsh"@ && r.args@.len() == 1 && r.args@[0]@ == "-l"@,
        r.cwd matches Some(d) && d@ == home_dir@,
        r.env@.len() == 1,
        r.env@[0].0@ == "TERM"@,
        r.env@[0].1@ == "xterm-256color"@,
{
    let mut env: Vec<(String, String)> = Vec::new();
    env.push(("TERM".to_owned(), "xterm-256color".to_owned()));
    if windows {
        ShellCommand { program: "cmd.exe".to_owned(), args: Vec::new(), cwd: Some(home_dir), env }
    } else {
        let mut args: Vec<String> = Vec::new();
        args.push("-l".to_owned());
        ShellCommand { program: "zsh".to_owned(), args, cwd: Some(home_dir), env }
    }
}

} // verus!
