//! The command model: what one configured process is, and the parsed
//! configuration that holds them in order.
use vstd::prelude::*;
use crate::text::same_text;

verus! {

/// Disposition of one standard stream of a child process.
#[derive(Debug, Clone, PartialEq, Eq)]
pub enum RmanStdio {
    /// Share the supervisor's own stream.
    Inherit,
    /// An anonymous pipe the supervisor can read or write.
    Pipe,
    /// Discard output, or provide no input.
    Null,
    /// Redirect to or from the named file.
    File(String),
}

/// Mathematical model of a stream disposition.
pub enum StdioView {
    Inherit,
    Pipe,
    Null,
    File(Seq<char>),
}

impl View for RmanStdio {
    type V = StdioView;

    open spec fn view(&self) -> StdioView {
        match self {
            RmanStdio::Inherit => StdioView::Inherit,
            RmanStdio::Pipe => StdioView::Pipe,
            RmanStdio::Null => StdioView::Null,
            RmanStdio::File(p) => StdioView::File(p@),
        }
    }
}

impl Default for RmanStdio {
    fn default() -> (r: Self)
        ensures
            r == RmanStdio::Inherit,
    {
        RmanStdio::Inherit
    }
}

/// One configured process.
#[derive(Debug, Clone, PartialEq, Eq)]
pub struct Cmd {
    pub name: String,
    /// The executable token.
    pub cmd: String,
    pub args: Vec<String>,
    pub stdin: RmanStdio,
    pub stdout: RmanStdio,
}

/// Mathematical model of a configured process.
pub struct CmdView {
    pub name: Seq<char>,
    pub program: Seq<char>,
    pub args: Seq<Seq<char>>,
    pub stdin: StdioView,
    pub stdout: StdioView,
}

/// The character sequences held by a list of strings.
pub open spec fn string_views(v: Seq<String>) -> Seq<Seq<char>> {
    v.map_values(|s: String| s@)
}

/// The models of a list of commands.
pub open spec fn cmd_views(v: Seq<Cmd>) -> Seq<CmdView> {
    v.map_values(|c: Cmd| c@)
}

impl View for Cmd {
    type V = CmdView;

    open spec fn view(&self) -> CmdView {
        CmdView {
            name: self.name@,
            program: self.cmd@,
            args: string_views(self.args@),
            stdin: self.stdin@,
            stdout: self.stdout@,
        }
    }
}

/// A parsed configuration: the commands in source order, and the path they
/// were read from (kept for diagnostics).
#[derive(Debug, PartialEq, Eq)]
pub struct Config {
    pub cmds: Vec<Cmd>,
    pub path: String,
}

/// Why a configuration could not be loaded.
#[derive(Debug, Clone, PartialEq, Eq)]
pub enum ConfigError {
    /// The configuration file could not be read.
    Read(String),
    /// A structured (YAML or JSON) document did not describe a command list.
    Format(String),
}

impl Config {
    /// An empty configuration for the file at `path`.
    pub fn new(path: &str) -> (r: Self)
        ensures
            r.cmds@.len() == 0,
            r.path@ == path@,
    {
        Config { cmds: Vec::new(), path: String::from_str(path) }
    }

    /// Appends `cmd` after the commands already held.
    pub fn push_cmd(&mut self, cmd: Cmd) -> (r: &mut Self)
        ensures
            r.cmds@ == old(self).cmds@.push(cmd),
            r.path == old(self).path,
            *final(self) == *final(r),
    {
        self.cmds.push(cmd);
        self
    }
}

/// How a configuration file is written, as told by its extension.
#[derive(Debug, Clone, Copy, PartialEq, Eq, Structural)]
pub enum ConfigFormat {
    /// `.yml` or `.yaml`.
    Yaml,
    /// `.json`.
    Json,
    /// No extension: the native line-oriented grammar.
    Procfile,
    /// Any other extension; such a file yields no commands.
    Unsupported,
}

/// The index of the last `c` in `s`, or -1 when there is none.
pub open spec fn last_index(s: Seq<char>, c: char) -> int
    decreases s.len(),
{
    if s.len() == 0 {
        -1
    } else if s.last() == c {
        s.len() - 1
    } else {
        last_index(s.drop_last(), c)
    }
}

/// The last component of `path`: what follows its last `/`.
pub open spec fn file_name(path: Seq<char>) -> Seq<char> {
    path.skip(last_index(path, '/') + 1)
}

/// The extension of `path`: what follows the last `.` of its file name, when
/// that `.` is not the name's first character.
pub open spec fn extension(path: Seq<char>) -> Option<Seq<char>> {
    let f = file_name(path);
    let d = last_index(f, '.');
    if d <= 0 {
        None
    } else {
        Some(f.skip(d + 1))
    }
}

/// The format a file at `path` is read in.
pub open spec fn format_of(path: Seq<char>) -> ConfigFormat {
    match extension(path) {
        None => ConfigFormat::Procfile,
        Some(e) => if e == seq!['y', 'm', 'l'] || e == seq!['y', 'a', 'm', 'l'] {
            ConfigFormat::Yaml
        } else if e == seq!['j', 's', 'o', 'n'] {
            ConfigFormat::Json
        } else {
            ConfigFormat::Unsupported
        },
    }
}

fn find_last(s: &str, c: char) -> (r: Option<usize>)
    ensures
        match r {
            Some(i) => last_index(s@, c) == i && i < s@.len(),
            None => last_index(s@, c) == -1,
        },
{
    let mut i = s.unicode_len();
    assert(s@.take(i as int) =~= s@);
    while i > 0
        invariant
            i <= s@.len(),
            last_index(s@, c) == last_index(s@.take(i as int), c),
        decreases i,
    {
        assert(s@.take(i as int).drop_last() =~= s@.take(i - 1));
        if s.get_char(i - 1) == c {
            return Some(i - 1);
        }
        i = i - 1;
    }
    None
}

impl ConfigFormat {
    /// The format of the configuration file at `path`.
    pub fn of_path(path: &str) -> (r: ConfigFormat)
        ensures
            r == format_of(path@),
    {
        proof {
            reveal_strlit("yml");
            reveal_strlit("yaml");
            reveal_strlit("json");
            assert("yml"@ =~= seq!['y', 'm', 'l']);
            assert("yaml"@ =~= seq!['y', 'a', 'm', 'l']);
            assert("json"@ =~= seq!['j', 's', 'o', 'n']);
        }
        let n = path.unicode_len();
        let start = match find_last(path, '/') {
            Some(i) => i + 1,
            None => 0,
        };
        let name = path.substring_char(start, n);
        assert(name@ =~= file_name(path@));
        let d = match find_last(name, '.') {
            Some(d) => d,
            None => { return ConfigFormat::Procfile; },
        };
        if d == 0 {
            return ConfigFormat::Procfile;
        }
        let ext = name.substring_char(d + 1, name.unicode_len());
        assert(ext@ =~= name@.skip(d + 1));
        if same_text(ext, "yml") || same_text(ext, "yaml") {
            ConfigFormat::Yaml
        } else if same_text(ext, "json") {
            ConfigFormat::Json
        } else {
            ConfigFormat::Unsupported
        }
    }
}

} // verus!
