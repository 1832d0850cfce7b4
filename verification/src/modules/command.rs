use vstd::prelude::*;

verus! {

/// The views of a list of strings.
pub open spec fn string_views(v: Seq<String>) -> Seq<Seq<char>> {
    v.map_values(|s: String| s@)
}

/// The view of an optional string.
pub open spec fn opt_view(o: Option<String>) -> Option<Seq<char>> {
    match o {
        Some(s) => Some(s@),
        None => None,
    }
}

/// What a command is: its name, its arguments and where its three standard
/// streams come from or go to.
pub struct CommandView {
    pub name: Seq<char>,
    pub args: Seq<Seq<char>>,
    pub stdin: Option<Seq<char>>,
    pub stdout: Option<Seq<char>>,
    pub append_stdout: bool,
    pub stderr: Option<Seq<char>>,
    pub append_stderr: bool,
}

/// A command line of one program: name, arguments and redirections.
///
/// In a parsed command `stdin` names the file that standard input comes from;
/// in a command handed to the runner it holds the input text itself.
#[derive(Debug)]
pub struct Command {
    pub name: String,
    pub args: Vec<String>,
    pub stdin: Option<String>,
    pub stdout: Option<String>,
    pub append_stdout: bool,
    pub stderr: Option<String>,
    pub append_stderr: bool,
}

impl View for Command {
    type V = CommandView;

    open spec fn view(&self) -> CommandView {
        CommandView {
            name: self.name@,
            args: string_views(self.args@),
            stdin: opt_view(self.stdin),
            stdout: opt_view(self.stdout),
            append_stdout: self.append_stdout,
            stderr: opt_view(self.stderr),
            append_stderr: self.append_stderr,
        }
    }
}

/// The command `name` with arguments `args` and no redirection.
pub open spec fn plain_command(name: Seq<char>, args: Seq<Seq<char>>) -> CommandView {
    CommandView {
        name,
        args,
        stdin: None,
        stdout: None,
        append_stdout: false,
        stderr: None,
        append_stderr: false,
    }
}

/// Copies an optional string.
pub fn copy_opt(o: &Option<String>) -> (r: Option<String>)
    ensures
        opt_view(r) == opt_view(*o),
{
    match o {
        Some(s) => Some(s.clone()),
        None => None,
    }
}

/// Copies a list of strings.
pub fn copy_strings(v: &Vec<String>) -> (r: Vec<String>)
    ensures
        string_views(r@) == string_views(v@),
{
    let mut r: Vec<String> = Vec::new();
    let n = v.len();
    let mut i: usize = 0;
    while i < n
        invariant
            n == v@.len(),
            i <= n,
            r@.len() == i,
            forall|j: int| 0 <= j < i ==> #[trigger] r@[j]@ == v@[j]@,
        decreases n - i,
    {
        r.push(v[i].clone());
        i = i + 1;
    }
    assert(string_views(r@) =~= string_views(v@));
    r
}

impl Command {
    /// A command without redirections.
    pub fn new(name: String, args: Vec<String>) -> (c: Command)
        ensures
            c@ == plain_command(name@, string_views(args@)),
    {
        Command {
            name,
            args,
            stdin: None,
            stdout: None,
            append_stdout: false,
            stderr: None,
            append_stderr: false,
        }
    }

    /// A field-by-field copy.
    pub fn copy(&self) -> (c: Command)
        ensures
            c@ == self@,
    {
        Command {
            name: self.name.clone(),
            args: copy_strings(&self.args),
            stdin: copy_opt(&self.stdin),
            stdout: copy_opt(&self.stdout),
            append_stdout: self.append_stdout,
            stderr: copy_opt(&self.stderr),
            append_stderr: self.append_stderr,
        }
    }

    /// The same command with `input` as its standard input.
    pub fn with_stdin(self, input: String) -> (c: Command)
        ensures
            c@ == (CommandView { stdin: Some(input@), ..self@ }),
    {
        Command { stdin: Some(input), ..self }
    }

    /// The same command with standard output sent to the file `file`.
    pub fn with_stdout(self, file: String) -> (c: Command)
        ensures
            c@ == (CommandView { stdout: Some(file@), ..self@ }),
    {
        Command { stdout: Some(file), ..self }
    }

    /// The same command, appending to its output file when `append` holds.
    pub fn with_append_stdout(self, append: bool) -> (c: Command)
        ensures
            c@ == (CommandView { append_stdout: append, ..self@ }),
    {
        Command { append_stdout: append, ..self }
    }

    /// The same command with standard error sent to the file `file`.
    pub fn with_stderr(self, file: String) -> (c: Command)
        ensures
            c@ == (CommandView { stderr: Some(file@), ..self@ }),
    {
        Command { stderr: Some(file), ..self }
    }

    /// The same command, appending to its error file when `append` holds.
    pub fn with_append_stderr(self, append: bool) -> (c: Command)
        ensures
            c@ == (CommandView { append_stderr: append, ..self@ }),
    {
        Command { append_stderr: append, ..self }
    }
}

} // verus!
