use vstd::prelude::*;

use crate::modules::command::{Command, CommandView};
use crate::modules::init::Init;
use crate::modules::input::input_processor::{commands_views, processed};
use crate::modules::input::{InputProcessor, InputProcessorBuilder};
use crate::modules::pipeline::Pipeline;
use crate::modules::runner::Runner;
use crate::text::{
    chars_of,
    concat_str,
    str_equal,
    string_of,
    trim,
    trimmed,
    unicode_alphabetic,
    unicode_alphanumeric,
};

verus! {

broadcast use vstd::string::group_string_axioms;

/// The position of the first `=` in `s` at or after `i`.
pub open spec fn first_eq_from(s: Seq<char>, i: int) -> Option<int>
    decreases s.len() - i,
{
    if i < 0 || i >= s.len() {
        None
    } else if s[i] == '=' {
        Some(i)
    } else {
        first_eq_from(s, i + 1)
    }
}

/// A variable name of an assignment: not empty, made of alphanumeric
/// characters and `_`, starting with an alphabetic character or `_`.
pub open spec fn valid_var_name(n: Seq<char>) -> bool {
    &&& n.len() > 0
    &&& forall|i: int| 0 <= i < n.len() ==> unicode_alphanumeric(#[trigger] n[i]) || n[i] == '_'
    &&& unicode_alphabetic(n[0]) || n[0] == '_'
}

/// Whether the input is an assignment `NAME=VALUE`: the part before the first
/// `=` is a valid variable name.
pub open spec fn is_assignment(s: Seq<char>) -> bool {
    match first_eq_from(s, 0) {
        Some(k) => valid_var_name(s.take(k)),
        None => false,
    }
}

/// What the shell does with a line of input.
pub enum ReplAction {
    /// Nothing: the line is blank.
    Nothing,
    /// Say goodbye and stop.
    Exit,
    /// Show the help text.
    Help,
    /// A variable was set; print this message.
    Assigned(String),
    /// Run these commands as a pipeline.
    Run(Vec<Command>),
    /// The line could not be parsed; print this message on standard error.
    ParseError(String),
}

/// The view of an action.
pub enum ReplActionView {
    Nothing,
    Exit,
    Help,
    Assigned(Seq<char>),
    Run(Seq<CommandView>),
    ParseError(Seq<char>),
}

impl View for ReplAction {
    type V = ReplActionView;

    open spec fn view(&self) -> ReplActionView {
        match self {
            ReplAction::Nothing => ReplActionView::Nothing,
            ReplAction::Exit => ReplActionView::Exit,
            ReplAction::Help => ReplActionView::Help,
            ReplAction::Assigned(m) => ReplActionView::Assigned(m@),
            ReplAction::Run(cs) => ReplActionView::Run(commands_views(cs@)),
            ReplAction::ParseError(m) => ReplActionView::ParseError(m@),
        }
    }
}

/// What the shell does with the parsed commands `cs`: `exit` anywhere in the
/// pipeline ends the shell, a lone `help` without arguments shows the help,
/// anything else runs.
pub open spec fn commands_action(cs: Seq<CommandView>) -> ReplActionView {
    if exists|i: int| 0 <= i < cs.len() && #[trigger] cs[i].name == "exit"@ {
        ReplActionView::Exit
    } else if cs.len() == 1 && cs[0].name == "help"@ && cs[0].args.len() == 0 {
        ReplActionView::Help
    } else {
        ReplActionView::Run(cs)
    }
}

/// The lines of the help text.
pub open spec fn help_lines() -> Seq<Seq<char>> {
    seq![
        "Available commands:"@,
        "Built-in commands:"@,
        "  echo [args...]     - Print arguments to stdout"@,
        "  cat [files...]     - Display file contents or read from stdin"@,
        "  wc [files...]      - Count lines, words, and bytes in files or stdin"@,
        "  pwd               - Print current working directory"@,
        "  help              - Show this help message"@,
        "  exit              - Exit the shell"@,
        ""@,
        "Shell features:"@,
        "  NAME=VALUE         - Set environment variable"@,
        "  $VAR or ${VAR}     - Variable expansion"@,
        "  cmd < file         - Redirect stdin from file"@,
        "  cmd > file         - Redirect stdout to file (overwrite)"@,
        "  cmd >> file        - Redirect stdout to file (append)"@,
        "  cmd 2> file        - Redirect stderr to file (overwrite)"@,
        "  cmd 2>> file       - Redirect stderr to file (append)"@,
        "  [command]          - Execute any system command or fallback to built-in"@
    ]
}

/// The interactive shell: it parses each line and decides what to do with it.
pub struct Repl {
    bin_path: String,
    pipeline: Pipeline,
    input_processor: InputProcessor,
}

impl Repl {
    /// A shell for the configuration `init`.
    pub fn new(init: &Init) -> (r: Self)
        ensures
            r.bin_dir() == init.bin_path@,
            r.spec_pipeline().spec_runner().bin_dir() == init.bin_path@,
    {
        let bin_path = init.bin_path.clone();
        let runner = Runner::new(bin_path.clone());
        let pipeline = Pipeline::new(runner);
        let input_processor = InputProcessorBuilder::new().build();
        Repl { bin_path, pipeline, input_processor }
    }

    /// The directory of the shell's own command programs.
    pub closed spec fn bin_dir(&self) -> Seq<char> {
        self.bin_path@
    }

    /// The directory of the shell's own command programs.
    pub fn bin_path(&self) -> (p: &str)
        ensures
            p@ == self.bin_dir(),
    {
        self.bin_path.as_str()
    }

    /// The pipeline executor of this shell.
    pub closed spec fn spec_pipeline(&self) -> Pipeline {
        self.pipeline
    }

    /// The pipeline executor of this shell.
    pub fn pipeline(&self) -> (p: &Pipeline)
        ensures
            p == self.spec_pipeline(),
    {
        &self.pipeline
    }

    /// Whether `input` sets a variable: `NAME=VALUE` with a valid name before
    /// the first `=`.
    #[verifier::loop_isolation(false)]
    pub fn is_variable_assignment(&self, input: &str) -> (r: bool)
        ensures
            r == is_assignment(input@),
    {
        let s = chars_of(input);
        match first_eq(&s) {
            None => false,
            Some(k) => {
                if k == 0 {
                    return false;
                }
                let mut i: usize = 0;
                while i < k
                    invariant
                        0 < k < s@.len(),
                        i <= k,
                        forall|j: int| 0 <= j < i ==> unicode_alphanumeric(#[trigger] s@[j]) || s@[j] == '_',
                    decreases k - i,
                {
                    let c = s[i];
                    if !(c.is_alphanumeric() || c == '_') {
                        assert(s@.take(k as int)[i as int] == c);
                        return false;
                    }
                    i = i + 1;
                }
                assert(s@.take(k as int)[0] == s@[0]);
                assert forall|j: int| 0 <= j < k implies unicode_alphanumeric(#[trigger] s@.take(k as int)[j])
                    || s@.take(k as int)[j] == '_' by {
                    assert(s@.take(k as int)[j] == s@[j]);
                }
                s[0].is_alphabetic() || s[0] == '_'
            },
        }
    }

    /// Sets the variable of the assignment `input` (`NAME=VALUE`, split at the
    /// first `=`) and returns the message `Set NAME=VALUE`.
    pub fn handle_variable_assignment(&self, input: &str, init: &mut Init) -> (r: Option<String>)
        ensures
            match first_eq_from(input@, 0) {
                Some(k) => {
                    let name = input@.take(k);
                    let value = input@.skip(k + 1);
                    &&& final(init).env_vars@ == old(init).env_vars@.insert(name, value)
                    &&& final(init).bin_path == old(init).bin_path
                    &&& final(init).current_dir == old(init).current_dir
                    &&& r matches Some(m) && m@ == "Set "@ + name + "="@ + value
                },
                None => r is None && *final(init) == *old(init),
            },
    {
        let s = chars_of(input);
        match first_eq(&s) {
            None => None,
            Some(k) => {
                assert(k < s.len());
                let name = string_of(slice_range(&s, 0, k).as_slice());
                let value = string_of(slice_range(&s, k + 1, s.len()).as_slice());
                assert(s@.subrange(0, k as int) =~= s@.take(k as int));
                assert(s@.subrange(k + 1, s@.len() as int) =~= s@.skip(k + 1));
                let a = concat_str("Set ", name.as_str());
                let b = concat_str(a.as_str(), "=");
                let m = concat_str(b.as_str(), value.as_str());
                init.set_env(name, value);
                Some(m)
            },
        }
    }

    /// Decides what to do with a line of input: a blank line does nothing;
    /// `exit` and `help` (after trimming) end the shell and show the help; an
    /// assignment sets a variable; anything else is parsed as a pipeline.
    #[verifier::loop_isolation(false)]
    pub fn handle_line(&self, line: &str, init: &mut Init) -> (a: ReplAction)
        ensures
            ({
                let input = trimmed(line@);
                if input.len() == 0 {
                    a@ == ReplActionView::Nothing && *final(init) == *old(init)
                } else if input == "exit"@ {
                    a@ == ReplActionView::Exit && *final(init) == *old(init)
                } else if input == "help"@ {
                    a@ == ReplActionView::Help && *final(init) == *old(init)
                } else if is_assignment(input) {
                    let k = first_eq_from(input, 0)->0;
                    let name = input.take(k);
                    let value = input.skip(k + 1);
                    &&& final(init).env_vars@ == old(init).env_vars@.insert(name, value)
                    &&& final(init).bin_path == old(init).bin_path
                    &&& final(init).current_dir == old(init).current_dir
                    &&& a@ == ReplActionView::Assigned("Set "@ + name + "="@ + value)
                } else {
                    &&& *final(init) == *old(init)
                    &&& a@ == match processed(old(init).env_vars@, input) {
                        Ok(cs) => commands_action(cs),
                        Err(e) => ReplActionView::ParseError("parse error: "@ + e.spec_describe()),
                    }
                }
            }),
    {
        let input = trim(line);
        let v = chars_of(input);
        if v.len() == 0 {
            return ReplAction::Nothing;
        }
        if str_equal(input, "exit") {
            return ReplAction::Exit;
        }
        if str_equal(input, "help") {
            return ReplAction::Help;
        }
        if self.is_variable_assignment(input) {
            let m = self.handle_variable_assignment(input, init);
            return match m {
                Some(m) => ReplAction::Assigned(m),
                None => ReplAction::Nothing,
            };
        }
        match self.input_processor.process(input, init.env_vars()) {
            Err(e) => {
                let d = e.describe();
                ReplAction::ParseError(concat_str("parse error: ", d.as_str()))
            },
            Ok(cmds) => {
                let n = cmds.len();
                let mut i: usize = 0;
                while i < n
                    invariant
                        i <= n,
                        n == cmds@.len(),
                        forall|j: int| 0 <= j < i ==> #[trigger] cmds@[j].name@ != "exit"@,
                    decreases n - i,
                {
                    if str_equal(cmds[i].name.as_str(), "exit") {
                        assert(commands_views(cmds@)[i as int].name == "exit"@);
                        return ReplAction::Exit;
                    }
                    i = i + 1;
                }
                assert(!exists|j: int| 0 <= j < n && #[trigger] commands_views(cmds@)[j].name == "exit"@) by {
                    assert forall|j: int| 0 <= j < n implies #[trigger] commands_views(cmds@)[j].name != "exit"@ by {
                        assert(commands_views(cmds@)[j].name == cmds@[j].name@);
                    }
                }
                if n == 1 && str_equal(cmds[0].name.as_str(), "help") && cmds[0].args.len() == 0 {
                    return ReplAction::Help;
                }
                ReplAction::Run(cmds)
            },
        }
    }

    /// The help text, line by line.
    pub fn help_text() -> (r: Vec<&'static str>)
        ensures
            r@.map_values(|l: &str| l@) == help_lines(),
    {
        let r = vec![
            "Available commands:",
            "Built-in commands:",
            "  echo [args...]     - Print arguments to stdout",
            "  cat [files...]     - Display file contents or read from stdin",
            "  wc [files...]      - Count lines, words, and bytes in files or stdin",
            "  pwd               - Print current working directory",
            "  help              - Show this help message",
            "  exit              - Exit the shell",
            "",
            "Shell features:",
            "  NAME=VALUE         - Set environment variable",
            "  $VAR or ${VAR}     - Variable expansion",
            "  cmd < file         - Redirect stdin from file",
            "  cmd > file         - Redirect stdout to file (overwrite)",
            "  cmd >> file        - Redirect stdout to file (append)",
            "  cmd 2> file        - Redirect stderr to file (overwrite)",
            "  cmd 2>> file       - Redirect stderr to file (append)",
            "  [command]          - Execute any system command or fallback to built-in"
        ];
        assert(r@.map_values(|l: &str| l@) =~= help_lines());
        r
    }

    /// Whether the output of a pipeline is shown: only when it holds more than
    /// whitespace.
    pub fn shows_output(output: &str) -> (r: bool)
        ensures
            r == (trimmed(output@).len() > 0),
    {
        let t = trim(output);
        let v = chars_of(t);
        v.len() > 0
    }
}

/// The position of the first `=` in `s`.
fn first_eq(s: &Vec<char>) -> (r: Option<usize>)
    ensures
        match r {
            Some(k) => first_eq_from(s@, 0) == Some(k as int) && k < s@.len(),
            None => first_eq_from(s@, 0) is None,
        },
{
    let n = s.len();
    let mut i: usize = 0;
    while i < n
        invariant
            i <= n,
            n == s@.len(),
            first_eq_from(s@, 0) == first_eq_from(s@, i as int),
        decreases n - i,
    {
        if s[i] == '=' {
            return Some(i);
        }
        i = i + 1;
    }
    None
}

/// The characters of `v` from `from` up to `to`.
fn slice_range(v: &Vec<char>, from: usize, to: usize) -> (r: Vec<char>)
    requires
        from <= to <= v@.len(),
    ensures
        r@ == v@.subrange(from as int, to as int),
{
    let mut r: Vec<char> = Vec::new();
    let mut i = from;
    while i < to
        invariant
            from <= i <= to <= v@.len(),
            r@ == v@.subrange(from as int, i as int),
        decreases to - i,
    {
        r.push(v[i]);
        assert(v@.subrange(from as int, i + 1) =~= v@.subrange(from as int, i as int).push(v@[i as int]));
        i = i + 1;
    }
    r
}

} // verus!
