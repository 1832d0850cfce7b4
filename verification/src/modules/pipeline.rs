use vstd::prelude::*;

use crate::modules::command::{copy_strings, opt_view, plain_command, Command, CommandView};
use crate::modules::runner::Runner;
use crate::text::concat_str;

verus! {

broadcast use vstd::string::group_string_axioms;

/// The command that stage `i` of an `n`-command pipeline runs for the parsed
/// command `pc`: its name and arguments, `input` (the file content for the
/// first stage, the output of the previous stage for the others) as standard
/// input, its own standard error redirection, and its standard output
/// redirection only when it is the last stage.
pub open spec fn stage_command(pc: CommandView, i: int, n: int, input: Option<Seq<char>>) -> CommandView {
    let base = plain_command(pc.name, pc.args);
    let with_in = match input {
        Some(t) => CommandView { stdin: Some(t), ..base },
        None => base,
    };
    let with_err = match pc.stderr {
        Some(f) => CommandView { stderr: Some(f), append_stderr: pc.append_stderr, ..with_in },
        None => with_in,
    };
    if i == n - 1 {
        match pc.stdout {
            Some(f) => CommandView { stdout: Some(f), append_stdout: pc.append_stdout, ..with_err },
            None => with_err,
        }
    } else {
        with_err
    }
}

/// The error of a pipeline whose input file cannot be read.
pub open spec fn read_failure(file: Seq<char>, e: Seq<char>) -> Seq<char> {
    "Error reading stdin file '"@ + file + "': "@ + e
}

/// The report of a lone command that fails.
pub open spec fn run_failure(e: Seq<char>) -> Seq<char> {
    "Error executing command: "@ + e
}

/// The report of a stage of a longer pipeline that fails.
pub open spec fn stage_warning(name: Seq<char>, e: Seq<char>) -> Seq<char> {
    "Error executing '"@ + name + "': "@ + e
}

/// The output of a stage, empty when it failed.
pub open spec fn output_or_empty(r: Result<Seq<char>, Seq<char>>) -> Seq<char> {
    match r {
        Ok(o) => o,
        Err(_) => Seq::empty(),
    }
}

/// Standard error is never piped: every stage keeps its own command's
/// standard error redirection; only the last stage writes standard output to
/// a file, and every stage reads the input it is given.
pub proof fn law_stage_streams(pc: CommandView, i: int, n: int, input: Option<Seq<char>>)
    ensures
        stage_command(pc, i, n, input).name == pc.name,
        stage_command(pc, i, n, input).args == pc.args,
        stage_command(pc, i, n, input).stdin == input,
        stage_command(pc, i, n, input).stderr == pc.stderr,
        pc.stderr is Some ==> stage_command(pc, i, n, input).append_stderr == pc.append_stderr,
        i != n - 1 ==> stage_command(pc, i, n, input).stdout is None,
        i == n - 1 ==> stage_command(pc, i, n, input).stdout == pc.stdout,
{
}

/// The standard output of each command becomes the standard input of the
/// next; a stage that fails is reported and the next gets empty input, so
/// the pipeline goes on.
pub proof fn law_output_feeds_next_stage(s: RunView, r: Result<Seq<char>, Seq<char>>)
    requires
        s.phase == PipelinePhase::Running,
        s.cmds.len() >= 2,
        0 <= s.stage < s.cmds.len() - 1,
    ensures
        ({
            let (next, (warning, action)) = resume_spec(s, EventView::Ran(r));
            &&& next.stage == s.stage + 1
            &&& next.phase == PipelinePhase::Running
            &&& action == ActionView::Run(
                stage_command(
                    s.cmds[s.stage + 1],
                    s.stage + 1,
                    s.cmds.len() as int,
                    Some(
                        match r {
                            Ok(o) => o,
                            Err(_) => Seq::empty(),
                        },
                    ),
                ),
            )
            &&& (r is Ok ==> warning is None)
            &&& (r matches Err(e) ==> warning == Some(stage_warning(s.cmds[s.stage].name, e)))
        }),
{
}

/// The pipeline's result is the output of its last command, empty when that
/// command fails; a failing command is only reported, never the pipeline's
/// error.
pub proof fn law_last_stage_result(s: RunView, r: Result<Seq<char>, Seq<char>>)
    requires
        s.phase == PipelinePhase::Running,
        s.cmds.len() >= 1,
        s.stage == s.cmds.len() - 1,
    ensures
        ({
            let (next, (warning, action)) = resume_spec(s, EventView::Ran(r));
            &&& next.phase == PipelinePhase::Finished
            &&& action == ActionView::Finish(Ok(output_or_empty(r)))
            &&& (r is Ok ==> warning is None)
            &&& (r matches Err(e) ==> warning is Some)
        }),
{
}

/// When the first command reads its standard input from a file `f`, however
/// many commands the pipeline has, the pipeline first asks for `f`; once its
/// content arrives, the first command runs, with its own name and arguments,
/// on that content; and when `f` cannot be read the pipeline ends with that
/// error.
pub proof fn law_input_file_read_first(
    cmds: Seq<CommandView>,
    f: Seq<char>,
    content: Seq<char>,
    msg: Seq<char>,
)
    requires
        cmds.len() > 0,
        cmds[0].stdin == Some(f),
    ensures
        ({
            let (s, (warning, action)) = start_spec(cmds);
            &&& warning is None
            &&& action == ActionView::ReadFile(f)
            &&& s.phase == PipelinePhase::ReadingInput
            &&& s.stage == 0
            &&& s.cmds == cmds
        }),
        ({
            let (s, _) = start_spec(cmds);
            let (next, (warning, action)) = resume_spec(s, EventView::FileRead(Ok(content)));
            &&& warning is None
            &&& next.phase == PipelinePhase::Running
            &&& next.stage == 0
            &&& action matches ActionView::Run(c) && c.stdin == Some(content) && c.name == cmds[0].name
                && c.args == cmds[0].args && c.stderr == cmds[0].stderr
        }),
        ({
            let (s, _) = start_spec(cmds);
            let (next, (warning, action)) = resume_spec(s, EventView::FileRead(Err(msg)));
            &&& next.phase == PipelinePhase::Finished
            &&& action == ActionView::Finish(Err("Error reading stdin file '"@ + f + "': "@ + msg))
        }),
{
}

/// What the pipeline waits for.
#[derive(PartialEq, Eq, Structural, Clone, Copy)]
pub enum PipelinePhase {
    /// The content of the first command's input file.
    ReadingInput,
    /// The output of the command of the current stage.
    Running,
    /// Nothing: the pipeline is over.
    Finished,
}

/// What the application hands back to a running pipeline.
pub enum PipelineEvent {
    /// The content of the input file, or why it could not be read.
    FileRead(Result<String, String>),
    /// The output of the command that was run, or why it failed.
    Ran(Result<String, String>),
}

/// What the application must do next for a running pipeline.
pub enum PipelineAction {
    /// Read this file and hand its content back.
    ReadFile(String),
    /// Run this command and hand its output back.
    Run(Command),
    /// The pipeline is over with this result.
    Finish(Result<String, String>),
}

/// The next action, and a message to print on standard error before it.
pub struct PipelineStep {
    pub warning: Option<String>,
    pub action: PipelineAction,
}

/// The view of a string result.
pub open spec fn result_view(r: Result<String, String>) -> Result<Seq<char>, Seq<char>> {
    match r {
        Ok(s) => Ok(s@),
        Err(e) => Err(e@),
    }
}

/// The view of an event.
pub enum EventView {
    FileRead(Result<Seq<char>, Seq<char>>),
    Ran(Result<Seq<char>, Seq<char>>),
}

/// The view of an action.
pub enum ActionView {
    ReadFile(Seq<char>),
    Run(CommandView),
    Finish(Result<Seq<char>, Seq<char>>),
}

impl View for PipelineEvent {
    type V = EventView;

    open spec fn view(&self) -> EventView {
        match self {
            PipelineEvent::FileRead(r) => EventView::FileRead(result_view(*r)),
            PipelineEvent::Ran(r) => EventView::Ran(result_view(*r)),
        }
    }
}

impl View for PipelineAction {
    type V = ActionView;

    open spec fn view(&self) -> ActionView {
        match self {
            PipelineAction::ReadFile(f) => ActionView::ReadFile(f@),
            PipelineAction::Run(c) => ActionView::Run(c@),
            PipelineAction::Finish(r) => ActionView::Finish(result_view(*r)),
        }
    }
}

/// The view of a step: the warning and the action.
pub open spec fn step_view(s: PipelineStep) -> (Option<Seq<char>>, ActionView) {
    (opt_view(s.warning), s.action@)
}

/// The state of a running pipeline.
pub struct RunView {
    pub cmds: Seq<CommandView>,
    pub stage: int,
    pub phase: PipelinePhase,
}

/// How a pipeline begins: an empty one is over with empty output; otherwise
/// the first command's input file is read first, when it has one, or the
/// first stage runs.
pub open spec fn start_spec(cmds: Seq<CommandView>) -> (RunView, (Option<Seq<char>>, ActionView)) {
    if cmds.len() == 0 {
        (
            RunView { cmds, stage: 0, phase: PipelinePhase::Finished },
            (None, ActionView::Finish(Ok(Seq::empty()))),
        )
    } else if cmds[0].stdin is Some {
        (
            RunView { cmds, stage: 0, phase: PipelinePhase::ReadingInput },
            (None, ActionView::ReadFile(cmds[0].stdin->0)),
        )
    } else {
        (
            RunView { cmds, stage: 0, phase: PipelinePhase::Running },
            (None, ActionView::Run(stage_command(cmds[0], 0, cmds.len() as int, None))),
        )
    }
}

/// How a pipeline goes on after an event. A file that cannot be read ends it
/// with an error; that is the only way it fails. A failing command is
/// reported: it gives the next stage empty input, or the pipeline empty
/// output when it is the last. The output of each stage is the input of the
/// next.
pub open spec fn resume_spec(s: RunView, e: EventView) -> (RunView, (Option<Seq<char>>, ActionView)) {
    let n = s.cmds.len() as int;
    match e {
        EventView::FileRead(r) => match r {
            Err(msg) => (
                RunView { phase: PipelinePhase::Finished, ..s },
                (None, ActionView::Finish(Err(read_failure(s.cmds[0].stdin->0, msg)))),
            ),
            Ok(t) => (
                RunView { phase: PipelinePhase::Running, ..s },
                (None, ActionView::Run(stage_command(s.cmds[0], 0, n, Some(t)))),
            ),
        },
        EventView::Ran(r) => {
            let warning = match r {
                Ok(_) => None,
                Err(msg) => Some(stage_warning(s.cmds[s.stage].name, msg)),
            };
            if n == 1 {
                (
                    RunView { phase: PipelinePhase::Finished, ..s },
                    (
                        match r {
                            Ok(_) => None,
                            Err(msg) => Some(run_failure(msg)),
                        },
                        ActionView::Finish(Ok(output_or_empty(r))),
                    ),
                )
            } else if s.stage == n - 1 {
                (
                    RunView { phase: PipelinePhase::Finished, ..s },
                    (warning, ActionView::Finish(Ok(output_or_empty(r)))),
                )
            } else {
                (
                    RunView { stage: s.stage + 1, ..s },
                    (
                        warning,
                        ActionView::Run(
                            stage_command(s.cmds[s.stage + 1], s.stage + 1, n, Some(output_or_empty(r))),
                        ),
                    ),
                )
            }
        },
    }
}

/// Whether the event is the one the pipeline waits for.
pub open spec fn expects(s: RunView, e: EventView) -> bool {
    match e {
        EventView::FileRead(_) => s.phase == PipelinePhase::ReadingInput,
        EventView::Ran(_) => s.phase == PipelinePhase::Running,
    }
}

/// A pipeline being run: its parsed commands, the current stage and what it
/// waits for.
pub struct PipelineRun {
    cmds: Vec<Command>,
    stage: usize,
    phase: PipelinePhase,
}

impl View for PipelineRun {
    type V = RunView;

    closed spec fn view(&self) -> RunView {
        RunView {
            cmds: self.cmds@.map_values(|c: Command| c@),
            stage: self.stage as int,
            phase: self.phase,
        }
    }
}

impl PipelineRun {
    #[verifier::type_invariant]
    closed spec fn inv(self) -> bool {
        &&& self.phase != PipelinePhase::Finished ==> self.stage < self.cmds@.len()
        &&& self.phase == PipelinePhase::ReadingInput ==> self.stage == 0
            && self.cmds@[0].stdin is Some
    }

    /// What the pipeline waits for.
    pub fn phase(&self) -> (p: PipelinePhase)
        ensures
            p == self@.phase,
    {
        self.phase
    }

    /// Hands the pipeline the event it waits for, and returns what comes next.
    pub fn resume(&mut self, event: PipelineEvent) -> (step: PipelineStep)
        requires
            expects(old(self)@, event@),
        ensures
            (final(self)@, step_view(step)) == resume_spec(old(self)@, event@),
    {
        proof {
            use_type_invariant(&*self);
        }
        let n = self.cmds.len();
        let ghost cv = self@.cmds;
        assert(forall|k: int| 0 <= k < n ==> cv[k] == #[trigger] self.cmds@[k]@);
        match event {
            PipelineEvent::FileRead(r) => match r {
                Err(msg) => {
                    let file = match &self.cmds[0].stdin {
                        Some(f) => f.as_str(),
                        None => "",
                    };
                    let text = read_failure_message(file, msg.as_str());
                    self.phase = PipelinePhase::Finished;
                    PipelineStep { warning: None, action: PipelineAction::Finish(Err(text)) }
                },
                Ok(t) => {
                    let c = Pipeline::stage(&self.cmds[0], 0, n, Some(t));
                    self.phase = PipelinePhase::Running;
                    PipelineStep { warning: None, action: PipelineAction::Run(c) }
                },
            },
            PipelineEvent::Ran(r) => {
                let i = self.stage;
                let warning = match &r {
                    Ok(_) => None,
                    Err(msg) => Some(stage_warning_message(self.cmds[i].name.as_str(), msg.as_str())),
                };
                if n == 1 {
                    self.phase = PipelinePhase::Finished;
                    let (report, out) = match r {
                        Ok(o) => (None, o),
                        Err(msg) => (Some(run_failure_message(msg.as_str())), String::new()),
                    };
                    PipelineStep { warning: report, action: PipelineAction::Finish(Ok(out)) }
                } else if i == n - 1 {
                    self.phase = PipelinePhase::Finished;
                    let out = match r {
                        Ok(o) => o,
                        Err(_) => String::new(),
                    };
                    PipelineStep { warning, action: PipelineAction::Finish(Ok(out)) }
                } else {
                    let input = match r {
                        Ok(o) => o,
                        Err(_) => String::new(),
                    };
                    let c = Pipeline::stage(&self.cmds[i + 1], i + 1, n, Some(input));
                    self.stage = i + 1;
                    PipelineStep { warning, action: PipelineAction::Run(c) }
                }
            },
        }
    }
}

/// Builds the message for an unreadable input file.
fn read_failure_message(file: &str, e: &str) -> (s: String)
    ensures
        s@ == read_failure(file@, e@),
{
    let a = concat_str("Error reading stdin file '", file);
    let b = concat_str(a.as_str(), "': ");
    concat_str(b.as_str(), e)
}

/// Builds the error of a failing single command.
fn run_failure_message(e: &str) -> (s: String)
    ensures
        s@ == run_failure(e@),
{
    concat_str("Error executing command: ", e)
}

/// Builds the report of a failing stage.
fn stage_warning_message(name: &str, e: &str) -> (s: String)
    ensures
        s@ == stage_warning(name@, e@),
{
    let a = concat_str("Error executing '", name);
    let b = concat_str(a.as_str(), "': ");
    concat_str(b.as_str(), e)
}

/// Chains commands: the standard output of each becomes the standard input
/// of the next; standard error stays with each command.
pub struct Pipeline {
    runner: Runner,
}

impl Pipeline {
    /// A pipeline executor that runs commands with `runner`.
    pub fn new(runner: Runner) -> (p: Self)
        ensures
            p.spec_runner().bin_dir() == runner.bin_dir(),
    {
        Pipeline { runner }
    }

    /// The runner of this pipeline.
    pub fn runner(&self) -> (r: &Runner)
        ensures
            r == self.spec_runner(),
    {
        &self.runner
    }

    /// The runner of this pipeline.
    pub closed spec fn spec_runner(&self) -> Runner {
        self.runner
    }

    /// The command that stage `i` of `n` runs for the parsed command `pc`,
    /// with `input` as its standard input.
    pub fn stage(pc: &Command, i: usize, n: usize, input: Option<String>) -> (c: Command)
        ensures
            c@ == stage_command(pc@, i as int, n as int, opt_view(input)),
    {
        let mut cmd = Command::new(pc.name.clone(), copy_strings(&pc.args));
        if let Some(t) = input {
            cmd = cmd.with_stdin(t);
        }
        if let Some(f) = &pc.stderr {
            cmd = cmd.with_stderr(f.clone()).with_append_stderr(pc.append_stderr);
        }
        if n > 0 && i == n - 1 {
            if let Some(f) = &pc.stdout {
                cmd = cmd.with_stdout(f.clone()).with_append_stdout(pc.append_stdout);
            }
        }
        cmd
    }

    /// Prepares a lone command: `stdin_content` is what its input file holds
    /// (`Some` exactly when it names one), or why the file could not be read.
    pub fn prepare_command(&self, pc: &Command, stdin_content: Option<Result<String, String>>) -> (r: Result<
        Command,
        String,
    >)
        requires
            stdin_content is Some <==> pc.stdin is Some,
        ensures
            match stdin_content {
                Some(Err(e)) => r matches Err(m) && m@ == read_failure(pc.stdin->0@, e@),
                Some(Ok(t)) => r matches Ok(c) && c@ == stage_command(pc@, 0, 1, Some(t@)),
                None => r matches Ok(c) && c@ == stage_command(pc@, 0, 1, None),
            },
    {
        match stdin_content {
            Some(Err(e)) => {
                let file = match &pc.stdin {
                    Some(f) => f.as_str(),
                    None => "",
                };
                Err(read_failure_message(file, e.as_str()))
            },
            Some(Ok(t)) => Ok(Pipeline::stage(pc, 0, 1, Some(t))),
            None => Ok(Pipeline::stage(pc, 0, 1, None)),
        }
    }

    /// Begins running the parsed commands `parsed_cmds` as a pipeline.
    pub fn start(&self, parsed_cmds: Vec<Command>) -> (r: (PipelineRun, PipelineStep))
        ensures
            (r.0@, step_view(r.1)) == start_spec(parsed_cmds@.map_values(|c: Command| c@)),
    {
        let n = parsed_cmds.len();
        let ghost cv = parsed_cmds@.map_values(|c: Command| c@);
        if n == 0 {
            let run = PipelineRun { cmds: parsed_cmds, stage: 0, phase: PipelinePhase::Finished };
            return (run, PipelineStep { warning: None, action: PipelineAction::Finish(Ok(String::new())) });
        }
        assert(cv[0] == parsed_cmds@[0]@);
        match &parsed_cmds[0].stdin {
            Some(f) => {
                let file = f.clone();
                let run = PipelineRun { cmds: parsed_cmds, stage: 0, phase: PipelinePhase::ReadingInput };
                (run, PipelineStep { warning: None, action: PipelineAction::ReadFile(file) })
            },
            None => {
                let c = Pipeline::stage(&parsed_cmds[0], 0, n, None);
                let run = PipelineRun { cmds: parsed_cmds, stage: 0, phase: PipelinePhase::Running };
                (run, PipelineStep { warning: None, action: PipelineAction::Run(c) })
            },
        }
    }
}

} // verus!
