// Running pipelines: the decisions between reading files and running commands.
use cli_rust::modules::command::Command;
use cli_rust::modules::pipeline::{Pipeline, PipelineAction, PipelineEvent, PipelineRun};
use cli_rust::modules::runner::Runner;

fn pipeline() -> Pipeline {
    Pipeline::new(Runner::new("target/release".to_string()))
}

fn cmd(name: &str, args: &[&str]) -> Command {
    Command::new(name.to_string(), args.iter().map(|a| a.to_string()).collect())
}

fn expect_run(action: PipelineAction) -> Command {
    match action {
        PipelineAction::Run(c) => c,
        _ => panic!("expected a command to run"),
    }
}

fn expect_finish(action: PipelineAction) -> Result<String, String> {
    match action {
        PipelineAction::Finish(r) => r,
        _ => panic!("expected the end"),
    }
}

#[test]
fn test_pipeline_creation() {
    let runner = Runner::new("target/release".to_string());
    let _pipeline = Pipeline::new(runner);
}

#[test]
fn test_empty_pipeline() {
    let (_run, step) = pipeline().start(vec![]);
    let result = expect_finish(step.action);
    assert!(result.is_ok());
    assert_eq!(result.unwrap(), "");
}

#[test]
fn single_command_runs_with_its_redirections() {
    let mut pc = cmd("echo", &["test"]);
    pc.stdout = Some("out.txt".to_string());
    pc.append_stdout = true;
    let (mut run, step) = pipeline().start(vec![pc]);
    let c = expect_run(step.action);
    assert_eq!(c.name, "echo");
    assert_eq!(c.stdout, Some("out.txt".to_string()));
    assert!(c.append_stdout);
    let step = run.resume(PipelineEvent::Ran(Ok("test\n".to_string())));
    assert_eq!(expect_finish(step.action), Ok("test\n".to_string()));
}

#[test]
fn single_command_failure_is_only_reported() {
    let (mut run, step) = pipeline().start(vec![cmd("nope", &[])]);
    let _ = expect_run(step.action);
    let step = run.resume(PipelineEvent::Ran(Err("not found".to_string())));
    assert_eq!(step.warning, Some("Error executing command: not found".to_string()));
    assert_eq!(expect_finish(step.action), Ok(String::new()));
}

#[test]
fn test_prepare_command_with_redirections() {
    let p = pipeline();
    let mut pc = cmd("cat", &[]);
    pc.stdout = Some("output.txt".to_string());
    pc.append_stdout = false;
    pc.stderr = Some("errors.txt".to_string());
    pc.append_stderr = false;

    let result = p.prepare_command(&pc, None);
    assert!(result.is_ok());

    let c = result.unwrap();
    assert_eq!(c.name, "cat");
    assert_eq!(c.stdout, Some("output.txt".to_string()));
    assert_eq!(c.stderr, Some("errors.txt".to_string()));
}

#[test]
fn test_prepare_command_stdin_error() {
    let p = pipeline();
    let mut pc = cmd("cat", &[]);
    pc.stdin = Some("/nonexistent/file.txt".to_string());

    let result = p.prepare_command(&pc, Some(Err("No such file or directory (os error 2)".to_string())));
    assert!(result.is_err());
    let message = result.unwrap_err();
    assert!(message.contains("Error reading stdin file"));
    assert_eq!(
        message,
        "Error reading stdin file '/nonexistent/file.txt': No such file or directory (os error 2)"
    );
}

#[test]
fn prepare_command_takes_file_content_as_input() {
    let mut pc = cmd("wc", &[]);
    pc.stdin = Some("in.txt".to_string());
    let c = pipeline().prepare_command(&pc, Some(Ok("a\nb\n".to_string()))).unwrap();
    assert_eq!(c.stdin, Some("a\nb\n".to_string()));
}

#[test]
fn output_of_each_stage_feeds_the_next() {
    let mut first = cmd("cat", &[]);
    first.stdin = Some("input.txt".to_string());
    first.stdout = Some("ignored.txt".to_string());
    let mut second = cmd("grep", &["x"]);
    second.stderr = Some("err.txt".to_string());
    let mut third = cmd("wc", &[]);
    third.stdout = Some("out.txt".to_string());
    let (mut run, step) = pipeline().start(vec![first, second, third]);
    match step.action {
        PipelineAction::ReadFile(f) => assert_eq!(f, "input.txt"),
        _ => panic!("expected a file read"),
    }
    let c1 = expect_run(run.resume(PipelineEvent::FileRead(Ok("x\ny\n".to_string()))).action);
    assert_eq!(c1.stdin, Some("x\ny\n".to_string()));
    assert_eq!(c1.stdout, None);
    let step = run.resume(PipelineEvent::Ran(Ok("x\ny\n".to_string())));
    assert!(step.warning.is_none());
    let c2 = expect_run(step.action);
    assert_eq!(c2.name, "grep");
    assert_eq!(c2.stdin, Some("x\ny\n".to_string()));
    assert_eq!(c2.stderr, Some("err.txt".to_string()));
    assert_eq!(c2.stdout, None);
    let step = run.resume(PipelineEvent::Ran(Err("boom".to_string())));
    assert_eq!(step.warning, Some("Error executing 'grep': boom".to_string()));
    let c3 = expect_run(step.action);
    assert_eq!(c3.stdin, Some(String::new()));
    assert_eq!(c3.stdout, Some("out.txt".to_string()));
    let step = run.resume(PipelineEvent::Ran(Ok("0\n".to_string())));
    assert_eq!(expect_finish(step.action), Ok("0\n".to_string()));
}

#[test]
fn failing_last_stage_gives_empty_output() {
    let (mut run, step) = pipeline().start(vec![cmd("a", &[]), cmd("b", &[])]);
    let _ = expect_run(step.action);
    let _ = expect_run(run.resume(PipelineEvent::Ran(Ok("1".to_string()))).action);
    let step = run.resume(PipelineEvent::Ran(Err("bad".to_string())));
    assert_eq!(step.warning, Some("Error executing 'b': bad".to_string()));
    assert_eq!(expect_finish(step.action), Ok(String::new()));
}

#[test]
fn unreadable_input_file_ends_the_pipeline() {
    let mut first = cmd("cat", &[]);
    first.stdin = Some("missing.txt".to_string());
    let (mut run, _step): (PipelineRun, _) = pipeline().start(vec![first, cmd("wc", &[])]);
    let step = run.resume(PipelineEvent::FileRead(Err("gone".to_string())));
    assert_eq!(expect_finish(step.action), Err("Error reading stdin file 'missing.txt': gone".to_string()));
}
