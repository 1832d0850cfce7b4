// Building commands and reading their redirections.
use cli_rust::modules::command::Command;
use cli_rust::modules::input::input_processor::{parse_fd_redirect, parse_number, role_of, PieceRole};
use cli_rust::modules::input::CommandProducer;

fn words(ws: &[&str]) -> Vec<String> {
    ws.iter().map(|w| w.to_string()).collect()
}

#[test]
fn test_command_creation_with_redirection() {
    let name = "cat".to_string();
    let args = vec![];
    let mut cmd = Command::new(name.clone(), args.clone());

    let stdin_content = "file content".to_string();
    cmd = cmd.with_stdin(stdin_content.clone());

    let stdout_file = "output.txt".to_string();
    cmd = cmd.with_stdout(stdout_file.clone()).with_append_stdout(false);

    assert_eq!(cmd.name, name);
    assert_eq!(cmd.args, args);
    assert_eq!(cmd.stdin, Some(stdin_content));
    assert_eq!(cmd.stdout, Some(stdout_file));
    assert!(!cmd.append_stdout);
}

#[test]
fn test_command_creation_with_append_redirection() {
    let name = "echo".to_string();
    let args = vec!["test".to_string()];
    let mut cmd = Command::new(name.clone(), args.clone());

    let stdout_file = "output.txt".to_string();
    cmd = cmd.with_stdout(stdout_file.clone()).with_append_stdout(true);

    assert_eq!(cmd.name, name);
    assert_eq!(cmd.args, args);
    assert!(cmd.stdin.is_none());
    assert_eq!(cmd.stdout, Some(stdout_file));
    assert!(cmd.append_stdout);
}

#[test]
fn stderr_builders_and_copy() {
    let cmd = Command::new("x".to_string(), words(&["a"]))
        .with_stderr("e.log".to_string())
        .with_append_stderr(true);
    let c = cmd.copy();
    assert_eq!(c.name, "x");
    assert_eq!(c.args, vec!["a"]);
    assert_eq!(c.stderr, Some("e.log".to_string()));
    assert!(c.append_stderr);
}

#[test]
fn produce_empty_is_an_error() {
    assert!(CommandProducer::produce_command(vec![]).is_err());
}

#[test]
fn produce_plain_words() {
    let c = CommandProducer::produce_command(words(&["ls", "-l", "dir"])).unwrap();
    assert_eq!(c.name, "ls");
    assert_eq!(c.args, vec!["-l", "dir"]);
    assert_eq!(c.stdin, None);
    assert_eq!(c.stdout, None);
    assert_eq!(c.stderr, None);
}

#[test]
fn produce_all_redirections() {
    let c = CommandProducer::produce_command(words(&[
        "cmd", "0<", "in", "a", "1>>", "out", "2>>", "err", "b",
    ]))
    .unwrap();
    assert_eq!(c.args, vec!["a", "b"]);
    assert_eq!(c.stdin, Some("in".to_string()));
    assert_eq!(c.stdout, Some("out".to_string()));
    assert!(c.append_stdout);
    assert_eq!(c.stderr, Some("err".to_string()));
    assert!(c.append_stderr);
}

#[test]
fn later_redirection_wins() {
    let c = CommandProducer::produce_command(words(&["cmd", ">>", "a", ">", "b"])).unwrap();
    assert_eq!(c.stdout, Some("b".to_string()));
    assert!(!c.append_stdout);
}

#[test]
fn redirection_at_end_has_no_file() {
    let c = CommandProducer::produce_command(words(&["cmd", "<", "f", "<"])).unwrap();
    assert_eq!(c.stdin, None);
    assert!(c.args.is_empty());
}

#[test]
fn other_descriptors_stay_arguments() {
    let c = CommandProducer::produce_command(words(&["cmd", "3>", "f", "0>>", "g", "5>>"])).unwrap();
    assert_eq!(c.args, vec!["3>", "f", "0>>", "g", "5>>"]);
    let d = CommandProducer::produce_command(words(&["cmd", "+1>", "o", "02>", "e", "0>", "i"])).unwrap();
    assert_eq!(d.stdout, Some("o".to_string()));
    assert_eq!(d.stderr, Some("e".to_string()));
    assert_eq!(d.stdin, Some("i".to_string()));
    assert!(d.args.is_empty());
}

#[test]
fn fd_redirect_patterns() {
    assert_eq!(parse_fd_redirect("2>"), Some((2, false)));
    assert_eq!(parse_fd_redirect("3>>"), Some((3, true)));
    assert_eq!(parse_fd_redirect("1>"), Some((1, false)));
    assert_eq!(parse_fd_redirect(">"), None);
    assert_eq!(parse_fd_redirect(">>>"), None);
    assert_eq!(parse_fd_redirect("a>"), None);
    assert_eq!(parse_fd_redirect("2"), None);
    assert_eq!(parse_fd_redirect("4294967295>"), Some((4294967295, false)));
    assert_eq!(parse_fd_redirect("4294967296>"), None);
}

#[test]
fn numbers_parse_like_std() {
    let p = |s: &str| parse_number(&s.chars().collect::<Vec<char>>());
    assert_eq!(p("0"), Some(0));
    assert_eq!(p("+12"), Some(12));
    assert_eq!(p("007"), Some(7));
    assert_eq!(p(""), None);
    assert_eq!(p("+"), None);
    assert_eq!(p("-1"), None);
    assert_eq!(p("1a"), None);
    assert_eq!(p("99999999999"), None);
    for s in ["0", "+12", "007", "", "+", "-1", "1a", "4294967295", "4294967296"] {
        assert_eq!(p(s), s.parse::<u32>().ok());
    }
}

#[test]
fn roles_of_words() {
    assert!(role_of("<") == PieceRole::Input);
    assert!(role_of("0<") == PieceRole::Input);
    assert!(role_of(">") == PieceRole::Output(false));
    assert!(role_of(">>") == PieceRole::Output(true));
    assert!(role_of("2>") == PieceRole::Error(false));
    assert!(role_of("2>>") == PieceRole::Error(true));
    assert!(role_of("7>") == PieceRole::OtherDescriptor);
    assert!(role_of("word") == PieceRole::Argument);
}
