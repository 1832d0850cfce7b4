// Parsing of command lines into pipelines of commands.
use cli_rust::modules::input::{CliError, InputProcessorBuilder};
use cli_rust::modules::Environment;

#[test]
fn test_pipeline_parsing() {
    let processor = InputProcessorBuilder::new().build();
    let env = Environment::new();

    let cmds = processor.process("echo hello | cat | wc -l", &env).unwrap();

    assert_eq!(cmds.len(), 3);
    assert_eq!(cmds[0].name, "echo");
    assert_eq!(cmds[1].name, "cat");
    assert_eq!(cmds[2].name, "wc");
}

#[test]
fn test_pipeline_with_redirections() {
    let processor = InputProcessorBuilder::new().build();
    let env = Environment::new();

    let cmds = processor
        .process(
            "cat < input.txt | grep pattern > output.txt 2> errors.log",
            &env,
        )
        .unwrap();

    assert_eq!(cmds.len(), 2);
    assert_eq!(cmds[0].name, "cat");
    assert_eq!(cmds[0].stdin, Some("input.txt".to_string()));
    assert_eq!(cmds[1].name, "grep");
    assert_eq!(cmds[1].stdout, Some("output.txt".to_string()));
    assert_eq!(cmds[1].stderr, Some("errors.log".to_string()));
}

#[test]
fn test_exit_in_pipeline() {
    let processor = InputProcessorBuilder::new().build();
    let env = Environment::new();

    let cmds = processor.process("echo hello | exit | cat", &env).unwrap();

    assert_eq!(cmds.len(), 3);
    assert_eq!(cmds[1].name, "exit");
}

#[test]
fn test_pipeline_with_variables() {
    let mut env = Environment::new();
    env.set("FILE", "test.txt");
    env.set("PATTERN", "error");

    let processor = InputProcessorBuilder::new().build();

    let cmds = processor.process("cat $FILE | grep $PATTERN", &env).unwrap();

    assert_eq!(cmds.len(), 2);
    assert_eq!(cmds[0].name, "cat");
    assert_eq!(cmds[0].args, vec!["test.txt"]);
    assert_eq!(cmds[1].name, "grep");
    assert_eq!(cmds[1].args, vec!["error"]);
}

#[test]
fn test_complex_pipeline_parsing() {
    let processor = InputProcessorBuilder::new().build();
    let env = Environment::new();

    let cmds = processor
        .process(
            "cat file1.txt file2.txt | grep -v '^#' | sort | uniq > output.txt",
            &env,
        )
        .unwrap();

    assert_eq!(cmds.len(), 4);
    assert_eq!(cmds[0].name, "cat");
    assert_eq!(cmds[0].args, vec!["file1.txt", "file2.txt"]);
    assert_eq!(cmds[1].name, "grep");
    assert_eq!(cmds[1].args, vec!["-v", "^#"]);
    assert_eq!(cmds[2].name, "sort");
    assert_eq!(cmds[3].name, "uniq");
    assert_eq!(cmds[3].stdout, Some("output.txt".to_string()));
}

#[test]
fn test_stderr_not_piped() {
    let processor = InputProcessorBuilder::new().build();
    let env = Environment::new();

    let cmds = processor
        .process(
            "cmd1 2> err1.txt | cmd2 2> err2.txt | cmd3 2> err3.txt",
            &env,
        )
        .unwrap();

    assert_eq!(cmds.len(), 3);
    assert_eq!(cmds[0].stderr, Some("err1.txt".to_string()));
    assert_eq!(cmds[1].stderr, Some("err2.txt".to_string()));
    assert_eq!(cmds[2].stderr, Some("err3.txt".to_string()));
}

#[test]
fn quoted_pipe_does_not_split() {
    let processor = InputProcessorBuilder::new().build();
    let env = Environment::new();
    let cmds = processor.process("echo 'a | b' \"c|d\" e\\|f", &env).unwrap();
    assert_eq!(cmds.len(), 1);
    assert_eq!(cmds[0].args, vec!["a | b", "c|d", "e|f"]);
}

#[test]
fn unquoted_pipe_without_blanks_splits() {
    let processor = InputProcessorBuilder::new().build();
    let env = Environment::new();
    let cmds = processor.process("ls|wc", &env).unwrap();
    assert_eq!(cmds.len(), 2);
    assert_eq!(cmds[0].name, "ls");
    assert_eq!(cmds[1].name, "wc");
}

#[test]
fn trailing_pipe_drops_empty_command() {
    let processor = InputProcessorBuilder::new().build();
    let env = Environment::new();
    let cmds = processor.process("echo hi |", &env).unwrap();
    assert_eq!(cmds.len(), 1);
    assert_eq!(cmds[0].args, vec!["hi"]);
}

#[test]
fn empty_command_between_pipes_is_an_error() {
    let processor = InputProcessorBuilder::new().build();
    let env = Environment::new();
    assert_eq!(processor.process("echo a | | cat", &env).unwrap_err(), CliError::EmptyCommand);
    assert_eq!(processor.process("| cat", &env).unwrap_err(), CliError::EmptyCommand);
}

#[test]
fn unclosed_quote_is_an_error() {
    let processor = InputProcessorBuilder::new().build();
    let env = Environment::new();
    assert_eq!(processor.process("echo 'abc", &env).unwrap_err(), CliError::UnclosedQuote);
    assert_eq!(processor.process("echo \"abc", &env).unwrap_err(), CliError::UnclosedQuote);
    assert_eq!(CliError::UnclosedQuote.describe(), "unclosed quote");
}

#[test]
fn bad_substitution_is_an_error() {
    let processor = InputProcessorBuilder::new().build();
    let env = Environment::new();
    assert_eq!(processor.process("echo ${HOME", &env).unwrap_err(), CliError::BadSubstitution);
    assert_eq!(processor.process("echo ${}", &env).unwrap_err(), CliError::BadSubstitution);
    assert_eq!(processor.process("echo ${1x}", &env).unwrap_err(), CliError::BadSubstitution);
    assert_eq!(CliError::BadSubstitution.describe(), "bad substitution");
    assert_eq!(CliError::EmptyCommand.describe(), "empty command");
}

#[test]
fn empty_line_gives_no_command() {
    let processor = InputProcessorBuilder::new().build();
    let env = Environment::new();
    let cmds = processor.process("   ", &env).unwrap();
    assert!(cmds.is_empty());
}

#[test]
fn variables_expand_in_double_quotes_not_in_single_quotes() {
    let processor = InputProcessorBuilder::new().build();
    let mut env = Environment::new();
    env.set("NAME", "Alice");
    let cmds = processor.process(r#"echo "Hello, $NAME!" '$NAME' \$NAME ${NAME}s $UNSET."#, &env).unwrap();
    assert_eq!(cmds[0].args, vec!["Hello, Alice!", "$NAME", "$NAME", "Alices", "."]);
}

#[test]
fn adjacent_variables_form_one_word() {
    let processor = InputProcessorBuilder::new().build();
    let mut env = Environment::new();
    env.set("x", "ex");
    env.set("y", "it");
    let cmds = processor.process("$x$y", &env).unwrap();
    assert_eq!(cmds.len(), 1);
    assert_eq!(cmds[0].name, "exit");
}

#[test]
fn dollar_without_name_stays() {
    let processor = InputProcessorBuilder::new().build();
    let env = Environment::new();
    let cmds = processor.process("echo $ a$ $1", &env).unwrap();
    assert_eq!(cmds[0].args, vec!["$", "a$", "$1"]);
}

#[test]
fn escapes_in_double_quotes() {
    let processor = InputProcessorBuilder::new().build();
    let env = Environment::new();
    let cmds = processor.process(r#"echo "a\"b" "c\\d" "e\nf""#, &env).unwrap();
    assert_eq!(cmds[0].args, vec!["a\"b", "c\\d", "e\\nf"]);
}

#[test]
fn blanks_separate_words() {
    let processor = InputProcessorBuilder::new().build();
    let env = Environment::new();
    let cmds = processor.process("  echo\ta   b\\ c  ", &env).unwrap();
    assert_eq!(cmds[0].name, "echo");
    assert_eq!(cmds[0].args, vec!["a", "b c"]);
}
