// Decisions of the interactive shell.
use cli_rust::modules::init::Init;
use cli_rust::modules::repl::{Repl, ReplAction};
use cli_rust::modules::Environment;

fn session() -> Init {
    let mut env = Environment::new();
    env.set("FILE", "notes.txt");
    Init::with_config(env, "target/release".to_string(), "/work".to_string())
}

#[test]
fn test_repl_creation() {
    let init = session();
    let repl = Repl::new(&init);
    assert_eq!(repl.bin_path(), init.bin_path.as_str());
    assert_eq!(repl.pipeline().runner().bin_path(), "target/release");
}

#[test]
fn test_variable_assignment_detection() {
    let repl = Repl::new(&session());

    assert!(repl.is_variable_assignment("VAR=value"));
    assert!(repl.is_variable_assignment("PATH=/usr/bin"));
    assert!(repl.is_variable_assignment("_PRIVATE=secret"));
    assert!(repl.is_variable_assignment("VAR123=test"));

    assert!(!repl.is_variable_assignment("echo hello"));
    assert!(!repl.is_variable_assignment("=value"));
    assert!(!repl.is_variable_assignment("123VAR=value"));
    assert!(!repl.is_variable_assignment("VAR-NAME=value"));
    assert!(!repl.is_variable_assignment(""));
}

#[test]
fn unicode_names_can_be_assigned() {
    let repl = Repl::new(&session());
    assert!(repl.is_variable_assignment("ИМЯ=значение"));
    assert!(repl.is_variable_assignment("X=a=b"));
}

#[test]
fn assignment_line_sets_variable() {
    let mut init = session();
    let repl = Repl::new(&init);
    match repl.handle_line("  X=a=b  ", &mut init) {
        ReplAction::Assigned(m) => assert_eq!(m, "Set X=a=b"),
        _ => panic!("expected an assignment"),
    }
    assert_eq!(init.get_env("X"), Some("a=b"));
}

#[test]
fn exit_and_help_lines() {
    let mut init = session();
    let repl = Repl::new(&init);
    assert!(matches!(repl.handle_line("exit", &mut init), ReplAction::Exit));
    assert!(matches!(repl.handle_line("  help \n", &mut init), ReplAction::Help));
    assert!(matches!(repl.handle_line("   ", &mut init), ReplAction::Nothing));
    assert!(matches!(repl.handle_line("echo a | exit", &mut init), ReplAction::Exit));
    assert!(matches!(repl.handle_line("exit 3", &mut init), ReplAction::Exit));
    assert!(matches!(repl.handle_line("help me", &mut init), ReplAction::Run(_)));
}

#[test]
fn command_lines_run_with_expansion() {
    let mut init = session();
    let repl = Repl::new(&init);
    match repl.handle_line("cat $FILE | wc", &mut init) {
        ReplAction::Run(cmds) => {
            assert_eq!(cmds.len(), 2);
            assert_eq!(cmds[0].args, vec!["notes.txt"]);
        }
        _ => panic!("expected a pipeline"),
    }
}

#[test]
fn parse_errors_are_reported() {
    let mut init = session();
    let repl = Repl::new(&init);
    match repl.handle_line("echo 'oops", &mut init) {
        ReplAction::ParseError(m) => assert_eq!(m, "parse error: unclosed quote"),
        _ => panic!("expected a parse error"),
    }
}

#[test]
fn output_is_shown_only_when_not_blank() {
    assert!(Repl::shows_output("x\n"));
    assert!(!Repl::shows_output(" \n\t"));
    assert!(!Repl::shows_output(""));
}

#[test]
fn variables_can_spell_a_command() {
    let mut init = session();
    let repl = Repl::new(&init);
    assert!(matches!(repl.handle_line("x=ex", &mut init), ReplAction::Assigned(_)));
    assert!(matches!(repl.handle_line("y=it", &mut init), ReplAction::Assigned(_)));
    assert!(matches!(repl.handle_line("$x$y", &mut init), ReplAction::Exit));
}

#[test]
fn help_text_lists_commands_and_features() {
    let lines = Repl::help_text();
    assert_eq!(lines.len(), 18);
    assert_eq!(lines[0], "Available commands:");
    assert_eq!(lines[8], "");
    assert_eq!(lines[11], "  $VAR or ${VAR}     - Variable expansion");
}

#[test]
fn unicode_whitespace_is_trimmed() {
    let mut init = session();
    let repl = Repl::new(&init);
    assert!(matches!(repl.handle_line("\u{3000}exit\u{85}", &mut init), ReplAction::Exit));
    assert!(matches!(repl.handle_line("\u{a0}\u{2028}", &mut init), ReplAction::Nothing));
    assert!(!Repl::shows_output("\u{2003}\u{202f}\u{205f}"));
    assert!(Repl::shows_output("\u{200b}"));
}
