// Shell configuration and changing directories.
use cli_rust::modules::init::{build_input_processor, join_path, target_dir, DirStatus, Init};
use cli_rust::modules::Environment;

fn process_env() -> Environment {
    let mut env = Environment::new();
    env.set("PATH", "/usr/bin");
    env.set("HOME", "/home/user");
    env
}

fn session() -> Init {
    Init::from_process(process_env(), None, Some("/home/user/project".to_string()), false)
}

#[test]
fn test_init_creation() {
    let init = session();
    assert!(!init.env_vars.is_empty());
    assert!(init.bin_path.contains("target"));
    assert_eq!(init.bin_path, "/home/user/project/target/debug");
}

#[test]
fn release_dir_is_preferred_when_it_has_echo() {
    let init = Init::from_process(process_env(), None, Some("/w".to_string()), true);
    assert_eq!(init.bin_path, "/w/target/release");
    assert_eq!(Init::release_dir(Some("/w")), "/w/target/release");
    assert_eq!(Init::release_dir(None), "./target/release");
}

#[test]
fn cli_bin_path_overrides() {
    let init = Init::from_process(process_env(), Some("/opt/bin".to_string()), None, true);
    assert_eq!(init.bin_path, "/opt/bin");
    assert_eq!(init.current_dir(), ".");
}

#[test]
fn test_with_config_init() {
    let env_vars = vec![("TEST_VAR".to_string(), "42".to_string())];
    let bin_path = "/test_path/bin".to_string();

    let init = Init::with_config_map(env_vars, bin_path.clone(), "/".to_string());
    assert_eq!(init.get_env("TEST_VAR"), Some("42"));
    assert_eq!(init.bin_path, bin_path);
}

#[test]
fn test_set_env() {
    let mut init = session();
    init.set_env("NEW_VAR".to_string(), "new_value".to_string());
    assert_eq!(init.get_env("NEW_VAR"), Some("new_value"));
}

#[test]
fn test_current_dir_initialization() {
    let init = session();
    assert!(init.current_dir().starts_with('/') || init.current_dir() == ".");
    let unknown = Init::from_process(process_env(), None, None, false);
    assert_eq!(unknown.current_dir(), ".");
    assert_eq!(unknown.bin_path, "./target/debug");
}

#[test]
fn test_change_dir_relative() {
    let mut init = session();
    let original_dir = init.current_dir().to_string();
    assert_eq!(init.cd_target("..").unwrap(), "/home/user/project/..");
    match init.change_dir("..", DirStatus::Resolved("/home/user".to_string())) {
        Ok(()) => {
            assert_ne!(init.current_dir(), original_dir);
            assert_eq!(init.current_dir(), "/home/user");
        }
        Err(_) => panic!("the parent directory exists"),
    }
}

#[test]
fn test_change_dir_nonexistent() {
    let mut init = session();
    let result = init.change_dir("/nonexistent/directory/12345", DirStatus::Missing);
    assert!(result.is_err());
    let message = result.unwrap_err();
    assert!(message.contains("No such file or directory"));
    assert_eq!(message, "cd: /nonexistent/directory/12345: No such file or directory");
    assert_eq!(init.current_dir(), "/home/user/project");
}

#[test]
fn change_dir_to_file_fails() {
    let mut init = session();
    let result = init.change_dir("/tmp/cd_test_file", DirStatus::NotADirectory);
    assert_eq!(result.unwrap_err(), "cd: /tmp/cd_test_file: Not a directory");
    let other = init.change_dir("x", DirStatus::Unresolvable("Permission denied".to_string()));
    assert_eq!(other.unwrap_err(), "cd: /home/user/project/x: Permission denied");
}

#[test]
fn change_dir_empty_goes_home() {
    let mut init = session();
    assert_eq!(init.cd_target("").unwrap(), "/home/user");
    init.change_dir("", DirStatus::Resolved("/home/user".to_string())).unwrap();
    assert_eq!(init.current_dir(), "/home/user");
    let mut homeless = Init::with_config(Environment::new(), "/bin".to_string(), "/".to_string());
    assert_eq!(homeless.change_dir("", DirStatus::Missing).unwrap_err(), "cd: HOME not set");
}

#[test]
fn paths_join_like_pathbuf() {
    assert_eq!(join_path("/a", "b"), "/a/b");
    assert_eq!(join_path("/a/", "b"), "/a/b");
    assert_eq!(join_path("", "b"), "b");
    assert_eq!(join_path("/a", "/c"), "/c");
    assert_eq!(target_dir(".", "debug"), "./target/debug");
}

#[test]
fn test_environment_variable_handling() {
    let mut init = session();
    init.set_env("TEST_VAR".to_string(), "test_value".to_string());
    assert_eq!(init.get_env("TEST_VAR"), Some("test_value"));
    assert_eq!(init.get_env("NONEXISTENT_VAR"), None);
    assert_eq!(init.env_vars().get("TEST_VAR"), Some("test_value"));
}

#[test]
fn default_input_processor_parses() {
    let p = build_input_processor();
    let cmds = p.process("echo hi", &Environment::new()).unwrap();
    assert_eq!(cmds[0].name, "echo");
}

#[test]
fn change_dir_up_at_root_fails() {
    let mut init = Init::with_config(Environment::new(), "/bin".to_string(), "/".to_string());
    let result = init.change_dir("..", DirStatus::Resolved("/".to_string()));
    assert_eq!(result.unwrap_err(), "cd: /..: No parent directory");
    assert_eq!(init.current_dir(), "/");
    init.change_dir(".", DirStatus::Resolved("/".to_string())).unwrap();
    assert_eq!(init.current_dir(), "/");
}
