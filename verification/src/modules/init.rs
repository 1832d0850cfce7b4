use vstd::prelude::*;

use crate::modules::environment::{pairs_map, Environment};
use crate::modules::input::{InputProcessor, InputProcessorBuilder};
use crate::text::{chars_of, concat_str, str_equal};

verus! {

broadcast use vstd::string::group_string_axioms;

/// The path `base` extended by `path`, as `PathBuf::join` does on Unix: an
/// absolute `path` replaces `base`; otherwise a `/` is put between them unless
/// `base` is empty or already ends with one.
pub open spec fn path_join(base: Seq<char>, path: Seq<char>) -> Seq<char> {
    if path.len() > 0 && path[0] == '/' {
        path
    } else if base.len() == 0 || base[base.len() - 1] == '/' {
        base + path
    } else {
        base + seq!['/'] + path
    }
}

/// Joins two paths as `PathBuf::join` does on Unix.
pub fn join_path(base: &str, path: &str) -> (r: String)
    ensures
        r@ == path_join(base@, path@),
{
    let b = chars_of(base);
    let p = chars_of(path);
    if p.len() > 0 && p[0] == '/' {
        String::from_str(path)
    } else if b.len() == 0 || b[b.len() - 1] == '/' {
        concat_str(base, path)
    } else {
        let head = concat_str(base, "/");
        proof {
            reveal_strlit("/");
        }
        concat_str(head.as_str(), path)
    }
}

/// The build directory `cwd/target/profile`.
pub open spec fn target_dir_of(cwd: Seq<char>, profile: Seq<char>) -> Seq<char> {
    path_join(path_join(cwd, "target"@), profile)
}

/// The build directory `cwd/target/profile` where the shell's command
/// programs are looked for by default.
pub fn target_dir(cwd: &str, profile: &str) -> (r: String)
    ensures
        r@ == target_dir_of(cwd@, profile@),
{
    let t = join_path(cwd, "target");
    join_path(t.as_str(), profile)
}

/// What the file system says of a directory that the shell is to change to.
pub enum DirStatus {
    /// Nothing exists at the path.
    Missing,
    /// Something exists there but it is not a directory.
    NotADirectory,
    /// A directory, with its canonical path.
    Resolved(String),
    /// A directory whose canonical path could not be found, with the reason.
    Unresolvable(String),
}

/// The message of a failed change of directory to `dir`.
pub open spec fn cd_error(dir: Seq<char>, reason: Seq<char>) -> Seq<char> {
    "cd: "@ + dir + ": "@ + reason
}

/// The outcome of changing to the directory `dir` given what the file system
/// says of it: the canonical path to make current, or the error.
pub open spec fn cd_outcome(dir: Seq<char>, status: DirStatus) -> Result<Seq<char>, Seq<char>> {
    match status {
        DirStatus::Missing => Err(cd_error(dir, "No such file or directory"@)),
        DirStatus::NotADirectory => Err(cd_error(dir, "Not a directory"@)),
        DirStatus::Resolved(p) => Ok(p@),
        DirStatus::Unresolvable(e) => Err(cd_error(dir, e@)),
    }
}

/// `cd ..` at the root: the parent resolves to the working directory itself.
pub open spec fn no_parent(path: Seq<char>, status: DirStatus, current_dir: Seq<char>) -> bool {
    path == ".."@ && match status {
        DirStatus::Resolved(p) => p@ == current_dir,
        _ => false,
    }
}

/// The configuration of a shell session: its environment variables, the
/// directory of its own command programs and its working directory.
pub struct Init {
    pub env_vars: Environment,
    pub bin_path: String,
    pub current_dir: String,
}

/// Builds the message `cd: DIR: REASON`.
fn cd_error_message(dir: &str, reason: &str) -> (s: String)
    ensures
        s@ == cd_error(dir@, reason@),
{
    let a = concat_str("cd: ", dir);
    let b = concat_str(a.as_str(), ": ");
    concat_str(b.as_str(), reason)
}

impl Init {
    /// The configuration taken from the process: the environment `env_vars`,
    /// the working directory `cwd` when it could be read (`.` otherwise), and
    /// the binary directory `CLI_BIN_PATH` when that variable is set, else
    /// `target/release` under the working directory when `release_has_echo`
    /// says that it holds the `echo` program, else `target/debug`.
    pub fn from_process(
        env_vars: Environment,
        cli_bin_path: Option<String>,
        cwd: Option<String>,
        release_has_echo: bool,
    ) -> (init: Self)
        ensures
            init.env_vars@ == env_vars@,
            init.current_dir@ == (match cwd {
                Some(d) => d@,
                None => "."@,
            }),
            init.bin_path@ == (match cli_bin_path {
                Some(p) => p@,
                None => target_dir_of(
                    init.current_dir@,
                    if release_has_echo {
                        "release"@
                    } else {
                        "debug"@
                    },
                ),
            }),
    {
        let current_dir = match cwd {
            Some(d) => d,
            None => String::from_str("."),
        };
        let bin_path = match cli_bin_path {
            Some(p) => p,
            None => if release_has_echo {
                target_dir(current_dir.as_str(), "release")
            } else {
                target_dir(current_dir.as_str(), "debug")
            },
        };
        Init { env_vars, bin_path, current_dir }
    }

    /// The directory that `from_process` checks for the `echo` program.
    pub fn release_dir(cwd: Option<&str>) -> (r: String)
        ensures
            r@ == target_dir_of(
                match cwd {
                    Some(d) => d@,
                    None => "."@,
                },
                "release"@,
            ),
    {
        match cwd {
            Some(d) => target_dir(d, "release"),
            None => target_dir(".", "release"),
        }
    }

    /// A configuration with the given environment, binary directory and
    /// working directory.
    pub fn with_config(env_vars: Environment, bin_path: String, current_dir: String) -> (init: Self)
        ensures
            init.env_vars@ == env_vars@,
            init.bin_path@ == bin_path@,
            init.current_dir@ == current_dir@,
    {
        Init { env_vars, bin_path, current_dir }
    }

    /// A configuration whose environment holds the pairs `env_vars` (a later
    /// pair wins over an earlier one with the same name).
    pub fn with_config_map(env_vars: Vec<(String, String)>, bin_path: String, current_dir: String) -> (init:
        Self)
        ensures
            init.env_vars@ == pairs_map(env_vars@),
            init.bin_path@ == bin_path@,
            init.current_dir@ == current_dir@,
    {
        Init { env_vars: Environment::with_vars(env_vars), bin_path, current_dir }
    }

    /// The value of the environment variable `key`.
    pub fn get_env(&self, key: &str) -> (r: Option<&str>)
        ensures
            match r {
                Some(v) => self.env_vars@.contains_key(key@) && v@ == self.env_vars@[key@],
                None => !self.env_vars@.contains_key(key@),
            },
    {
        self.env_vars.get(key)
    }

    /// Sets the environment variable `key` to `value`.
    pub fn set_env(&mut self, key: String, value: String)
        ensures
            final(self).env_vars@ == old(self).env_vars@.insert(key@, value@),
            final(self).bin_path == old(self).bin_path,
            final(self).current_dir == old(self).current_dir,
    {
        self.env_vars.set(key.as_str(), value.as_str());
    }

    /// The environment variables.
    pub fn env_vars(&self) -> (r: &Environment)
        ensures
            r@ == self.env_vars@,
    {
        &self.env_vars
    }

    /// The working directory.
    pub fn current_dir(&self) -> (r: &str)
        ensures
            r@ == self.current_dir@,
    {
        self.current_dir.as_str()
    }

    /// The directory that `cd path` goes to: the `HOME` variable for an empty
    /// path (an error when it is not set), an absolute path as it is, and a
    /// relative one joined to the working directory.
    pub fn cd_target(&self, path: &str) -> (r: Result<String, String>)
        ensures
            r matches Ok(t) ==> t@ == (if path@.len() == 0 {
                self.env_vars@["HOME"@]
            } else {
                path_join(self.current_dir@, path@)
            }),
            r is Err <==> path@.len() == 0 && !self.env_vars@.contains_key("HOME"@),
            r matches Err(m) ==> m@ == "cd: HOME not set"@,
    {
        let p = chars_of(path);
        if p.len() == 0 {
            match self.get_env("HOME") {
                Some(home) => Ok(String::from_str(home)),
                None => Err(String::from_str("cd: HOME not set")),
            }
        } else {
            assert(p@.len() > 0);
            Ok(join_path(self.current_dir.as_str(), path))
        }
    }

    /// Makes `dir` the working directory, given what the file system says of
    /// it (`status`): its canonical path becomes current, or the matching
    /// error is returned and nothing changes.
    pub fn set_current_dir(&mut self, dir: &str, status: DirStatus) -> (r: Result<(), String>)
        ensures
            final(self).env_vars == old(self).env_vars,
            final(self).bin_path == old(self).bin_path,
            match cd_outcome(dir@, status) {
                Ok(p) => r is Ok && final(self).current_dir@ == p,
                Err(m) => r matches Err(e) && e@ == m && final(self).current_dir == old(self).current_dir,
            },
    {
        match status {
            DirStatus::Missing => Err(cd_error_message(dir, "No such file or directory")),
            DirStatus::NotADirectory => Err(cd_error_message(dir, "Not a directory")),
            DirStatus::Resolved(p) => {
                self.current_dir = p;
                Ok(())
            },
            DirStatus::Unresolvable(e) => Err(cd_error_message(dir, e.as_str())),
        }
    }

    /// Changes the working directory as `cd path` does; `status` is what the
    /// file system says of the directory that `cd_target(path)` names. Going
    /// up with `..` fails where that leaves the directory as it is, at the
    /// root.
    pub fn change_dir(&mut self, path: &str, status: DirStatus) -> (r: Result<(), String>)
        ensures
            final(self).env_vars == old(self).env_vars,
            final(self).bin_path == old(self).bin_path,
            path@.len() == 0 && !old(self).env_vars@.contains_key("HOME"@) ==> (r matches Err(m) && m@
                == "cd: HOME not set"@ && final(self).current_dir == old(self).current_dir),
            !(path@.len() == 0 && !old(self).env_vars@.contains_key("HOME"@)) ==> {
                let target = if path@.len() == 0 {
                    old(self).env_vars@["HOME"@]
                } else {
                    path_join(old(self).current_dir@, path@)
                };
                if no_parent(path@, status, old(self).current_dir@) {
                    r matches Err(e) && e@ == cd_error(target, "No parent directory"@) && final(self).current_dir
                        == old(self).current_dir
                } else {
                    match cd_outcome(target, status) {
                        Ok(p) => r is Ok && final(self).current_dir@ == p,
                        Err(m) => r matches Err(e) && e@ == m && final(self).current_dir
                            == old(self).current_dir,
                    }
                }
            },
    {
        match self.cd_target(path) {
            Err(m) => Err(m),
            Ok(target) => {
                let up = str_equal(path, "..");
                let stays = match &status {
                    DirStatus::Resolved(p) => str_equal(p.as_str(), self.current_dir.as_str()),
                    _ => false,
                };
                if up && stays {
                    proof {
                        reveal_strlit("..");
                    }
                    Err(cd_error_message(target.as_str(), "No parent directory"))
                } else {
                    proof {
                        reveal_strlit("..");
                    }
                    self.set_current_dir(target.as_str(), status)
                }
            },
        }
    }
}

/// A command-line processor with the default configuration.
pub fn build_input_processor() -> (p: InputProcessor)
    ensures
        p == InputProcessor::default_processor(),
{
    InputProcessorBuilder::new().build()
}

} // verus!
