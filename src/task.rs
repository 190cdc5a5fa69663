//! Task descriptors: what a task file declares, checked into a task that
//! can be scheduled.
use vstd::prelude::*;

use crate::error::{ConfigError, TaskError};
use crate::names::{contains_name, has_name};

verus! {

#[verifier::external_type_specification]
#[verifier::external_body]
pub struct ExYamlValue(serde_yaml::Value);

/// The stem of the last component of a path, as camino computes it.
pub uninterp spec fn file_stem_of(path: Seq<char>) -> Option<Seq<char>>;

/// Relies on `camino::Utf8Path::file_stem`: the file name of the path
/// without its final extension, or `None` when the path has no file name.
#[verifier::external_body]
fn path_file_stem(path: &str) -> (r: Option<String>)
    ensures
        match r {
            Some(s) => file_stem_of(path@) == Some(s@),
            None => file_stem_of(path@) is None,
        },
{
    camino::Utf8Path::new(path).file_stem().map(|s| s.to_owned())
}

/// Status of a task. A task starts `Incomplete` and changes once, to one of
/// the three terminal statuses.
#[derive(Debug)]
pub enum TaskStatus {
    /// Not finished yet.
    Incomplete,
    /// Skipped: nothing needed to be done, or a dependency failed.
    Skipped,
    /// Completed successfully.
    Passed,
    /// Completed unsuccessfully.
    Failed(TaskError),
}

impl TaskStatus {
    /// Passed, Skipped or Failed.
    pub open spec fn terminal(&self) -> bool {
        !(self is Incomplete)
    }

    /// Whether this status is terminal.
    pub fn is_terminal(&self) -> (r: bool)
        ensures
            r == self.terminal(),
    {
        !matches!(self, TaskStatus::Incomplete)
    }
}

/// The fields of a task file, as parsed.
#[derive(Debug)]
pub struct TaskConfig {
    /// Task name; the file stem when unset.
    pub name: Option<String>,
    /// Key/value pairs that the environment must hold for the task to run.
    pub constraints: Option<Vec<(String, String)>>,
    /// Tasks that must have finished beforehand.
    pub requires: Option<Vec<String>>,
    /// Whether to run this by default, or only when named explicitly.
    pub auto_run: Option<bool>,
    /// Library to call for the task.
    pub run_lib: Option<String>,
    /// Gating command: the main action runs only if this exits with 0.
    pub run_if_cmd: Option<Vec<String>>,
    /// Shell command that performs the task.
    pub run_cmd: Option<Vec<String>>,
    /// Description of the task.
    pub description: Option<String>,
    /// Whether the task needs elevated privileges.
    pub needs_sudo: bool,
    /// Payload handed to the library.
    pub data: Option<serde_yaml::Value>,
}

/// A checked task: a name, where it was declared, what it declares, and its
/// status in the current run.
#[derive(Debug)]
pub struct Task {
    pub name: String,
    pub path: String,
    pub config: TaskConfig,
    pub status: TaskStatus,
}

/// The dependencies a config declares (none when unset).
pub open spec fn requires_of(config: TaskConfig) -> Seq<String> {
    match config.requires {
        Some(v) => v@,
        None => Seq::empty(),
    }
}

/// The name a task gets from its file: the declared name, else the file stem.
pub open spec fn declared_name(path: Seq<char>, config: TaskConfig) -> Option<Seq<char>> {
    match config.name {
        Some(n) => Some(n@),
        None => file_stem_of(path),
    }
}

impl Task {
    /// A checked task: a non-empty name, exactly one main action, and no
    /// dependency on itself.
    pub open spec fn wf(&self) -> bool {
        &&& self.name@.len() > 0
        &&& self.config.run_lib is Some != self.config.run_cmd is Some
        &&& !has_name(requires_of(self.config), self.name@)
    }

    /// The dependencies of the task.
    pub open spec fn requires_spec(&self) -> Seq<String> {
        requires_of(self.config)
    }

    /// Whether the task runs without being named explicitly.
    pub open spec fn auto_run_spec(&self) -> bool {
        match self.config.auto_run {
            Some(b) => b,
            None => true,
        }
    }

    /// Checks a parsed task file read from `path` into a task with status
    /// `Incomplete`.
    pub fn from(path: &str, config: TaskConfig) -> (r: Result<Task, ConfigError>)
        ensures
            match declared_name(path@, config) {
                None => r matches Err(ConfigError::NoName { path: p }) && p@ == path@,
                Some(n) => {
                    if n.len() == 0 {
                        r matches Err(ConfigError::EmptyName { path: p }) && p@ == path@
                    } else if config.run_lib is None && config.run_cmd is None {
                        r matches Err(ConfigError::InvalidTask { name }) && name@ == n
                    } else if config.run_lib is Some && config.run_cmd is Some {
                        r matches Err(ConfigError::AmbiguousTask { name }) && name@ == n
                    } else if has_name(requires_of(config), n) {
                        r matches Err(ConfigError::SelfDependency { name }) && name@ == n
                    } else {
                        r matches Ok(t) && t.wf() && t.name@ == n && t.path@ == path@
                            && t.config == config && t.status is Incomplete
                    }
                },
            },
    {
        let name = match &config.name {
            Some(n) => n.clone(),
            None => match path_file_stem(path) {
                Some(s) => s,
                None => {
                    return Err(ConfigError::NoName { path: path.to_owned() });
                },
            },
        };
        if name.as_str().is_empty() {
            return Err(ConfigError::EmptyName { path: path.to_owned() });
        }
        if config.run_lib.is_none() && config.run_cmd.is_none() {
            return Err(ConfigError::InvalidTask { name });
        }
        if config.run_lib.is_some() && config.run_cmd.is_some() {
            return Err(ConfigError::AmbiguousTask { name });
        }
        let self_dep = match &config.requires {
            Some(v) => contains_name(v, &name),
            None => false,
        };
        if self_dep {
            return Err(ConfigError::SelfDependency { name });
        }
        Ok(Task { name, path: path.to_owned(), config, status: TaskStatus::Incomplete })
    }
}

} // verus!
