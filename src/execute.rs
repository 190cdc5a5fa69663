//! The decisions of running one task. The caller runs each command or
//! library call that an [`Action`] asks for and reports how it ended; these
//! functions say what comes next. A gating command that exits 0 lets the
//! main action run, 204 skips the task, anything else fails it; the main
//! command passes on 0, skips on 204 and fails otherwise.
use vstd::prelude::*;

use crate::error::TaskError;
use crate::expand::{expand_all, substitute_all};
use crate::names::views;
use crate::schedule::Outcome;
use crate::status::{exit_meaning, exit_meaning_of, CommandType, ExitMeaning};
use crate::task::{Task, TaskStatus};

verus! {

/// The task libraries a task can call.
#[derive(Debug, Clone, Copy, PartialEq, Eq, Structural)]
pub enum Library {
    /// Symlink manager.
    Link,
    /// Git repository synchroniser.
    Git,
    /// Generator of git repository configuration.
    GenerateGit,
    /// System preference writer.
    Defaults,
    /// Self-updater.
    UpdateSelf,
}

/// The library a `run_lib` identifier names.
pub open spec fn library_spec(id: Seq<char>) -> Option<Library> {
    if id == "link"@ {
        Some(Library::Link)
    } else if id == "git"@ {
        Some(Library::Git)
    } else if id == "generate_git"@ {
        Some(Library::GenerateGit)
    } else if id == "defaults"@ {
        Some(Library::Defaults)
    } else if id == "self"@ {
        Some(Library::UpdateSelf)
    } else {
        None
    }
}

/// Resolves a `run_lib` identifier.
pub fn library_of(id: &String) -> (r: Option<Library>)
    ensures
        r == library_spec(id@),
{
    if *id == String::from_str("link") {
        Some(Library::Link)
    } else if *id == String::from_str("git") {
        Some(Library::Git)
    } else if *id == String::from_str("generate_git") {
        Some(Library::GenerateGit)
    } else if *id == String::from_str("defaults") {
        Some(Library::Defaults)
    } else if *id == String::from_str("self") {
        Some(Library::UpdateSelf)
    } else {
        None
    }
}

/// How a finished task ended, when it did not fail.
#[derive(Debug, Clone, Copy, PartialEq, Eq, Structural)]
pub enum Ending {
    Passed,
    Skipped,
}

/// What the caller should do next for a task.
#[derive(Debug)]
pub enum Action {
    /// Run this command (arguments already substituted).
    RunCommand { command_type: CommandType, cmd: Vec<String> },
    /// Call this library with the task's data.
    CallLibrary { library: Library },
    /// The task is finished.
    Finish(Ending),
}

impl Task {
    /// The main action: a library call (its data is required except for
    /// the self-updater), or the main command with the environment
    /// substituted.
    /// What [`Task::main_action`] returns for the task and environment.
    pub open spec fn main_action_spec(&self, env: Seq<(String, String)>, r: Result<Action, TaskError>) -> bool {
        match self.config.run_lib {
            Some(lib) => match library_spec(lib@) {
                Some(l) => if self.config.data is None && l != Library::UpdateSelf {
                    r matches Err(TaskError::TaskDataRequired { task }) && task@ == self.name@
                } else {
                    r matches Ok(Action::CallLibrary { library }) && library == l
                },
                None => r matches Err(TaskError::UnimplementedLibrary { name, lib: l2 }) && name@ == self.name@
                    && l2@ == lib@,
            },
            None => match self.config.run_cmd {
                Some(cmd) => match expand_all(cmd@, env) {
                    Ok(v) => r matches Ok(Action::RunCommand { command_type, cmd: c }) && command_type
                        == CommandType::Run && views(c@) == v,
                    Err(var) => r matches Err(TaskError::ResolveEnv { var: x }) && x@ == var,
                },
                None => r matches Err(TaskError::MissingCmd { name }) && name@ == self.name@,
            },
        }
    }

    /// The main action of the task, with the environment substituted into
    /// its command.
    pub fn main_action(&self, env: &Vec<(String, String)>) -> (r: Result<Action, TaskError>)
        ensures
            self.main_action_spec(env@, r),
    {
        if let Some(lib) = &self.config.run_lib {
            match library_of(lib) {
                Some(l) => {
                    if self.config.data.is_none() && l != Library::UpdateSelf {
                        return Err(TaskError::TaskDataRequired { task: self.name.clone() });
                    }
                    return Ok(Action::CallLibrary { library: l });
                },
                None => {
                    return Err(TaskError::UnimplementedLibrary { name: self.name.clone(), lib: lib.clone() });
                },
            }
        }
        match &self.config.run_cmd {
            Some(cmd) => match substitute_all(cmd, env) {
                Ok(c) => Ok(Action::RunCommand { command_type: CommandType::Run, cmd: c }),
                Err(var) => Err(TaskError::ResolveEnv { var }),
            },
            None => Err(TaskError::MissingCmd { name: self.name.clone() }),
        }
    }

    /// The first action of a task: its gating command if it has one, with
    /// the environment substituted, else its main action.
    pub fn try_run(&self, env: &Vec<(String, String)>) -> (r: Result<Action, TaskError>)
        ensures
            match self.config.run_if_cmd {
                Some(cmd) => match expand_all(cmd@, env@) {
                    Ok(v) => r matches Ok(Action::RunCommand { command_type, cmd: c }) && command_type
                        == CommandType::RunIf && views(c@) == v,
                    Err(var) => r matches Err(TaskError::ResolveEnv { var: x }) && x@ == var,
                },
                None => self.main_action_spec(env@, r),
            },
    {
        match &self.config.run_if_cmd {
            Some(cmd) => match substitute_all(cmd, env) {
                Ok(c) => Ok(Action::RunCommand { command_type: CommandType::RunIf, cmd: c }),
                Err(var) => Err(TaskError::ResolveEnv { var }),
            },
            None => self.main_action(env),
        }
    }

    /// How a command's exit maps for the task: `Ok(true)` on exit code 0,
    /// `Ok(false)` on 204, an error on any other code or on a signal
    /// (`code` is `None`).
    pub fn run_command(&self, command_type: CommandType, cmd: &Vec<String>, code: Option<i32>) -> (r: Result<
        bool,
        TaskError,
    >)
        ensures
            exit_meaning_of(code) == ExitMeaning::Passed ==> r == Ok::<bool, TaskError>(true),
            exit_meaning_of(code) == ExitMeaning::Skipped ==> r == Ok::<bool, TaskError>(false),
            code is Some && exit_meaning_of(code) == ExitMeaning::Failed ==> (r matches Err(
                TaskError::CmdNonZero { command_type: t, name, cmd: x, code: c2 },
            ) && t == command_type && name@ == self.name@ && x@ == cmd@ && code == Some(c2)),
            code is None ==> (r matches Err(TaskError::CmdTerminated { command_type: t, name, cmd: x }) && t
                == command_type && name@ == self.name@ && x@ == cmd@),
    {
        match exit_meaning(code) {
            ExitMeaning::Passed => Ok(true),
            ExitMeaning::Skipped => Ok(false),
            ExitMeaning::Failed => match code {
                Some(c) => Err(
                    TaskError::CmdNonZero {
                        command_type,
                        name: self.name.clone(),
                        cmd: crate::names::copy_names(cmd),
                        code: c,
                    },
                ),
                None => Err(
                    TaskError::CmdTerminated {
                        command_type,
                        name: self.name.clone(),
                        cmd: crate::names::copy_names(cmd),
                    },
                ),
            },
        }
    }
}

impl Task {
    /// What comes after a command of the task exited with `code` (`None`
    /// when a signal ended it): the main action after a passing gating
    /// command, the end of the task after the main command or a skipping
    /// gating command, and the command's error otherwise.
    pub fn after_command(
        &self,
        command_type: CommandType,
        cmd: &Vec<String>,
        code: Option<i32>,
        env: &Vec<(String, String)>,
    ) -> (r: Result<Action, TaskError>)
        ensures
            exit_meaning_of(code) == ExitMeaning::Passed && command_type == CommandType::RunIf ==> self.main_action_spec(env@, r),
            exit_meaning_of(code) == ExitMeaning::Passed && command_type == CommandType::Run ==> r matches Ok(Action::Finish(Ending::Passed)),
            exit_meaning_of(code) == ExitMeaning::Skipped ==> r matches Ok(Action::Finish(Ending::Skipped)),
            code is Some && exit_meaning_of(code) == ExitMeaning::Failed ==> (r matches Err(
                TaskError::CmdNonZero { command_type: t, name, cmd: x, code: c2 },
            ) && t == command_type && name@ == self.name@ && x@ == cmd@ && code == Some(c2)),
            code is None ==> (r matches Err(TaskError::CmdTerminated { command_type: t, name, cmd: x }) && t
                == command_type && name@ == self.name@ && x@ == cmd@),
    {
        match self.run_command(command_type, cmd, code) {
            Ok(true) => match command_type {
                CommandType::RunIf => self.main_action(env),
                CommandType::Run => Ok(Action::Finish(Ending::Passed)),
            },
            Ok(false) => Ok(Action::Finish(Ending::Skipped)),
            Err(e) => Err(e),
        }
    }

    /// How the task ends after its library `lib` returned: `Ok(true)` for
    /// work done, `Ok(false)` for nothing to do, or the library's error
    /// message.
    pub fn library_finished(&self, lib: &String, result: Result<bool, String>) -> (r: Result<Ending, TaskError>)
        ensures
            result == Ok::<bool, String>(true) ==> r == Ok::<Ending, TaskError>(Ending::Passed),
            result == Ok::<bool, String>(false) ==> r == Ok::<Ending, TaskError>(Ending::Skipped),
            result matches Err(m) ==> (r matches Err(TaskError::LibraryFailed { name, lib: l, message })
                && name@ == self.name@ && l@ == lib@ && message@ == m@),
    {
        match result {
            Ok(true) => Ok(Ending::Passed),
            Ok(false) => Ok(Ending::Skipped),
            Err(message) => Err(TaskError::LibraryFailed { name: self.name.clone(), lib: lib.clone(), message }),
        }
    }

    /// Records how the task ended; the status changes from `Incomplete`
    /// exactly once.
    pub fn run(&mut self, result: Result<Ending, TaskError>)
        requires
            old(self).status is Incomplete,
        ensures
            final(self).name == old(self).name,
            final(self).path == old(self).path,
            final(self).config == old(self).config,
            result == Ok::<Ending, TaskError>(Ending::Passed) ==> final(self).status is Passed,
            result == Ok::<Ending, TaskError>(Ending::Skipped) ==> final(self).status is Skipped,
            result matches Err(e) ==> final(self).status == TaskStatus::Failed(e),
    {
        self.status = match result {
            Ok(Ending::Passed) => TaskStatus::Passed,
            Ok(Ending::Skipped) => TaskStatus::Skipped,
            Err(e) => TaskStatus::Failed(e),
        };
    }

    /// The scheduling outcome of a finished task.
    pub fn outcome(&self) -> (r: Outcome)
        requires
            self.status.terminal(),
        ensures
            self.status is Passed ==> r == Outcome::Passed,
            self.status is Skipped ==> r == Outcome::Skipped,
            self.status is Failed ==> r == Outcome::Failed,
    {
        match self.status {
            TaskStatus::Passed => Outcome::Passed,
            TaskStatus::Skipped => Outcome::Skipped,
            _ => Outcome::Failed,
        }
    }

    /// Splits a command into its program and its arguments.
    pub fn get_command(cmd: &Vec<String>) -> (r: Result<(String, Vec<String>), TaskError>)
        ensures
            cmd@.len() == 0 ==> r matches Err(TaskError::EmptyCmd),
            cmd@.len() > 0 ==> (r matches Ok((program, args)) && program@ == cmd@[0]@ && args@ == cmd@.drop_first()),
    {
        if cmd.len() == 0 {
            return Err(TaskError::EmptyCmd);
        }
        let mut args: Vec<String> = Vec::new();
        let mut k: usize = 1;
        while k < cmd.len()
            invariant
                1 <= k <= cmd.len(),
                args@ == cmd@.subrange(1, k as int),
            decreases cmd.len() - k,
        {
            args.push(cmd[k].clone());
            k += 1;
            assert(args@ =~= cmd@.subrange(1, k as int));
        }
        assert(args@ =~= cmd@.drop_first());
        Ok((cmd[0].clone(), args))
    }
}

} // verus!
