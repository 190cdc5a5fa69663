//! Task statuses, the commands a task runs, and how a command's exit code
//! becomes a status.
use vstd::prelude::*;

verus! {

/// Exit code with which a command asks for its task to be skipped.
pub const SKIP_EXIT_CODE: i32 = 204;

/// The two shell commands a task may declare.
#[derive(Debug, Clone, Copy, PartialEq, Eq, Structural)]
pub enum CommandType {
    /// The gating command (`run_if_cmd`).
    RunIf,
    /// The main command (`run_cmd`).
    Run,
}

impl CommandType {
    /// Human-readable name of the command kind.
    pub fn describe(&self) -> (r: String)
        ensures
            r@ == self.description(),
    {
        match self {
            CommandType::Run => String::from_str("run command"),
            CommandType::RunIf => String::from_str("run_if command"),
        }
    }

    /// The name that [`CommandType::describe`] returns.
    pub open spec fn description(&self) -> Seq<char> {
        match self {
            CommandType::Run => "run command"@,
            CommandType::RunIf => "run_if command"@,
        }
    }
}

/// The status a command's exit maps to.
#[derive(Debug, Clone, Copy, PartialEq, Eq, Structural)]
pub enum ExitMeaning {
    Passed,
    Skipped,
    Failed,
}

/// The uniform exit-code convention: 0 passes, 204 skips, anything else
/// (another code, or termination by a signal) fails.
pub open spec fn exit_meaning_of(code: Option<i32>) -> ExitMeaning {
    match code {
        Some(c) => if c == 0 {
            ExitMeaning::Passed
        } else if c == SKIP_EXIT_CODE {
            ExitMeaning::Skipped
        } else {
            ExitMeaning::Failed
        },
        None => ExitMeaning::Failed,
    }
}

/// Maps a process exit code (`None` for signal termination) to its meaning.
pub fn exit_meaning(code: Option<i32>) -> (r: ExitMeaning)
    ensures
        r == exit_meaning_of(code),
        code == Some(0i32) ==> r == ExitMeaning::Passed,
        code == Some(SKIP_EXIT_CODE) ==> r == ExitMeaning::Skipped,
        (code.is_none() || (code.unwrap() != 0 && code.unwrap() != SKIP_EXIT_CODE)) ==> r
            == ExitMeaning::Failed,
{
    match code {
        Some(c) => if c == 0 {
            ExitMeaning::Passed
        } else if c == SKIP_EXIT_CODE {
            ExitMeaning::Skipped
        } else {
            ExitMeaning::Failed
        },
        None => ExitMeaning::Failed,
    }
}

} // verus!
