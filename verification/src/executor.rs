//! The executor's reporting rules. Spawning the shell command, capturing
//! its output and waiting for it happen outside the library; this module
//! decides what a termination outcome means and builds the completion
//! report, so that every executor reports the same way.

use vstd::prelude::*;

use crate::messages::{StartTask, TaskCompleted};

verus! {

/// How a child process ended, as plain data.
#[derive(Clone, Copy, PartialEq, Eq, Structural, Debug)]
pub enum ProcessOutcome {
    /// A normal exit with this code.
    Exited(u32),
    /// Killed by a signal.
    Signaled,
    /// Some other platform-specific outcome.
    Other,
    /// The outcome could not be determined.
    Undetermined,
}

/// The exit code a report carries: the child's own code on a normal exit,
/// `1` for every abnormal outcome.
pub open spec fn exit_code_of(outcome: ProcessOutcome) -> u32 {
    match outcome {
        ProcessOutcome::Exited(code) => code,
        ProcessOutcome::Signaled => 1,
        ProcessOutcome::Other => 1,
        ProcessOutcome::Undetermined => 1,
    }
}

/// Build the one completion report for a finished task: the task's
/// identity, the exit code its outcome stands for, and the captured
/// streams.
pub fn build_task_completed(
    task: StartTask,
    outcome: ProcessOutcome,
    stdout: String,
    stderr: String,
) -> (message: TaskCompleted)
    ensures
        message.webhook_name == task.webhook_name,
        message.task_id == task.task_id,
        message.exit_code == exit_code_of(outcome),
        message.stdout == stdout,
        message.stderr == stderr,
{
    let exit_code = match outcome {
        ProcessOutcome::Exited(code) => code,
        ProcessOutcome::Signaled => 1,
        ProcessOutcome::Other => 1,
        ProcessOutcome::Undetermined => 1,
    };
    TaskCompleted {
        webhook_name: task.webhook_name,
        task_id: task.task_id,
        exit_code,
        stdout,
        stderr,
    }
}

} // verus!
