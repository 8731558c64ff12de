//! The messages exchanged between the web front-end, the scheduler and the
//! executor pool. All of them are plain values: the surrounding runtime owns
//! the mailboxes and reply handles.

use vstd::prelude::*;

verus! {

/// Request for a JSON snapshot of the current queue state.
#[derive(Debug)]
pub struct GetQueue;

/// A fully prepared piece of work: the command is already rendered, no
/// further interpolation happens after this point.
#[derive(Debug)]
pub struct NewTask {
    pub webhook_name: String,
    pub parameters: Vec<(String, String)>,
    pub cwd: String,
    pub command: String,
    pub added_at: String,
}

/// Order to an executor to run one task. The reply handle back to the
/// scheduler lives with the runtime that owns the executor pool.
#[derive(Debug)]
pub struct StartTask {
    pub webhook_name: String,
    pub task_id: i32,
    pub command: String,
    pub cwd: String,
}

/// An executor's report about one finished task.
#[derive(Debug)]
pub struct TaskCompleted {
    pub webhook_name: String,
    pub task_id: i32,
    pub exit_code: u32,
    pub stdout: String,
    pub stderr: String,
}

} // verus!
