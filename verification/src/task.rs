//! The task record: immutable identity plus result fields that are set
//! exactly once, when the task finishes.

use vstd::prelude::*;

use crate::messages::NewTask;

verus! {

/// One dispatched work item. Created on admission, moved
/// queued -> running -> finished, and never mutated after finishing.
#[derive(Debug)]
pub struct Task {
    pub webhook_name: String,
    pub task_id: i32,
    pub command: String,
    pub cwd: String,
    pub exit_code: Option<u32>,
    pub stdout: Option<String>,
    pub stderr: Option<String>,
    pub added_at: String,
}

/// The task that admission builds from an incoming request: fields copied
/// over, the issued id, and no results yet.
pub open spec fn task_of(new_task: NewTask, id: i32) -> Task {
    Task {
        webhook_name: new_task.webhook_name,
        task_id: id,
        command: new_task.command,
        cwd: new_task.cwd,
        exit_code: None,
        stdout: None,
        stderr: None,
        added_at: new_task.added_at,
    }
}

impl Task {
    pub fn new(new_task: NewTask, id: i32) -> (task: Task)
        ensures
            task == task_of(new_task, id),
    {
        Task {
            webhook_name: new_task.webhook_name,
            task_id: id,
            command: new_task.command,
            cwd: new_task.cwd,
            exit_code: None,
            stdout: None,
            stderr: None,
            added_at: new_task.added_at,
        }
    }
}

impl Clone for Task {
    fn clone(&self) -> (res: Task)
        ensures
            res == *self,
    {
        Task {
            webhook_name: self.webhook_name.clone(),
            task_id: self.task_id,
            command: self.command.clone(),
            cwd: self.cwd.clone(),
            exit_code: self.exit_code,
            stdout: self.stdout.clone(),
            stderr: self.stderr.clone(),
            added_at: self.added_at.clone(),
        }
    }
}

} // verus!
