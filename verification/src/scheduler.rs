//! The scheduler: the single owner of the task queue. It handles the three
//! message kinds one at a time — a new task, a completion report, a
//! snapshot request — and after every mutation runs a dispatch cycle whose
//! result the surrounding runtime must hand to the executor pool.

use vstd::prelude::*;

use crate::messages::{NewTask, StartTask, TaskCompleted};
use crate::queue_model::contains_id;
use crate::settings::{has_hook, names_unique, Settings};
use crate::snapshot::queue_json;
use crate::task::Task;
use crate::task_queue::{
    add_task_transition, dispatch_transition, finish_transition, TaskQueue,
};

verus! {

/// The order that starts one task: the identity and the rendered command,
/// nothing else.
pub open spec fn start_of(t: Task) -> StartTask {
    StartTask {
        webhook_name: t.webhook_name,
        task_id: t.task_id,
        command: t.command,
        cwd: t.cwd,
    }
}

/// Turn dispatched tasks into start orders, in dispatch order.
fn to_start_messages(tasks: Vec<Task>) -> (msgs: Vec<StartTask>)
    ensures
        msgs@ == tasks@.map_values(|t: Task| start_of(t)),
{
    let n = tasks.len();
    let mut msgs: Vec<StartTask> = Vec::new();
    let mut i: usize = 0;
    while i < n
        invariant
            0 <= i <= n,
            n == tasks@.len(),
            msgs@.len() == i,
            forall|k: int| 0 <= k < i ==> #[trigger] msgs@[k] == start_of(tasks@[k]),
        decreases n - i,
    {
        let t = &tasks[i];
        msgs.push(StartTask {
            webhook_name: t.webhook_name.clone(),
            task_id: t.task_id,
            command: t.command.clone(),
            cwd: t.cwd.clone(),
        });
        i += 1;
    }
    proof {
        assert(msgs@ =~= tasks@.map_values(|t: Task| start_of(t)));
    }
    msgs
}

/// The single serialiser of all queue mutations.
pub struct Scheduler {
    pub task_queue: TaskQueue,
}

impl Scheduler {
    /// A scheduler over a fresh, empty queue.
    pub fn new(settings: Settings) -> (scheduler: Scheduler)
        requires
            names_unique(settings.webhooks@),
        ensures
            scheduler.task_queue.wf(),
            scheduler.task_queue.settings == settings,
            scheduler.task_queue.max_id == 0,
            scheduler.task_queue.queued@ == Seq::<Task>::empty(),
            scheduler.task_queue.running@ == Seq::<Task>::empty(),
            scheduler.task_queue.finished@ == Seq::<Task>::empty(),
    {
        Scheduler { task_queue: TaskQueue::new(settings) }
    }

    /// Handle a new task: admit it (or not) under its webhook's policy,
    /// then run a dispatch cycle. The returned start orders must reach the
    /// executor pool.
    pub fn handle_new_task(&mut self, new_task: NewTask) -> (to_start: Vec<StartTask>)
        requires
            old(self).task_queue.wf(),
            has_hook(old(self).task_queue.settings.webhooks@, new_task.webhook_name@),
            old(self).task_queue.max_id < i32::MAX,
        ensures
            final(self).task_queue.wf(),
            exists|mid: TaskQueue, started: Seq<Task>|
                {
                    &&& #[trigger] add_task_transition(old(self).task_queue, mid, new_task)
                    &&& #[trigger] dispatch_transition(mid, final(self).task_queue, started)
                    &&& to_start@ == started.map_values(|t: Task| start_of(t))
                },
    {
        self.task_queue.add_task(new_task);
        let ghost mid = self.task_queue;
        let tasks = self.task_queue.get_tasks_for_dispatch();
        let ghost started = tasks@;
        let to_start = to_start_messages(tasks);
        proof {
            assert(add_task_transition(old(self).task_queue, mid, new_task));
            assert(dispatch_transition(mid, self.task_queue, started));
        }
        to_start
    }

    /// Handle a completion report: move the task to `finished` with its
    /// results, then run a dispatch cycle over the freed slot. The returned
    /// start orders must reach the executor pool.
    pub fn handle_task_completed(&mut self, message: TaskCompleted) -> (to_start: Vec<StartTask>)
        requires
            old(self).task_queue.wf(),
            contains_id(old(self).task_queue.running@, message.task_id),
        ensures
            final(self).task_queue.wf(),
            exists|mid: TaskQueue, started: Seq<Task>|
                {
                    &&& #[trigger] finish_transition(old(self).task_queue, mid, message)
                    &&& #[trigger] dispatch_transition(mid, final(self).task_queue, started)
                    &&& to_start@ == started.map_values(|t: Task| start_of(t))
                },
    {
        self.task_queue.finish_task(message);
        let ghost mid = self.task_queue;
        let tasks = self.task_queue.get_tasks_for_dispatch();
        let ghost started = tasks@;
        let to_start = to_start_messages(tasks);
        proof {
            assert(finish_transition(old(self).task_queue, mid, message));
            assert(dispatch_transition(mid, self.task_queue, started));
        }
        to_start
    }

    /// Handle a snapshot request: the queue state as JSON.
    pub fn handle_get_queue(&self) -> (json: String)
        requires
            self.task_queue.wf(),
        ensures
            json@ == queue_json(self.task_queue),
    {
        self.task_queue.snapshot_json()
    }
}

} // verus!
