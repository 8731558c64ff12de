//! The task queue: the current state of all tasks, the admission decision
//! for new ones, the dispatch decision for queued ones, and the bookkeeping
//! when one finishes.
//!
//! `wf` is the queue's invariant and every operation preserves it: the
//! per-webhook counters agree with the collections, ids ascend and partition
//! across queued / running / finished, at most `workers` tasks run, and each
//! webhook's policy bound holds.

use vstd::pervasive::VecAdditionalExecFns;
use vstd::prelude::*;

use crate::messages::{NewTask, TaskCompleted};
use crate::queue_model::{
    contains_id, count_matching, dispatch_walk, eligible, ids_disjoint, ids_in_range,
    index_of_id, insert_all, insert_by_id, lemma_count_at_least_one, lemma_count_nonneg,
    lemma_count_push, lemma_count_remove, lemma_index_of_id_is, lemma_insert_all_push,
    lemma_insert_by_id, lemma_insert_by_id_sorted, lemma_remove_facts, lemma_sorted_len_bound,
    names_in_catalogue, sorted_by_id, vec_insert_by_id,
};
use crate::settings::{
    has_hook, hook_index_of, lemma_hook_index_is, names_unique, Settings, Webhook, WebhookMode,
};
use crate::task::{task_of, Task};

verus! {

/// One webhook's policy bound over its two counters.
pub open spec fn policy_at(queued_count: usize, running_count: usize, hook: Webhook) -> bool {
    match hook.mode {
        WebhookMode::Single => queued_count + running_count <= 1,
        WebhookMode::Deploy => queued_count <= 1,
        WebhookMode::Parallel => running_count <= hook.parallel_processes,
    }
}

/// The task a finished one becomes: the executor's report moved into the
/// result fields, everything else untouched.
pub open spec fn completed_task(t: Task, completed: TaskCompleted) -> Task {
    Task {
        exit_code: Some(completed.exit_code),
        stdout: Some(completed.stdout),
        stderr: Some(completed.stderr),
        ..t
    }
}

/// What admission does to the queue: on a rejected name nothing, on an
/// admitted one the next id is issued, the new task joins the back of the
/// queue and its webhook's queued counter grows; `running` and `finished`
/// never move. The invariant is preserved either way.
pub open spec fn add_task_transition(pre: TaskQueue, post: TaskQueue, incoming: NewTask) -> bool {
    &&& post.wf()
    &&& post.settings == pre.settings
    &&& post.running@ == pre.running@
    &&& post.finished@ == pre.finished@
    &&& post.running_count@ == pre.running_count@
    &&& post.max_id >= pre.max_id
    &&& (!pre.admits(incoming.webhook_name@) ==> post == pre)
    &&& (pre.admits(incoming.webhook_name@) ==> {
        let i = hook_index_of(pre.settings.webhooks@, incoming.webhook_name@);
        &&& post.max_id == pre.max_id + 1
        &&& post.queued@ == pre.queued@.push(task_of(incoming, (pre.max_id + 1) as i32))
        &&& post.queued_count@ == pre.queued_count@.update(
            i,
            (pre.queued_count@[i] + 1) as usize,
        )
    })
}

/// What one dispatch cycle does to the queue: exactly what the dispatch
/// walk over the queued tasks decides, with each dispatched task moved into
/// `running` at its id's place; at most the free slots under the worker cap
/// are handed out, and `finished` and `max_id` never move.
pub open spec fn dispatch_transition(pre: TaskQueue, post: TaskQueue, result: Seq<Task>) -> bool {
    let slots = pre.settings.workers - pre.running@.len();
    let w = dispatch_walk(
        pre.settings.webhooks@,
        pre.queued@,
        pre.queued_count@,
        pre.running_count@,
        slots,
    );
    &&& post.wf()
    &&& post.settings == pre.settings
    &&& post.max_id == pre.max_id
    &&& post.finished@ == pre.finished@
    &&& result == w.1
    &&& post.queued@ == w.0
    &&& post.queued_count@ == w.2
    &&& post.running_count@ == w.3
    &&& post.running@ == insert_all(pre.running@, result)
    &&& result.len() + pre.running@.len() <= pre.settings.workers
}

/// What finishing a task does to the queue: the task with the reported id
/// leaves `running`, its results are filled in exactly once, it joins
/// `finished` at its id's place, and its webhook's running counter shrinks;
/// the queue of waiting tasks never moves.
pub open spec fn finish_transition(pre: TaskQueue, post: TaskQueue, completed: TaskCompleted) -> bool {
    let k = index_of_id(pre.running@, completed.task_id);
    let done = completed_task(pre.running@[k], completed);
    let i = hook_index_of(pre.settings.webhooks@, pre.running@[k].webhook_name@);
    &&& post.wf()
    &&& post.settings == pre.settings
    &&& post.max_id == pre.max_id
    &&& post.queued@ == pre.queued@
    &&& post.queued_count@ == pre.queued_count@
    &&& post.running@ == pre.running@.remove(k)
    &&& post.finished@ == insert_by_id(pre.finished@, done)
    &&& post.running_count@ == pre.running_count@.update(
        i,
        (pre.running_count@[i] - 1) as usize,
    )
}

/// With no workers configured, a dispatch cycle starts nothing and moves
/// nothing: every queued task stays queued.
pub proof fn lemma_no_workers_no_dispatch(pre: TaskQueue, post: TaskQueue, result: Seq<Task>)
    requires
        pre.wf(),
        dispatch_transition(pre, post, result),
        pre.settings.workers == 0,
    ensures
        result == Seq::<Task>::empty(),
        post.queued@ == pre.queued@,
        post.running@ == pre.running@,
        post.queued_count@ == pre.queued_count@,
        post.running_count@ == pre.running_count@,
{
    assert(pre.running@.len() == 0);
    assert(result.len() == 0);
    assert(result =~= Seq::<Task>::empty());
    assert(insert_all(pre.running@, result) == pre.running@);
}

/// Within one dispatch cycle the started tasks keep admission order: their
/// ids ascend, and each comes out of the queue it was admitted to.
pub proof fn lemma_dispatch_respects_admission_order(
    pre: TaskQueue,
    post: TaskQueue,
    result: Seq<Task>,
)
    requires
        pre.wf(),
        dispatch_transition(pre, post, result),
    ensures
        sorted_by_id(result),
        forall|k: int| 0 <= k < result.len() ==> contains_id(pre.queued@, #[trigger] result[k].task_id),
{
    crate::queue_model::lemma_walk_dispatch_sorted(
        pre.settings.webhooks@,
        pre.queued@,
        pre.queued_count@,
        pre.running_count@,
        pre.settings.workers - pre.running@.len(),
    );
}

/// The current state of all tasks, and the decisions about them.
#[derive(Debug)]
pub struct TaskQueue {
    pub max_id: i32,
    pub settings: Settings,
    pub queued_count: Vec<usize>,
    pub running_count: Vec<usize>,
    pub queued: Vec<Task>,
    pub running: Vec<Task>,
    pub finished: Vec<Task>,
}

impl TaskQueue {
    /// The queue's invariant; established by `new` and preserved by every
    /// operation.
    pub open spec fn wf(self) -> bool {
        let hooks = self.settings.webhooks@;
        &&& names_unique(hooks)
        &&& self.max_id >= 0
        &&& self.queued_count@.len() == hooks.len()
        &&& self.running_count@.len() == hooks.len()
        &&& forall|i: int|
            0 <= i < hooks.len() ==> #[trigger] self.queued_count@[i] == count_matching(
                self.queued@,
                hooks[i].name@,
            )
        &&& forall|i: int|
            0 <= i < hooks.len() ==> #[trigger] self.running_count@[i] == count_matching(
                self.running@,
                hooks[i].name@,
            )
        &&& sorted_by_id(self.queued@)
        &&& sorted_by_id(self.running@)
        &&& sorted_by_id(self.finished@)
        &&& ids_in_range(self.queued@, self.max_id)
        &&& ids_in_range(self.running@, self.max_id)
        &&& ids_in_range(self.finished@, self.max_id)
        &&& ids_disjoint(self.queued@, self.running@)
        &&& ids_disjoint(self.queued@, self.finished@)
        &&& ids_disjoint(self.running@, self.finished@)
        &&& names_in_catalogue(self.queued@, hooks)
        &&& names_in_catalogue(self.running@, hooks)
        &&& self.running@.len() <= self.settings.workers
        &&& forall|i: int|
            0 <= i < hooks.len() ==> policy_at(
                self.queued_count@[i],
                self.running_count@[i],
                #[trigger] hooks[i],
            )
    }

    /// Whether the admission policy lets a task of this webhook in right
    /// now. Meaningful for names of the catalogue.
    pub open spec fn admits(self, name: Seq<char>) -> bool {
        let i = hook_index_of(self.settings.webhooks@, name);
        match self.settings.webhooks@[i].mode {
            WebhookMode::Single => self.queued_count@[i] == 0 && self.running_count@[i] == 0,
            WebhookMode::Deploy => self.queued_count@[i] == 0,
            WebhookMode::Parallel => true,
        }
    }

    /// An empty queue over this catalogue: no ids issued yet, a zeroed
    /// counter row for every webhook.
    pub fn new(settings: Settings) -> (queue: TaskQueue)
        requires
            names_unique(settings.webhooks@),
        ensures
            queue.wf(),
            queue.settings == settings,
            queue.max_id == 0,
            queue.queued@ == Seq::<Task>::empty(),
            queue.running@ == Seq::<Task>::empty(),
            queue.finished@ == Seq::<Task>::empty(),
    {
        let n = settings.webhooks.len();
        let mut queued_count: Vec<usize> = Vec::new();
        let mut running_count: Vec<usize> = Vec::new();
        let mut i: usize = 0;
        while i < n
            invariant
                0 <= i <= n,
                queued_count@.len() == i,
                running_count@.len() == i,
                forall|k: int| 0 <= k < i ==> #[trigger] queued_count@[k] == 0,
                forall|k: int| 0 <= k < i ==> #[trigger] running_count@[k] == 0,
            decreases n - i,
        {
            queued_count.push(0);
            running_count.push(0);
            i += 1;
        }
        let queue = TaskQueue {
            max_id: 0,
            settings,
            queued_count,
            running_count,
            queued: Vec::new(),
            running: Vec::new(),
            finished: Vec::new(),
        };
        proof {
            assert(queue.queued@ =~= Seq::<Task>::empty());
            assert(queue.running@ =~= Seq::<Task>::empty());
            assert(queue.finished@ =~= Seq::<Task>::empty());
        }
        queue
    }

    /// The index of the catalogue entry carrying this name.
    #[verifier::loop_isolation(false)]
    fn find_hook_index(&self, name: &String) -> (idx: usize)
        requires
            names_unique(self.settings.webhooks@),
            has_hook(self.settings.webhooks@, name@),
        ensures
            idx < self.settings.webhooks@.len(),
            self.settings.webhooks@[idx as int].name@ == name@,
            idx as int == hook_index_of(self.settings.webhooks@, name@),
    {
        let n = self.settings.webhooks.len();
        let mut i: usize = 0;
        while i < n
            invariant
                0 <= i <= n,
                n == self.settings.webhooks@.len(),
                forall|j: int| 0 <= j < i ==> #[trigger] self.settings.webhooks@[j].name@ != name@,
            decreases n - i,
        {
            if self.settings.webhooks[i].name == *name {
                proof {
                    lemma_hook_index_is(self.settings.webhooks@, i as int);
                }
                return i;
            }
            i += 1;
        }
        proof {
            let j = choose|j: int|
                0 <= j < self.settings.webhooks@.len() && #[trigger] self.settings.webhooks@[
                    j
                ].name@ == name@;
            assert(false);
        }
        0
    }

    /// Decide whether a new task is admitted. `single` admits only while no
    /// task of the webhook exists at all, `deploy` only while none waits in
    /// the queue, `parallel` always. On admission the next id is issued and
    /// the task joins the back of the queue; a rejection changes nothing and
    /// is not an error.
    #[verifier::loop_isolation(false)]
    pub fn add_task(&mut self, incoming: NewTask)
        requires
            old(self).wf(),
            has_hook(old(self).settings.webhooks@, incoming.webhook_name@),
            old(self).max_id < i32::MAX,
        ensures
            add_task_transition(*old(self), *final(self), incoming),
    {
        let idx = self.find_hook_index(&incoming.webhook_name);
        let mode = self.settings.webhooks[idx].mode;
        let qc = self.queued_count[idx];
        let rc = self.running_count[idx];
        let accept = match mode {
            WebhookMode::Single => qc == 0 && rc == 0,
            WebhookMode::Deploy => qc == 0,
            WebhookMode::Parallel => true,
        };
        if !accept {
            return ;
        }
        proof {
            lemma_count_nonneg(self.queued@, self.settings.webhooks@[idx as int].name@);
            lemma_sorted_len_bound(self.queued@, self.max_id);
        }
        self.max_id = self.max_id + 1;
        let ghost old_queued = self.queued@;
        let ghost hooks = self.settings.webhooks@;
        let task = Task::new(incoming, self.max_id);
        self.queued.push(task);
        self.queued_count.set(idx, qc + 1);
        proof {
            let t = task_of(incoming, self.max_id);
            assert forall|i: int| 0 <= i < hooks.len() implies #[trigger] self.queued_count@[i]
                == count_matching(self.queued@, hooks[i].name@) by {
                lemma_count_push(old_queued, t, hooks[i].name@);
                if i != idx as int {
                    assert(hooks[i].name@ != hooks[idx as int].name@);
                }
            }
            assert(ids_in_range(self.queued@, self.max_id));
            assert(sorted_by_id(self.queued@)) by {
                assert forall|i: int, j: int|
                    0 <= i < j < self.queued@.len() implies #[trigger] self.queued@[i].task_id
                    < #[trigger] self.queued@[j].task_id by {
                    if j == self.queued@.len() - 1 {
                        assert(self.queued@[i] == old_queued[i]);
                    }
                }
            }
            assert(names_in_catalogue(self.queued@, hooks));
            assert forall|i: int| 0 <= i < hooks.len() implies policy_at(
                self.queued_count@[i],
                self.running_count@[i],
                #[trigger] hooks[i],
            ) by {
                lemma_count_push(old_queued, t, hooks[i].name@);
            }
        }
    }

    /// Compute the tasks that start now, and move them from `queued` to
    /// `running`: walk the queue in admission order while slots under the
    /// global worker cap are free, dispatching every task whose webhook's
    /// policy allows one more running instance. An ineligible task keeps its
    /// place in the queue without blocking later ones. The caller must
    /// really start the returned tasks.
    #[verifier::loop_isolation(false)]
    #[verifier::rlimit(100)]
    pub fn get_tasks_for_dispatch(&mut self) -> (result: Vec<Task>)
        requires
            old(self).wf(),
        ensures
            dispatch_transition(*old(self), *final(self), result@),
    {
        let slots = self.settings.workers - self.running.len();
        let mut result: Vec<Task> = Vec::new();
        let ghost hooks = self.settings.webhooks@;
        let ghost old_queued = self.queued@;
        let ghost old_running = self.running@;
        let ghost w = dispatch_walk(
            hooks,
            old_queued,
            self.queued_count@,
            self.running_count@,
            slots as int,
        );
        if slots == 0 {
            proof {
                assert(w.0 == old_queued && w.1 == Seq::<Task>::empty());
                assert(result@ =~= Seq::<Task>::empty());
                assert(insert_all(old_running, result@) == old_running);
            }
            return result;
        }
        let mut pending: Vec<Task> = Vec::new();
        core::mem::swap(&mut self.queued, &mut pending);
        proof {
            assert(self.queued@ =~= Seq::<Task>::empty());
            assert(self.queued@ + pending@ =~= old_queued);
        }
        while pending.len() > 0
            invariant
                self.settings == old(self).settings,
                self.max_id == old(self).max_id,
                self.finished@ == old(self).finished@,
                self.queued_count@.len() == hooks.len(),
                self.running_count@.len() == hooks.len(),
                result@.len() <= slots,
                ({
                    let wr = dispatch_walk(
                        hooks,
                        pending@,
                        self.queued_count@,
                        self.running_count@,
                        slots as int - result@.len() as int,
                    );
                    &&& w.0 == self.queued@ + wr.0
                    &&& w.1 == result@ + wr.1
                    &&& w.2 == wr.2
                    &&& w.3 == wr.3
                }),
                sorted_by_id(self.queued@ + pending@),
                ids_in_range(self.queued@ + pending@, self.max_id),
                names_in_catalogue(self.queued@ + pending@, hooks),
                forall|i: int|
                    0 <= i < hooks.len() ==> #[trigger] self.queued_count@[i] == count_matching(
                        self.queued@ + pending@,
                        hooks[i].name@,
                    ),
                forall|i: int|
                    0 <= i < hooks.len() ==> #[trigger] self.running_count@[i] == count_matching(
                        self.running@,
                        hooks[i].name@,
                    ),
                sorted_by_id(self.running@),
                ids_in_range(self.running@, self.max_id),
                names_in_catalogue(self.running@, hooks),
                self.running@ == insert_all(old_running, result@),
                self.running@.len() == old_running.len() + result@.len(),
                ids_disjoint(self.queued@ + pending@, self.running@),
                ids_disjoint(self.queued@ + pending@, self.finished@),
                ids_disjoint(self.running@, self.finished@),
                forall|i: int|
                    0 <= i < hooks.len() ==> policy_at(
                        self.queued_count@[i],
                        self.running_count@[i],
                        #[trigger] hooks[i],
                    ),
            decreases pending@.len(),
        {
            let ghost queued_pre = self.queued@;
            let ghost pending_pre = pending@;
            let ghost avail_pre = self.queued@ + pending@;
            let ghost qc_pre = self.queued_count@;
            let ghost rc_pre = self.running_count@;
            let ghost running_pre = self.running@;
            let ghost result_pre = result@;
            let ghost wr_pre = dispatch_walk(
                hooks,
                pending_pre,
                qc_pre,
                rc_pre,
                slots as int - result_pre.len() as int,
            );
            let t = pending.remove(0);
            proof {
                assert(pending@ =~= pending_pre.drop_first());
                assert(t == avail_pre[queued_pre.len() as int]);
                assert(avail_pre.remove(queued_pre.len() as int) =~= queued_pre + pending@);
                lemma_remove_facts(avail_pre, queued_pre.len() as int);
            }
            if result.len() == slots {
                // every slot is taken: the rest of the queue stays in place
                self.queued.push(t);
                proof {
                    assert(wr_pre == (pending_pre, Seq::<Task>::empty(), qc_pre, rc_pre));
                    let wr = dispatch_walk(
                        hooks,
                        pending@,
                        self.queued_count@,
                        self.running_count@,
                        slots as int - result@.len() as int,
                    );
                    assert(wr == (pending@, Seq::<Task>::empty(), qc_pre, rc_pre));
                    assert(self.queued@ =~= queued_pre.push(t));
                    assert(self.queued@ + pending@ =~= avail_pre);
                }
                continue ;
            }
            proof {
                assert(has_hook(hooks, t.webhook_name@));
            }
            let idx = self.find_hook_index(&t.webhook_name);
            let mode = self.settings.webhooks[idx].mode;
            let limit = self.settings.webhooks[idx].parallel_processes;
            let rc = self.running_count[idx];
            let ok = match mode {
                WebhookMode::Single => true,
                WebhookMode::Deploy => rc == 0,
                WebhookMode::Parallel => rc < limit,
            };
            proof {
                lemma_hook_index_is(hooks, idx as int);
                assert(ok == eligible(
                    hooks[idx as int].mode,
                    rc_pre[idx as int] as int,
                    hooks[idx as int].parallel_processes as int,
                ));
            }
            if ok {
                let qc = self.queued_count[idx];
                proof {
                    lemma_count_at_least_one(avail_pre, queued_pre.len() as int, t.webhook_name@);
                    lemma_count_nonneg(running_pre, t.webhook_name@);
                }
                self.queued_count.set(idx, qc - 1);
                self.running_count.set(idx, rc + 1);
                proof {
                    // the dispatched id is fresh for `running`
                    assert(!contains_id(running_pre, t.task_id)) by {
                        if contains_id(running_pre, t.task_id) {
                            let j = choose|j: int|
                                0 <= j < running_pre.len() && #[trigger] running_pre[j].task_id
                                    == t.task_id;
                            assert(avail_pre[queued_pre.len() as int].task_id
                                != running_pre[j].task_id);
                        }
                    }
                    assert(1 <= t.task_id <= self.max_id);
                    lemma_insert_by_id_sorted(running_pre, t, self.max_id);
                    lemma_insert_all_push(old_running, result_pre, t);
                }
                let t_run = t.clone();
                vec_insert_by_id(&mut self.running, t_run);
                result.push(t);
                proof {
                    assert(result@ =~= result_pre.push(t));
                    lemma_insert_by_id(running_pre, t, t.webhook_name@);
                    assert forall|i: int|
                        0 <= i < hooks.len() implies #[trigger] self.running_count@[i]
                        == count_matching(self.running@, hooks[i].name@) by {
                        lemma_insert_by_id(running_pre, t, hooks[i].name@);
                        if i != idx as int {
                            assert(hooks[i].name@ != hooks[idx as int].name@);
                        }
                    }
                    assert forall|i: int|
                        0 <= i < hooks.len() implies #[trigger] self.queued_count@[i]
                        == count_matching(self.queued@ + pending@, hooks[i].name@) by {
                        lemma_count_remove(avail_pre, queued_pre.len() as int, hooks[i].name@);
                        if i != idx as int {
                            assert(hooks[i].name@ != hooks[idx as int].name@);
                        }
                    }
                    assert(names_in_catalogue(self.running@, hooks)) by {
                        lemma_insert_by_id(running_pre, t, t.webhook_name@);
                        assert forall|i: int| 0 <= i < self.running@.len() implies has_hook(
                            hooks,
                            #[trigger] self.running@[i].webhook_name@,
                        ) by {
                            if self.running@[i] != t {
                                assert(running_pre.contains(self.running@[i]));
                                let j = choose|j: int|
                                    0 <= j < running_pre.len() && running_pre[j] == self.running@[
                                        i
                                    ];
                                assert(has_hook(hooks, running_pre[j].webhook_name@));
                            }
                        }
                    }
                    assert(ids_disjoint(self.queued@ + pending@, self.running@)) by {
                        lemma_insert_by_id(running_pre, t, t.webhook_name@);
                        let avail = self.queued@ + pending@;
                        assert forall|i: int, j: int|
                            0 <= i < avail.len() && 0 <= j
                                < self.running@.len() implies #[trigger] avail[i].task_id
                            != #[trigger] self.running@[j].task_id by {
                            assert(contains_id(self.running@, self.running@[j].task_id));
                            if self.running@[j].task_id == t.task_id {
                                // a task still available cannot carry the dispatched id
                                let p = if i < queued_pre.len() {
                                    i
                                } else {
                                    i + 1
                                };
                                assert(avail[i] == avail_pre[p]);
                                assert(avail_pre[p].task_id != avail_pre[
                                    queued_pre.len() as int
                                ].task_id);
                            } else {
                                assert(contains_id(running_pre, self.running@[j].task_id));
                                let m = choose|m: int|
                                    0 <= m < running_pre.len() && #[trigger] running_pre[
                                        m
                                    ].task_id == self.running@[j].task_id;
                                let p = if i < queued_pre.len() {
                                    i
                                } else {
                                    i + 1
                                };
                                assert(avail[i] == avail_pre[p]);
                                assert(avail_pre[p].task_id != running_pre[m].task_id);
                            }
                        }
                    }
                    assert(ids_disjoint(self.queued@ + pending@, self.finished@)) by {
                        let avail = self.queued@ + pending@;
                        assert forall|i: int, j: int|
                            0 <= i < avail.len() && 0 <= j
                                < self.finished@.len() implies #[trigger] avail[i].task_id
                            != #[trigger] self.finished@[j].task_id by {
                            let p = if i < queued_pre.len() {
                                i
                            } else {
                                i + 1
                            };
                            assert(avail[i] == avail_pre[p]);
                            assert(avail_pre[p].task_id != self.finished@[j].task_id);
                        }
                    }
                    assert(ids_disjoint(self.running@, self.finished@)) by {
                        lemma_insert_by_id(running_pre, t, t.webhook_name@);
                        assert forall|i: int, j: int|
                            0 <= i < self.running@.len() && 0 <= j
                                < self.finished@.len() implies #[trigger] self.running@[i].task_id
                            != #[trigger] self.finished@[j].task_id by {
                            if self.running@[i].task_id == t.task_id {
                                assert(avail_pre[queued_pre.len() as int].task_id
                                    != self.finished@[j].task_id);
                            } else {
                                assert(contains_id(running_pre, self.running@[i].task_id));
                                let m = choose|m: int|
                                    0 <= m < running_pre.len() && #[trigger] running_pre[
                                        m
                                    ].task_id == self.running@[i].task_id;
                                assert(running_pre[m].task_id != self.finished@[j].task_id);
                            }
                        }
                    }
                    assert(ids_in_range(self.running@, self.max_id)) by {
                        lemma_insert_by_id(running_pre, t, t.webhook_name@);
                        assert forall|i: int|
                            0 <= i < self.running@.len() implies 1 <= #[trigger] self.running@[
                            i
                        ].task_id && self.running@[i].task_id <= self.max_id by {
                            if self.running@[i] != t {
                                assert(contains_id(running_pre, self.running@[i].task_id));
                                let m = choose|m: int|
                                    0 <= m < running_pre.len() && #[trigger] running_pre[
                                        m
                                    ].task_id == self.running@[i].task_id;
                            }
                        }
                    }
                    assert forall|i: int| 0 <= i < hooks.len() implies policy_at(
                        self.queued_count@[i],
                        self.running_count@[i],
                        #[trigger] hooks[i],
                    ) by {
                        lemma_count_nonneg(self.queued@ + pending@, hooks[i].name@);
                        lemma_count_nonneg(self.running@, hooks[i].name@);
                    }
                    // one walk step along the eligible branch
                    let wr = dispatch_walk(
                        hooks,
                        pending@,
                        self.queued_count@,
                        self.running_count@,
                        slots as int - result@.len() as int,
                    );
                    assert(self.queued_count@ =~= qc_pre.update(
                        idx as int,
                        (qc_pre[idx as int] - 1) as usize,
                    ));
                    assert(self.running_count@ =~= rc_pre.update(
                        idx as int,
                        (rc_pre[idx as int] + 1) as usize,
                    ));
                    assert(wr_pre.0 == wr.0 && wr_pre.1 == seq![t] + wr.1 && wr_pre.2 == wr.2
                        && wr_pre.3 == wr.3);
                    assert(w.1 == result_pre + (seq![t] + wr.1));
                    assert(result_pre + (seq![t] + wr.1) =~= result@ + wr.1);
                }
            } else {
                // an ineligible task stays queued without blocking later ones
                self.queued.push(t);
                proof {
                    let wr = dispatch_walk(
                        hooks,
                        pending@,
                        self.queued_count@,
                        self.running_count@,
                        slots as int - result@.len() as int,
                    );
                    assert(wr_pre.0 == seq![t] + wr.0 && wr_pre.1 == wr.1 && wr_pre.2 == wr.2
                        && wr_pre.3 == wr.3);
                    assert(self.queued@ =~= queued_pre.push(t));
                    assert(self.queued@ + pending@ =~= avail_pre);
                    assert(queued_pre + (seq![t] + wr.0) =~= self.queued@ + wr.0);
                }
            }
        }
        proof {
            assert(pending@.len() == 0);
            let wr = dispatch_walk(
                hooks,
                pending@,
                self.queued_count@,
                self.running_count@,
                slots as int - result@.len() as int,
            );
            assert(wr == (pending@, Seq::<Task>::empty(), self.queued_count@, self.running_count@));
            assert(self.queued@ + pending@ =~= self.queued@);
            assert(w.0 =~= self.queued@);
            assert(w.1 =~= result@);
        }
        result
    }

    /// Record an executor's report: the task leaves `running` with its
    /// results filled in and joins `finished`; nothing else moves.
    #[verifier::loop_isolation(false)]
    pub fn finish_task(&mut self, completed: TaskCompleted)
        requires
            old(self).wf(),
            contains_id(old(self).running@, completed.task_id),
        ensures
            finish_transition(*old(self), *final(self), completed),
    {
        let n = self.running.len();
        let mut k: usize = 0;
        while k < n && self.running[k].task_id != completed.task_id
            invariant
                0 <= k <= n,
                n == self.running@.len(),
                forall|j: int| 0 <= j < k ==> #[trigger] self.running@[j].task_id
                    != completed.task_id,
            decreases n - k,
        {
            k += 1;
        }
        proof {
            if k == n {
                let j = choose|j: int|
                    0 <= j < self.running@.len() && #[trigger] self.running@[j].task_id
                        == completed.task_id;
                assert(false);
            }
            lemma_index_of_id_is(self.running@, k as int);
        }
        let ghost hooks = self.settings.webhooks@;
        let ghost old_running = self.running@;
        let ghost old_finished = self.finished@;
        let mut task = self.running.remove(k);
        task.exit_code = Some(completed.exit_code);
        task.stdout = Some(completed.stdout);
        task.stderr = Some(completed.stderr);
        let ghost done = task;
        proof {
            lemma_remove_facts(old_running, k as int);
            assert(names_in_catalogue(self.running@, hooks)) by {
                assert forall|i: int| 0 <= i < self.running@.len() implies has_hook(
                    hooks,
                    #[trigger] self.running@[i].webhook_name@,
                ) by {
                    assert(old_running.contains(self.running@[i]));
                    let j = choose|j: int|
                        0 <= j < old_running.len() && old_running[j] == self.running@[i];
                    assert(has_hook(hooks, old_running[j].webhook_name@));
                }
            }
        }
        let idx = self.find_hook_index(&task.webhook_name);
        let rc = self.running_count[idx];
        proof {
            lemma_count_at_least_one(old_running, k as int, hooks[idx as int].name@);
        }
        self.running_count.set(idx, rc - 1);
        proof {
            assert forall|i: int| 0 <= i < hooks.len() implies #[trigger] self.running_count@[i]
                == count_matching(self.running@, hooks[i].name@) by {
                lemma_count_remove(old_running, k as int, hooks[i].name@);
                if i != idx as int {
                    assert(hooks[i].name@ != hooks[idx as int].name@);
                }
            }
        }
        proof {
            // the finished task's id is fresh for `finished`
            assert(!contains_id(old_finished, done.task_id)) by {
                if contains_id(old_finished, done.task_id) {
                    let j = choose|j: int|
                        0 <= j < old_finished.len() && #[trigger] old_finished[j].task_id
                            == done.task_id;
                    assert(old_running[k as int].task_id != old_finished[j].task_id);
                }
            }
            lemma_insert_by_id_sorted(old_finished, done, self.max_id);
            lemma_insert_by_id(old_finished, done, done.webhook_name@);
        }
        vec_insert_by_id(&mut self.finished, task);
        proof {
            assert forall|i: int| 0 <= i < hooks.len() implies policy_at(
                self.queued_count@[i],
                self.running_count@[i],
                #[trigger] hooks[i],
            ) by {
                lemma_count_remove(old_running, k as int, hooks[i].name@);
                lemma_count_nonneg(self.running@, hooks[i].name@);
            }
            assert(ids_disjoint(self.queued@, self.finished@)) by {
                assert forall|i: int, j: int|
                    0 <= i < self.queued@.len() && 0 <= j < self.finished@.len() implies #[trigger] self.queued@[i].task_id != #[trigger] self.finished@[j].task_id by {
                    if self.finished@[j] != done {
                        assert(contains_id(old_finished, self.finished@[j].task_id));
                        let m = choose|m: int|
                            0 <= m < old_finished.len() && #[trigger] old_finished[m].task_id
                                == self.finished@[j].task_id;
                        assert(self.queued@[i].task_id != old_finished[m].task_id);
                    } else {
                        assert(self.queued@[i].task_id != old_running[k as int].task_id);
                    }
                }
            }
            assert(ids_disjoint(self.running@, self.finished@)) by {
                assert forall|i: int, j: int|
                    0 <= i < self.running@.len() && 0 <= j < self.finished@.len() implies #[trigger] self.running@[i].task_id != #[trigger] self.finished@[j].task_id by {
                    assert(contains_id(old_running, self.running@[i].task_id));
                    let m = choose|m: int|
                        0 <= m < old_running.len() && #[trigger] old_running[m].task_id
                            == self.running@[i].task_id;
                    if self.finished@[j] != done {
                        assert(contains_id(old_finished, self.finished@[j].task_id));
                        let l = choose|l: int|
                            0 <= l < old_finished.len() && #[trigger] old_finished[l].task_id
                                == self.finished@[j].task_id;
                        assert(old_running[m].task_id != old_finished[l].task_id);
                    } else {
                        // the removed task's id is gone from `running`
                        if m == k as int {
                            assert(false) by {
                                lemma_remove_facts(old_running, k as int);
                                assert(contains_id(old_running, self.running@[i].task_id));
                                let p = if i < k as int {
                                    i
                                } else {
                                    i + 1
                                };
                                assert(old_running[p] == self.running@[i]);
                                assert(old_running[p].task_id != old_running[k as int].task_id);
                            }
                        }
                        assert(old_running[m].task_id != old_running[k as int].task_id);
                    }
                }
            }
            assert(ids_disjoint(self.queued@, self.running@)) by {
                assert forall|i: int, j: int|
                    0 <= i < self.queued@.len() && 0 <= j < self.running@.len() implies #[trigger] self.queued@[i].task_id != #[trigger] self.running@[j].task_id by {
                    assert(contains_id(old_running, self.running@[j].task_id));
                    let m = choose|m: int|
                        0 <= m < old_running.len() && #[trigger] old_running[m].task_id
                            == self.running@[j].task_id;
                    assert(self.queued@[i].task_id != old_running[m].task_id);
                }
            }
            assert(ids_in_range(self.running@, self.max_id)) by {
                assert forall|i: int|
                    0 <= i < self.running@.len() implies 1 <= #[trigger] self.running@[i].task_id
                    && self.running@[i].task_id <= self.max_id by {
                    let m = choose|m: int|
                        0 <= m < old_running.len() && #[trigger] old_running[m].task_id
                            == self.running@[i].task_id;
                }
            }
            assert(ids_in_range(self.finished@, self.max_id)) by {
                assert forall|i: int|
                    0 <= i < self.finished@.len() implies 1 <= #[trigger] self.finished@[
                    i
                ].task_id && self.finished@[i].task_id <= self.max_id by {
                    if self.finished@[i] != done {
                        assert(contains_id(old_finished, self.finished@[i].task_id));
                        let m = choose|m: int|
                            0 <= m < old_finished.len() && #[trigger] old_finished[m].task_id
                                == self.finished@[i].task_id;
                    }
                }
            }
        }
    }
}

} // verus!
