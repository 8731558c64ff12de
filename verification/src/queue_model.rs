//! The mathematical model behind the task queue: counting tasks per webhook,
//! ordering by id, id disjointness, ordered insertion, and the dispatch walk
//! that decides which queued tasks start now.

use vstd::prelude::*;

use crate::settings::{has_hook, hook_index_of, Webhook, WebhookMode};
use crate::task::Task;

verus! {

/// How many tasks of the sequence belong to the webhook with this name.
pub open spec fn count_matching(tasks: Seq<Task>, name: Seq<char>) -> int
    decreases tasks.len(),
{
    if tasks.len() == 0 {
        0
    } else {
        count_matching(tasks.drop_first(), name) + if tasks[0].webhook_name@ == name {
            1int
        } else {
            0int
        }
    }
}

/// Some task of the sequence carries this id.
pub open spec fn contains_id(tasks: Seq<Task>, id: i32) -> bool {
    exists|i: int| 0 <= i < tasks.len() && #[trigger] tasks[i].task_id == id
}

/// Ids strictly ascend along the sequence (so iteration order is admission
/// order, and ids are unique within the sequence).
pub open spec fn sorted_by_id(tasks: Seq<Task>) -> bool {
    forall|i: int, j: int|
        0 <= i < j < tasks.len() ==> #[trigger] tasks[i].task_id < #[trigger] tasks[j].task_id
}

/// Every id of the sequence lies in `1 ..= bound`.
pub open spec fn ids_in_range(tasks: Seq<Task>, bound: i32) -> bool {
    forall|i: int|
        0 <= i < tasks.len() ==> 1 <= #[trigger] tasks[i].task_id && tasks[i].task_id <= bound
}

/// No id occurs in both sequences.
pub open spec fn ids_disjoint(a: Seq<Task>, b: Seq<Task>) -> bool {
    forall|i: int, j: int|
        0 <= i < a.len() && 0 <= j < b.len() ==> #[trigger] a[i].task_id != #[trigger] b[
            j
        ].task_id
}

/// Every task of the sequence names a webhook of the catalogue.
pub open spec fn names_in_catalogue(tasks: Seq<Task>, hooks: Seq<Webhook>) -> bool {
    forall|i: int| 0 <= i < tasks.len() ==> has_hook(hooks, #[trigger] tasks[i].webhook_name@)
}

pub proof fn lemma_count_nonneg(tasks: Seq<Task>, name: Seq<char>)
    ensures
        0 <= count_matching(tasks, name) <= tasks.len(),
    decreases tasks.len(),
{
    if tasks.len() > 0 {
        lemma_count_nonneg(tasks.drop_first(), name);
    }
}

pub proof fn lemma_count_singleton(t: Task, name: Seq<char>)
    ensures
        count_matching(seq![t], name) == if t.webhook_name@ == name {
            1int
        } else {
            0int
        },
{
    assert(seq![t].drop_first() =~= Seq::<Task>::empty());
    assert(count_matching(Seq::<Task>::empty(), name) == 0);
    assert(seq![t][0] == t);
}

pub proof fn lemma_count_concat(a: Seq<Task>, b: Seq<Task>, name: Seq<char>)
    ensures
        count_matching(a + b, name) == count_matching(a, name) + count_matching(b, name),
    decreases a.len(),
{
    if a.len() == 0 {
        assert(a + b =~= b);
    } else {
        lemma_count_concat(a.drop_first(), b, name);
        assert((a + b).drop_first() =~= a.drop_first() + b);
    }
}

pub proof fn lemma_count_push(tasks: Seq<Task>, t: Task, name: Seq<char>)
    ensures
        count_matching(tasks.push(t), name) == count_matching(tasks, name) + if t.webhook_name@
            == name {
            1int
        } else {
            0int
        },
{
    lemma_count_concat(tasks, seq![t], name);
    assert(tasks.push(t) =~= tasks + seq![t]);
    lemma_count_singleton(t, name);
}

pub proof fn lemma_count_remove(tasks: Seq<Task>, k: int, name: Seq<char>)
    requires
        0 <= k < tasks.len(),
    ensures
        count_matching(tasks.remove(k), name) == count_matching(tasks, name) - if tasks[
            k
        ].webhook_name@ == name {
            1int
        } else {
            0int
        },
{
    let left = tasks.subrange(0, k);
    let mid = seq![tasks[k]];
    let right = tasks.subrange(k + 1, tasks.len() as int);
    assert(tasks =~= left + mid + right);
    assert(tasks.remove(k) =~= left + right);
    lemma_count_concat(left + mid, right, name);
    lemma_count_concat(left, mid, name);
    lemma_count_concat(left, right, name);
    lemma_count_singleton(tasks[k], name);
}

/// A task with the name in the sequence makes the count positive.
pub proof fn lemma_count_at_least_one(tasks: Seq<Task>, k: int, name: Seq<char>)
    requires
        0 <= k < tasks.len(),
        tasks[k].webhook_name@ == name,
    ensures
        count_matching(tasks, name) >= 1,
    decreases tasks.len(),
{
    lemma_count_nonneg(tasks.drop_first(), name);
    if k > 0 {
        lemma_count_at_least_one(tasks.drop_first(), k - 1, name);
    }
}

/// A strictly ascending sequence of ids out of `1 ..= bound` has at most
/// `bound` entries.
pub proof fn lemma_sorted_len_bound(tasks: Seq<Task>, bound: i32)
    requires
        sorted_by_id(tasks),
        ids_in_range(tasks, bound),
        bound >= 0,
    ensures
        tasks.len() <= bound,
    decreases tasks.len(),
{
    if tasks.len() > 0 {
        assert(1 <= tasks[0].task_id && tasks[0].task_id <= bound);
        let prefix = tasks.drop_last();
        assert(ids_in_range(prefix, (bound - 1) as i32)) by {
            assert forall|i: int|
                0 <= i < prefix.len() implies 1 <= #[trigger] prefix[i].task_id && prefix[
                i
            ].task_id <= bound - 1 by {
                assert(tasks[i].task_id < tasks[tasks.len() - 1].task_id);
            }
        }
        lemma_sorted_len_bound(prefix, (bound - 1) as i32);
    }
}

/// Insertion keeping ids ascending: the task goes right before the first
/// entry with a greater id.
pub open spec fn insert_by_id(tasks: Seq<Task>, t: Task) -> Seq<Task>
    decreases tasks.len(),
{
    if tasks.len() == 0 {
        seq![t]
    } else if t.task_id < tasks[0].task_id {
        seq![t] + tasks
    } else {
        seq![tasks[0]] + insert_by_id(tasks.drop_first(), t)
    }
}

/// What ordered insertion does, stated over the usual facts at once.
pub proof fn lemma_insert_by_id(tasks: Seq<Task>, t: Task, name: Seq<char>)
    ensures
        insert_by_id(tasks, t).len() == tasks.len() + 1,
        count_matching(insert_by_id(tasks, t), name) == count_matching(tasks, name) + if t
            .webhook_name@ == name {
            1int
        } else {
            0int
        },
        forall|id: i32| #[trigger]
            contains_id(insert_by_id(tasks, t), id) <==> (contains_id(tasks, id) || id
                == t.task_id),
        forall|k: int|
            0 <= k < insert_by_id(tasks, t).len() ==> #[trigger] insert_by_id(tasks, t)[k] == t
                || contains_id(tasks, insert_by_id(tasks, t)[k].task_id),
        forall|k: int|
            0 <= k < insert_by_id(tasks, t).len() ==> #[trigger] insert_by_id(tasks, t)[k] == t
                || tasks.contains(insert_by_id(tasks, t)[k]),
    decreases tasks.len(),
{
    let res = insert_by_id(tasks, t);
    if tasks.len() == 0 {
        assert(res =~= seq![t]);
        lemma_count_singleton(t, name);
        assert forall|id: i32| #[trigger]
            contains_id(res, id) implies (contains_id(tasks, id) || id == t.task_id) by {
            let i = choose|i: int| 0 <= i < res.len() && res[i].task_id == id;
            assert(res[i] == t);
        }
        assert(contains_id(res, t.task_id)) by {
            assert(res[0].task_id == t.task_id);
        }
    } else if t.task_id < tasks[0].task_id {
        assert(res =~= seq![t] + tasks);
        lemma_count_concat(seq![t], tasks, name);
        lemma_count_singleton(t, name);
        assert forall|id: i32| #[trigger]
            contains_id(res, id) implies (contains_id(tasks, id) || id == t.task_id) by {
            let i = choose|i: int| 0 <= i < res.len() && res[i].task_id == id;
            if i > 0 {
                assert(tasks[i - 1].task_id == id);
            }
        }
        assert forall|id: i32|
            contains_id(tasks, id) || id == t.task_id implies #[trigger] contains_id(
            res,
            id,
        ) by {
            if contains_id(tasks, id) {
                let i = choose|i: int| 0 <= i < tasks.len() && tasks[i].task_id == id;
                assert(res[i + 1].task_id == id);
            } else {
                assert(res[0].task_id == id);
            }
        }
        assert forall|k: int| 0 <= k < res.len() implies #[trigger] res[k] == t || tasks.contains(
            res[k],
        ) by {
            if k > 0 {
                assert(res[k] == tasks[k - 1]);
            }
        }
        assert forall|k: int| 0 <= k < res.len() implies #[trigger] res[k] == t || contains_id(
            tasks,
            res[k].task_id,
        ) by {
            if k > 0 {
                assert(tasks[k - 1].task_id == res[k].task_id);
            }
        }
    } else {
        let rest = insert_by_id(tasks.drop_first(), t);
        lemma_insert_by_id(tasks.drop_first(), t, name);
        assert(res == seq![tasks[0]] + rest);
        assert(res.drop_first() =~= rest);
        lemma_count_concat(seq![tasks[0]], rest, name);
        lemma_count_singleton(tasks[0], name);
        assert(count_matching(tasks, name) == count_matching(tasks.drop_first(), name) + if tasks[
            0
        ].webhook_name@ == name {
            1int
        } else {
            0int
        });
        assert forall|id: i32| #[trigger]
            contains_id(res, id) implies (contains_id(tasks, id) || id == t.task_id) by {
            let i = choose|i: int| 0 <= i < res.len() && res[i].task_id == id;
            if i == 0 {
                assert(tasks[0].task_id == id);
            } else {
                assert(rest[i - 1].task_id == id);
                assert(contains_id(rest, id));
                if contains_id(tasks.drop_first(), id) {
                    let j = choose|j: int|
                        0 <= j < tasks.drop_first().len() && tasks.drop_first()[j].task_id == id;
                    assert(tasks[j + 1].task_id == id);
                }
            }
        }
        assert forall|id: i32|
            contains_id(tasks, id) || id == t.task_id implies #[trigger] contains_id(
            res,
            id,
        ) by {
            if contains_id(tasks, id) {
                let i = choose|i: int| 0 <= i < tasks.len() && tasks[i].task_id == id;
                if i == 0 {
                    assert(res[0].task_id == id);
                } else {
                    assert(tasks.drop_first()[i - 1].task_id == id);
                    assert(contains_id(tasks.drop_first(), id));
                    assert(contains_id(rest, id));
                    let j = choose|j: int| 0 <= j < rest.len() && rest[j].task_id == id;
                    assert(res[j + 1].task_id == id);
                }
            } else {
                assert(contains_id(rest, id));
                let j = choose|j: int| 0 <= j < rest.len() && rest[j].task_id == id;
                assert(res[j + 1].task_id == id);
            }
        }
        assert forall|k: int| 0 <= k < res.len() implies #[trigger] res[k] == t || tasks.contains(
            res[k],
        ) by {
            if k == 0 {
                assert(tasks.contains(tasks[0]));
            } else {
                assert(res[k] == rest[k - 1]);
                if rest[k - 1] != t {
                    assert(tasks.drop_first().contains(rest[k - 1]));
                    let j = choose|j: int|
                        0 <= j < tasks.drop_first().len() && tasks.drop_first()[j] == rest[k - 1];
                    assert(tasks[j + 1] == rest[k - 1]);
                }
            }
        }
        assert forall|k: int| 0 <= k < res.len() implies #[trigger] res[k] == t || contains_id(
            tasks,
            res[k].task_id,
        ) by {
            if res[k] != t {
                assert(tasks.contains(res[k]));
                let j = choose|j: int| 0 <= j < tasks.len() && tasks[j] == res[k];
                assert(tasks[j].task_id == res[k].task_id);
            }
        }
    }
}

/// Ordered insertion of a fresh id keeps the order strict and the range.
pub proof fn lemma_insert_by_id_sorted(tasks: Seq<Task>, t: Task, bound: i32)
    requires
        sorted_by_id(tasks),
        !contains_id(tasks, t.task_id),
        ids_in_range(tasks, bound),
        1 <= t.task_id <= bound,
    ensures
        sorted_by_id(insert_by_id(tasks, t)),
        ids_in_range(insert_by_id(tasks, t), bound),
    decreases tasks.len(),
{
    let res = insert_by_id(tasks, t);
    lemma_insert_by_id(tasks, t, t.webhook_name@);
    if tasks.len() == 0 {
        assert(res =~= seq![t]);
    } else if t.task_id < tasks[0].task_id {
        assert(res =~= seq![t] + tasks);
    } else {
        let tail = tasks.drop_first();
        assert(!contains_id(tail, t.task_id)) by {
            if contains_id(tail, t.task_id) {
                let j = choose|j: int| 0 <= j < tail.len() && tail[j].task_id == t.task_id;
                assert(tasks[j + 1].task_id == t.task_id);
            }
        }
        assert(sorted_by_id(tail));
        assert(ids_in_range(tail, bound));
        lemma_insert_by_id_sorted(tail, t, bound);
        lemma_insert_by_id(tail, t, t.webhook_name@);
        let rest = insert_by_id(tail, t);
        assert(res == seq![tasks[0]] + rest);
        // the head is below everything that follows it
        assert(tasks[0].task_id != t.task_id) by {
            if tasks[0].task_id == t.task_id {
                assert(contains_id(tasks, t.task_id));
            }
        }
        assert(tasks[0].task_id < t.task_id);
        assert forall|i: int, j: int|
            0 <= i < j < res.len() implies #[trigger] res[i].task_id < #[trigger] res[
            j
        ].task_id by {
            if i == 0 {
                assert(res[j] == rest[j - 1]);
                if rest[j - 1] == t {
                } else {
                    assert(contains_id(tail, rest[j - 1].task_id));
                    let k = choose|k: int| 0 <= k < tail.len() && tail[k].task_id == rest[
                        j - 1
                    ].task_id;
                    assert(tasks[k + 1].task_id == rest[j - 1].task_id);
                }
            } else {
                assert(res[i] == rest[i - 1] && res[j] == rest[j - 1]);
            }
        }
        assert forall|i: int|
            0 <= i < res.len() implies 1 <= #[trigger] res[i].task_id && res[i].task_id
            <= bound by {
            if i > 0 {
                assert(res[i] == rest[i - 1]);
            }
        }
    }
}

/// Insert a task into a vector that ascends by id, keeping it ascending.
pub fn vec_insert_by_id(tasks: &mut Vec<Task>, t: Task)
    requires
        sorted_by_id(old(tasks)@),
    ensures
        final(tasks)@ == insert_by_id(old(tasks)@, t),
{
    let n = tasks.len();
    let mut idx: usize = 0;
    while idx < n && tasks[idx].task_id <= t.task_id
        invariant
            0 <= idx <= n,
            n == tasks@.len(),
            forall|k: int| 0 <= k < idx ==> #[trigger] tasks@[k].task_id <= t.task_id,
        decreases n - idx,
    {
        idx += 1;
    }
    proof {
        lemma_insert_at(tasks@, t, idx as int);
        assert(tasks@.insert(idx as int, t) =~= tasks@.subrange(0, idx as int) + seq![t]
            + tasks@.subrange(idx as int, tasks@.len() as int));
    }
    tasks.insert(idx, t);
}

/// Where every id before `idx` is at most the new one and every id from
/// `idx` on is greater, ordered insertion lands exactly at `idx`.
pub proof fn lemma_insert_at(tasks: Seq<Task>, t: Task, idx: int)
    requires
        sorted_by_id(tasks),
        0 <= idx <= tasks.len(),
        forall|k: int| 0 <= k < idx ==> #[trigger] tasks[k].task_id <= t.task_id,
        forall|k: int| idx <= k < tasks.len() ==> #[trigger] tasks[k].task_id > t.task_id,
    ensures
        insert_by_id(tasks, t) == tasks.subrange(0, idx) + seq![t] + tasks.subrange(
            idx,
            tasks.len() as int,
        ),
    decreases tasks.len(),
{
    if tasks.len() == 0 {
        assert(insert_by_id(tasks, t) =~= tasks.subrange(0, idx) + seq![t] + tasks.subrange(
            idx,
            tasks.len() as int,
        ));
    } else if t.task_id < tasks[0].task_id {
        assert(idx == 0);
        assert(insert_by_id(tasks, t) =~= tasks.subrange(0, idx) + seq![t] + tasks.subrange(
            idx,
            tasks.len() as int,
        ));
    } else {
        assert(idx > 0);
        let tail = tasks.drop_first();
        lemma_insert_at(tail, t, idx - 1);
        assert(tail.subrange(0, idx - 1) =~= tasks.subrange(1, idx));
        assert(tail.subrange(idx - 1, tail.len() as int) =~= tasks.subrange(
            idx,
            tasks.len() as int,
        ));
        assert(insert_by_id(tasks, t) =~= tasks.subrange(0, idx) + seq![t] + tasks.subrange(
            idx,
            tasks.len() as int,
        ));
    }
}

/// Removing one task from an id-ordered sequence keeps it ordered, and
/// every survivor was already there.
pub proof fn lemma_remove_facts(tasks: Seq<Task>, k: int)
    requires
        0 <= k < tasks.len(),
    ensures
        sorted_by_id(tasks) ==> sorted_by_id(tasks.remove(k)),
        forall|i: int|
            0 <= i < tasks.remove(k).len() ==> tasks.contains(#[trigger] tasks.remove(k)[i]),
        forall|i: int|
            0 <= i < tasks.remove(k).len() ==> contains_id(
                tasks,
                (#[trigger] tasks.remove(k)[i]).task_id,
            ),
{
    let res = tasks.remove(k);
    assert forall|i: int| 0 <= i < res.len() implies tasks.contains(#[trigger] res[i]) by {
        if i < k {
            assert(res[i] == tasks[i]);
        } else {
            assert(res[i] == tasks[i + 1]);
        }
    }
    assert forall|i: int| 0 <= i < res.len() implies contains_id(
        tasks,
        (#[trigger] res[i]).task_id,
    ) by {
        if i < k {
            assert(tasks[i].task_id == res[i].task_id);
        } else {
            assert(tasks[i + 1].task_id == res[i].task_id);
        }
    }
    if sorted_by_id(tasks) {
        assert forall|i: int, j: int|
            0 <= i < j < res.len() implies #[trigger] res[i].task_id < #[trigger] res[
            j
        ].task_id by {
            if j < k {
            } else if i < k {
                assert(res[j] == tasks[j + 1]);
            } else {
                assert(res[i] == tasks[i + 1] && res[j] == tasks[j + 1]);
            }
        }
    }
}

/// The first index carrying an id. Meaningful only where `contains_id`
/// holds; with ascending ids it is then the one such index.
pub open spec fn index_of_id(tasks: Seq<Task>, id: i32) -> int {
    choose|k: int| 0 <= k < tasks.len() && #[trigger] tasks[k].task_id == id
}

/// With ascending ids, any index carrying the id is the index that
/// `index_of_id` denotes.
pub proof fn lemma_index_of_id_is(tasks: Seq<Task>, k: int)
    requires
        sorted_by_id(tasks),
        0 <= k < tasks.len(),
    ensures
        index_of_id(tasks, tasks[k].task_id) == k,
{
    let id = tasks[k].task_id;
    assert(contains_id(tasks, id));
    let j = index_of_id(tasks, id);
    if k < j {
        assert(tasks[k].task_id < tasks[j].task_id);
    } else if j < k {
        assert(tasks[j].task_id < tasks[k].task_id);
    }
}

/// Ordered insertion of each task of `ts` in turn.
pub open spec fn insert_all(tasks: Seq<Task>, ts: Seq<Task>) -> Seq<Task>
    decreases ts.len(),
{
    if ts.len() == 0 {
        tasks
    } else {
        insert_all(insert_by_id(tasks, ts[0]), ts.drop_first())
    }
}

/// Whether a task of a webhook may start now, given how many of its tasks
/// run already: `single` tasks always may (at most one exists at all),
/// `deploy` tasks only while none runs, `parallel` tasks below the limit.
pub open spec fn eligible(mode: WebhookMode, running_count: int, limit: int) -> bool {
    match mode {
        WebhookMode::Single => true,
        WebhookMode::Deploy => running_count == 0,
        WebhookMode::Parallel => running_count < limit,
    }
}

/// The dispatch walk: go through the queued tasks in admission order while
/// slots are free; an eligible task is dispatched (its webhook's counters
/// move from queued to running), an ineligible one stays in place and the
/// walk goes on behind it. Returns the tasks that stay queued, the tasks to
/// dispatch in order, and the two counter rows afterwards.
pub open spec fn dispatch_walk(
    hooks: Seq<Webhook>,
    queued: Seq<Task>,
    qc: Seq<usize>,
    rc: Seq<usize>,
    slots: int,
) -> (Seq<Task>, Seq<Task>, Seq<usize>, Seq<usize>)
    decreases queued.len(),
{
    if queued.len() == 0 || slots <= 0 {
        (queued, Seq::<Task>::empty(), qc, rc)
    } else {
        let t = queued[0];
        let i = hook_index_of(hooks, t.webhook_name@);
        if eligible(hooks[i].mode, rc[i] as int, hooks[i].parallel_processes as int) {
            let rest = dispatch_walk(
                hooks,
                queued.drop_first(),
                qc.update(i, (qc[i] - 1) as usize),
                rc.update(i, (rc[i] + 1) as usize),
                slots - 1,
            );
            (rest.0, seq![t] + rest.1, rest.2, rest.3)
        } else {
            let rest = dispatch_walk(hooks, queued.drop_first(), qc, rc, slots);
            (seq![t] + rest.0, rest.1, rest.2, rest.3)
        }
    }
}

/// A `parallel` webhook with a limit of one dispatches exactly like a
/// `deploy` one, whatever that one's limit: only while none of its tasks
/// runs. (Admission still differs: `parallel` keeps admitting while
/// `deploy` holds the queue to one waiting task.)
pub proof fn lemma_parallel_one_dispatches_like_deploy(running_count: int, limit: int)
    requires
        running_count >= 0,
    ensures
        eligible(WebhookMode::Parallel, running_count, 1) == eligible(
            WebhookMode::Deploy,
            running_count,
            limit,
        ),
{
}

/// Along a walk over an id-ordered queue, the dispatched tasks keep that
/// order, and each one comes from the queue.
pub proof fn lemma_walk_dispatch_sorted(
    hooks: Seq<Webhook>,
    queued: Seq<Task>,
    qc: Seq<usize>,
    rc: Seq<usize>,
    slots: int,
)
    requires
        sorted_by_id(queued),
    ensures
        ({
            let w = dispatch_walk(hooks, queued, qc, rc, slots);
            &&& sorted_by_id(w.1)
            &&& forall|k: int|
                0 <= k < w.1.len() ==> contains_id(queued, #[trigger] w.1[k].task_id)
        }),
    decreases queued.len(),
{
    let w = dispatch_walk(hooks, queued, qc, rc, slots);
    if queued.len() == 0 || slots <= 0 {
    } else {
        let t = queued[0];
        let tail = queued.drop_first();
        let i = hook_index_of(hooks, t.webhook_name@);
        if eligible(hooks[i].mode, rc[i] as int, hooks[i].parallel_processes as int) {
            let rest = dispatch_walk(
                hooks,
                tail,
                qc.update(i, (qc[i] - 1) as usize),
                rc.update(i, (rc[i] + 1) as usize),
                slots - 1,
            );
            lemma_walk_dispatch_sorted(
                hooks,
                tail,
                qc.update(i, (qc[i] - 1) as usize),
                rc.update(i, (rc[i] + 1) as usize),
                slots - 1,
            );
            assert(w.1 == seq![t] + rest.1);
            assert forall|k: int|
                0 <= k < w.1.len() implies contains_id(queued, #[trigger] w.1[k].task_id) by {
                if k == 0 {
                    assert(queued[0].task_id == t.task_id);
                } else {
                    assert(w.1[k] == rest.1[k - 1]);
                    let j = choose|j: int|
                        0 <= j < tail.len() && #[trigger] tail[j].task_id == rest.1[
                            k - 1
                        ].task_id;
                    assert(queued[j + 1].task_id == rest.1[k - 1].task_id);
                }
            }
            assert forall|a: int, b: int|
                0 <= a < b < w.1.len() implies #[trigger] w.1[a].task_id < #[trigger] w.1[
                b
            ].task_id by {
                if a == 0 {
                    assert(w.1[b] == rest.1[b - 1]);
                    let j = choose|j: int|
                        0 <= j < tail.len() && #[trigger] tail[j].task_id == rest.1[
                            b - 1
                        ].task_id;
                    assert(queued[j + 1].task_id == rest.1[b - 1].task_id);
                    assert(queued[0].task_id < queued[j + 1].task_id);
                } else {
                    assert(w.1[a] == rest.1[a - 1] && w.1[b] == rest.1[b - 1]);
                }
            }
        } else {
            lemma_walk_dispatch_sorted(hooks, tail, qc, rc, slots);
            let rest = dispatch_walk(hooks, tail, qc, rc, slots);
            assert(w.1 == rest.1);
            assert forall|k: int|
                0 <= k < w.1.len() implies contains_id(queued, #[trigger] w.1[k].task_id) by {
                let j = choose|j: int|
                    0 <= j < tail.len() && #[trigger] tail[j].task_id == w.1[k].task_id;
                assert(queued[j + 1].task_id == w.1[k].task_id);
            }
        }
    }
}

/// Folding one more task into `insert_all` from the right.
pub proof fn lemma_insert_all_push(tasks: Seq<Task>, ts: Seq<Task>, t: Task)
    ensures
        insert_all(tasks, ts.push(t)) == insert_by_id(insert_all(tasks, ts), t),
    decreases ts.len(),
{
    if ts.len() == 0 {
        assert(ts.push(t)[0] == t);
        assert(ts.push(t).drop_first() =~= ts);
        assert(insert_all(tasks, ts.push(t)) == insert_all(insert_by_id(tasks, t), ts));
        assert(insert_all(insert_by_id(tasks, t), ts) == insert_by_id(tasks, t));
        assert(insert_all(tasks, ts) == tasks);
    } else {
        assert(ts.push(t)[0] == ts[0]);
        assert(ts.push(t).drop_first() =~= ts.drop_first().push(t));
        lemma_insert_all_push(insert_by_id(tasks, ts[0]), ts.drop_first(), t);
        assert(insert_all(tasks, ts.push(t)) == insert_all(
            insert_by_id(tasks, ts[0]),
            ts.drop_first().push(t),
        ));
        assert(insert_all(tasks, ts) == insert_all(insert_by_id(tasks, ts[0]), ts.drop_first()));
    }
}

} // verus!
