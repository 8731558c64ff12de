//! The JSON snapshot of the queue: one stable rendering of `max_id`, the
//! two counter rows and the three task collections, each task collection an
//! object from stringified id to task, in ascending id order. The settings
//! are not part of the snapshot.

use vstd::prelude::*;
use vstd::string::StringExecFns;

use crate::json::{dec_str, json_string, write_json_string, write_u64};
use crate::settings::Webhook;
use crate::task::Task;
use crate::task_queue::TaskQueue;
use crate::text::push_char;

verus! {

/// An optional exit code: the number, or `null`.
pub open spec fn json_opt_u32(v: Option<u32>) -> Seq<char> {
    match v {
        None => "null"@,
        Some(n) => dec_str(n as int),
    }
}

/// An optional captured stream: the JSON string, or `null`.
pub open spec fn json_opt_string(v: Option<String>) -> Seq<char> {
    match v {
        None => "null"@,
        Some(s) => json_string(s@),
    }
}

/// One task as a JSON object, fields in their declared order.
pub open spec fn task_json(t: Task) -> Seq<char> {
    "{\"webhook_name\":"@ + json_string(t.webhook_name@) + ",\"task_id\":"@ + dec_str(
        t.task_id as int,
    ) + ",\"command\":"@ + json_string(t.command@) + ",\"cwd\":"@ + json_string(t.cwd@)
        + ",\"exit_code\":"@ + json_opt_u32(t.exit_code) + ",\"stdout\":"@ + json_opt_string(
        t.stdout,
    ) + ",\"stderr\":"@ + json_opt_string(t.stderr) + ",\"added_at\":"@ + json_string(t.added_at@)
        + "}"@
}

/// One entry of a task collection: the stringified id as key, the task as
/// value.
pub open spec fn task_entry(t: Task) -> Seq<char> {
    seq!['"'] + dec_str(t.task_id as int) + seq!['"', ':'] + task_json(t)
}

/// The entries of a task collection, comma-separated, in sequence order.
pub open spec fn task_entries(tasks: Seq<Task>) -> Seq<char>
    decreases tasks.len(),
{
    if tasks.len() == 0 {
        Seq::<char>::empty()
    } else if tasks.len() == 1 {
        task_entry(tasks[0])
    } else {
        task_entries(tasks.drop_last()) + seq![','] + task_entry(tasks.last())
    }
}

/// The entries of a counter row, one per webhook, in catalogue order.
pub open spec fn counter_entries(hooks: Seq<Webhook>, counts: Seq<usize>) -> Seq<char>
    decreases hooks.len(),
{
    if hooks.len() == 0 {
        Seq::<char>::empty()
    } else {
        let entry = json_string(hooks.last().name@) + seq![':'] + dec_str(counts.last() as int);
        if hooks.len() == 1 {
            entry
        } else {
            counter_entries(hooks.drop_last(), counts.drop_last()) + seq![','] + entry
        }
    }
}

/// The whole snapshot.
pub open spec fn queue_json(q: TaskQueue) -> Seq<char> {
    "{\"max_id\":"@ + dec_str(q.max_id as int) + ",\"queued_count\":{"@ + counter_entries(
        q.settings.webhooks@,
        q.queued_count@,
    ) + "},\"running_count\":{"@ + counter_entries(q.settings.webhooks@, q.running_count@)
        + "},\"queued\":{"@ + task_entries(q.queued@) + "},\"running\":{"@ + task_entries(
        q.running@,
    ) + "},\"finished\":{"@ + task_entries(q.finished@) + "}}"@
}

/// Append one task as a JSON object.
#[verifier::rlimit(100)]
fn write_task(out: &mut String, t: &Task)
    requires
        t.task_id >= 0,
    ensures
        final(out)@ == old(out)@ + task_json(*t),
{
    out.append("{\"webhook_name\":");
    write_json_string(out, t.webhook_name.as_str());
    out.append(",\"task_id\":");
    write_u64(out, t.task_id as u64);
    out.append(",\"command\":");
    write_json_string(out, t.command.as_str());
    out.append(",\"cwd\":");
    write_json_string(out, t.cwd.as_str());
    out.append(",\"exit_code\":");
    match &t.exit_code {
        None => out.append("null"),
        Some(c) => write_u64(out, *c as u64),
    }
    out.append(",\"stdout\":");
    match &t.stdout {
        None => out.append("null"),
        Some(s) => write_json_string(out, s.as_str()),
    }
    out.append(",\"stderr\":");
    match &t.stderr {
        None => out.append("null"),
        Some(s) => write_json_string(out, s.as_str()),
    }
    out.append(",\"added_at\":");
    write_json_string(out, t.added_at.as_str());
    out.append("}");
    proof {
        assert(out@ =~= old(out)@ + task_json(*t));
    }
}

/// Append the entries of a task collection.
#[verifier::loop_isolation(false)]
#[verifier::rlimit(100)]
fn write_task_entries(out: &mut String, tasks: &Vec<Task>)
    requires
        forall|i: int| 0 <= i < tasks@.len() ==> #[trigger] tasks@[i].task_id >= 0,
    ensures
        final(out)@ == old(out)@ + task_entries(tasks@),
{
    let n = tasks.len();
    let mut i: usize = 0;
    while i < n
        invariant
            0 <= i <= n,
            out@ == old(out)@ + task_entries(tasks@.subrange(0, i as int)),
        decreases n - i,
    {
        if i > 0 {
            push_char(out, ',');
        }
        push_char(out, '"');
        write_u64(out, tasks[i].task_id as u64);
        push_char(out, '"');
        push_char(out, ':');
        write_task(out, &tasks[i]);
        proof {
            assert(tasks@.subrange(0, i + 1).drop_last() =~= tasks@.subrange(0, i as int));
            assert(tasks@.subrange(0, i + 1).last() == tasks@[i as int]);
            assert(out@ =~= old(out)@ + task_entries(tasks@.subrange(0, i + 1)));
        }
        i += 1;
    }
    proof {
        assert(tasks@.subrange(0, n as int) =~= tasks@);
    }
}

/// Append the entries of a counter row.
#[verifier::loop_isolation(false)]
#[verifier::rlimit(100)]
fn write_counter_entries(out: &mut String, hooks: &Vec<Webhook>, counts: &Vec<usize>)
    requires
        counts@.len() == hooks@.len(),
    ensures
        final(out)@ == old(out)@ + counter_entries(hooks@, counts@),
{
    let n = hooks.len();
    let mut i: usize = 0;
    while i < n
        invariant
            0 <= i <= n,
            out@ == old(out)@ + counter_entries(
                hooks@.subrange(0, i as int),
                counts@.subrange(0, i as int),
            ),
        decreases n - i,
    {
        if i > 0 {
            push_char(out, ',');
        }
        write_json_string(out, hooks[i].name.as_str());
        push_char(out, ':');
        write_u64(out, counts[i] as u64);
        proof {
            assert(hooks@.subrange(0, i + 1).drop_last() =~= hooks@.subrange(0, i as int));
            assert(counts@.subrange(0, i + 1).drop_last() =~= counts@.subrange(0, i as int));
            assert(hooks@.subrange(0, i + 1).last() == hooks@[i as int]);
            assert(counts@.subrange(0, i + 1).last() == counts@[i as int]);
            assert(out@ =~= old(out)@ + counter_entries(
                hooks@.subrange(0, i + 1),
                counts@.subrange(0, i + 1),
            ));
        }
        i += 1;
    }
    proof {
        assert(hooks@.subrange(0, n as int) =~= hooks@);
        assert(counts@.subrange(0, n as int) =~= counts@);
    }
}

impl TaskQueue {
    /// The JSON snapshot of the current state, as one string.
    pub fn snapshot_json(&self) -> (s: String)
        requires
            self.wf(),
        ensures
            s@ == queue_json(*self),
    {
        let mut out = String::new();
        out.append("{\"max_id\":");
        write_u64(&mut out, self.max_id as u64);
        out.append(",\"queued_count\":{");
        write_counter_entries(&mut out, &self.settings.webhooks, &self.queued_count);
        out.append("},\"running_count\":{");
        write_counter_entries(&mut out, &self.settings.webhooks, &self.running_count);
        out.append("},\"queued\":{");
        write_task_entries(&mut out, &self.queued);
        out.append("},\"running\":{");
        write_task_entries(&mut out, &self.running);
        out.append("},\"finished\":{");
        write_task_entries(&mut out, &self.finished);
        out.append("}}");
        proof {
            assert(out@ =~= queue_json(*self));
        }
        out
    }
}

} // verus!
