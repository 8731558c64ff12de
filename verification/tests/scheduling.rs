use webhook_server::messages::{NewTask, TaskCompleted};
use webhook_server::scheduler::Scheduler;
use webhook_server::settings::{RawSettings, RawWebhook, Settings};

fn raw_hook(name: &str, command: &str, mode: &str, parallel_processes: u32) -> RawWebhook {
    RawWebhook {
        name: name.to_string(),
        command: command.to_string(),
        cwd: "/tmp".to_string(),
        mode: mode.to_string(),
        parallel_processes,
    }
}

fn settings_with(workers: u32, webhooks: Vec<RawWebhook>) -> Settings {
    Settings::new(RawSettings {
        domain: "127.0.0.1".to_string(),
        port: 8000,
        ssl_private_key: None,
        ssl_cert_chain: None,
        secret: None,
        basic_auth_user: None,
        basic_auth_password: None,
        basic_auth_and_secret: false,
        workers,
        webhooks,
    })
    .unwrap()
}

fn incoming(name: &str) -> NewTask {
    NewTask {
        webhook_name: name.to_string(),
        parameters: Vec::new(),
        cwd: "/tmp".to_string(),
        command: "echo hi".to_string(),
        added_at: "2024-01-01T00:00:00+00:00".to_string(),
    }
}

fn completed(name: &str, task_id: i32) -> TaskCompleted {
    TaskCompleted {
        webhook_name: name.to_string(),
        task_id,
        exit_code: 0,
        stdout: String::new(),
        stderr: String::new(),
    }
}

fn ids(started: &[webhook_server::messages::StartTask]) -> Vec<i32> {
    started.iter().map(|s| s.task_id).collect()
}

#[test]
fn single_mode_rejects_duplicates() {
    let settings = settings_with(4, vec![raw_hook("A", "echo hi", "single", 8)]);
    let mut scheduler = Scheduler::new(settings);

    let started = scheduler.handle_new_task(incoming("A"));
    assert_eq!(ids(&started), vec![1]);

    let started = scheduler.handle_new_task(incoming("A"));
    assert!(started.is_empty());
    let started = scheduler.handle_new_task(incoming("A"));
    assert!(started.is_empty());

    let queue = &scheduler.task_queue;
    assert_eq!(queue.max_id, 1);
    assert_eq!(queue.queued.len(), 0);
    assert_eq!(queue.running.len(), 1);
    assert_eq!(queue.queued_count, vec![0]);
    assert_eq!(queue.running_count, vec![1]);
}

#[test]
fn deploy_coalesces_the_follow_up() {
    let settings = settings_with(1, vec![raw_hook("A", "echo hi", "deploy", 8)]);
    let mut scheduler = Scheduler::new(settings);

    let started = scheduler.handle_new_task(incoming("A"));
    assert_eq!(ids(&started), vec![1]);

    // a second task queues behind the running one
    let started = scheduler.handle_new_task(incoming("A"));
    assert!(started.is_empty());
    assert_eq!(scheduler.task_queue.max_id, 2);
    assert_eq!(scheduler.task_queue.queued.len(), 1);

    // further admissions coalesce into the queued one
    let started = scheduler.handle_new_task(incoming("A"));
    assert!(started.is_empty());
    let started = scheduler.handle_new_task(incoming("A"));
    assert!(started.is_empty());
    assert_eq!(scheduler.task_queue.max_id, 2);

    // finishing the first dispatches the queued follow-up
    let started = scheduler.handle_task_completed(completed("A", 1));
    assert_eq!(ids(&started), vec![2]);
    assert_eq!(scheduler.task_queue.max_id, 2);
    assert_eq!(scheduler.task_queue.queued.len(), 0);
    assert_eq!(scheduler.task_queue.running.len(), 1);
}

#[test]
fn parallel_caps_at_parallel_processes() {
    let settings = settings_with(8, vec![raw_hook("A", "echo hi", "parallel", 2)]);
    let mut scheduler = Scheduler::new(settings);

    assert_eq!(ids(&scheduler.handle_new_task(incoming("A"))), vec![1]);
    assert_eq!(ids(&scheduler.handle_new_task(incoming("A"))), vec![2]);
    assert!(scheduler.handle_new_task(incoming("A")).is_empty());
    assert!(scheduler.handle_new_task(incoming("A")).is_empty());

    let queued: Vec<i32> = scheduler.task_queue.queued.iter().map(|t| t.task_id).collect();
    assert_eq!(queued, vec![3, 4]);

    let started = scheduler.handle_task_completed(completed("A", 1));
    assert_eq!(ids(&started), vec![3]);
    let started = scheduler.handle_task_completed(completed("A", 2));
    assert_eq!(ids(&started), vec![4]);
}

#[test]
fn global_cap_trumps_per_hook() {
    let settings = settings_with(
        3,
        vec![
            raw_hook("A", "echo hi", "parallel", 8),
            raw_hook("B", "echo hi", "parallel", 8),
        ],
    );
    let mut scheduler = Scheduler::new(settings);

    assert_eq!(ids(&scheduler.handle_new_task(incoming("A"))), vec![1]);
    assert_eq!(ids(&scheduler.handle_new_task(incoming("A"))), vec![2]);
    assert_eq!(ids(&scheduler.handle_new_task(incoming("B"))), vec![3]);
    assert!(scheduler.handle_new_task(incoming("B")).is_empty());

    assert_eq!(scheduler.task_queue.running.len(), 3);
    let queued: Vec<i32> = scheduler.task_queue.queued.iter().map(|t| t.task_id).collect();
    assert_eq!(queued, vec![4]);
}

#[test]
fn head_of_line_avoidance() {
    // Three workers, so that both of B's tasks can run beside A's first
    // while A's follow-up still waits behind the deploy barrier.
    let settings = settings_with(
        3,
        vec![
            raw_hook("A", "echo hi", "deploy", 8),
            raw_hook("B", "echo hi", "parallel", 2),
        ],
    );
    let mut scheduler = Scheduler::new(settings);

    assert_eq!(ids(&scheduler.handle_new_task(incoming("A"))), vec![1]);
    assert!(scheduler.handle_new_task(incoming("A")).is_empty());
    assert_eq!(ids(&scheduler.handle_new_task(incoming("B"))), vec![3]);
    assert_eq!(ids(&scheduler.handle_new_task(incoming("B"))), vec![4]);

    // id 2 waits although later-admitted tasks already run
    let queued: Vec<i32> = scheduler.task_queue.queued.iter().map(|t| t.task_id).collect();
    assert_eq!(queued, vec![2]);
    let running: Vec<i32> = scheduler.task_queue.running.iter().map(|t| t.task_id).collect();
    assert_eq!(running, vec![1, 3, 4]);

    // only finishing id 1 frees id 2
    let started = scheduler.handle_task_completed(completed("B", 3));
    assert!(started.is_empty());
    let started = scheduler.handle_task_completed(completed("A", 1));
    assert_eq!(ids(&started), vec![2]);
}

#[test]
fn no_workers_means_no_dispatch() {
    let settings = settings_with(0, vec![raw_hook("A", "echo hi", "parallel", 8)]);
    let mut scheduler = Scheduler::new(settings);

    assert!(scheduler.handle_new_task(incoming("A")).is_empty());
    assert!(scheduler.handle_new_task(incoming("A")).is_empty());
    assert_eq!(scheduler.task_queue.queued.len(), 2);
    assert_eq!(scheduler.task_queue.running.len(), 0);
}

#[test]
fn parallel_limit_one_runs_like_deploy_but_queues() {
    let settings = settings_with(4, vec![raw_hook("A", "echo hi", "parallel", 1)]);
    let mut scheduler = Scheduler::new(settings);

    // unlike deploy, every admission is accepted
    assert_eq!(ids(&scheduler.handle_new_task(incoming("A"))), vec![1]);
    assert!(scheduler.handle_new_task(incoming("A")).is_empty());
    assert!(scheduler.handle_new_task(incoming("A")).is_empty());
    assert_eq!(scheduler.task_queue.max_id, 3);
    assert_eq!(scheduler.task_queue.queued.len(), 2);

    // but they run one at a time, like deploy
    assert_eq!(scheduler.task_queue.running.len(), 1);
    let started = scheduler.handle_task_completed(completed("A", 1));
    assert_eq!(ids(&started), vec![2]);
    let started = scheduler.handle_task_completed(completed("A", 2));
    assert_eq!(ids(&started), vec![3]);
}

#[test]
fn finished_tasks_carry_their_results() {
    let settings = settings_with(2, vec![raw_hook("A", "echo hi", "deploy", 8)]);
    let mut scheduler = Scheduler::new(settings);
    scheduler.handle_new_task(incoming("A"));

    let report = TaskCompleted {
        webhook_name: "A".to_string(),
        task_id: 1,
        exit_code: 7,
        stdout: "out".to_string(),
        stderr: "err".to_string(),
    };
    scheduler.handle_task_completed(report);

    let queue = &scheduler.task_queue;
    assert_eq!(queue.running.len(), 0);
    assert_eq!(queue.finished.len(), 1);
    let done = &queue.finished[0];
    assert_eq!(done.task_id, 1);
    assert_eq!(done.exit_code, Some(7));
    assert_eq!(done.stdout.as_deref(), Some("out"));
    assert_eq!(done.stderr.as_deref(), Some("err"));
}

#[test]
fn start_orders_carry_the_rendered_command() {
    let settings = settings_with(2, vec![raw_hook("A", "echo hi", "deploy", 8)]);
    let mut scheduler = Scheduler::new(settings);
    let mut task = incoming("A");
    task.command = "echo rendered".to_string();
    task.cwd = "/var".to_string();
    let started = scheduler.handle_new_task(task);
    assert_eq!(started.len(), 1);
    assert_eq!(started[0].webhook_name, "A");
    assert_eq!(started[0].task_id, 1);
    assert_eq!(started[0].command, "echo rendered");
    assert_eq!(started[0].cwd, "/var");
}

fn count_for(tasks: &[webhook_server::task::Task], name: &str) -> usize {
    tasks.iter().filter(|t| t.webhook_name == name).count()
}

#[test]
fn counters_match_the_collections_after_every_step() {
    let settings = settings_with(
        2,
        vec![
            raw_hook("A", "echo hi", "deploy", 8),
            raw_hook("B", "echo hi", "parallel", 2),
        ],
    );
    let mut scheduler = Scheduler::new(settings);

    let mut check = |scheduler: &Scheduler| {
        let queue = &scheduler.task_queue;
        for (i, hook) in queue.settings.webhooks.iter().enumerate() {
            assert_eq!(queue.queued_count[i], count_for(&queue.queued, &hook.name));
            assert_eq!(queue.running_count[i], count_for(&queue.running, &hook.name));
        }
        assert!(queue.running.len() <= queue.settings.workers);
        let mut ids: Vec<i32> = queue
            .queued
            .iter()
            .chain(queue.running.iter())
            .chain(queue.finished.iter())
            .map(|t| t.task_id)
            .collect();
        ids.sort();
        let mut unique = ids.clone();
        unique.dedup();
        assert_eq!(ids, unique);
    };

    check(&scheduler);
    scheduler.handle_new_task(incoming("A"));
    check(&scheduler);
    scheduler.handle_new_task(incoming("A"));
    check(&scheduler);
    scheduler.handle_new_task(incoming("B"));
    check(&scheduler);
    scheduler.handle_new_task(incoming("B"));
    check(&scheduler);
    scheduler.handle_task_completed(completed("A", 1));
    check(&scheduler);
    scheduler.handle_task_completed(completed("B", 3));
    check(&scheduler);
}

#[test]
fn max_id_never_decreases() {
    let settings = settings_with(1, vec![raw_hook("A", "echo hi", "deploy", 8)]);
    let mut scheduler = Scheduler::new(settings);
    let mut last = scheduler.task_queue.max_id;
    assert_eq!(last, 0);

    scheduler.handle_new_task(incoming("A"));
    assert!(scheduler.task_queue.max_id >= last);
    last = scheduler.task_queue.max_id;

    scheduler.handle_new_task(incoming("A"));
    assert!(scheduler.task_queue.max_id >= last);
    last = scheduler.task_queue.max_id;

    // rejected admissions and completions issue no id and take none back
    scheduler.handle_new_task(incoming("A"));
    assert!(scheduler.task_queue.max_id >= last);
    last = scheduler.task_queue.max_id;

    scheduler.handle_task_completed(completed("A", 1));
    assert!(scheduler.task_queue.max_id >= last);
    assert_eq!(scheduler.task_queue.max_id, 2);
}
