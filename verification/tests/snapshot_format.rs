use webhook_server::executor::{build_task_completed, ProcessOutcome};
use webhook_server::messages::{NewTask, StartTask, TaskCompleted};
use webhook_server::scheduler::Scheduler;
use webhook_server::settings::{RawSettings, RawWebhook, Settings};

fn raw_hook(name: &str, mode: &str, parallel_processes: u32) -> RawWebhook {
    RawWebhook {
        name: name.to_string(),
        command: "echo hi".to_string(),
        cwd: "/tmp".to_string(),
        mode: mode.to_string(),
        parallel_processes,
    }
}

fn settings_with(workers: u32, webhooks: Vec<RawWebhook>) -> Settings {
    Settings::new(RawSettings {
        domain: "127.0.0.1".to_string(),
        port: 8000,
        ssl_private_key: None,
        ssl_cert_chain: None,
        secret: None,
        basic_auth_user: None,
        basic_auth_password: None,
        basic_auth_and_secret: false,
        workers,
        webhooks,
    })
    .unwrap()
}

fn incoming(name: &str, command: &str, added_at: &str) -> NewTask {
    NewTask {
        webhook_name: name.to_string(),
        parameters: Vec::new(),
        cwd: "/tmp".to_string(),
        command: command.to_string(),
        added_at: added_at.to_string(),
    }
}

#[test]
fn snapshot_of_an_empty_queue() {
    let scheduler = Scheduler::new(settings_with(2, vec![raw_hook("A", "deploy", 8)]));
    let json = scheduler.handle_get_queue();
    assert_eq!(
        json,
        "{\"max_id\":0,\"queued_count\":{\"A\":0},\"running_count\":{\"A\":0},\
         \"queued\":{},\"running\":{},\"finished\":{}}"
    );
}

#[test]
fn snapshot_renders_one_task_exactly() {
    let mut scheduler = Scheduler::new(settings_with(2, vec![raw_hook("A", "deploy", 8)]));
    scheduler.handle_new_task(incoming("A", "echo hi", "2024-01-01T00:00:00+00:00"));
    let json = scheduler.handle_get_queue();
    assert_eq!(
        json,
        "{\"max_id\":1,\"queued_count\":{\"A\":0},\"running_count\":{\"A\":1},\
         \"queued\":{},\"running\":{\"1\":{\"webhook_name\":\"A\",\"task_id\":1,\
         \"command\":\"echo hi\",\"cwd\":\"/tmp\",\"exit_code\":null,\"stdout\":null,\
         \"stderr\":null,\"added_at\":\"2024-01-01T00:00:00+00:00\"}},\"finished\":{}}"
    );
}

#[test]
fn snapshot_round_trips_through_a_json_parser() {
    let mut scheduler = Scheduler::new(settings_with(
        2,
        vec![raw_hook("A", "deploy", 8), raw_hook("B", "parallel", 2)],
    ));
    scheduler.handle_new_task(incoming("A", "echo \"quoted\"\n", "2024-05-06T07:08:09+01:00"));
    scheduler.handle_new_task(incoming("A", "echo hi", "2024-05-06T07:08:10+01:00"));
    scheduler.handle_new_task(incoming("B", "echo hi", "2024-05-06T07:08:11+01:00"));
    scheduler.handle_task_completed(TaskCompleted {
        webhook_name: "B".to_string(),
        task_id: 3,
        exit_code: 2,
        stdout: "tab\there".to_string(),
        stderr: String::new(),
    });

    let json = scheduler.handle_get_queue();
    let value: serde_json::Value = serde_json::from_str(&json).unwrap();

    assert_eq!(value["max_id"], serde_json::Value::from(3));
    assert_eq!(value["queued_count"]["A"], serde_json::Value::from(1));
    assert_eq!(value["queued_count"]["B"], serde_json::Value::from(0));
    assert_eq!(value["running_count"]["A"], serde_json::Value::from(1));
    assert_eq!(value["running_count"]["B"], serde_json::Value::from(0));

    let running_task = &value["running"]["1"];
    assert_eq!(running_task["webhook_name"], serde_json::Value::from("A"));
    assert_eq!(running_task["command"], serde_json::Value::from("echo \"quoted\"\n"));
    assert_eq!(running_task["exit_code"], serde_json::Value::Null);
    assert_eq!(
        running_task["added_at"],
        serde_json::Value::from("2024-05-06T07:08:09+01:00")
    );

    let queued_task = &value["queued"]["2"];
    assert_eq!(queued_task["task_id"], serde_json::Value::from(2));

    let finished_task = &value["finished"]["3"];
    assert_eq!(finished_task["exit_code"], serde_json::Value::from(2));
    assert_eq!(finished_task["stdout"], serde_json::Value::from("tab\there"));
    assert_eq!(finished_task["stderr"], serde_json::Value::from(""));
}

#[test]
fn snapshot_keeps_its_key_order() {
    let scheduler = Scheduler::new(settings_with(2, vec![raw_hook("A", "deploy", 8)]));
    let json = scheduler.handle_get_queue();
    let keys = [
        "\"max_id\"",
        "\"queued_count\"",
        "\"running_count\"",
        "\"queued\"",
        "\"running\"",
        "\"finished\"",
    ];
    let positions: Vec<usize> = keys.iter().map(|k| json.find(k).unwrap()).collect();
    for pair in positions.windows(2) {
        assert!(pair[0] < pair[1]);
    }
}

#[test]
fn snapshot_escapes_control_characters() {
    let mut scheduler = Scheduler::new(settings_with(2, vec![raw_hook("A", "deploy", 8)]));
    scheduler.handle_new_task(incoming("A", "a\"b\\c\nd\re\tf\u{1}g", "t"));
    let json = scheduler.handle_get_queue();
    assert!(json.contains("a\\\"b\\\\c\\nd\\re\\tf\\u0001g"));
    let value: serde_json::Value = serde_json::from_str(&json).unwrap();
    assert_eq!(
        value["running"]["1"]["command"],
        serde_json::Value::from("a\"b\\c\nd\re\tf\u{1}g")
    );
}

#[test]
fn exit_codes_follow_the_outcome() {
    let order = StartTask {
        webhook_name: "A".to_string(),
        task_id: 4,
        command: "echo hi".to_string(),
        cwd: "/tmp".to_string(),
    };
    let message =
        build_task_completed(order, ProcessOutcome::Exited(0), "out".to_string(), "err".to_string());
    assert_eq!(message.webhook_name, "A");
    assert_eq!(message.task_id, 4);
    assert_eq!(message.exit_code, 0);
    assert_eq!(message.stdout, "out");
    assert_eq!(message.stderr, "err");

    let order = StartTask {
        webhook_name: "A".to_string(),
        task_id: 5,
        command: "echo hi".to_string(),
        cwd: "/tmp".to_string(),
    };
    let message =
        build_task_completed(order, ProcessOutcome::Exited(42), String::new(), String::new());
    assert_eq!(message.exit_code, 42);

    for outcome in [
        ProcessOutcome::Signaled,
        ProcessOutcome::Other,
        ProcessOutcome::Undetermined,
    ] {
        let order = StartTask {
            webhook_name: "A".to_string(),
            task_id: 6,
            command: "echo hi".to_string(),
            cwd: "/tmp".to_string(),
        };
        let message = build_task_completed(order, outcome, String::new(), String::new());
        assert_eq!(message.exit_code, 1);
    }
}
