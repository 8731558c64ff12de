use webhook_server::authentication::{constant_time_eq, verify_authentication};
use webhook_server::request::{get_task_from_request, RequestError};
use webhook_server::settings::{RawSettings, RawWebhook, Settings, SettingsError, WebhookMode};
use webhook_server::template::TemplateError;

fn raw_hook(name: &str, command: &str, mode: &str, parallel_processes: u32) -> RawWebhook {
    RawWebhook {
        name: name.to_string(),
        command: command.to_string(),
        cwd: "/tmp".to_string(),
        mode: mode.to_string(),
        parallel_processes,
    }
}

fn raw_settings(webhooks: Vec<RawWebhook>) -> RawSettings {
    RawSettings {
        domain: "127.0.0.1".to_string(),
        port: 8000,
        ssl_private_key: None,
        ssl_cert_chain: None,
        secret: None,
        basic_auth_user: None,
        basic_auth_password: None,
        basic_auth_and_secret: false,
        workers: 8,
        webhooks,
    }
}

#[test]
fn settings_accept_a_valid_catalogue() {
    let settings = Settings::new(raw_settings(vec![
        raw_hook("a", "echo hi", "single", 1),
        raw_hook("b", "echo hi", "deploy", 1),
        raw_hook("c", "echo hi", "parallel", 3),
    ]))
    .unwrap();
    assert_eq!(settings.workers, 8);
    assert_eq!(settings.webhooks.len(), 3);
    assert_eq!(settings.webhooks[0].mode, WebhookMode::Single);
    assert_eq!(settings.webhooks[1].mode, WebhookMode::Deploy);
    assert_eq!(settings.webhooks[2].mode, WebhookMode::Parallel);
    assert_eq!(settings.webhooks[2].parallel_processes, 3);
}

#[test]
fn settings_reject_an_unknown_mode() {
    let result = Settings::new(raw_settings(vec![raw_hook("a", "echo hi", "weekly", 1)]));
    assert_eq!(result.unwrap_err(), SettingsError::InvalidMode);
}

#[test]
fn settings_reject_a_zero_parallel_limit() {
    let result = Settings::new(raw_settings(vec![raw_hook("a", "echo hi", "parallel", 0)]));
    assert_eq!(result.unwrap_err(), SettingsError::InvalidParallelProcesses);
}

#[test]
fn settings_reject_a_duplicate_name() {
    let result = Settings::new(raw_settings(vec![
        raw_hook("a", "echo hi", "deploy", 1),
        raw_hook("a", "echo bye", "deploy", 1),
    ]));
    assert_eq!(result.unwrap_err(), SettingsError::DuplicateName);
}

#[test]
fn settings_reject_a_password_without_a_user() {
    let mut raw = raw_settings(vec![]);
    raw.basic_auth_password = Some("pw".to_string());
    assert_eq!(Settings::new(raw).unwrap_err(), SettingsError::MissingBasicAuthUser);
}

#[test]
fn settings_reject_a_user_without_a_password() {
    let mut raw = raw_settings(vec![]);
    raw.basic_auth_user = Some("user".to_string());
    assert_eq!(Settings::new(raw).unwrap_err(), SettingsError::MissingBasicAuthPassword);
}

#[test]
fn settings_reject_both_required_without_a_secret() {
    let mut raw = raw_settings(vec![]);
    raw.basic_auth_and_secret = true;
    raw.basic_auth_user = Some("user".to_string());
    raw.basic_auth_password = Some("pw".to_string());
    assert_eq!(Settings::new(raw).unwrap_err(), SettingsError::MissingSecret);
}

#[test]
fn settings_reject_both_required_without_credentials() {
    let mut raw = raw_settings(vec![]);
    raw.basic_auth_and_secret = true;
    raw.secret = Some("s".to_string());
    assert_eq!(Settings::new(raw).unwrap_err(), SettingsError::MissingBasicAuthUser);
}

#[test]
fn webhook_lookup_finds_only_catalogue_names() {
    let settings = Settings::new(raw_settings(vec![raw_hook("a", "echo hi", "deploy", 1)]))
        .unwrap();
    let hook = settings.get_webhook_by_name(&"a".to_string()).unwrap();
    assert_eq!(hook.name, "a");
    assert_eq!(hook.command, "echo hi");
    assert!(settings.get_webhook_by_name(&"b".to_string()).is_none());
}

fn auth_settings(
    secret: Option<&str>,
    user: Option<&str>,
    both_required: bool,
) -> Settings {
    let mut raw = raw_settings(vec![]);
    raw.secret = secret.map(|s| s.to_string());
    raw.basic_auth_user = user.map(|s| s.to_string());
    raw.basic_auth_password = user.map(|_| "pw".to_string());
    raw.basic_auth_and_secret = both_required;
    Settings::new(raw).unwrap()
}

#[test]
fn auth_accepts_everything_when_nothing_is_configured() {
    let settings = auth_settings(None, None, false);
    assert!(verify_authentication(&settings, false, false));
}

#[test]
fn auth_accepts_either_check_by_default() {
    let settings = auth_settings(Some("s"), Some("user"), false);
    assert!(verify_authentication(&settings, true, false));
    assert!(verify_authentication(&settings, false, true));
    assert!(!verify_authentication(&settings, false, false));
}

#[test]
fn auth_requires_both_when_configured_so() {
    let settings = auth_settings(Some("s"), Some("user"), true);
    assert!(verify_authentication(&settings, true, true));
    assert!(!verify_authentication(&settings, true, false));
    assert!(!verify_authentication(&settings, false, true));
}

#[test]
fn auth_ignores_a_check_that_is_not_configured() {
    let settings = auth_settings(Some("s"), None, false);
    assert!(!verify_authentication(&settings, true, false));
    assert!(verify_authentication(&settings, false, true));
    let settings = auth_settings(None, Some("user"), false);
    assert!(verify_authentication(&settings, true, false));
    assert!(!verify_authentication(&settings, false, true));
}

#[test]
fn constant_time_eq_compares_contents() {
    assert!(constant_time_eq(&b"abc".to_vec(), &b"abc".to_vec()));
    assert!(!constant_time_eq(&b"abc".to_vec(), &b"abd".to_vec()));
    assert!(!constant_time_eq(&b"abc".to_vec(), &b"ab".to_vec()));
    assert!(constant_time_eq(&Vec::new(), &Vec::new()));
}

#[test]
fn request_for_an_unknown_webhook_fails() {
    let settings = Settings::new(raw_settings(vec![raw_hook("a", "echo hi", "deploy", 1)]))
        .unwrap();
    let result = get_task_from_request(&settings, "nope".to_string(), None);
    assert_eq!(result.unwrap_err(), RequestError::UnknownWebhook);
}

#[test]
fn request_with_failing_template_issues_no_task() {
    let settings =
        Settings::new(raw_settings(vec![raw_hook("a", "echo {{x}}", "deploy", 1)])).unwrap();
    let result = get_task_from_request(&settings, "a".to_string(), None);
    assert_eq!(
        result.unwrap_err(),
        RequestError::Template(TemplateError::UnknownParameter)
    );
}

#[test]
fn request_builds_the_rendered_task() {
    let settings =
        Settings::new(raw_settings(vec![raw_hook("a", "echo {{x}}", "deploy", 1)])).unwrap();
    let params = vec![("x".to_string(), "hi".to_string())];
    let task = get_task_from_request(&settings, "a".to_string(), Some(params)).unwrap();
    assert_eq!(task.webhook_name, "a");
    assert_eq!(task.command, "echo hi");
    assert_eq!(task.cwd, "/tmp");
    assert_eq!(task.parameters, vec![("x".to_string(), "hi".to_string())]);
    assert!(!task.added_at.is_empty());
}
