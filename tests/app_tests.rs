use secmanager::app::{SecManagerApp, LOG_CAPACITY};
use secmanager::config::Config;
use secmanager::content::{FetchedSecret, SecretValue};
use secmanager::errors::{ErrorKind, SecretError};

fn names(v: &[&str]) -> Vec<String> {
    v.iter().map(|s| s.to_string()).collect()
}

fn fresh() -> SecManagerApp {
    SecManagerApp::new(names(&["dev", "prod"]), Some("dev".to_string()), None)
}

fn err(msg: &str) -> SecretError {
    SecretError { kind: ErrorKind::Unclassified, message: msg.to_string() }
}

#[test]
fn new_loads_cached_names() {
    let app = SecManagerApp::new(vec![], Some("p".to_string()), Some(names(&["a/b", "c"])));
    assert_eq!(app.status, "Loaded 2 cached secrets");
    assert_eq!(app.logs, names(&["Loaded 2 cached secrets"]));
    assert_eq!(app.all_secret_names, names(&["a/b", "c"]));
    assert_eq!(app.secrets_tree.children.len(), 2);
    assert_eq!(app.selected_profile.as_deref(), Some("p"));
}

#[test]
fn log_keeps_newest_lines() {
    let mut app = fresh();
    for i in 0..(LOG_CAPACITY + 5) {
        app.push_log(format!("line {i}"));
    }
    assert_eq!(app.logs.len(), LOG_CAPACITY);
    assert_eq!(app.logs[0], "line 5");
    assert_eq!(app.logs[LOG_CAPACITY - 1], format!("line {}", LOG_CAPACITY + 4));
}

#[test]
fn search_follows_query_and_names() {
    let mut app = fresh();
    app.build_secrets_tree(&names(&["db/password", "db/user", "api/key"]));
    assert!(app.filtered_secrets.is_empty());
    app.search_query = "db".to_string();
    app.update_search_results();
    assert_eq!(app.filtered_secrets, names(&["db/password", "db/user"]));
    app.build_secrets_tree(&names(&["db/x"]));
    assert_eq!(app.filtered_secrets, names(&["db/x"]));
}

#[test]
fn list_result_rebuilds_and_asks_for_cache_write() {
    let mut app = fresh();
    assert_eq!(app.begin_list(None).as_deref(), Some("dev"));
    assert!(app.begin_list(None).is_none());
    assert!(app.list_slot.complete(Ok(names(&["a/b", "a/c"]))));
    let write = app.handle_async_results();
    assert_eq!(write.as_deref(), Some("dev"));
    assert_eq!(app.status, "Loaded 2 secrets");
    assert_eq!(app.all_secret_names, names(&["a/b", "a/c"]));
    assert!(app.list_slot.is_idle());
    assert!(app.handle_async_results().is_none());
}

#[test]
fn list_from_cache_starts_nothing() {
    let mut app = fresh();
    assert!(app.begin_list(Some(names(&["x"]))).is_none());
    assert!(app.list_slot.is_idle());
    assert_eq!(app.status, "Loaded 1 cached secrets");
    assert!(app.show_secrets_tree);
}

#[test]
fn list_without_profile() {
    let mut app = SecManagerApp::new(vec![], None, None);
    assert!(app.begin_list(None).is_none());
    assert_eq!(app.status, "No profile selected");
    assert!(app.force_reload().is_none());
    assert!(app.begin_identity_check().is_none());
}

#[test]
fn list_error_is_reported() {
    let mut app = fresh();
    assert!(app.force_reload().is_some());
    assert!(app.list_slot.complete(Err(err("denied"))));
    assert!(app.handle_async_results().is_none());
    assert_eq!(app.status, "Error listing secrets: denied");
    assert_eq!(app.logs.last().map(|s| s.as_str()), Some("List secrets error: denied"));
}

#[test]
fn fetch_flow_shows_pretty_json() {
    let mut app = fresh();
    app.secret_id_input = "db/pw".to_string();
    let req = app.fetch_current_secret().unwrap();
    assert_eq!(req.secret_id, "db/pw");
    assert_eq!(req.profile.as_deref(), Some("dev"));
    assert!(app.fetch_current_secret().is_none());
    assert!(app.fetch_slot.complete(Ok(FetchedSecret::Text("{\"a\":1}".to_string()))));
    app.handle_async_results();
    assert_eq!(app.editor_content, "{\n  \"a\": 1\n}");
    assert!(!app.editor_is_binary);
    assert_eq!(app.status, "Fetched string secret");
}

#[test]
fn fetch_flow_binary_and_empty() {
    let mut app = fresh();
    assert!(app.fetch_secret_by_name("bin").is_some());
    assert_eq!(app.secret_id_input, "bin");
    app.fetch_slot.complete(Ok(FetchedSecret::Binary(vec![1, 2, 3])));
    app.handle_async_results();
    assert_eq!(app.editor_content, "AQID");
    assert!(app.editor_is_binary);
    assert!(app.fetch_secret_by_name("none").is_some());
    app.fetch_slot.complete(Ok(FetchedSecret::Empty));
    app.handle_async_results();
    assert_eq!(app.status, "Empty secret");
    assert_eq!(app.editor_content, "AQID");
}

#[test]
fn fetch_error_is_reported() {
    let mut app = fresh();
    app.fetch_secret_by_name("x");
    app.fetch_slot.complete(Err(err("Error: Secret 'x' does not exist")));
    app.handle_async_results();
    assert_eq!(app.status, "Error: Error: Secret 'x' does not exist");
}

#[test]
fn save_requires_an_id() {
    let mut app = fresh();
    app.secret_id_input = "  ".to_string();
    assert!(app.save_secret().is_none());
    assert_eq!(app.status, "Secret ID cannot be empty");
    assert!(app.save_slot.is_idle());
}

#[test]
fn save_creates_in_create_mode() {
    let mut app = fresh();
    assert!(app.start_new_secret());
    app.secret_id_input = "new/id".to_string();
    app.editor_content = "v".to_string();
    let req = app.save_secret().unwrap();
    assert!(req.create);
    assert!(req.description.is_none());
    assert!(matches!(req.value, SecretValue::Text(ref t) if t == "v"));
    assert_eq!(app.status, "Creating secret...");
    assert!(app.save_secret().is_none());
    app.save_slot.complete(Ok("Created secret: new/id".to_string()));
    app.handle_async_results();
    assert_eq!(app.status, "Created secret: new/id");
    assert!(!app.is_editing && !app.is_creating_new);
}

#[test]
fn save_binary_with_bad_base64_is_refused() {
    let mut app = fresh();
    app.secret_id_input = "b".to_string();
    app.editor_is_binary = true;
    app.editor_content = "%%%".to_string();
    assert!(app.save_secret().is_none());
    assert!(app.status.starts_with("Save error: Failed to decode base64: "));
    assert!(app.status.len() > "Save error: Failed to decode base64: ".len());
    assert_eq!(app.logs.last(), Some(&app.status));
    assert!(app.save_slot.is_idle());
}

#[test]
fn save_updates_with_description() {
    let mut app = fresh();
    app.secret_id_input = "k".to_string();
    app.editor_content = "AQID".to_string();
    app.editor_is_binary = true;
    app.secret_description = "desc".to_string();
    let req = app.save_secret().unwrap();
    assert!(!req.create);
    assert_eq!(req.description.as_deref(), Some("desc"));
    assert!(matches!(req.value, SecretValue::Binary(ref b) if b == &vec![1, 2, 3]));
    assert_eq!(app.status, "Updating secret...");
    app.save_slot.complete(Err(err("boom")));
    app.handle_async_results();
    assert_eq!(app.status, "Save error: boom");
}

#[test]
fn identity_check_reports_messages() {
    let mut app = fresh();
    assert_eq!(app.begin_identity_check().as_deref(), Some("dev"));
    assert_eq!(app.status, "Checking SSO...");
    assert!(app.begin_identity_check().is_none());
    app.report("Opened SSO login in browser...".to_string());
    app.identity_slot.complete("SSO valid".to_string());
    app.handle_async_results();
    assert_eq!(app.status, "SSO valid");
    assert!(app.identity_slot.is_idle());
}

#[test]
fn edit_mode_rules() {
    let mut app = fresh();
    assert!(!app.start_edit());
    app.secret_id_input = "k".to_string();
    app.editor_content = "v".to_string();
    assert!(app.start_edit());
    assert!(!app.start_edit());
    assert!(!app.start_new_secret());
    app.cancel_edit();
    assert!(!app.is_editing);
    assert_eq!(app.status, "Edit cancelled");
}

#[test]
fn cache_file_names() {
    assert_eq!(Config::secrets_cache_path("dev"), "secrets_dev.json");
    assert_eq!(Config::metadata_cache_path("dev"), "secrets_meta_dev.json");
}

#[test]
fn tick_with_nothing_finished_changes_nothing() {
    let mut app = fresh();
    app.build_secrets_tree(&names(&["a/b"]));
    let before_status = app.status.clone();
    let before_logs = app.logs.clone();
    assert!(app.handle_async_results().is_none());
    assert_eq!(app.status, before_status);
    assert_eq!(app.logs, before_logs);
}

#[test]
fn fetch_result_logged_once() {
    let mut app = fresh();
    app.fetch_secret_by_name("k");
    let n = app.logs.len();
    app.fetch_slot.complete(Ok(FetchedSecret::Empty));
    app.handle_async_results();
    assert_eq!(app.logs.len(), n + 1);
    assert_eq!(app.logs.last().map(|s| s.as_str()), Some("Fetched secret: empty"));
    assert_eq!(app.status, "Empty secret");
}

#[test]
fn no_profile_is_logged() {
    let mut app = SecManagerApp::new(vec![], None, None);
    app.force_reload();
    assert_eq!(app.logs, names(&["Force reloading secrets...", "No profile selected"]));
    app.begin_identity_check();
    assert_eq!(app.logs.last().map(|s| s.as_str()), Some("No profile selected"));
}

#[test]
fn rebuilt_tree_is_collapsed() {
    let mut app = fresh();
    app.build_secrets_tree(&names(&["a/b", "a/c"]));
    app.secrets_tree.children[0].expanded = true;
    app.build_secrets_tree(&names(&["a/b", "a/c"]));
    assert!(app.secrets_tree.children.iter().all(|c| !c.expanded));
}

#[test]
fn delete_shares_the_write_slot() {
    let mut app = fresh();
    assert!(app.begin_delete().is_none());
    app.secret_id_input = "old/key".to_string();
    let req = app.begin_delete().unwrap();
    assert_eq!(req.secret_id, "old/key");
    assert_eq!(app.status, "Deleting secret...");
    assert!(app.begin_delete().is_none());
    assert!(app.save_secret().is_none());
    app.save_slot.complete(Ok("Deleted secret: old/key".to_string()));
    app.handle_async_results();
    assert_eq!(app.status, "Deleted secret: old/key");
    assert!(app.start_new_secret());
    app.secret_id_input = "x".to_string();
    assert!(app.begin_delete().is_none());
}
