use liteclaw_core::config::LocalConfig;
use liteclaw_core::credential::fresh_token;
use liteclaw_core::fspath::backend_log_path;
use liteclaw_core::fspath::backend_logs_dir;
use liteclaw_core::fspath::backend_script_path;
use liteclaw_core::fspath::normalize_folder;
use liteclaw_core::logs::tail_lines;
use liteclaw_core::ports::find_open_port_with;
use liteclaw_core::ports::make_base_url;
use liteclaw_core::ports::port_to_string;
use liteclaw_core::ports::PORT_MAX;
use liteclaw_core::ports::PORT_MIN;
use liteclaw_core::runtime::interpret_reload_status;
use liteclaw_core::runtime::launch_env;
use liteclaw_core::runtime::is_healthy_status;
use liteclaw_core::runtime::RuntimeState;
use liteclaw_core::SupError;

fn fresh_runtime() -> RuntimeState {
    RuntimeState::new("/data".to_string(), "/data/logs/backend.log".to_string())
}

#[test]
fn add_folder_is_idempotent() {
    let mut c = LocalConfig::default();
    let first = c.add_folder("/srv/share".to_string());
    let second = c.add_folder("/srv/share".to_string());
    assert!(first, "the first add changes the document and triggers a reload");
    assert!(!second, "the second add is a no-op and must skip the reload");
    assert_eq!(c.allowed_folders, vec!["/srv/share"]);
}

#[test]
fn folders_stay_sorted_and_unique() {
    let mut c = LocalConfig::default();
    for p in ["/m", "/c", "/z", "/a", "/c", "/m"] {
        c.add_folder(p.to_string());
    }
    assert_eq!(c.allowed_folders, vec!["/a", "/c", "/m", "/z"]);
    assert!(c.folders_are_sorted());
    c.remove_folder(&"/c".to_string());
    assert_eq!(c.allowed_folders, vec!["/a", "/m", "/z"]);
    assert!(c.folders_are_sorted());
    c.add_folder("/b".to_string());
    assert_eq!(c.allowed_folders, vec!["/a", "/b", "/m", "/z"]);
    assert!(c.folders_are_sorted());
}

#[test]
fn remove_tolerates_a_stale_entry() {
    // The folder was deleted on disk, so it no longer canonicalizes;
    // removal falls back to the raw string and still drops the entry.
    let stale = "/no/such/folder/anywhere";
    let mut c = LocalConfig::default();
    c.add_folder(stale.to_string());
    let key = match normalize_folder(stale) {
        Ok(canonical) => canonical,
        Err(_) => stale.to_string(),
    };
    let removed = c.remove_folder(&key);
    assert!(removed);
    assert!(c.allowed_folders.is_empty());
}

#[test]
fn normalize_rejects_missing_paths_and_files() {
    match normalize_folder("/no/such/folder/anywhere") {
        Err(SupError::NotADirectory(p)) => assert_eq!(p, "/no/such/folder/anywhere"),
        _ => panic!("a missing path is not a folder"),
    }
    let dir = tempfile::tempdir().expect("tempdir");
    let file = tempfile::NamedTempFile::new_in(dir.path()).expect("tempfile");
    let file_path = file.path().to_str().expect("utf8").to_string();
    match normalize_folder(&file_path) {
        Err(SupError::NotADirectory(p)) => assert_eq!(p, file_path),
        _ => panic!("a regular file is not a folder"),
    }
}

#[test]
fn normalize_accepts_an_existing_directory() {
    let dir = tempfile::tempdir().expect("tempdir");
    let dir_path = dir.path().to_str().expect("utf8").to_string();
    let canonical = normalize_folder(&dir_path).expect("an existing directory normalizes");
    // the canonical form is stable under a second normalization
    assert_eq!(normalize_folder(&canonical).expect("still a directory"), canonical);
}

#[test]
fn find_open_port_takes_the_lowest_free_port() {
    let r = find_open_port_with(&|p: u16| p >= 8800).expect("a free port exists");
    assert_eq!(r, 8800);
    let all_free = find_open_port_with(&|_p: u16| true).expect("all free");
    assert_eq!(all_free, PORT_MIN);
    let high_only = find_open_port_with(&|p: u16| p == PORT_MAX).expect("top of range");
    assert_eq!(high_only, PORT_MAX);
    assert!((PORT_MIN..=PORT_MAX).contains(&r));
}

#[test]
fn exhausted_port_range_spawns_no_child() {
    let mut rt = fresh_runtime();
    rt.stop_backend();
    let r = find_open_port_with(&|_p: u16| false);
    match &r {
        Err(SupError::NoPortAvailable) => {}
        _ => panic!("every candidate was bound"),
    }
    // the driver aborts the spawn here: no child was ever launched
    let err = r.unwrap_err();
    rt.mark_error(&err);
    assert!(rt.backend_child.is_none());
    let api = rt.get_api_config();
    assert_eq!(api.last_error.as_deref(), Some("no open port found in 8765-8864"));
    assert!(!api.backend_ready);
}

#[test]
fn healthy_spawn_reaches_ready_with_no_error() {
    let mut rt = fresh_runtime();
    rt.stop_backend();
    let port = find_open_port_with(&|_p: u16| true).expect("free port");
    let token = fresh_token();
    rt.record_spawn(port, token.clone(), 4242);
    assert!(!rt.backend_ready, "not ready before the health check");
    // the backend answers 200 within the timeout
    assert!(is_healthy_status(Some(200)));
    rt.record_health_success();
    let api = rt.get_api_config();
    assert!(api.backend_ready);
    assert!(api.last_error.is_none());
    assert_eq!(api.token, token);
    assert_eq!(api.base_url, format!("http://127.0.0.1:{port}"));
}

#[test]
fn unresponsive_child_times_out_and_is_terminated() {
    let mut rt = fresh_runtime();
    rt.stop_backend();
    rt.record_spawn(PORT_MIN, fresh_token(), 77);
    // every poll within the deadline fails or answers another status
    assert!(!is_healthy_status(None));
    assert!(!is_healthy_status(Some(503)));
    let kill = rt.record_health_failure();
    assert_eq!(kill, Some(77), "the hung child is handed back for termination");
    assert!(rt.backend_child.is_none(), "no process leak");
    let api = rt.get_api_config();
    assert!(!api.backend_ready);
    assert_eq!(api.last_error.as_deref(), Some("backend health check timed out"));
}

#[test]
fn reload_while_not_ready_makes_no_request() {
    let rt = fresh_runtime();
    match rt.reload_request() {
        Err(e) => assert!(e.is_backend_not_ready()),
        Ok(_) => panic!("no request may exist while the backend is not ready"),
    }
}

#[test]
fn reload_request_carries_url_and_bearer_token() {
    let mut rt = fresh_runtime();
    rt.record_spawn(8800, "tok-123".to_string(), 1);
    rt.record_health_success();
    let (url, auth) = rt.reload_request().expect("ready backend reloads");
    assert_eq!(url, "http://127.0.0.1:8800/v1/config/reload");
    assert_eq!(auth, "Bearer tok-123");
    let (hurl, hauth) = rt.health_request();
    assert_eq!(hurl, "http://127.0.0.1:8800/v1/health");
    assert_eq!(hauth, auth);
}

#[test]
fn reload_status_is_success_only_on_200() {
    assert!(interpret_reload_status(Some(200), String::new()).is_ok());
    match interpret_reload_status(Some(500), "HTTP 500".to_string()) {
        Err(SupError::ReloadFailed(d)) => assert_eq!(d, "HTTP 500"),
        _ => panic!("a non-200 status fails the reload"),
    }
    match interpret_reload_status(None, "connection refused".to_string()) {
        Err(SupError::ReloadFailed(d)) => assert_eq!(d, "connection refused"),
        _ => panic!("a transport error fails the reload"),
    }
}

#[test]
fn stop_is_idempotent() {
    let mut rt = fresh_runtime();
    assert_eq!(rt.stop_backend(), None);
    rt.record_spawn(PORT_MIN, "t".to_string(), 9);
    assert_eq!(rt.stop_backend(), Some(9));
    assert_eq!(rt.stop_backend(), None);
}

#[test]
fn launch_contract_names_exactly_three_variables() {
    let env = launch_env("tok", "/data", 8800);
    assert_eq!(env.len(), 3);
    assert_eq!(env[0], ("LITECLAW_AUTH_TOKEN".to_string(), "tok".to_string()));
    assert_eq!(env[1], ("LITECLAW_DATA_DIR".to_string(), "/data".to_string()));
    assert_eq!(env[2], ("LITECLAW_PORT".to_string(), "8800".to_string()));
}

#[test]
fn base_url_and_port_text() {
    assert_eq!(make_base_url(8765), "http://127.0.0.1:8765");
    assert_eq!(make_base_url(8864), "http://127.0.0.1:8864");
    assert_eq!(port_to_string(8801), "8801");
}

#[test]
fn tokens_are_long_and_fresh() {
    let a = fresh_token();
    let b = fresh_token();
    assert_eq!(a.chars().count(), 36);
    assert_eq!(b.chars().count(), 36);
    assert_ne!(a, b);
}

#[test]
fn tail_lines_returns_the_last_n_in_order() {
    assert_eq!(tail_lines("a\nb\nc", 2), "b\nc");
    assert_eq!(tail_lines("a\nb\nc", 10), "a\nb\nc");
    assert_eq!(tail_lines("a\nb\n", 5), "a\nb", "a trailing break opens no empty line");
    assert_eq!(tail_lines("a\nb\nc", 0), "c", "at least one line is returned");
    assert_eq!(tail_lines("one\r\ntwo", 2), "one\ntwo", "carriage returns are stripped");
    assert_eq!(tail_lines("", 3), "");
}

#[test]
fn error_messages_match_the_wire_format() {
    assert_eq!(SupError::NoPortAvailable.message(), "no open port found in 8765-8864");
    assert_eq!(SupError::HealthCheckTimeout.message(), "backend health check timed out");
    assert_eq!(SupError::BackendNotReady.message(), "backend is not ready");
    assert_eq!(SupError::LockPoisoned.message(), "runtime lock poisoned");
    assert_eq!(
        SupError::NotADirectory("/x".to_string()).message(),
        "not a folder: /x"
    );
    assert_eq!(
        SupError::ReloadFailed("HTTP 500".to_string()).message(),
        "backend config reload failed: HTTP 500"
    );
    assert_eq!(SupError::IoError("denied".to_string()).message(), "io error: denied");
    assert_eq!(
        SupError::SpawnFailed("exec failed".to_string()).message(),
        "failed to spawn backend: exec failed"
    );
    assert_eq!(
        SupError::ParseError("bad".to_string()).message(),
        "invalid config json: bad"
    );
}

#[test]
fn folders_order_by_code_point() {
    let mut c = LocalConfig::default();
    c.add_folder("/\u{e4}".to_string());
    c.add_folder("/z".to_string());
    assert_eq!(c.allowed_folders, vec!["/z", "/\u{e4}"]);
    assert!(c.folders_are_sorted());
}

#[test]
fn derived_paths_follow_the_data_dir() {
    assert_eq!(backend_logs_dir("/data"), "/data/logs");
    assert_eq!(backend_log_path("/data"), "/data/logs/backend.log");
    assert_eq!(backend_script_path("/app"), "/app/../../backend/main.py");
}
