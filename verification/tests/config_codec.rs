use liteclaw_core::codec::config_to_json;
use liteclaw_core::codec::parse_config;
use liteclaw_core::codec::read_config;
use liteclaw_core::config::LocalConfig;
use liteclaw_core::fspath::config_path;
use liteclaw_core::fspath::config_temp_path;
use liteclaw_core::fspath::ensure_config_exists;
use liteclaw_core::fspath::write_config_plan;
use liteclaw_core::SupError;

fn sample_config(folders: &[&str], shell: bool, history: bool) -> LocalConfig {
    let mut c = LocalConfig::default();
    let mut sorted: Vec<String> = folders.iter().map(|f| f.to_string()).collect();
    sorted.sort();
    c.allowed_folders = sorted;
    c.set_shell(shell);
    c.history_enabled = history;
    c
}

#[test]
fn round_trip_plain() {
    let c = sample_config(&["/home/a", "/home/b"], true, false);
    let text = config_to_json(&c);
    let back = parse_config(&text).expect("round trip must parse");
    assert_eq!(back.allowed_folders, c.allowed_folders);
    assert_eq!(back.shell.enabled, true);
    assert_eq!(back.history_enabled, false);
}

#[test]
fn round_trip_empty() {
    let c = LocalConfig::default();
    let text = config_to_json(&c);
    assert_eq!(
        text,
        "{\"allowed_folders\":[],\"shell\":{\"enabled\":false},\"history_enabled\":true}"
    );
    let back = parse_config(&text).expect("default must parse");
    assert!(back.allowed_folders.is_empty());
    assert!(!back.shell.enabled);
    assert!(back.history_enabled);
}

#[test]
fn round_trip_escaped_characters() {
    let c = sample_config(&["/odd\\name", "/with\"quote"], false, true);
    let text = config_to_json(&c);
    let back = parse_config(&text).expect("escapes must round trip");
    assert_eq!(back.allowed_folders, c.allowed_folders);
}

#[test]
fn serializer_emits_json_serde_understands() {
    let c = sample_config(&["/home/a\\b", "/home/\"q\""], true, true);
    let text = config_to_json(&c);
    let v: serde_json::Value = serde_json::from_str(&text).expect("valid JSON");
    assert_eq!(v["shell"]["enabled"], serde_json::Value::Bool(true));
    assert_eq!(v["history_enabled"], serde_json::Value::Bool(true));
    let arr = v["allowed_folders"].as_array().expect("array");
    let got: Vec<String> = arr
        .iter()
        .map(|e| e.as_str().expect("string").to_string())
        .collect();
    assert_eq!(got, c.allowed_folders);
}

#[test]
fn parser_accepts_pretty_printed_document() {
    let text = "{\n  \"allowed_folders\": [\n    \"/srv/data\",\n    \"/var/www\"\n  ],\n  \"shell\": {\n    \"enabled\": true\n  },\n  \"history_enabled\": false\n}\n";
    let c = parse_config(text).expect("pretty text must parse");
    assert_eq!(c.allowed_folders, vec!["/srv/data", "/var/www"]);
    assert!(c.shell.enabled);
    assert!(!c.history_enabled);
}

#[test]
fn parser_rejects_garbage() {
    for bad in [
        "",
        "{}",
        "not json at all",
        "{\"allowed_folders\":[}",
        "{\"allowed_folders\":[],\"shell\":{\"enabled\":false},\"history_enabled\":true} trailing",
        "{\"allowed_folders\":[\"unterminated],\"shell\":{\"enabled\":false},\"history_enabled\":true}",
    ] {
        match parse_config(bad) {
            Err(SupError::ParseError(_)) => {}
            _ => panic!("expected a parse error for {bad:?}"),
        }
    }
}

#[test]
fn read_config_rejects_unsorted_folders() {
    let text = "{\"allowed_folders\":[\"/b\",\"/a\"],\"shell\":{\"enabled\":false},\"history_enabled\":true}";
    assert!(parse_config(text).is_ok());
    match read_config(text) {
        Err(SupError::ParseError(_)) => {}
        _ => panic!("unsorted folder list must be rejected"),
    }
    let sorted = "{\"allowed_folders\":[\"/a\",\"/b\"],\"shell\":{\"enabled\":false},\"history_enabled\":true}";
    let c = read_config(sorted).expect("sorted document is fine");
    assert!(c.folders_are_sorted());
}

#[test]
fn write_plan_names_temp_and_final_paths() {
    let c = sample_config(&["/a"], false, true);
    let plan = write_config_plan("/data", &c);
    assert_eq!(plan.temp_path, "/data/config.tmp");
    assert_eq!(plan.final_path, "/data/config.json");
    let back = parse_config(&plan.contents).expect("plan contents parse");
    assert_eq!(back.allowed_folders, vec!["/a"]);
}

#[test]
fn ensure_config_exists_writes_default_once() {
    assert!(ensure_config_exists("/data", true).is_none());
    let plan = ensure_config_exists("/data", false).expect("a missing file is created");
    assert_eq!(plan.final_path, "/data/config.json");
    let c = parse_config(&plan.contents).expect("default contents parse");
    assert!(c.allowed_folders.is_empty());
    assert!(!c.shell.enabled);
    assert!(c.history_enabled);
}

#[test]
fn config_paths_derive_from_data_dir() {
    assert_eq!(config_path("/data"), "/data/config.json");
    assert_eq!(config_temp_path("/data"), "/data/config.tmp");
}
