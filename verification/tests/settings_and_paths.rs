//! Control settings, device tokens, and where each file lives.

use hyperpanes_core::persistence::control_settings::{
    bind_candidate, from_fields, load_from, settings_text, ControlSettings,
};
use hyperpanes_core::persistence::device_tokens::DeviceRecord;
use hyperpanes_core::persistence::paths::{
    ai_memory_json, ai_settings_json, app_data_dir, claude_accounts_json, claude_sessions_dir,
    config_dir, control_json, control_settings_json, data_dir, home_dir, join, last_workspace_json,
    pick_base, projects_json, state_dir, temp_file_name, user_data_dir, BaseDirs, PRODUCT_NAME,
};
use hyperpanes_core::platform::Platform;

fn dirs(platform: Platform) -> BaseDirs {
    BaseDirs {
        platform,
        app_data: "C:\\Users\\me\\AppData\\Roaming".to_string(),
        home: "/home/me".to_string(),
        xdg_config: None,
        xdg_data: Some("/srv/data".to_string()),
        xdg_state: Some("relative".to_string()),
    }
}

fn file_name(path: &str) -> &str {
    path.rsplit(|c| c == '/' || c == '\\').next().unwrap()
}

#[test]
fn missing_file_yields_defaults() {
    assert_eq!(load_from(None, None), ControlSettings::default());
}

#[test]
fn corrupt_file_yields_defaults() {
    assert_eq!(load_from(Some("not json {"), None), ControlSettings::default());
}

#[test]
fn only_boolean_true_enables() {
    assert_eq!(
        load_from(Some(r#"{ "enabled": "yes", "allowInput": null }"#), None),
        ControlSettings::default()
    );
    assert_eq!(
        load_from(Some(r#"{ "enabled": true }"#), None),
        ControlSettings { enabled: true, ..Default::default() }
    );
}

#[test]
fn invalid_bind_or_port_coerce_to_unset() {
    let text = r#"{ "enabled": true, "bindAddress": "example.com", "port": 700000 }"#;
    assert_eq!(bind_candidate(text).as_deref(), Some("example.com"));
    let s = load_from(Some(text), None);
    assert_eq!(s.bind_address, None);
    assert_eq!(s.port, None);
    let text = r#"{ "bindAddress": "", "port": "8080" }"#;
    let s = load_from(Some(text), None);
    assert_eq!(s.bind_address, None);
    assert_eq!(s.port, None);
    let text = r#"{ "bindAddress": "0.0.0.0", "port": 0 }"#;
    let s = load_from(Some(text), Some("0.0.0.0"));
    assert_eq!(s.bind_address.as_deref(), Some("0.0.0.0"));
    assert_eq!(s.port, None);
}

#[test]
fn control_settings_save_then_load_round_trips() {
    let settings = ControlSettings { enabled: true, allow_input: true, ..Default::default() };
    assert_eq!(load_from(Some(&settings_text(&settings)), None), settings);
}

#[test]
fn saved_shape_is_camel_case_pretty() {
    let text = settings_text(&ControlSettings {
        enabled: false,
        allow_input: true,
        ..Default::default()
    });
    assert_eq!(text, "{\n  \"enabled\": false,\n  \"allowInput\": true\n}");
}

#[test]
fn bind_and_port_round_trip() {
    let settings = ControlSettings {
        enabled: true,
        allow_input: true,
        bind_address: Some("100.71.2.9".into()),
        port: Some(51888),
    };
    let text = settings_text(&settings);
    assert_eq!(
        text,
        "{\n  \"enabled\": true,\n  \"allowInput\": true,\n  \"bindAddress\": \"100.71.2.9\",\n  \"port\": 51888\n}"
    );
    assert_eq!(bind_candidate(&text).as_deref(), Some("100.71.2.9"));
    assert_eq!(load_from(Some(&text), Some("100.71.2.9")), settings);
    assert_eq!(load_from(Some(&text), Some("100.71.2.8")).bind_address, None);
}

#[test]
fn any_string_is_written_so_that_it_is_read_back() {
    let odd = "a\"b\\c\n\u{1}\u{1F600}";
    let settings = ControlSettings { bind_address: Some(odd.into()), ..Default::default() };
    let text = settings_text(&settings);
    assert_eq!(bind_candidate(&text).as_deref(), Some(odd));
    // Port 0 asks for a port that the system picks, and is not kept as such.
    let zero = ControlSettings { port: Some(0), ..Default::default() };
    assert_eq!(load_from(Some(&settings_text(&zero)), None), ControlSettings::default());
}

#[test]
fn ports_are_from_one_to_the_largest() {
    let port = |p| from_fields(None, None, None, None, Some(p)).port;
    assert_eq!(port(0), None);
    assert_eq!(port(1), Some(1));
    assert_eq!(port(65535), Some(65535));
    assert_eq!(port(65536), None);
}

#[test]
fn expiry_is_inclusive_and_absent_means_never() {
    let never = DeviceRecord {
        label: "a".into(),
        token: "t".into(),
        expires_at: None,
        ssh_key: None,
    };
    assert!(!never.is_expired(i64::MAX));
    let lapses = DeviceRecord { expires_at: Some(1_000), ..never };
    assert!(!lapses.is_expired(999));
    assert!(lapses.is_expired(1_000), "the expiry instant itself is out");
    assert!(lapses.is_expired(1_001));
}

#[test]
fn canonical_file_paths_live_under_user_data_dir() {
    for platform in [Platform::Windows, Platform::Macos] {
        let d = dirs(platform);
        let dir = user_data_dir(&d);
        for p in [
            control_json(&d),
            control_settings_json(&d),
            last_workspace_json(&d),
            projects_json(&d),
            ai_settings_json(&d),
            ai_memory_json(&d),
        ] {
            assert!(p.starts_with(&dir), "{p:?} should live under {dir:?}");
        }
        assert_eq!(file_name(&control_json(&d)), "control.json");
        assert_eq!(file_name(&control_settings_json(&d)), "control-settings.json");
        assert_eq!(file_name(&last_workspace_json(&d)), "last-workspace.json");
        assert_eq!(file_name(&projects_json(&d)), "projects.json");
        assert_eq!(file_name(&ai_settings_json(&d)), "ai-settings.json");
        assert_eq!(file_name(&ai_memory_json(&d)), "ai-memory.json");
    }
}

#[test]
fn user_data_dir_is_appdata_hyperpanes() {
    let dir = user_data_dir(&dirs(Platform::Windows));
    assert!(dir.ends_with(PRODUCT_NAME));
    assert_eq!(dir, "C:\\Users\\me\\AppData\\Roaming\\hyperpanes");
}

#[test]
fn macos_user_data_dir_is_application_support() {
    let dir = user_data_dir(&dirs(Platform::Macos));
    assert!(
        dir.ends_with(&format!("Library/Application Support/{PRODUCT_NAME}")),
        "expected ~/Library/Application Support/{PRODUCT_NAME}, got {dir:?}"
    );
    assert_eq!(dir, "/home/me/Library/Application Support/hyperpanes");
}

#[test]
fn absolute_env_value_wins() {
    assert_eq!(pick_base(Some("/custom/cfg"), "/home/me", ".config"), "/custom/cfg");
}

#[test]
fn empty_or_relative_env_value_falls_back_to_home() {
    assert_eq!(pick_base(Some(""), "/home/me", ".config"), "/home/me/.config");
    assert_eq!(pick_base(Some("rel/cfg"), "/home/me", ".config"), "/home/me/.config");
    assert_eq!(pick_base(None, "/home/me", ".local/state"), "/home/me/.local/state");
}

#[test]
fn user_data_dir_is_the_xdg_config_dir() {
    let mut d = dirs(Platform::Linux);
    assert_eq!(user_data_dir(&d), "/home/me/.config/hyperpanes");
    d.xdg_config = Some("/custom/cfg".to_string());
    assert_eq!(user_data_dir(&d), "/custom/cfg/hyperpanes");
    assert_eq!(config_dir(&d), user_data_dir(&d));
}

#[test]
fn data_and_state_dirs_are_xdg_correct() {
    let d = dirs(Platform::Linux);
    assert_eq!(data_dir(&d), "/srv/data/hyperpanes");
    assert_eq!(state_dir(&d), "/home/me/.local/state/hyperpanes");
}

#[test]
fn files_are_classified_config_data_state() {
    let d = dirs(Platform::Linux);
    let under = |dir: String, name: &str| format!("{dir}/{name}");
    assert_eq!(control_settings_json(&d), under(config_dir(&d), "control-settings.json"));
    assert_eq!(ai_settings_json(&d), under(config_dir(&d), "ai-settings.json"));
    assert_eq!(projects_json(&d), under(data_dir(&d), "projects.json"));
    assert_eq!(ai_memory_json(&d), under(data_dir(&d), "ai-memory.json"));
    assert_eq!(control_json(&d), under(state_dir(&d), "control.json"));
    assert_eq!(last_workspace_json(&d), under(state_dir(&d), "last-workspace.json"));
}

#[test]
fn the_files_of_an_agent_carry_its_name() {
    let d = dirs(Platform::Linux);
    assert_eq!(claude_accounts_json(&d, "agent"), "/srv/data/hyperpanes/agent-accounts.json");
    assert_eq!(
        claude_sessions_dir(&d, "agent"),
        "/home/me/.local/state/hyperpanes/agent-sessions"
    );
}

#[test]
fn joining_puts_one_separator_between() {
    assert_eq!(join("/a", "b", Platform::Linux), "/a/b");
    assert_eq!(join("/a/", "b", Platform::Linux), "/a/b");
    assert_eq!(join("", "b", Platform::Linux), "b");
    assert_eq!(join("C:\\a", "b", Platform::Windows), "C:\\a\\b");
    assert_eq!(join("C:\\a\\", "b", Platform::Windows), "C:\\a\\b");
    assert_eq!(join("C:", "b", Platform::Windows), "C:b");
    assert_eq!(join("/a\\", "b", Platform::Macos), "/a\\/b");
}

#[test]
fn base_directories_fall_back() {
    assert_eq!(home_dir(Some("/root"), Some("/home/me")), "/root");
    assert_eq!(home_dir(Some(""), Some("/home/me")), "/home/me");
    assert_eq!(home_dir(None, None), ".");
    assert_eq!(app_data_dir(Some("D:\\data"), Some("C:\\data")), "D:\\data");
    assert_eq!(app_data_dir(None, Some("C:\\data")), "C:\\data");
}

#[test]
fn an_atomic_write_fills_a_hidden_sibling_first() {
    assert_eq!(temp_file_name(Some("file.json"), 42), ".file.json.tmp.42");
    assert_eq!(temp_file_name(None, 42), ".tmp.tmp.42");
}
