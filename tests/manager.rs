use jsh::config::{Config, JdkInfo};
use jsh::detector::{JdkDetector, JdkLayout};
use jsh::error::JdkError;
use jsh::manager::{CurrentState, EntryStatus, JdkManager};
use jsh::platform::Platform;

fn info(path: &str, key: &str) -> JdkInfo {
    JdkInfo::new(path.to_string(), key.to_string(), Some("OpenJDK".to_string()), None)
}

fn layout(path: &str, ok: bool) -> JdkLayout {
    JdkLayout { path: path.to_string(), is_dir: ok, has_java: ok, has_lib: ok }
}

fn manager_with(entries: &[(&str, &str)]) -> JdkManager {
    let mut c = Config::new("/tmp/downloads".to_string());
    for (k, p) in entries {
        c.add_jdk(k.to_string(), info(p, k));
    }
    JdkManager::new(c)
}

#[test]
fn add_if_absent_never_overwrites() {
    let mut m = manager_with(&[("17", "/opt/a")]);
    let b = JdkInfo::new("/opt/a".to_string(), "17".to_string(), Some("Oracle".to_string()), Some("17.0.9".to_string()));
    m.scan_jdks(vec![b]);
    let got = m.config().get_jdk("17").unwrap();
    assert_eq!(got.vendor.as_deref(), Some("OpenJDK"));
    assert_eq!(got.java_version, None);
    assert!(!m.config_mut().add_if_absent("17".to_string(), info("/x", "17")));
    assert!(m.config_mut().add_if_absent("11".to_string(), info("/x", "11")));
}

#[test]
fn add_jdk_keeps_existing_record() {
    let mut c = Config::new("d".to_string());
    c.add_jdk("17".to_string(), info("/a", "17"));
    c.add_jdk("17".to_string(), info("/b", "17"));
    assert_eq!(c.len(), 1);
    assert_eq!(c.get_jdk("17").unwrap().path, "/a");
    assert!(c.get_jdk("8").is_none());
}

#[test]
fn refresh_is_idempotent() {
    let found = || {
        vec![
            JdkDetector::get_jdk_info("/opt/jdk17", Some("openjdk version \"17.0.2\"")).unwrap(),
            JdkDetector::get_jdk_info("/opt/jdk11", Some("openjdk version \"11.0.1\"")).unwrap(),
        ]
    };
    let mut m = manager_with(&[]);
    m.scan_jdks(found());
    let first: Vec<(String, String)> = m.list_jdks().into_iter().map(|(k, i)| (k, i.path)).collect();
    m.scan_jdks(found());
    let second: Vec<(String, String)> = m.list_jdks().into_iter().map(|(k, i)| (k, i.path)).collect();
    assert_eq!(first, second);
    assert_eq!(first.len(), 2);
}

#[test]
fn list_sorts_numerically() {
    let m = manager_with(&[("17", "/c"), ("8", "/a"), ("11", "/b")]);
    let keys: Vec<String> = m.list_jdks().into_iter().map(|(k, _)| k).collect();
    assert_eq!(keys, vec!["8", "11", "17"]);
}

#[test]
fn list_falls_back_to_text_order() {
    let m = manager_with(&[("17", "/c"), ("8", "/a"), ("unknown", "/d"), ("11", "/b")]);
    let keys: Vec<String> = m.list_jdks().into_iter().map(|(k, _)| k).collect();
    assert_eq!(keys, vec!["11", "17", "8", "unknown"]);
    assert!(manager_with(&[]).list_jdks().is_empty());
}

#[test]
fn switch_twice_points_at_second() {
    let mut m = manager_with(&[("11", "/opt/jdk11"), ("17", "/opt/jdk17")]);
    m.switch_jdk("11", &layout("/opt/jdk11", true)).unwrap();
    let r = m.switch_jdk("17", &layout("/opt/jdk17", true)).unwrap();
    assert_eq!(r.path, "/opt/jdk17");
    assert_eq!(m.get_current_version().map(|s| s.as_str()), Some("17"));
    assert_eq!(m.get_current().unwrap().path, "/opt/jdk17");
}

#[test]
fn switch_unknown_version() {
    let mut m = manager_with(&[("17", "/opt/jdk17")]);
    match m.switch_jdk("21", &layout("/opt/jdk21", true)) {
        Err(JdkError::JdkNotFound(v)) => assert_eq!(v, "21"),
        other => panic!("unexpected {:?}", other),
    }
    assert!(m.get_current_version().is_none());
}

#[test]
fn switch_to_deleted_installation() {
    let mut m = manager_with(&[("11", "/opt/jdk11"), ("17", "/opt/jdk17")]);
    m.switch_jdk("11", &layout("/opt/jdk11", true)).unwrap();
    match m.switch_jdk("17", &layout("/opt/jdk17", false)) {
        Err(JdkError::InvalidPath(msg)) => assert_eq!(msg, "JDK path no longer valid: /opt/jdk17"),
        other => panic!("unexpected {:?}", other),
    }
    assert_eq!(m.get_current_version().map(|s| s.as_str()), Some("11"));
}

#[test]
fn resolve_current_states() {
    let mut m = manager_with(&[("11", "/opt/jdk11"), ("17", "/opt/jdk17")]);
    assert_eq!(m.resolve_current(None), CurrentState::Inactive);
    assert_eq!(m.resolve_current(Some("/opt/jdk11")), CurrentState::ActiveFromEnvOnly);
    m.switch_jdk("17", &layout("/opt/jdk17", true)).unwrap();
    assert_eq!(m.resolve_current(Some("/opt/jdk11")), CurrentState::Mismatch);
    assert_eq!(m.resolve_current(Some("/opt/jdk17")), CurrentState::ActiveAndSynced);
    assert_eq!(m.resolve_current(None), CurrentState::ActiveFromRegistryOnly);
    assert_eq!(m.resolve_current(Some("/elsewhere")), CurrentState::ActiveFromEnvOnly);
}

#[test]
fn effective_current_precedence() {
    let mut m = manager_with(&[("11", "/opt/jdk11"), ("17", "/opt/jdk17")]);
    assert!(m.effective_current(None).is_none());
    m.switch_jdk("17", &layout("/opt/jdk17", true)).unwrap();
    assert_eq!(m.effective_current(Some("/opt/jdk11")).unwrap().0, "11");
    assert_eq!(m.effective_current(Some("/elsewhere")).unwrap().0, "17");
    assert_eq!(m.effective_current(None).unwrap().1.path, "/opt/jdk17");
}

#[test]
fn adopt_env_current_syncs_pointer() {
    let mut m = manager_with(&[("11", "/opt/jdk11"), ("17", "/opt/jdk17")]);
    assert!(m.adopt_env_current("/opt/jdk11"));
    assert_eq!(m.get_current_version().map(|s| s.as_str()), Some("11"));
    assert!(!m.adopt_env_current("/opt/jdk11"));
    assert!(!m.adopt_env_current("/nowhere"));
    assert_eq!(m.get_current_version().map(|s| s.as_str()), Some("11"));
}

#[test]
fn end_to_end_refresh_switch_resolve() {
    let mut m = JdkManager::new(Config::new("/tmp/d".to_string()));
    let found = JdkDetector::get_jdk_info(
        "/opt/jdk17",
        Some("openjdk version \"17.0.2\" 2022-01-18\nOpenJDK Runtime Environment\n"),
    );
    m.scan_jdks(JdkDetector::dedup_by_path(vec![found.unwrap()]));
    let listed = m.list_jdks();
    assert_eq!(listed.len(), 1);
    assert_eq!(listed[0].0, "17");
    let r = m.switch_jdk("17", &layout("/opt/jdk17", true)).unwrap();
    assert_eq!(r.java_version.as_deref(), Some("17.0.2"));
    assert_eq!(m.resolve_current(None), CurrentState::ActiveFromRegistryOnly);
    assert_eq!(m.resolve_current(Some("/opt/jdk17")), CurrentState::ActiveAndSynced);
}

#[test]
fn config_paths_and_accessors() {
    let c = Config::new("/opt/jsh/downloads".to_string());
    assert_eq!(c.download_dir(), "/opt/jsh/downloads");
    assert!(c.current_version().is_none());
    assert_eq!(c.key_for_path("/x"), None);
    assert!(!c.contains_key("17"));
}

#[test]
fn entry_status_rules() {
    let mut m = manager_with(&[("11", "/opt/jdk11"), ("17", "/opt/jdk17")]);
    assert_eq!(m.entry_status("17", "/opt/jdk17", None), EntryStatus::Listed);
    assert_eq!(m.entry_status("11", "/opt/jdk11", Some("/opt/jdk11")), EntryStatus::ActiveEnvOnly);
    m.switch_jdk("17", &layout("/opt/jdk17", true)).unwrap();
    assert_eq!(m.entry_status("17", "/opt/jdk17", Some("/opt/jdk17")), EntryStatus::Active);
    assert_eq!(m.entry_status("17", "/opt/jdk17", Some("/opt/jdk11")), EntryStatus::ConfigMismatch);
    assert_eq!(m.entry_status("17", "/opt/jdk17", None), EntryStatus::ConfigEnvNotSet);
}

#[test]
fn registry_file_locations() {
    assert_eq!(Config::config_path("/opt/jsh", Platform::Linux), "/opt/jsh/config.json");
    assert_eq!(Config::config_path("C:\\jsh", Platform::Windows), "C:\\jsh\\config.json");
    let c = Config::default_in("/opt/jsh/", Platform::Linux);
    assert_eq!(c.download_dir(), "/opt/jsh/downloads");
    assert_eq!(c.len(), 0);
}

#[test]
fn current_entry_marking() {
    let mut m = manager_with(&[("11", "/opt/jdk11"), ("17", "/opt/jdk17")]);
    m.switch_jdk("17", &layout("/opt/jdk17", true)).unwrap();
    assert!(m.is_current_entry("17", None));
    assert!(m.is_current_entry("17", Some("/not/registered")));
    assert!(!m.is_current_entry("11", Some("/not/registered")));
    assert!(m.is_current_entry("11", Some("/opt/jdk11")));
    assert!(!m.is_current_entry("17", Some("/opt/jdk11")));
}
