use jsh::env::{get_env_updater, PlatformEnvUpdater, UnixEnvUpdater, WindowsEnvUpdater};
use jsh::platform::Platform;

fn lines(v: &[&str]) -> Vec<String> {
    v.iter().map(|s| s.to_string()).collect()
}

fn count(v: &[String], pat: &str) -> usize {
    v.iter().filter(|l| l.contains(pat) && l.contains("# jsh managed")).count()
}

#[test]
fn rc_appends_marked_lines_once() {
    let before = lines(&["alias ll='ls -l'"]);
    let once = UnixEnvUpdater::update_shell_rc(&before, "/opt/jdk17");
    assert_eq!(
        once,
        lines(&[
            "alias ll='ls -l'",
            "",
            "# jsh managed - do not edit manually",
            "export JAVA_HOME=\"/opt/jdk17\"  # jsh managed",
            "export PATH=\"$JAVA_HOME/bin:$PATH\"  # jsh managed",
        ])
    );
}

#[test]
fn rc_activation_is_idempotent() {
    let before = lines(&["export EDITOR=vi"]);
    let once = UnixEnvUpdater::update_shell_rc(&before, "/opt/jdk17");
    let twice = UnixEnvUpdater::update_shell_rc(&once, "/opt/jdk17");
    assert_eq!(once, twice);
    assert_eq!(count(&twice, "export JAVA_HOME="), 1);
    assert_eq!(count(&twice, "export PATH="), 1);
}

#[test]
fn rc_second_switch_leaves_no_trace_of_first() {
    let before = lines(&["export EDITOR=vi"]);
    let first = UnixEnvUpdater::update_shell_rc(&before, "/opt/jdk11");
    let second = UnixEnvUpdater::update_shell_rc(&first, "/opt/jdk17");
    assert_eq!(second, UnixEnvUpdater::update_shell_rc(&before, "/opt/jdk17"));
    assert!(second.iter().all(|l| !l.contains("/opt/jdk11")));
    assert_eq!(second[0], "export EDITOR=vi");
}

#[test]
fn rc_replaces_marked_lines_in_place() {
    let before = lines(&[
        "export JAVA_HOME=\"/old\"  # jsh managed",
        "echo hi",
        "export PATH=\"$JAVA_HOME/bin:$PATH\"  # jsh managed",
    ]);
    let after = UnixEnvUpdater::update_shell_rc(&before, "/new");
    assert_eq!(
        after,
        lines(&[
            "export JAVA_HOME=\"/new\"  # jsh managed",
            "echo hi",
            "export PATH=\"$JAVA_HOME/bin:$PATH\"  # jsh managed",
        ])
    );
}

#[test]
fn rc_empty_file() {
    let after = UnixEnvUpdater::update_shell_rc(&Vec::new(), "/j");
    assert_eq!(after.len(), 4);
    assert_eq!(after[2], "export JAVA_HOME=\"/j\"  # jsh managed");
}

#[test]
fn shell_rc_choice() {
    assert_eq!(UnixEnvUpdater::get_shell_rc_path("/home/u", Some("/bin/zsh")), "/home/u/.zshrc");
    assert_eq!(UnixEnvUpdater::get_shell_rc_path("/home/u", Some("/bin/bash")), "/home/u/.bashrc");
    assert_eq!(UnixEnvUpdater::get_shell_rc_path("/home/u", Some("/bin/fish")), "/home/u/.bashrc");
    assert_eq!(UnixEnvUpdater::get_shell_rc_path("/home/u/", None), "/home/u/.bashrc");
}

#[test]
fn path_value_rewrite() {
    let old = "C:\\Windows;;C:\\Program Files\\Java\\JDK-11\\bin;C:\\Tools;C:\\jre8\\bin";
    let new = WindowsEnvUpdater::update_path_value(old, "D:\\java\\temurin17");
    assert_eq!(new, "D:\\java\\temurin17\\bin;C:\\Windows;C:\\Tools");
}

#[test]
fn path_value_removes_entries_of_same_home_case_insensitively() {
    let old = "D:\\JAVA\\Temurin17\\bin;C:\\Tools";
    let new = WindowsEnvUpdater::update_path_value(old, "D:\\java\\temurin17");
    assert_eq!(new, "D:\\java\\temurin17\\bin;C:\\Tools");
    assert_eq!(WindowsEnvUpdater::update_path_value("", "C:\\j"), "C:\\j\\bin");
}

#[test]
fn java_entry_heuristic() {
    assert!(WindowsEnvUpdater::is_java_entry("c:\\x\\jdk-17\\bin", "d:\\other"));
    assert!(WindowsEnvUpdater::is_java_entry("d:\\home\\tools", "d:\\home"));
    assert!(!WindowsEnvUpdater::is_java_entry("c:\\tools\\bin", "d:\\home"));
}

#[test]
fn adapter_per_platform() {
    assert!(matches!(get_env_updater(Platform::Windows), PlatformEnvUpdater::Windows(_)));
    assert!(matches!(get_env_updater(Platform::Linux), PlatformEnvUpdater::Unix(_)));
    assert!(matches!(get_env_updater(Platform::MacOs), PlatformEnvUpdater::Unix(_)));
}

#[test]
fn path_value_second_switch_drops_first_jdk() {
    let old = "C:\\Windows;C:\\Tools";
    let first = WindowsEnvUpdater::update_path_value(old, "C:\\Java\\jdk-11");
    assert_eq!(first, "C:\\Java\\jdk-11\\bin;C:\\Windows;C:\\Tools");
    let second = WindowsEnvUpdater::update_path_value(&first, "C:\\Java\\jdk-17");
    assert_eq!(second, "C:\\Java\\jdk-17\\bin;C:\\Windows;C:\\Tools");
    assert!(!second.to_lowercase().contains("jdk-11"));
}
