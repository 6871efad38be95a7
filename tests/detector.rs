use jsh::detector::{JdkDetector, JdkLayout};
use jsh::platform::Platform;

#[test]
fn test_parse_version_output() {
    let output1 = r#"java version "1.8.0_291"
Java(TM) SE Runtime Environment (build 1.8.0_291-b10)
Java HotSpot(TM) 64-Bit Server VM (build 25.291-b10, mixed mode)"#;

    let (version, _, _) = JdkDetector::parse_version_output(output1);
    assert_eq!(version, "8");

    let output2 = r#"openjdk version "17.0.2" 2022-01-18
OpenJDK Runtime Environment Temurin-17.0.2+8 (build 17.0.2+8)
OpenJDK 64-Bit Server VM Temurin-17.0.2+8 (build 17.0.2+8, mixed mode)"#;

    let (version, _, _) = JdkDetector::parse_version_output(output2);
    assert_eq!(version, "17");
}

#[test]
fn version_key_derivation() {
    assert_eq!(JdkDetector::version_key("1.8.0_291"), "8");
    assert_eq!(JdkDetector::version_key("17.0.2"), "17");
    assert_eq!(JdkDetector::version_key("21.0.1"), "21");
    assert_eq!(JdkDetector::version_key("21"), "21");
    assert_eq!(JdkDetector::version_key(""), "");
    assert_eq!(JdkDetector::version_key("1.7"), "7");
}

#[test]
fn parse_reports_full_version_and_vendor() {
    let out = "openjdk version \"17.0.2\" 2022-01-18\nOpenJDK Runtime Environment Temurin-17.0.2+8\n";
    let (version, vendor, full) = JdkDetector::parse_version_output(out);
    assert_eq!(version, "17");
    assert_eq!(vendor.as_deref(), Some("OpenJDK"));
    assert_eq!(full.as_deref(), Some("17.0.2"));
}

#[test]
fn parse_legacy_oracle_output() {
    let out = "java version \"1.8.0_291\"\r\nJava(TM) SE Runtime Environment (build 1.8.0_291-b10)\r\nJava HotSpot(TM) 64-Bit Server VM by Oracle\r\n";
    let (version, vendor, full) = JdkDetector::parse_version_output(out);
    assert_eq!(version, "8");
    assert_eq!(vendor.as_deref(), Some("Oracle"));
    assert_eq!(full.as_deref(), Some("1.8.0_291"));
}

#[test]
fn parse_vendor_precedence_and_later_lines() {
    let (_, v, _) = JdkDetector::parse_version_output("Eclipse Adoptium build\n");
    assert_eq!(v.as_deref(), Some("Eclipse Temurin"));
    let (_, v, _) = JdkDetector::parse_version_output("Zulu 17\n");
    assert_eq!(v.as_deref(), Some("Azul Zulu"));
    let (_, v, _) = JdkDetector::parse_version_output("Microsoft build\nno vendor here\n");
    assert_eq!(v.as_deref(), Some("Microsoft"));
    let (_, v, _) = JdkDetector::parse_version_output("OpenJDK by Oracle\n");
    assert_eq!(v.as_deref(), Some("OpenJDK"));
}

#[test]
fn parse_without_version_line() {
    let (version, vendor, full) = JdkDetector::parse_version_output("");
    assert_eq!(version, "unknown");
    assert_eq!(vendor, None);
    assert_eq!(full, None);
    let (version, _, full) = JdkDetector::parse_version_output("version without quotes\n");
    assert_eq!(version, "unknown");
    assert_eq!(full, None);
    let (version, _, full) = JdkDetector::parse_version_output("version \"unterminated\n");
    assert_eq!(version, "unknown");
    assert_eq!(full, None);
}

#[test]
fn search_paths_per_platform() {
    assert_eq!(
        JdkDetector::get_search_paths(Platform::Linux),
        vec!["/usr/lib/jvm".to_string(), "/usr/java".to_string(), "/opt/java".to_string()]
    );
    assert_eq!(JdkDetector::get_search_paths(Platform::MacOs).len(), 2);
    assert_eq!(JdkDetector::get_search_paths(Platform::Windows)[0], "C:\\");
}

#[test]
fn java_executable_paths() {
    assert_eq!(JdkDetector::get_java_executable("/opt/jdk17", Platform::Linux), "/opt/jdk17/bin/java");
    assert_eq!(JdkDetector::get_java_executable("/opt/jdk17/", Platform::Linux), "/opt/jdk17/bin/java");
    assert_eq!(
        JdkDetector::get_java_executable("C:\\Java\\jdk17", Platform::Windows),
        "C:\\Java\\jdk17\\bin\\java.exe"
    );
}

#[test]
fn validity_needs_all_markers() {
    let mut l = JdkLayout { path: "/opt/jdk".to_string(), is_dir: true, has_java: true, has_lib: true };
    assert!(JdkDetector::is_valid_jdk(&l));
    l.has_lib = false;
    assert!(!JdkDetector::is_valid_jdk(&l));
    l.has_lib = true;
    l.has_java = false;
    assert!(!JdkDetector::is_valid_jdk(&l));
    l.has_java = true;
    l.is_dir = false;
    assert!(!JdkDetector::is_valid_jdk(&l));
}

#[test]
fn probe_record_and_failed_probe() {
    let info = JdkDetector::get_jdk_info("/opt/jdk17", Some("openjdk version \"17.0.2\"\nOpenJDK 64-Bit\n")).unwrap();
    assert_eq!(info.path, "/opt/jdk17");
    assert_eq!(info.version, "17");
    assert_eq!(info.vendor.as_deref(), Some("OpenJDK"));
    assert_eq!(info.java_version.as_deref(), Some("17.0.2"));
    assert!(JdkDetector::get_jdk_info("/opt/jdk17", None).is_none());
}

#[test]
fn dedup_keeps_first_record_per_path() {
    let a = JdkDetector::get_jdk_info("/a", Some("openjdk version \"17.0.2\"")).unwrap();
    let b = JdkDetector::get_jdk_info("/b", Some("openjdk version \"11.0.1\"")).unwrap();
    let a2 = JdkDetector::get_jdk_info("/a", Some("openjdk version \"21.0.1\"")).unwrap();
    let out = JdkDetector::dedup_by_path(vec![a, b, a2]);
    assert_eq!(out.len(), 2);
    assert_eq!(out[0].path, "/a");
    assert_eq!(out[0].version, "17");
    assert_eq!(out[1].path, "/b");
    assert!(JdkDetector::dedup_by_path(Vec::new()).is_empty());
}

#[test]
fn first_announcing_line_wins() {
    let out = "openjdk version \"17.0.2\" 2022-01-18\nsome tool version \"21.0.1\"\n";
    let (version, _, full) = JdkDetector::parse_version_output(out);
    assert_eq!(version, "17");
    assert_eq!(full.as_deref(), Some("17.0.2"));
}

#[test]
fn token_must_follow_the_word_version() {
    let out = "\"tag\" openjdk version \"11.0.4\"\n";
    let (version, _, full) = JdkDetector::parse_version_output(out);
    assert_eq!(version, "11");
    assert_eq!(full.as_deref(), Some("11.0.4"));
    let (version, _, full) = JdkDetector::parse_version_output("\"17.0.2\" version\n");
    assert_eq!(version, "unknown");
    assert_eq!(full, None);
}

#[test]
fn vendor_precedence_over_whole_output() {
    let (_, v, _) = JdkDetector::parse_version_output("OpenJDK Runtime\nZulu 17.32\n");
    assert_eq!(v.as_deref(), Some("OpenJDK"));
    let (_, v, _) = JdkDetector::parse_version_output("Zulu build\nby Oracle\n");
    assert_eq!(v.as_deref(), Some("Oracle"));
}

#[test]
fn unparseable_probe_output_skips_candidate() {
    assert!(JdkDetector::get_jdk_info("/opt/junk", Some("Error: could not run\n")).is_none());
    assert!(JdkDetector::get_jdk_info("/opt/junk", Some("")).is_none());
}
