use jsh::downloader::{
    archive_file_name, detect_arch, group_by_major, detect_os, filter_packages, find_package, get_file_type,
    matches_keyword, parse_major_version, ArchiveFormat, AvailableReleases, Extractor, JdkPackage,
};
use jsh::error::JdkError;
use jsh::platform::{Arch, Platform};
use jsh::text::{decimal, parse_u32};

fn pkg(version: &str, major: u32, vendor: &str) -> JdkPackage {
    JdkPackage {
        version: version.to_string(),
        major_version: major,
        vendor: vendor.to_string(),
        os: "linux".to_string(),
        arch: "x64".to_string(),
        download_url: "https://example.invalid/jdk".to_string(),
        size: 1,
        file_type: "tar.gz".to_string(),
        is_lts: true,
        checksum: None,
    }
}

#[test]
fn os_and_arch_names() {
    assert_eq!(detect_os(Platform::Windows), "windows");
    assert_eq!(detect_os(Platform::Linux), "linux");
    assert_eq!(detect_os(Platform::MacOs), "mac");
    assert_eq!(detect_arch(Arch::X64), "x64");
    assert_eq!(detect_arch(Arch::Aarch64), "aarch64");
}

#[test]
fn file_types() {
    assert_eq!(get_file_type("windows"), "zip");
    assert_eq!(get_file_type("linux"), "tar.gz");
    assert_eq!(get_file_type("mac"), "tar.gz");
    assert_eq!(get_file_type("solaris"), "zip");
}

#[test]
fn find_package_by_major() {
    let ps = vec![pkg("17.0.9+9", 17, "temurin"), pkg("21.0.1+12", 21, "temurin"), pkg("21.0.2", 21, "x")];
    assert_eq!(find_package(&ps, 21).unwrap().version, "21.0.1+12");
    match find_package(&ps, 8) {
        Err(JdkError::JdkNotFound(v)) => assert_eq!(v, "8"),
        other => panic!("unexpected {:?}", other),
    }
}

#[test]
fn major_version_argument() {
    assert_eq!(parse_major_version("17").unwrap(), 17);
    assert_eq!(parse_major_version("+21").unwrap(), 21);
    match parse_major_version("seventeen") {
        Err(JdkError::InvalidVersion(v)) => assert_eq!(v, "seventeen"),
        other => panic!("unexpected {:?}", other),
    }
    assert!(parse_major_version("").is_err());
    assert!(parse_major_version("4294967296").is_err());
    assert_eq!(parse_major_version("4294967295").unwrap(), u32::MAX);
}

#[test]
fn numbers_round_trip() {
    assert_eq!(decimal(0), "0");
    assert_eq!(decimal(17), "17");
    assert_eq!(decimal(u32::MAX), "4294967295");
    assert_eq!(parse_u32("007"), Some(7));
    assert_eq!(parse_u32("-1"), None);
    assert_eq!(parse_u32("+"), None);
}

#[test]
fn keyword_filter() {
    let ps = vec![pkg("17.0.9+9", 17, "Temurin"), pkg("21.0.1+12", 21, "temurin"), pkg("11.0.2", 11, "Zulu")];
    let got = filter_packages(ps, "TEMURIN");
    assert_eq!(got.len(), 2);
    let ps = vec![pkg("17.0.9+9", 17, "Temurin"), pkg("21.0.1+12", 21, "temurin")];
    let got = filter_packages(ps, "21");
    assert_eq!(got.len(), 1);
    assert_eq!(got[0].major_version, 21);
    assert!(matches_keyword("17.0.9", "temurin", 17, "zulu", "17"));
    assert!(!matches_keyword("17.0.9", "temurin", 17, "zulu", "zulu"));
}

#[test]
fn archive_formats() {
    let x = Extractor::new();
    assert_eq!(x.archive_format(Some("zip")).unwrap(), ArchiveFormat::Zip);
    assert_eq!(x.archive_format(Some("tar")).unwrap(), ArchiveFormat::TarGz);
    assert_eq!(x.archive_format(Some("gz")).unwrap(), ArchiveFormat::TarGz);
    assert_eq!(x.archive_format(Some("tgz")).unwrap(), ArchiveFormat::TarGz);
    let name = archive_file_name(&pkg("17.0.9", 17, "temurin"));
    let ext = std::path::Path::new(&name).extension().and_then(|e| e.to_str());
    assert_eq!(x.archive_format(ext).unwrap(), ArchiveFormat::TarGz);
    match x.archive_format(Some("7z")) {
        Err(JdkError::ExtractionError(m)) => assert_eq!(m, "Unsupported format: 7z"),
        other => panic!("unexpected {:?}", other),
    }
    match x.archive_format(None) {
        Err(JdkError::ExtractionError(m)) => assert_eq!(m, "Unknown file type"),
        other => panic!("unexpected {:?}", other),
    }
}

#[test]
fn releases_and_file_names() {
    let r = AvailableReleases::new(vec![8, 11, 17, 21, 22], vec![8, 11, 17, 21]);
    assert!(r.is_lts(17));
    assert!(!r.is_lts(22));
    assert_eq!(r.available().len(), 5);
    assert_eq!(archive_file_name(&pkg("17.0.9", 17, "temurin")), "jdk-17-temurin.tar.gz");
}

#[test]
fn grouping_newest_major_first() {
    let ps = vec![pkg("17.0.9", 17, "a"), pkg("21.0.1", 21, "a"), pkg("17.0.8", 17, "b"), pkg("11.0.2", 11, "a")];
    let g = group_by_major(&ps);
    let majors: Vec<u32> = g.iter().map(|(m, _)| *m).collect();
    assert_eq!(majors, vec![21, 17, 11]);
    let seventeen: Vec<&str> = g[1].1.iter().map(|p| p.version.as_str()).collect();
    assert_eq!(seventeen, vec!["17.0.9", "17.0.8"]);
    assert!(group_by_major(&Vec::new()).is_empty());
}
