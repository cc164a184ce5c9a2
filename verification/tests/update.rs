use rigstats::update::{check_manifest, is_newer, parse_semver, CheckResult};

#[test]
fn newer_patch_detected() {
    assert!(is_newer("1.25.1", "1.25.0"));
}

#[test]
fn same_version_not_newer() {
    assert!(!is_newer("1.25.0", "1.25.0"));
}

#[test]
fn older_not_newer() {
    assert!(!is_newer("1.24.9", "1.25.0"));
}

#[test]
fn major_bump_detected() {
    assert!(is_newer("2.0.0", "1.25.0"));
}

#[test]
fn v_prefix_stripped() {
    assert!(is_newer("v1.26.0", "1.25.0"));
}

#[test]
fn semver_parts_default_to_zero() {
    assert_eq!(parse_semver("1.2.3"), (1, 2, 3));
    assert_eq!(parse_semver("v2"), (2, 0, 0));
    assert_eq!(parse_semver("1.2.3-beta.4"), (1, 2, 3));
    assert_eq!(parse_semver("x.7"), (0, 7, 0));
    assert_eq!(parse_semver("vv3.1"), (3, 1, 0));
    assert_eq!(parse_semver(""), (0, 0, 0));
}

#[test]
fn newer_is_a_strict_order() {
    for (a, b) in [("1.0.0", "1.0.1"), ("2.0", "1.9.9"), ("1.2.3", "1.2.3")] {
        assert!(!(is_newer(a, b) && is_newer(b, a)));
        assert!(!is_newer(a, a));
    }
    assert!(is_newer("3.0.0", "2.5.0") && is_newer("2.5.0", "2.4.9") && is_newer("3.0.0", "2.4.9"));
}

#[test]
fn manifest_decisions() {
    match check_manifest("1.0.0".to_string(), None, None, "1.0.0") {
        Ok(CheckResult::UpToDate) => {}
        _ => panic!("expected up to date"),
    }
    match check_manifest("1.1.0".to_string(), Some("notes".to_string()), Some("https://x/y.exe".to_string()), "1.0.0") {
        Ok(CheckResult::UpdateAvailable(info)) => {
            assert_eq!(info.version, "1.1.0");
            assert_eq!(info.notes, "notes");
            assert_eq!(info.url, "https://x/y.exe");
        }
        _ => panic!("expected an update"),
    }
    match check_manifest("1.1.0".to_string(), None, Some("u".to_string()), "1.0.0") {
        Ok(CheckResult::UpdateAvailable(info)) => assert_eq!(info.notes, ""),
        _ => panic!("expected an update"),
    }
    match check_manifest("1.1.0".to_string(), None, None, "1.0.0") {
        Err(e) => assert_eq!(e, "No windows-x86_64 URL in manifest"),
        _ => panic!("expected an error"),
    }
}
