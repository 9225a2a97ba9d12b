use captrack::staleness::{check_staleness, stale_files, stale_message, staleness_snapshot, FileState, StalenessError};

fn snapshot() -> captrack::staleness::StalenessManifest {
    staleness_snapshot(&vec!["/ws/src/lib.rs".to_string()], &vec!["fn a() {}\n".to_string()], 7)
}

#[test]
fn write_snapshot_then_check_passes_when_unchanged() {
    let m = snapshot();
    assert_eq!(m.version, 1);
    assert_eq!(m.timestamp, 7);
    assert!(check_staleness(Some(&m), &vec![FileState::Present("fn a() {}\n".to_string())], false).is_ok());
}

#[test]
fn check_fails_when_file_modified_after_snapshot() {
    let m = snapshot();
    let current = vec![FileState::Present("fn a() { /* changed */ }\n".to_string())];
    match check_staleness(Some(&m), &current, false) {
        Err(StalenessError::Stale { files }) => {
            assert_eq!(files, vec!["/ws/src/lib.rs (modified)".to_string()]);
            let msg = stale_message(&files);
            assert!(msg.contains("lib.rs"));
            assert!(msg.contains("--force"));
        },
        _ => panic!("expected a stale error"),
    }
}

#[test]
fn check_force_skips_even_when_modified() {
    let m = snapshot();
    let current = vec![FileState::Present("changed".to_string())];
    assert!(check_staleness(Some(&m), &current, true).is_ok());
}

#[test]
fn check_is_noop_when_manifest_absent() {
    assert!(check_staleness(None, &vec![], false).is_ok());
}

#[test]
fn check_fails_when_file_deleted_after_snapshot() {
    let m = snapshot();
    let lines = stale_files(&m, &vec![FileState::Missing]);
    assert_eq!(lines, vec!["/ws/src/lib.rs (deleted)".to_string()]);
    assert!(matches!(check_staleness(Some(&m), &vec![FileState::Missing], false), Err(StalenessError::Stale { .. })));
}

#[test]
fn stale_message_joins_lines() {
    let msg = stale_message(&vec!["a (modified)".to_string(), "b (deleted)".to_string()]);
    assert!(msg.contains("code:\n  a (modified)\n  b (deleted)\nhint:"));
}

#[test]
fn unsupported_snapshot_version_is_refused() {
    let mut m = snapshot();
    m.version = 2;
    assert!(matches!(
        check_staleness(Some(&m), &vec![FileState::Missing], false),
        Err(StalenessError::UnsupportedVersion { version: 2 })
    ));
}
