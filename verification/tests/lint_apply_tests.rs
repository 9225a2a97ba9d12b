use captrack::digest::hex_sha256;
use captrack::lint_apply::{
    changed_files, check_lint_path, check_lint_undo, dylint_args, inspect_line, instrument_preflight, instrument_summary,
    lint_apply_preflight, lint_apply_summary, profile_site_count, FileSnapshot, LintApplyArgs, LintApplyManifest,
    LintFileEntry, LintUndoError, PreflightError,
};

fn args(dry_run: bool, allow_dirty: bool) -> LintApplyArgs {
    LintApplyArgs {
        profile_path: "/p.json".into(),
        lint_path: "/lint".into(),
        workspace_root: "/ws".into(),
        dry_run,
        allow_dirty,
    }
}

#[test]
fn hex_sha256_is_64_hex_chars_and_deterministic() {
    let h1 = hex_sha256(b"hello");
    let h2 = hex_sha256(b"hello");
    assert_eq!(h1, h2);
    assert_eq!(h1.len(), 64);
    assert_eq!(h1, "2cf24dba5fb0a30e26e83b2ac5b9e29e1b161e5c1fa7425e73043362938b9824");
}

#[test]
fn dylint_arguments_follow_the_flags() {
    assert_eq!(
        dylint_args(&args(false, true), "/ws/Cargo.toml"),
        vec!["dylint", "--path", "/lint", "--fix", "--allow-dirty", "--", "--manifest-path", "/ws/Cargo.toml"]
    );
    assert_eq!(
        dylint_args(&args(true, false), "/ws/Cargo.toml"),
        vec!["dylint", "--path", "/lint", "--", "--manifest-path", "/ws/Cargo.toml"]
    );
}

#[test]
fn changed_files_records_only_changed_readable_files() {
    let before = vec![
        FileSnapshot { path: "a.rs".into(), sha256: hex_sha256(b"fn a() {}"), content: "fn a() {}".into() },
        FileSnapshot { path: "b.rs".into(), sha256: hex_sha256(b"fn b() {}"), content: "fn b() {}".into() },
        FileSnapshot { path: "c.rs".into(), sha256: hex_sha256(b"fn c() {}"), content: "fn c() {}".into() },
    ];
    let after = vec![Some("fn a() { 1 }".to_string()), Some("fn b() {}".to_string()), None];
    let (entries, delta) = changed_files(&before, &after);
    assert_eq!(entries.len(), 1);
    assert_eq!(entries[0].file, "a.rs");
    assert_eq!(entries[0].content_before, "fn a() {}");
    assert_eq!(entries[0].sha256_after, hex_sha256(b"fn a() { 1 }"));
    assert_eq!(delta, 3);
}

#[test]
fn summaries_use_plurals() {
    assert_eq!(lint_apply_summary(1, 3), "lint-apply: modified 1 file, net 3 bytes changed");
    assert_eq!(lint_apply_summary(2, -1), "lint-apply: modified 2 files, net -1 byte changed");
    assert_eq!(instrument_summary(0, 0), "instrument: modified 0 files, net 0 bytes changed");
    assert_eq!(inspect_line(1), "would inspect 1 profile site (matches depend on source scan)");
    assert_eq!(inspect_line(3), "would inspect 3 profile sites (matches depend on source scan)");
}

fn manifest(version: u32, after: &str) -> LintApplyManifest {
    LintApplyManifest {
        version,
        profile_path: "/tmp/p.json".into(),
        files: vec![LintFileEntry {
            file: "bar.rs".into(),
            sha256_before: hex_sha256(b"fn original() {}"),
            content_before: "fn original() {}".into(),
            sha256_after: hex_sha256(after.as_bytes()),
        }],
    }
}

#[test]
fn undo_lint_apply_restores_content() {
    let m = manifest(1, "fn modified() {}");
    assert_eq!(check_lint_undo(&m, &vec!["fn modified() {}".to_string()]), Ok(1));
}

#[test]
fn undo_lint_apply_fails_on_modified_file() {
    let before = "fn old() {}";
    let after = "fn new() {}";
    let m = LintApplyManifest {
        version: 1,
        profile_path: "/tmp/p.json".into(),
        files: vec![LintFileEntry {
            file: "foo.rs".into(),
            sha256_before: hex_sha256(before.as_bytes()),
            content_before: before.to_string(),
            sha256_after: "x".repeat(64),
        }],
    };
    let r = check_lint_undo(&m, &vec![after.to_string()]);
    assert_eq!(r, Err(LintUndoError::Modified { index: 0, current: hex_sha256(b"fn new() {}") }));
}

#[test]
fn undo_lint_apply_rejects_wrong_version() {
    let m = manifest(99, "x");
    assert_eq!(check_lint_undo(&m, &vec!["x".to_string()]), Err(LintUndoError::UnsupportedVersion { version: 99 }));
}

#[test]
fn undo_accepts_what_a_run_recorded() {
    let before = vec![FileSnapshot { path: "a.rs".into(), sha256: hex_sha256(b"old"), content: "old".into() }];
    let after = vec![Some("new".to_string())];
    let (files, _) = changed_files(&before, &after);
    let m = LintApplyManifest { version: 1, profile_path: "/p".into(), files };
    assert_eq!(check_lint_undo(&m, &vec!["new".to_string()]), Ok(1));
}

#[test]
fn preflight_reports_the_first_failing_check() {
    let lint = "[package]\nname = \"captrack-pgo-lint\"\n";
    assert_eq!(lint_apply_preflight(None, Some(lint), true, false, true), Err(PreflightError::ProfileMissing));
    assert_eq!(lint_apply_preflight(Some("not json"), Some(lint), true, false, true), Err(PreflightError::ProfileNotJson));
    assert_eq!(lint_apply_preflight(Some("[1, 2]"), Some(lint), true, false, true), Err(PreflightError::ProfileNotObject));
    assert_eq!(lint_apply_preflight(Some("{}"), None, true, false, true), Err(PreflightError::LintNoManifest));
    assert_eq!(lint_apply_preflight(Some("{}"), Some("[package]\nname=\"x\""), true, false, true), Err(PreflightError::LintNotLintCrate));
    assert_eq!(lint_apply_preflight(Some("{}"), Some(lint), false, false, true), Err(PreflightError::DylintMissing));
    assert_eq!(lint_apply_preflight(Some("{}"), Some(lint), true, false, false), Err(PreflightError::WorkspaceNoManifest));
    assert_eq!(lint_apply_preflight(Some("{}"), Some(lint), true, false, true), Ok(()));
    assert_eq!(lint_apply_preflight(Some("{}"), Some(lint), false, true, true), Ok(()));
    assert_eq!(lint_apply_preflight(Some("{}"), Some(lint), false, true, false), Err(PreflightError::WorkspaceNoManifest));
    assert_eq!(instrument_preflight(Some(lint), true, true), Ok(()));
    assert_eq!(check_lint_path(Some(lint)), Ok(()));
}

#[test]
fn profile_site_count_reads_the_stats_array() {
    assert_eq!(profile_site_count("{\"version\":1,\"stats\":[{},{}]}"), 2);
    assert_eq!(profile_site_count("{\"version\":1}"), 0);
    assert_eq!(profile_site_count("nope"), 0);
}
