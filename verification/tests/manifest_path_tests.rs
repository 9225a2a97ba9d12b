use captrack::paths::{default_instrument_manifest_path, default_lint_manifest_path, default_staleness_manifest_path};

#[test]
fn default_lint_manifest_path_is_inside_target() {
    let p = default_lint_manifest_path("/ws");
    assert!(p.contains("captrack-pgo"));
    assert!(p.contains("last-lint-apply.json"));
}

#[test]
fn default_staleness_manifest_path_is_distinct_from_instrument_manifest() {
    let p = default_staleness_manifest_path("/ws");
    assert!(p.contains("last-instrument-hashes.json"));
    assert_ne!(p, default_instrument_manifest_path("/ws"));
}
