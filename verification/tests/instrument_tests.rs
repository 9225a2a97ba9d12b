use captrack::lint_instrument::{has_captrack_dep, has_telemetry_feature};

#[test]
fn has_captrack_dep_detects_simple_dep() {
    let toml = r#"
[dependencies]
captrack = { version = "0.1", features = ["telemetry"] }
anyhow = "1"
"#;
    assert!(has_captrack_dep(toml));
}

#[test]
fn has_captrack_dep_false_for_no_dep() {
    let toml = r#"
[dependencies]
anyhow = "1"
serde = "1"
"#;
    assert!(!has_captrack_dep(toml));
}

#[test]
fn has_captrack_dep_ignores_comments() {
    let toml = r#"
[dependencies]
# captrack = "0.1"
anyhow = "1"
"#;
    assert!(!has_captrack_dep(toml));
}

#[test]
fn has_telemetry_feature_inline() {
    let toml = r#"
[dependencies]
captrack = { version = "0.1", features = ["telemetry"] }
"#;
    assert!(has_captrack_dep(toml));
    assert!(has_telemetry_feature(toml));
}

#[test]
fn has_telemetry_feature_missing() {
    let toml = r#"
[dependencies]
captrack = { version = "0.1" }
"#;
    assert!(has_captrack_dep(toml));
    assert!(!has_telemetry_feature(toml));
}
