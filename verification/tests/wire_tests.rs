use captrack::digest::hex_sha256;
use captrack::wire::{
    captrack_step, changed_text, file_count, patch_member_manifest, workspace_step, patch_member_text, patch_root_manifest, patch_root_text, unwire_manifest_path, unwire_plan,
    wire_entry, wire_source, workspace_member_patterns, UnwireArgs, UnwireError, WireError, WireManifest, WireSource,
};

const ROOT_MANIFEST: &str = "[workspace]\nmembers = [\"crates/a\", \"crates/b\"]\nresolver = \"2\"\n";
const ROOT_MANIFEST_WITH_DEPS: &str = "[workspace]\nmembers = [\"crates/a\", \"crates/b\"]\nresolver = \"2\"\n\n[workspace.dependencies]\nserde = \"1\"\n";
const MEMBER_MANIFEST: &str = "[package]\nname = \"a\"\nversion = \"0.1.0\"\n\n[dependencies]\nanyhow = \"1\"\n";
const MEMBER_MANIFEST_NO_DEPS: &str = "[package]\nname = \"a\"\nversion = \"0.1.0\"\n";

fn published() -> WireSource {
    WireSource::Version { version: "0.1".to_string() }
}

#[test]
fn patch_root_manifest_adds_dependencies_table() {
    let after = patch_root_text(ROOT_MANIFEST, &published()).unwrap().unwrap();
    assert!(after.contains("[workspace.dependencies]"));
    assert!(after.contains("captrack"));
    assert!(after.contains("telemetry"));
}

#[test]
fn patch_root_manifest_preserves_existing_deps_table() {
    let after = patch_root_text(ROOT_MANIFEST_WITH_DEPS, &published()).unwrap().unwrap();
    assert!(after.contains("serde"));
    assert!(after.contains("captrack"));
}

#[test]
fn patch_root_manifest_is_idempotent() {
    let first = patch_root_text(ROOT_MANIFEST, &published()).unwrap().unwrap();
    assert_eq!(patch_root_text(&first, &published()).unwrap(), None);
}

#[test]
fn patch_root_manifest_with_path_source() {
    let after = patch_root_text(ROOT_MANIFEST, &wire_source(Some("/abs/path/to/captrack"))).unwrap().unwrap();
    assert!(after.contains("path"));
    assert!(after.contains("/abs/path/to/captrack"));
}

#[test]
fn root_manifest_without_workspace_is_refused() {
    assert_eq!(patch_root_text(MEMBER_MANIFEST, &published()), Err(WireError::NoWorkspace));
    assert!(matches!(patch_root_text("[[[", &published()), Err(WireError::Parse { .. })));
}

#[test]
fn patch_member_manifest_adds_workspace_true_dep() {
    let after = patch_member_text(MEMBER_MANIFEST).unwrap().unwrap();
    assert!(after.contains("captrack"));
    assert!(after.contains("workspace = true") || after.contains("workspace=true"));
    assert!(after.contains("anyhow"));
}

#[test]
fn patch_member_manifest_creates_dependencies_table_if_missing() {
    let after = patch_member_text(MEMBER_MANIFEST_NO_DEPS).unwrap().unwrap();
    assert!(after.contains("[dependencies]"));
    assert!(after.contains("captrack"));
}

#[test]
fn patch_member_manifest_is_idempotent() {
    let first = patch_member_text(MEMBER_MANIFEST).unwrap().unwrap();
    assert_eq!(patch_member_text(&first).unwrap(), None);
}

#[test]
fn patch_member_manifest_sha_changes_after_patch() {
    let (after, entry) = patch_member_manifest("crates/a/Cargo.toml", MEMBER_MANIFEST).unwrap().unwrap();
    assert_ne!(entry.sha256_before, entry.sha256_after);
    assert_eq!(entry.sha256_before, hex_sha256(MEMBER_MANIFEST.as_bytes()));
    assert_eq!(entry.sha256_after, hex_sha256(after.as_bytes()));
    assert_eq!(entry.content_before, MEMBER_MANIFEST);
    let (_, root_entry) = patch_root_manifest("Cargo.toml", ROOT_MANIFEST, &published()).unwrap().unwrap();
    assert_eq!(root_entry.file, "Cargo.toml");
}

#[test]
fn wire_then_unwire_restores_original_content() {
    let after = patch_member_text(MEMBER_MANIFEST).unwrap().unwrap();
    let e = wire_entry("crates/a/Cargo.toml", MEMBER_MANIFEST, &after);
    let m = WireManifest { version: 1, source: published(), files: vec![e] };
    let (n, stop) = unwire_plan(&m, &vec![after]);
    assert_eq!((n, stop), (1, None));
    assert_eq!(m.files[0].content_before, MEMBER_MANIFEST);
}

#[test]
fn unwire_refuses_when_file_modified_after_wire() {
    let after = patch_member_text(MEMBER_MANIFEST).unwrap().unwrap();
    let e1 = wire_entry("a", MEMBER_MANIFEST, &after);
    let e2 = wire_entry("b", MEMBER_MANIFEST, &after);
    let m = WireManifest { version: 1, source: published(), files: vec![e1, e2] };
    let tampered = "# tampered\n".to_string();
    let (n, stop) = unwire_plan(&m, &vec![after, tampered.clone()]);
    assert_eq!(n, 0, "no file is restored when any was edited");
    assert_eq!(stop, Some(UnwireError::Modified { index: 1, current: hex_sha256(tampered.as_bytes()) }));
    let v2 = WireManifest { version: 2, source: published(), files: vec![] };
    assert_eq!(unwire_plan(&v2, &vec![]), (0, Some(UnwireError::UnsupportedVersion { version: 2 })));
}

#[test]
fn wire_texts_and_paths() {
    assert_eq!(file_count(1), "1 Cargo.toml file");
    assert_eq!(file_count(3), "3 Cargo.toml files");
    assert_eq!(wire_source(None), WireSource::Version { version: "0.1".into() });
    let a = UnwireArgs { workspace_root: "/ws".into(), manifest: None };
    assert_eq!(unwire_manifest_path(&a), "/ws/target/captrack-pgo/last-wire.json");
    let b = UnwireArgs { workspace_root: "/ws".into(), manifest: Some("/m.json".into()) };
    assert_eq!(unwire_manifest_path(&b), "/m.json");
}

#[test]
fn wire_decisions_for_each_document_shape() {
    assert_eq!(workspace_step(false, None), Err(WireError::NoWorkspace));
    assert_eq!(workspace_step(true, None), Err(WireError::WorkspaceNotTable));
    assert_eq!(workspace_step(true, Some(false)), Ok(true));
    assert_eq!(workspace_step(true, Some(true)), Ok(false));
    assert_eq!(captrack_step(None), Err(WireError::DepsNotTable));
    assert_eq!(captrack_step(Some(false)), Ok(true));
    assert_eq!(captrack_step(Some(true)), Ok(false));
    assert_eq!(changed_text("a = 1\n", "a = 1\n".to_string()), None);
    assert_eq!(changed_text("a = 1\n", "a = 2\n".to_string()), Some("a = 2\n".to_string()));
}

#[test]
fn non_table_places_are_refused() {
    assert_eq!(patch_root_text("workspace = 3\n", &published()), Err(WireError::WorkspaceNotTable));
    assert_eq!(
        patch_root_text("[workspace]\ndependencies = 3\n", &published()),
        Err(WireError::DepsNotTable)
    );
    assert_eq!(patch_member_text("dependencies = 3\n"), Err(WireError::DepsNotTable));
    assert!(matches!(patch_member_text("[[[\n"), Err(WireError::Parse { .. })));
}

#[test]
fn member_patterns_of_plain_list() {
    let (members, exclude) = workspace_member_patterns(ROOT_MANIFEST).unwrap();
    assert_eq!(members, vec!["crates/a".to_string(), "crates/b".to_string()]);
    assert!(exclude.is_empty());
}

#[test]
fn member_patterns_with_glob_and_exclude() {
    let text = "[workspace]\nmembers = [\"crates/*\"]\nexclude = [\"crates/b\", 7]\nresolver = \"2\"\n";
    let (members, exclude) = workspace_member_patterns(text).unwrap();
    assert_eq!(members, vec!["crates/*".to_string()]);
    assert_eq!(exclude, vec!["crates/b".to_string()]);
}

#[test]
fn member_patterns_errors() {
    assert_eq!(workspace_member_patterns("[workspace]\nresolver = \"2\"\n"), Err(WireError::NoMembers));
    assert_eq!(workspace_member_patterns("[workspace]\nmembers = \"a\"\n"), Err(WireError::NoMembers));
    assert_eq!(workspace_member_patterns("[package]\nname = \"a\"\n"), Err(WireError::NoWorkspace));
    assert_eq!(workspace_member_patterns("workspace = 3\n"), Err(WireError::NoWorkspace));
    assert_eq!(workspace_member_patterns("[workspace]\nmembers = [\"a\", 1]\n"), Err(WireError::MemberNotString));
    assert!(matches!(workspace_member_patterns("[workspace"), Err(WireError::Parse { .. })));
}

#[test]
fn root_entry_follows_the_source() {
    let published_text = patch_root_text(ROOT_MANIFEST, &published()).unwrap().unwrap();
    assert!(published_text.contains("captrack = { version = \"0.1\", features = [\"telemetry\"] }"));
    assert!(!published_text.contains("path"));
    let local = patch_root_text(ROOT_MANIFEST, &wire_source(Some("/abs/c"))).unwrap().unwrap();
    assert!(local.contains("captrack = { path = \"/abs/c\", features = [\"telemetry\"] }"));
    assert!(!local.contains("version = \"0.1\""));
}

#[test]
fn patched_texts_read_back_as_wired() {
    let root = patch_root_text(ROOT_MANIFEST, &published()).unwrap().unwrap();
    assert_eq!(patch_root_text(&root, &published()), Ok(None));
    let member = patch_member_text(MEMBER_MANIFEST_NO_DEPS).unwrap().unwrap();
    assert!(member.contains("captrack = { workspace = true }"));
    assert_eq!(patch_member_text(&member), Ok(None));
}
