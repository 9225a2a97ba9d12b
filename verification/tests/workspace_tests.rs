use captrack::workspace::{has_workspace_table, workspace_root_among};

#[test]
fn has_workspace_table_basic() {
    assert!(has_workspace_table("[workspace]\nmembers = []"));
    assert!(has_workspace_table("[package]\n[workspace]\n"));
    assert!(!has_workspace_table("[package]\nname = \"x\""));
    assert!(!has_workspace_table("# [workspace]\n[package]\n"));
}

#[test]
fn has_workspace_table_inline_comment_after_header() {
    assert!(has_workspace_table("[workspace] # with comment\nmembers=[]\n"));
}

#[test]
fn nearest_workspace_manifest_wins() {
    let bodies = vec![
        None,
        Some("[package]\nname=\"a\"\n".to_string()),
        Some("[workspace]\nmembers=[]\n".to_string()),
        Some("[workspace]\nmembers=[\"inner\"]\n".to_string()),
    ];
    assert_eq!(workspace_root_among(&bodies), Some(2));
    assert_eq!(workspace_root_among(&vec![None, Some("[package]\n".to_string())]), None);
}
