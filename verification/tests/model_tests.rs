use captrack::model::SiteKey;

#[test]
fn site_key_is_ord_for_btreemap_use() {
    let mut keys = [
        SiteKey { file: "b.rs".to_string(), line: 1, col: 1 },
        SiteKey { file: "a.rs".to_string(), line: 1, col: 1 },
        SiteKey { file: "a.rs".to_string(), line: 2, col: 1 },
    ];
    keys.sort();
    assert_eq!(keys[0].file, "a.rs");
    assert_eq!(keys[1].line, 2);
    assert_eq!(keys[2].file, "b.rs");
}
