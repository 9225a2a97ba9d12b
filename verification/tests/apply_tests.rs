use captrack::apply::{file_write, group_plan, records_manifest, replacement_for};
use captrack::digest::hex_sha256;
use captrack::model::{CapExpr, Ctor, PatchEntry, PatchPlan, SiteKey};

fn make_entry(file: &str, line: u32, col: u32, ctor: Ctor, from: CapExpr, to: usize, span: std::ops::Range<usize>, reason: &str) -> PatchEntry {
    PatchEntry {
        key: SiteKey { file: file.to_string(), line, col },
        ctor,
        from,
        to,
        span_bytes: span,
        reason: reason.to_string(),
    }
}

#[test]
fn replacement_for_literal_substitutes_number_only() {
    let e = make_entry("x.rs", 1, 1, Ctor::Vec, CapExpr::Literal(0), 64, 0..1, "x");
    assert_eq!(replacement_for(&e), "64");
}

#[test]
fn replacement_for_zero_emits_with_capacity_call() {
    let e = make_entry("x.rs", 1, 1, Ctor::Vec, CapExpr::Zero, 32, 0..1, "x");
    assert_eq!(replacement_for(&e), "Vec::with_capacity(32)");
}

#[test]
fn replacement_for_hashmap_zero_uses_correct_type_name() {
    let e = make_entry("x.rs", 1, 1, Ctor::HashMap, CapExpr::Zero, 16, 0..1, "x");
    assert_eq!(replacement_for(&e), "HashMap::with_capacity(16)");
}

#[test]
fn replacement_for_vecdeque_zero() {
    let e = make_entry("x.rs", 1, 1, Ctor::VecDeque, CapExpr::Zero, 8, 0..1, "x");
    assert_eq!(replacement_for(&e), "VecDeque::with_capacity(8)");
}

#[test]
fn replacement_for_hashset_zero() {
    let e = make_entry("x.rs", 1, 1, Ctor::HashSet, CapExpr::Zero, 4, 0..1, "x");
    assert_eq!(replacement_for(&e), "HashSet::with_capacity(4)");
}

#[test]
fn replacement_for_btreemap_zero() {
    let e = make_entry("x.rs", 1, 1, Ctor::BTreeMap, CapExpr::Zero, 4, 0..1, "x");
    assert_eq!(replacement_for(&e), "BTreeMap::with_capacity(4)");
}

#[test]
fn replacement_for_btreeset_zero() {
    let e = make_entry("x.rs", 1, 1, Ctor::BTreeSet, CapExpr::Zero, 4, 0..1, "x");
    assert_eq!(replacement_for(&e), "BTreeSet::with_capacity(4)");
}

#[test]
fn dynamic_cap_in_plan_is_internal_error() {
    let plan = PatchPlan {
        entries: vec![make_entry("src.rs", 1, 1, Ctor::Vec, CapExpr::Dynamic("input.len()".into()), 64, 0..1, "x")],
        skipped: vec![],
    };
    match group_plan(&plan, "/tmp/ws") {
        Err(err) => assert!(format!("{err:?}").contains("Dynamic")),
        Ok(_) => panic!("a Dynamic entry must be refused"),
    }
}

#[test]
fn sha256_is_deterministic_and_correct_length() {
    let data = b"hello world";
    assert_eq!(hex_sha256(data), hex_sha256(data));
    assert_ne!(hex_sha256(data), hex_sha256(b"different"));
    assert_eq!(hex_sha256(data).len(), 64);
    assert!(hex_sha256(data).chars().all(|c| c.is_ascii_hexdigit()));
}

#[test]
fn dry_run_writes_nothing() {
    assert_eq!(file_write(true, vec![1, 2, 3]), None);
    assert_eq!(file_write(false, vec![1, 2, 3]), Some(vec![1, 2, 3]));
    assert!(!records_manifest(true, 4));
    assert!(records_manifest(false, 4));
    assert!(!records_manifest(false, 0));
}
