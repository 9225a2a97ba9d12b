use captrack::model::{CapExpr, Ctor, PatchEntry, PatchPlan, SiteKey};
use captrack::report::render_report;

fn k(file: &str, line: u32) -> SiteKey {
    SiteKey { file: file.to_string(), line, col: 1 }
}

#[test]
fn renders_empty_plan() {
    let plan = PatchPlan { entries: vec![], skipped: vec![] };
    let s = render_report(&plan);
    assert!(s.contains("no allocation sites matched"));
}

#[test]
fn renders_patch_with_from_to_and_reason() {
    let plan = PatchPlan {
        entries: vec![PatchEntry {
            key: k("a.rs", 10),
            ctor: Ctor::Vec,
            from: CapExpr::Zero,
            to: 64,
            span_bytes: 0..10,
            reason: "peak=60 p95=60 count=1000 → NextPow2".into(),
        }],
        skipped: vec![],
    };
    let s = render_report(&plan);
    assert!(s.contains("a.rs:10:1"));
    assert!(s.contains("Vec::new()"));
    assert!(s.contains("Vec::with_capacity(64)"));
    assert!(s.contains("→"));
    assert!(s.contains("peak=60"));
    assert!(s.ends_with("1 patch\n"));
}

#[test]
fn summary_categorises_skips() {
    let plan = PatchPlan {
        entries: vec![],
        skipped: vec![
            (k("a.rs", 1), "count=3 < 10 (low frequency, not statistically sound)".into()),
            (k("a.rs", 2), "current cap 128 already covers observed peak 64".into()),
            (k("a.rs", 3), "peak=0 (phantom site, no allocation observed)".into()),
        ],
    };
    let s = render_report(&plan);
    assert!(s.contains("0 patch"));
    assert!(s.contains("3 skip"));
    assert!(s.contains("1 low-count"));
    assert!(s.contains("1 sufficient"));
    assert!(s.contains("1 phantom"));
}

#[test]
fn renders_dynamic_cap_with_expression_text() {
    let plan = PatchPlan {
        entries: vec![PatchEntry {
            key: k("x.rs", 7),
            ctor: Ctor::HashMap,
            from: CapExpr::Dynamic("input.len()".into()),
            to: 128,
            span_bytes: 0..10,
            reason: "x".into(),
        }],
        skipped: vec![],
    };
    let s = render_report(&plan);
    assert!(s.contains("HashMap::with_capacity(input.len())"));
}
