use captrack::model::{AllocSite, CapExpr, Ctor, SiteKey, SiteStats, Unit};
use captrack::plan::build_plan;

fn key(file: &str, line: u32, col: u32) -> SiteKey {
    SiteKey { file: file.to_string(), line, col }
}

fn site_zero(file: &str, line: u32, col: u32) -> AllocSite {
    AllocSite { key: key(file, line, col), ctor: Ctor::Vec, current_cap: CapExpr::Zero, span_bytes: 100..110 }
}

fn site_literal(file: &str, line: u32, col: u32, n: usize) -> AllocSite {
    AllocSite { key: key(file, line, col), ctor: Ctor::Vec, current_cap: CapExpr::Literal(n), span_bytes: 100..110 }
}

fn stats(key: SiteKey, peak: usize, p95: usize, count: u64) -> SiteStats {
    SiteStats { key, unit: Unit::Elements, peak, p50: p95, p95, count, mean: None, p99: None, policy: None }
}

#[test]
fn match_produces_patch_for_zero_current() {
    let sites = vec![site_zero("a.rs", 1, 1)];
    let stat = vec![stats(key("a.rs", 1, 1), 60, 60, 1000)];
    let plan = build_plan(sites, stat);
    assert_eq!(plan.entries.len(), 1, "should have one patch");
    let e = &plan.entries[0];
    assert_eq!(e.to, 64);
    assert!(plan.skipped.is_empty());
}

#[test]
fn match_produces_skip_when_literal_is_sufficient() {
    let sites = vec![site_literal("a.rs", 5, 1, 128)];
    let stat = vec![stats(key("a.rs", 5, 1), 64, 64, 1000)];
    let plan = build_plan(sites, stat);
    assert!(plan.entries.is_empty(), "should produce no patches");
    assert_eq!(plan.skipped.len(), 1);
    assert!(plan.skipped[0].1.contains("already covers"));
}

#[test]
fn site_without_profile_data_is_silently_skipped() {
    let sites = vec![site_zero("a.rs", 1, 1)];
    let plan = build_plan(sites, Vec::new());
    assert!(plan.entries.is_empty());
    assert!(plan.skipped.is_empty(), "no profile data → silent skip");
}

#[test]
fn profile_without_ast_site_is_dropped_not_patched() {
    let sites: Vec<AllocSite> = Vec::new();
    let stat = vec![stats(key("ghost.rs", 1, 1), 100, 90, 1000)];
    let plan = build_plan(sites, stat);
    assert!(plan.entries.is_empty());
    assert!(plan.skipped.is_empty());
}

#[test]
fn multiple_sites_independent_decisions() {
    let sites = vec![site_zero("a.rs", 1, 1), site_literal("a.rs", 2, 1, 8), site_zero("b.rs", 3, 1)];
    let stat = vec![
        stats(key("a.rs", 1, 1), 60, 60, 1000),
        stats(key("a.rs", 2, 1), 100, 90, 1000),
        stats(key("b.rs", 3, 1), 3, 3, 1000),
    ];
    let plan = build_plan(sites, stat);
    assert_eq!(plan.entries.len(), 2);
    assert_eq!(plan.skipped.len(), 1);
    assert!(plan.entries.iter().all(|e| !e.span_bytes.is_empty()));
}

#[test]
fn patch_entry_carries_ctor_and_from() {
    let sites = vec![site_zero("a.rs", 1, 1)];
    let stat = vec![stats(key("a.rs", 1, 1), 60, 60, 1000)];
    let plan = build_plan(sites, stat);
    let e = &plan.entries[0];
    assert_eq!(e.ctor, Ctor::Vec);
    assert_eq!(e.from, CapExpr::Zero);
}
