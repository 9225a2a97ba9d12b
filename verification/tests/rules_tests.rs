use captrack::model::{CapExpr, SiteKey, SiteStats, Unit};
use captrack::rules::{propose_cap, Decision};

fn stats(peak: usize, p95: usize, count: u64, unit: Unit) -> SiteStats {
    SiteStats {
        key: SiteKey { file: "x.rs".into(), line: 1, col: 1 },
        unit,
        peak,
        p50: p95,
        p95,
        count,
        mean: None,
        p99: None,
        policy: None,
    }
}

#[test]
fn skips_low_count() {
    let d = propose_cap(&stats(64, 64, 5, Unit::Elements), &CapExpr::Zero);
    assert!(matches!(d, Decision::Skip { ref reason } if reason.contains("low frequency")));
}

#[test]
fn skips_phantom_site() {
    let d = propose_cap(&stats(0, 0, 1000, Unit::Elements), &CapExpr::Zero);
    assert!(matches!(d, Decision::Skip { reason } if reason.contains("phantom")));
}

#[test]
fn skips_dynamic_cap_expr() {
    let d = propose_cap(&stats(100, 80, 1000, Unit::Elements), &CapExpr::Dynamic("input.len()".into()));
    assert!(matches!(d, Decision::Skip { reason } if reason.contains("dynamic")));
}

#[test]
fn skips_when_current_literal_covers_peak() {
    let d = propose_cap(&stats(50, 50, 1000, Unit::Elements), &CapExpr::Literal(64));
    assert!(matches!(d, Decision::Skip { reason } if reason.contains("already covers")));
}

#[test]
fn patches_zero_current_when_peak_meaningful() {
    let d = propose_cap(&stats(60, 60, 1000, Unit::Elements), &CapExpr::Zero);
    assert!(matches!(d, Decision::Patch { to: 64, .. }));
}

#[test]
fn skips_zero_current_when_peak_tiny() {
    let d = propose_cap(&stats(3, 3, 1000, Unit::Elements), &CapExpr::Zero);
    assert!(matches!(d, Decision::Skip { reason } if reason.contains("variation")));
}

#[test]
fn patches_when_peak_exceeds_growth_factor() {
    let d = propose_cap(&stats(100, 90, 1000, Unit::Elements), &CapExpr::Literal(8));
    assert!(matches!(d, Decision::Patch { to: 128, .. }));
}

#[test]
fn skips_when_within_growth_factor() {
    let d = propose_cap(&stats(20, 18, 1000, Unit::Elements), &CapExpr::Literal(8));
    assert!(matches!(d, Decision::Skip { reason } if reason.contains("variation")));
}

#[test]
fn bytes_unit_tags_reason() {
    let d = propose_cap(&stats(4096, 4096, 1000, Unit::Bytes), &CapExpr::Zero);
    match d {
        Decision::Patch { reason, .. } => {
            assert!(reason.contains("bytes"));
            assert!(reason.contains("size_of"));
        },
        _ => panic!("expected Patch"),
    }
}
