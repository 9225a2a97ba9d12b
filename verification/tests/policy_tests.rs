use captrack::analyze::{analysis_fits, analyze_site_checked, policy_cap, policy_sources, PolicyOverride, SiteAnalysis, SiteShape};
use captrack::model::{CapFrom, CapRound, Mean, SiteKey, SiteStats, Unit};

fn stats(file: &str, p95: usize) -> SiteStats {
    SiteStats {
        key: SiteKey { file: file.to_string(), line: 1, col: 1 },
        unit: Unit::Elements,
        peak: p95,
        p50: p95,
        p95,
        count: 100,
        mean: None,
        p99: None,
        policy: None,
    }
}

#[test]
fn tight_site_gets_a_recommendation() {
    let samples = vec![100usize; 50];
    assert!(analysis_fits(&samples, &stats("a.rs", 100)));
    let a = analyze_site_checked(&samples, stats("a.rs", 100)).unwrap();
    assert_eq!(a.shape, SiteShape::UnimodalTight);
    assert!(a.recommended.is_some());
    assert_eq!(a.waste_delta_bytes, 0);
}

#[test]
fn overflowing_site_is_refused() {
    let samples = vec![100usize; 50];
    assert!(!analysis_fits(&samples, &stats("a.rs", usize::MAX)));
    assert!(analyze_site_checked(&samples, stats("a.rs", usize::MAX)).is_none());
}

#[test]
fn last_recommendation_for_a_site_wins() {
    let tight = vec![100usize; 50];
    let few = vec![1usize; 3];
    let a0: SiteAnalysis = analyze_site_checked(&tight, stats("a.rs", 100)).unwrap();
    let a1: SiteAnalysis = analyze_site_checked(&few, stats("b.rs", 1)).unwrap();
    let a2: SiteAnalysis = analyze_site_checked(&tight, stats("a.rs", 100)).unwrap();
    let keys = vec![
        SiteKey { file: "a.rs".into(), line: 1, col: 1 },
        SiteKey { file: "b.rs".into(), line: 1, col: 1 },
        SiteKey { file: "a.rs".into(), line: 1, col: 1 },
    ];
    let src = policy_sources(&vec![a0, a1, a2], &keys, 3);
    assert_eq!(src, vec![Some(2), None, Some(2)]);
    let src2 = policy_sources(&vec![], &keys, 2);
    assert_eq!(src2, vec![None, None]);
}

#[test]
fn mean_based_sizing_uses_the_exact_mean() {
    let mut st = stats("m.rs", 2);
    st.mean = Some(Mean { sum: 20004, count: 10000 });
    let p = PolicyOverride { cap_from: CapFrom::Mean, cap_mul: 1000, cap_round: CapRound::Exact, rationale: String::new() };
    assert_eq!(policy_cap(&p, &st, false), 3);
    assert_eq!(policy_cap(&p, &st, true), 2);
    let p15 = PolicyOverride { cap_from: CapFrom::Mean, cap_mul: 1500, cap_round: CapRound::Exact, rationale: String::new() };
    st.mean = Some(Mean { sum: 24, count: 10 });
    assert_eq!(policy_cap(&p15, &st, false), 4);
    st.mean = Some(Mean { sum: 20, count: 10 });
    assert_eq!(policy_cap(&p15, &st, false), 3);
}
