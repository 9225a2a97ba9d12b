use captrack::reservoir::{sample_cap, Reservoir, DEFAULT_CAP};

#[test]
fn reservoir_keeps_every_sample_until_full() {
    let mut r = Reservoir::new(4);
    r.record(1);
    r.record(2);
    r.record(3);
    assert_eq!(r.snapshot(), vec![1, 2, 3]);
    assert_eq!(r.total_observed(), 3);
}

#[test]
fn total_observed_matches_push_count() {
    const PUSHES: u64 = 50_000;
    let mut r = Reservoir::new(DEFAULT_CAP);
    for i in 0..PUSHES {
        r.record(i as usize);
    }
    assert_eq!(r.total_observed(), PUSHES, "total_observed must equal exact push count");
}

#[test]
fn full_reservoir_keeps_cap_offered_samples() {
    let mut r = Reservoir::new(8);
    for v in 0..1000usize {
        r.record(v);
    }
    assert_eq!(r.total_observed(), 1000);
    let snap = r.snapshot();
    assert_eq!(snap.len(), 8);
    assert!(snap.iter().all(|&v| v < 1000));
}

#[test]
fn record_with_draw_replaces_or_drops() {
    let mut r = Reservoir::new(2);
    r.record(5);
    r.record(6);
    r.record_with_draw(7, 1);
    assert_eq!(r.snapshot(), vec![5, 7]);
    r.record_with_draw(8, 3);
    assert_eq!(r.snapshot(), vec![5, 7]);
    assert_eq!(r.total_observed(), 4);
}

#[test]
fn zero_cap_keeps_nothing_but_counts() {
    let mut r = Reservoir::new(0);
    r.record(1);
    r.record(2);
    assert!(r.snapshot().is_empty());
    assert_eq!(r.total_observed(), 2);
}

#[test]
fn env_var_override_invariants() {
    const PUSHES: usize = 10_000;
    let mut r = Reservoir::new(sample_cap(None));
    for i in 0..PUSHES {
        r.record(i);
    }
    let snap = r.snapshot();
    let total = r.total_observed();
    assert!(snap.len() as u64 <= total, "snapshot len={} must be <= total_observed={}", snap.len(), total);
    assert_eq!(total, PUSHES as u64, "total_observed must equal push count");
}

#[test]
fn sample_cap_parses_the_override() {
    assert_eq!(sample_cap(None), DEFAULT_CAP);
    assert_eq!(sample_cap(Some("128")), 128);
    assert_eq!(sample_cap(Some("+16")), 16);
    assert_eq!(sample_cap(Some("0")), DEFAULT_CAP);
    assert_eq!(sample_cap(Some("abc")), DEFAULT_CAP);
    assert_eq!(sample_cap(Some("")), DEFAULT_CAP);
}

fn percentile(sorted: &[usize], p: u8) -> usize {
    let n = sorted.len();
    let rank = (p as u128 * n as u128).div_ceil(100) as usize;
    let idx = rank.saturating_sub(1).min(n - 1);
    sorted[idx]
}

#[test]
fn reservoir_preserves_percentiles_uniform() {
    const N: usize = 100_000;
    const RANGE: usize = 10_001;
    let mut r = Reservoir::new(DEFAULT_CAP);
    for i in 0..N {
        r.record(i % RANGE);
    }
    let full_p95 = RANGE * 95 / 100;
    let mut snap = r.snapshot();
    assert!(!snap.is_empty(), "reservoir must not be empty");
    snap.sort_unstable();
    let res_p95 = percentile(&snap, 95);
    let tolerance = (full_p95 as f64 * 0.05) as usize;
    assert!(
        res_p95.abs_diff(full_p95) <= tolerance,
        "reservoir p95={res_p95} must be within ±5% of full p95={full_p95} (tolerance={tolerance})"
    );
}

#[test]
fn reservoir_preserves_percentiles_bimodal() {
    const N: usize = 100_000;
    let mut r = Reservoir::new(DEFAULT_CAP);
    for i in 0..N {
        if i % 2 == 0 {
            r.record(100);
        } else {
            r.record(10_000);
        }
    }
    let snap = r.snapshot();
    assert!(!snap.is_empty(), "reservoir must not be empty");
    let has_low = snap.iter().any(|&v| v == 100);
    let has_high = snap.iter().any(|&v| v == 10_000);
    assert!(has_low, "reservoir must contain the low mode (100)");
    assert!(has_high, "reservoir must contain the high mode (10_000)");
    let low_count = snap.iter().filter(|&&v| v == 100).count();
    let high_count = snap.iter().filter(|&&v| v == 10_000).count();
    let total = snap.len();
    assert!(low_count >= total * 30 / 100, "low mode count={low_count} must be >=30% of total={total}");
    assert!(high_count >= total * 30 / 100, "high mode count={high_count} must be >=30% of total={total}");
}
