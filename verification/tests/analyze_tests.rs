use captrack::analyze::{classify, is_bimodal_histogram, recommend_policy, round_pow2, round_to8, SiteShape};
use captrack::model::{CapFrom, CapRound};

#[test]
fn classify_insufficient_data() {
    let samples: Vec<usize> = (0..29).collect();
    assert_eq!(classify(&samples), SiteShape::InsufficientData);
}

#[test]
fn classify_unimodal_tight() {
    let samples: Vec<usize> = (0..1000).map(|i| 99 + (i % 3)).collect();
    assert_eq!(classify(&samples), SiteShape::UnimodalTight);
}

#[test]
fn classify_unimodal_spread() {
    let samples: Vec<usize> = (0..1000).map(|i| i % 1001).collect();
    let shape = classify(&samples);
    assert!(
        matches!(shape, SiteShape::UnimodalSpread | SiteShape::Bimodal),
        "expected UnimodalSpread (or possibly Bimodal on edge), got {shape:?}"
    );
}

#[test]
fn classify_bimodal() {
    let mut samples = vec![100usize; 500];
    samples.extend(std::iter::repeat(10000).take(500));
    assert_eq!(classify(&samples), SiteShape::Bimodal);
}

#[test]
fn classify_heavy_tail() {
    let mut samples: Vec<usize> = vec![100usize; 980];
    samples.extend((0..20).map(|i| 3000 + i * 100));
    let shape = classify(&samples);
    assert!(
        matches!(shape, SiteShape::HeavyTail | SiteShape::UnimodalTight),
        "expected HeavyTail, got {shape:?}"
    );
}

#[test]
fn classify_mostly_zero() {
    let mut samples = vec![0usize; 600];
    samples.extend(std::iter::repeat(100usize).take(400));
    assert_eq!(classify(&samples), SiteShape::MostlyZero);
}

#[test]
fn round_pow2_correct() {
    assert_eq!(round_pow2(0), 0);
    assert_eq!(round_pow2(1), 1);
    assert_eq!(round_pow2(5), 8);
    assert_eq!(round_pow2(8), 8);
    assert_eq!(round_pow2(9), 16);
    assert_eq!(round_pow2(1024), 1024);
    assert_eq!(round_pow2(1025), 2048);
}

#[test]
fn round_to8_correct() {
    assert_eq!(round_to8(0), 0);
    assert_eq!(round_to8(1), 8);
    assert_eq!(round_to8(8), 8);
    assert_eq!(round_to8(9), 16);
}

#[test]
fn bimodal_not_triggered_for_uniform() {
    let samples: Vec<usize> = (0..1000).collect();
    let mut sorted = samples.clone();
    sorted.sort_unstable();
    assert!(!is_bimodal_histogram(&sorted, 0, 999));
}

#[test]
fn bimodal_triggered_for_two_clusters() {
    let mut samples = vec![10usize; 500];
    samples.extend(std::iter::repeat(990usize).take(500));
    let mut sorted = samples.clone();
    sorted.sort_unstable();
    assert!(is_bimodal_histogram(&sorted, 10, 990));
}

/// The multiplier of a recommendation, from thousandths.
fn mul(thousandths: u64) -> f64 {
    thousandths as f64 / 1000.0
}

#[test]
fn recommend_insufficient_data_is_none() {
    assert!(recommend_policy(SiteShape::InsufficientData, &[1, 2, 3]).is_none());
}

#[test]
fn recommend_unimodal_spread_is_none() {
    let samples: Vec<usize> = (1..=100).collect();
    assert!(recommend_policy(SiteShape::UnimodalSpread, &samples).is_none());
}

#[test]
fn recommend_unimodal_tight_uses_max() {
    let samples = vec![100usize; 50];
    let rec = recommend_policy(SiteShape::UnimodalTight, &samples).unwrap();
    assert_eq!(rec.cap_from, CapFrom::Max);
    assert!((mul(rec.cap_mul) - 1.0).abs() < f64::EPSILON);
    assert_eq!(rec.cap_round, CapRound::Pow2);
}

#[test]
fn recommend_bimodal_uses_median_x2() {
    let mut samples = vec![100usize; 500];
    samples.extend(std::iter::repeat(10000).take(500));
    let rec = recommend_policy(SiteShape::Bimodal, &samples).unwrap();
    assert_eq!(rec.cap_from, CapFrom::Median);
    assert!((mul(rec.cap_mul) - 2.0).abs() < f64::EPSILON);
}

#[test]
fn recommend_heavy_tail_uses_p95_half() {
    let mut samples = vec![100usize; 980];
    samples.extend((0..20).map(|i| 3000 + i * 100));
    let rec = recommend_policy(SiteShape::HeavyTail, &samples).unwrap();
    assert_eq!(rec.cap_from, CapFrom::P95);
    assert!((mul(rec.cap_mul) - 0.5).abs() < f64::EPSILON);
}

#[test]
fn recommend_mostly_zero_uses_p99() {
    let mut samples = vec![0usize; 600];
    samples.extend(std::iter::repeat(100usize).take(400));
    let rec = recommend_policy(SiteShape::MostlyZero, &samples).unwrap();
    assert_eq!(rec.cap_from, CapFrom::P99);
    assert!((mul(rec.cap_mul) - 1.0).abs() < f64::EPSILON);
}

#[test]
fn recommend_mostly_zero_all_zeros_uses_exact() {
    let samples = vec![0usize; 100];
    let rec = recommend_policy(SiteShape::MostlyZero, &samples).unwrap();
    assert_eq!(rec.cap_round, CapRound::Exact);
}

#[test]
fn classify_does_not_depend_on_sample_order() {
    let mut samples: Vec<usize> = vec![100; 50];
    samples.extend(vec![10000; 50]);
    let mut shuffled: Vec<usize> = Vec::new();
    for i in 0..50 {
        shuffled.push(10000);
        shuffled.push(samples[i]);
    }
    assert_eq!(classify(&samples), SiteShape::Bimodal);
    assert_eq!(classify(&shuffled), classify(&samples));
    let mut reversed = samples.clone();
    reversed.reverse();
    assert_eq!(classify(&reversed), classify(&samples));
}
