use captrack::profile::{entry_to_site_stats, CaptrackProfile, DhatProfile};
use captrack::merge::DumpEntry;
use captrack::model::{Mean, Unit};
use captrack::stats::SampleStats;

#[test]
fn empty_is_none() {
    assert!(SampleStats::from_samples(&[]).is_none());
}

#[test]
fn single_sample() {
    let s = SampleStats::from_samples(&[42]).unwrap();
    assert_eq!(s.count, 1);
    assert_eq!(s.min, 42);
    assert_eq!(s.max, 42);
    assert_eq!(s.mean_thousandths(), 42_000);
    assert_eq!(s.median, 42);
    assert_eq!(s.p99, 42);
}

#[test]
fn unsorted_input_gets_sorted() {
    let s = SampleStats::from_samples(&[3, 1, 4, 1, 5, 9, 2, 6, 5, 3]).unwrap();
    assert_eq!(s.count, 10);
    assert_eq!(s.min, 1);
    assert_eq!(s.max, 9);
}

#[test]
fn percentiles_nearest_rank() {
    let samples: Vec<usize> = (1..=100).collect();
    let s = SampleStats::from_samples(&samples).unwrap();
    assert_eq!(s.median, 50);
    assert_eq!(s.p90, 90);
    assert_eq!(s.p95, 95);
    assert_eq!(s.p99, 99);
    assert_eq!(s.max, 100);
}

#[test]
fn from_sorted_samples_skips_sort() {
    let sorted = [1, 2, 3, 4, 5, 6, 7, 8, 9, 10];
    let s = SampleStats::from_sorted_samples(&sorted);
    assert_eq!(s.median, 5);
    assert_eq!(s.max, 10);
}

#[test]
fn outliers_drive_max_not_median() {
    let mut samples = vec![64usize; 99];
    samples.push(100_000);
    let s = SampleStats::from_samples(&samples).unwrap();
    assert_eq!(s.median, 64);
    assert_eq!(s.p95, 64);
    assert_eq!(s.p99, 64);
    assert_eq!(s.max, 100_000);
}

#[test]
fn known_mean() {
    let s = SampleStats::from_samples(&[2, 4, 4, 4, 5, 5, 7, 9]).unwrap();
    assert_eq!(s.mean_thousandths(), 5_000);
    assert_eq!(s.sum, 40);
    assert_eq!(s.min, 2);
    assert_eq!(s.max, 9);
    assert_eq!(s.median, 4);
}

#[test]
fn parses_sample_fixture() {
    let hot = DumpEntry {
        name: "engine/write_batch".into(),
        file: "crates/engine/src/write.rs".into(),
        line: 142,
        column: 17,
        creation_count: 1234,
        samples: vec![16, 32, 32, 64, 64, 64, 128, 128, 256, 1024],
    };
    let st = entry_to_site_stats(&hot);
    assert_eq!(st.unit, Unit::Elements);
    assert_eq!(st.key.line, 142);
    assert_eq!(st.key.col, 17);
    assert_eq!(st.peak, 1024);
    assert_eq!(st.count, 1234);
    assert_eq!(st.p50, 64);
    assert_eq!(st.p95, 1024);
    assert_eq!(st.p99, Some(1024));
    assert_eq!(st.mean, Some(Mean { sum: 1808, count: 10 }));
    assert_eq!(st.policy, None);

    let cold = DumpEntry {
        name: "engine/cold".into(),
        file: "crates/engine/src/cold.rs".into(),
        line: 1,
        column: 1,
        creation_count: 1,
        samples: vec![],
    };
    let st = entry_to_site_stats(&cold);
    assert_eq!(st.peak, 0);
    assert_eq!(st.count, 1);
    assert_eq!(st.mean, None);
    assert_eq!(st.p99, None);
}

#[test]
fn profiles_remember_their_files() {
    assert_eq!(CaptrackProfile::new("p.json").file(), "p.json");
    let d = DhatProfile::new("dhat-heap.json", "/ws");
    assert_eq!(d.file(), "dhat-heap.json");
    assert_eq!(d.workspace_root(), "/ws");
}
