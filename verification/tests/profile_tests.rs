use captrack::merge::DumpEntry;
use captrack::model::Unit;
use captrack::profile::captrack_sites;

/// The entries of the sample captrack dump: a hot site with ten samples and
/// a cold one whose instances were never released.
fn sample_dump() -> Vec<DumpEntry> {
    vec![
        DumpEntry {
            name: "engine/write_batch".to_string(),
            file: "crates/engine/src/write.rs".to_string(),
            line: 142,
            column: 17,
            creation_count: 1234,
            samples: vec![16, 32, 32, 64, 64, 64, 128, 128, 256, 1024],
        },
        DumpEntry {
            name: "engine/cold".to_string(),
            file: "crates/engine/src/cold.rs".to_string(),
            line: 7,
            column: 5,
            creation_count: 1,
            samples: vec![],
        },
    ]
}

#[test]
fn captrack_parses_sample_fixture() {
    let stats = captrack_sites(&sample_dump());
    assert_eq!(stats.len(), 2);

    let hot = stats.iter().find(|s| s.key.file == *"crates/engine/src/write.rs").expect("hot entry exists");
    assert_eq!(hot.unit, Unit::Elements);
    assert_eq!(hot.key.line, 142);
    assert_eq!(hot.key.col, 17);
    assert_eq!(hot.peak, 1024);
    assert_eq!(hot.count, 1234);
    assert_eq!(hot.p50, 64);
    assert_eq!(hot.p95, 1024);
    assert_eq!(hot.p99, Some(1024), "p99 must be Some for non-empty samples");
    let m = hot.mean.expect("mean must be Some for non-empty samples");
    let mean = m.sum as f64 / m.count as f64;
    assert!((mean - 180.8).abs() < 1e-9, "mean should be 180.8, got {:?}", hot.mean);
    assert_eq!(hot.policy, None, "policy is never set by the loader");

    let cold = stats.iter().find(|s| s.key.file == *"crates/engine/src/cold.rs").expect("cold entry exists");
    assert_eq!(cold.peak, 0);
    assert_eq!(cold.count, 1);
    assert_eq!(cold.mean, None, "mean must be None for empty samples");
    assert_eq!(cold.p99, None, "p99 must be None for empty samples");
}
