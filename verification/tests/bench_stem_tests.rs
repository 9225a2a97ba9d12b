use captrack::measure::is_bench_stem;

#[test]
fn bench_stem_matches_valid_hash_suffix() {
    assert!(is_bench_stem("tx_pipeline-a7f3c12d9e8b0011", "tx_pipeline"));
    assert!(is_bench_stem("my_bench-0000000000000000", "my_bench"));
}

#[test]
fn bench_stem_rejects_wrong_name() {
    assert!(!is_bench_stem("other_bench-a7f3c12d9e8b0011", "tx_pipeline"));
}

#[test]
fn bench_stem_rejects_no_hash() {
    assert!(!is_bench_stem("tx_pipeline", "tx_pipeline"));
    assert!(!is_bench_stem("tx_pipeline-", "tx_pipeline"));
}

#[test]
fn bench_stem_rejects_uppercase_hash() {
    assert!(!is_bench_stem("tx_pipeline-A7F3C12D9E8B0011", "tx_pipeline"));
}

#[test]
fn bench_stem_rejects_non_hex_suffix() {
    assert!(!is_bench_stem("tx_pipeline-gggggggggggggggg", "tx_pipeline"));
}

#[test]
fn bench_stem_handles_hyphenated_bench_name() {
    assert!(is_bench_stem("my-bench-name-a1b2c3d4e5f60000", "my-bench-name"));
    assert!(!is_bench_stem("my-bench-name-a1b2c3d4e5f60000", "my_bench_name"));
}

#[test]
fn bench_stem_rejects_partial_match() {
    assert!(!is_bench_stem("tx_pipeline_extra-a7f3c12d9e8b0011", "tx_pipeline"));
}
