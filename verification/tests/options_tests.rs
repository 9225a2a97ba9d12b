use captrack::autodump::{autodump_enabled, autodump_interval_ms, captrack_autodump_on_exit, captrack_autodump_ticker, default_dump_path};
use captrack::model::{CapFrom, CapRound};
use captrack::options::{parse_cap_from, parse_cap_round, parse_hasher, reverted_line, HasherChoice};

#[test]
fn hasher_values_are_case_insensitive_and_trimmed() {
    assert_eq!(parse_hasher("none"), Ok(HasherChoice::Unchanged));
    assert_eq!(parse_hasher(""), Ok(HasherChoice::Unchanged));
    assert_eq!(parse_hasher(" FX "), Ok(HasherChoice::Fx));
    assert_eq!(parse_hasher("AHash"), Ok(HasherChoice::AHash));
    assert_eq!(parse_hasher("foldhash"), Ok(HasherChoice::FoldHash));
    assert_eq!(parse_hasher("Siphash"), Err("siphash".to_string()));
}

#[test]
fn cap_from_and_round_values() {
    assert_eq!(parse_cap_from("max"), Ok(CapFrom::Max));
    assert_eq!(parse_cap_from("MEAN"), Ok(CapFrom::Mean));
    assert_eq!(parse_cap_from("median"), Ok(CapFrom::Median));
    assert_eq!(parse_cap_from("p95"), Ok(CapFrom::P95));
    assert_eq!(parse_cap_from(" P99"), Ok(CapFrom::P99));
    assert_eq!(parse_cap_from("p50"), Err("p50".to_string()));
    assert_eq!(parse_cap_round("pow2"), Ok(CapRound::Pow2));
    assert_eq!(parse_cap_round("To8"), Ok(CapRound::To8));
    assert_eq!(parse_cap_round("exact"), Ok(CapRound::Exact));
    assert_eq!(parse_cap_round("ceil"), Err("ceil".to_string()));
}

#[test]
fn revert_lines() {
    assert_eq!(reverted_line(1, "m.json"), "reverted 1 file from m.json");
    assert_eq!(reverted_line(2, "m.json"), "reverted 2 files from m.json");
}

#[test]
fn autodump_settings() {
    assert!(autodump_enabled(None));
    assert!(!autodump_enabled(Some(" OFF ")));
    assert!(!autodump_enabled(Some("0")));
    assert!(!autodump_enabled(Some("false")));
    assert!(!autodump_enabled(Some("no")));
    assert!(autodump_enabled(Some("1")));
    assert_eq!(autodump_interval_ms(None), 500);
    assert_eq!(autodump_interval_ms(Some(" 250 ")), 250);
    assert_eq!(autodump_interval_ms(Some("soon")), 500);
    assert_eq!(default_dump_path(None, Some("bench")), "target/captrack-pgo/profile-bench.json");
    assert_eq!(default_dump_path(Some("/d"), None), "/d/profile-unknown.json");
    assert_eq!(captrack_autodump_on_exit(Some("off"), None, None), None);
    assert_eq!(captrack_autodump_on_exit(None, Some("/d"), Some("x")), Some("/d/profile-x.json".to_string()));
    assert_eq!(captrack_autodump_ticker(None, Some("0")), None);
    assert_eq!(captrack_autodump_ticker(None, None), Some(500));
}
